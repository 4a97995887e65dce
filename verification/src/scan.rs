//! Finds the classes and functions of a source file line by line, for the
//! languages other than Rust.
//!
//! A line that declares a class or a function opens an item; the item runs
//! to the line that closes its braces (or, in Python and Ruby, to the end of
//! its indented block). Members are looked for inside classes only; the body
//! of a function holds no items. A class's text leaves out its members, so
//! that editing a method changes the method and not the class. The comment
//! lines just before a class or function (its doc comment) belong to that
//! item's text.
use vstd::prelude::*;
use crate::ast::{CodeItem, CodeItemKind, CodeItemView, items_view, lemma_items_view_push};
use crate::lang::Language;
use crate::text::{LineInfo, LineV, Tok, TokV, lines_v, infos_view, line_infos, chars_of, string_from_chars, word_is, toks_view, lines_of, total_len};

verus! {

// ---------------------------------------------------------------- tokens

/// The word at position `p` of `t`, if there is one.
pub open spec fn word_at(t: Seq<TokV>, p: int) -> Option<Seq<char>> {
    if 0 <= p < t.len() {
        match t[p] {
            TokV::Word(w) => Some(w),
            TokV::Punct(_) => None,
        }
    } else {
        None
    }
}

/// Whether position `p` of `t` holds the punctuation `c`.
pub open spec fn punct_at(t: Seq<TokV>, p: int, c: char) -> bool {
    0 <= p < t.len() && t[p] == TokV::Punct(c as u32)
}

/// The first position at or after `p` that holds the punctuation `c`.
pub open spec fn find_punct(t: Seq<TokV>, p: int, c: char) -> Option<int>
    decreases t.len() - p,
{
    if p < 0 || p >= t.len() {
        None
    } else if t[p] == TokV::Punct(c as u32) {
        Some(p)
    } else {
        find_punct(t, p + 1, c)
    }
}

/// Whether an arrow `=>` occurs at or after position `p`.
pub open spec fn arrow_from(t: Seq<TokV>, p: int) -> bool
    decreases t.len() - p,
{
    if p < 0 || p + 1 >= t.len() {
        false
    } else if t[p] == TokV::Punct('=' as u32) && t[p + 1] == TokV::Punct('>' as u32) {
        true
    } else {
        arrow_from(t, p + 1)
    }
}

/// Words that may precede a declaration without changing what it declares.
pub open spec fn is_modifier(w: Seq<char>) -> bool {
    w == "public"@ || w == "private"@ || w == "protected"@ || w == "internal"@ || w == "static"@
        || w == "abstract"@ || w == "final"@ || w == "sealed"@ || w == "partial"@ || w
        == "export"@ || w == "default"@ || w == "async"@ || w == "open"@ || w == "override"@
        || w == "virtual"@ || w == "readonly"@ || w == "unsafe"@ || w == "extern"@ || w
        == "inline"@ || w == "data"@ || w == "mutating"@ || w == "fileprivate"@ || w
        == "declare"@ || w == "synchronized"@ || w == "native"@
}

/// Words of statements and expressions that a call-like line may start
/// with, or that may stand before a `(` without naming a function.
pub open spec fn is_control(w: Seq<char>) -> bool {
    w == "if"@ || w == "for"@ || w == "while"@ || w == "switch"@ || w == "catch"@ || w
        == "return"@ || w == "sizeof"@ || w == "new"@ || w == "else"@ || w == "do"@ || w
        == "using"@ || w == "lock"@ || w == "foreach"@ || w == "typeof"@ || w == "await"@ || w
        == "throw"@ || w == "function"@ || w == "super"@ || w == "this"@ || w == "elif"@ || w
        == "when"@ || w == "match"@ || w == "case"@ || w == "delete"@ || w == "yield"@ || w
        == "assert"@
}

/// The words that open a class-like declaration in `lang`.
pub open spec fn is_class_kw(lang: Language, w: Seq<char>) -> bool {
    match lang {
        Language::Python => w == "class"@,
        Language::Ruby => w == "class"@,
        Language::JavaScript => w == "class"@,
        Language::TypeScript => w == "class"@ || w == "interface"@ || w == "enum"@,
        Language::Java => w == "class"@ || w == "interface"@ || w == "enum"@ || w == "record"@,
        Language::CSharp => w == "class"@ || w == "interface"@ || w == "struct"@ || w == "enum"@
            || w == "record"@,
        Language::Cpp => w == "class"@ || w == "struct"@ || w == "union"@ || w == "enum"@,
        Language::Php => w == "class"@ || w == "interface"@ || w == "trait"@ || w == "enum"@,
        Language::Swift => w == "class"@ || w == "struct"@ || w == "enum"@ || w == "protocol"@
            || w == "actor"@,
        Language::Kotlin => w == "class"@ || w == "interface"@ || w == "object"@ || w == "enum"@,
        _ => false,
    }
}

/// The words that open a namespace-like block, whose content is scanned as
/// if it stood at the top of the file.
pub open spec fn is_container_kw(lang: Language, w: Seq<char>) -> bool {
    match lang {
        Language::CSharp | Language::Cpp | Language::TypeScript | Language::Php => w
            == "namespace"@,
        Language::Ruby => w == "module"@,
        _ => false,
    }
}

/// The first position at or after `p` that is not a modifier or an
/// annotation (`@` and a word).
pub open spec fn skip_mods(t: Seq<TokV>, p: int) -> int
    decreases t.len() - p,
{
    if p < 0 || p >= t.len() {
        p
    } else {
        match t[p] {
            TokV::Word(w) => if is_modifier(w) {
                skip_mods(t, p + 1)
            } else {
                p
            },
            TokV::Punct(c) => if c == '@' as u32 && word_at(t, p + 1) is Some {
                skip_mods(t, p + 2)
            } else {
                p
            },
        }
    }
}

pub open spec fn ends_with_semi(text: Seq<char>) -> bool {
    text.len() > 0 && text.last() == ';'
}

pub open spec fn starts_with_brace(text: Seq<char>) -> bool {
    text.len() > 0 && text[0] == '{'
}

// ---------------------------------------------------------------- headers

/// The name of the class that a line declares, if it declares one.
pub open spec fn class_header(lang: Language, t: Seq<TokV>, text: Seq<char>) -> Option<Seq<char>> {
    let p = skip_mods(t, 0);
    if ends_with_semi(text) {
        None
    } else if lang == Language::Go {
        if word_at(t, p) == Some("type"@) && word_at(t, p + 1) is Some && (word_at(t, p + 2)
            == Some("struct"@) || word_at(t, p + 2) == Some("interface"@)) {
            word_at(t, p + 1)
        } else {
            None
        }
    } else {
        match word_at(t, p) {
            Some(k) => if is_class_kw(lang, k) {
                let q = if word_at(t, p + 1) == Some("class"@) || word_at(t, p + 1) == Some(
                    "struct"@,
                ) {
                    p + 2
                } else {
                    p + 1
                };
                word_at(t, q)
            } else {
                None
            },
            None => None,
        }
    }
}

/// Whether a line opens a namespace-like block.
pub open spec fn container_header(lang: Language, t: Seq<TokV>, text: Seq<char>) -> bool {
    let p = skip_mods(t, 0);
    !ends_with_semi(text) && match word_at(t, p) {
        Some(k) => is_container_kw(lang, k) && word_at(t, p + 1) is Some,
        None => false,
    }
}

pub open spec fn name_after(t: Seq<TokV>, q: int) -> Option<(Seq<char>, Option<Seq<char>>)> {
    match word_at(t, q) {
        Some(n) => Some((n, None)),
        None => None,
    }
}

/// A Go method `func (r *Recv) Name(..)`: its name and receiver type.
pub open spec fn go_method(t: Seq<TokV>, p: int) -> Option<(Seq<char>, Option<Seq<char>>)> {
    match find_punct(t, p + 2, ')') {
        Some(r) => match (word_at(t, r - 1), word_at(t, r + 1)) {
            (Some(recv), Some(n)) => Some((n, Some(recv))),
            _ => None,
        },
        None => None,
    }
}

/// Whether no `=` comes before position `f`, looking from `p`.
pub open spec fn no_assign_before(t: Seq<TokV>, p: int, f: int) -> bool {
    match find_punct(t, p, '=') {
        Some(q) => q > f,
        None => true,
    }
}

/// The type that a C++ definition `Type::name(..)` names before its `::`.
pub open spec fn scope_parent(lang: Language, t: Seq<TokV>, p: int, f: int) -> Option<Seq<char>> {
    if lang == Language::Cpp && f - 4 >= p && punct_at(t, f - 2, ':') && punct_at(t, f - 3, ':') {
        word_at(t, f - 4)
    } else {
        None
    }
}

/// A C-family method or function with a body: a word directly before the
/// line's first `(`, no `=` before it, and no `;` at the end of the line.
pub open spec fn generic_func(lang: Language, t: Seq<TokV>, text: Seq<char>) -> Option<
    (Seq<char>, Option<Seq<char>>),
> {
    let p = skip_mods(t, 0);
    match (word_at(t, p), find_punct(t, p, '(')) {
        (Some(first), Some(f)) => if f >= p + 1 && !ends_with_semi(text) && !is_control(first)
            && no_assign_before(t, p, f) {
            match word_at(t, f - 1) {
                Some(name) => if is_control(name) {
                    None
                } else {
                    Some((name, scope_parent(lang, t, p, f)))
                },
                None => None,
            }
        } else {
            None
        },
        _ => None,
    }
}

pub open spec fn is_var_kw(w: Option<Seq<char>>) -> bool {
    w == Some("const"@) || w == Some("let"@) || w == Some("var"@)
}

/// The name of the function that a line declares (and the type it belongs
/// to, where the line itself says so), if it declares one.
pub open spec fn func_header(lang: Language, t: Seq<TokV>, text: Seq<char>, in_class: bool) -> Option<
    (Seq<char>, Option<Seq<char>>),
> {
    let p = skip_mods(t, 0);
    let kw = word_at(t, p);
    match lang {
        Language::Python => if kw == Some("def"@) {
            name_after(t, p + 1)
        } else {
            None
        },
        Language::Ruby => if kw == Some("def"@) {
            if word_at(t, p + 1) == Some("self"@) && punct_at(t, p + 2, '.') {
                name_after(t, p + 3)
            } else {
                name_after(t, p + 1)
            }
        } else {
            None
        },
        Language::Go => if kw == Some("func"@) {
            if punct_at(t, p + 1, '(') {
                go_method(t, p)
            } else {
                name_after(t, p + 1)
            }
        } else {
            None
        },
        Language::Swift => if kw == Some("func"@) {
            name_after(t, p + 1)
        } else if in_class && kw == Some("init"@) && punct_at(t, p + 1, '(') {
            Some(("init"@, None))
        } else {
            None
        },
        Language::Kotlin => if kw == Some("fun"@) {
            name_after(t, p + 1)
        } else {
            None
        },
        Language::Php => if kw == Some("function"@) {
            name_after(t, p + 1)
        } else {
            None
        },
        Language::JavaScript | Language::TypeScript => if kw == Some("function"@) {
            name_after(t, p + 1)
        } else if is_var_kw(kw) && word_at(t, p + 1) is Some && punct_at(t, p + 2, '=') && (
        arrow_from(t, p + 3) || word_at(t, p + 3) == Some("function"@)) {
            name_after(t, p + 1)
        } else if in_class {
            generic_func(lang, t, text)
        } else {
            None
        },
        Language::Java | Language::CSharp | Language::Cpp => generic_func(lang, t, text),
        _ => None,
    }
}

/// What a line declares.
pub enum HeaderV {
    Class(Seq<char>),
    Func(Seq<char>, Option<Seq<char>>),
    Container,
    Plain,
}

pub open spec fn blank(l: LineV) -> bool {
    l.text.len() == 0
}

/// What line `l` declares in `lang`, inside a class body or not.
pub open spec fn header(lang: Language, l: LineV, in_class: bool) -> HeaderV {
    if lang == Language::Rust || lang == Language::Unknown || blank(l) {
        HeaderV::Plain
    } else {
        match class_header(lang, l.toks, l.text) {
            Some(n) => HeaderV::Class(n),
            None => if !in_class && container_header(lang, l.toks, l.text) {
                HeaderV::Container
            } else {
                match func_header(lang, l.toks, l.text, in_class) {
                    Some(r) => HeaderV::Func(r.0, r.1),
                    None => HeaderV::Plain,
                }
            },
        }
    }
}

// ---------------------------------------------------------------- regions

/// Brace depth before line `k`.
pub open spec fn depth(ls: Seq<LineV>, k: int) -> int
    decreases k,
{
    if k <= 0 || k > ls.len() {
        0
    } else {
        depth(ls, k - 1) + ls[k - 1].opens - ls[k - 1].closes
    }
}

/// The first line at or after `k` after which the depth is back to `base`
/// or below; the last line (`hi - 1`) when there is none.
pub open spec fn close_from(ls: Seq<LineV>, base: int, k: int, hi: int) -> int
    decreases hi - k,
{
    if k >= hi - 1 {
        hi - 1
    } else if depth(ls, k + 1) <= base {
        k
    } else {
        close_from(ls, base, k + 1, hi)
    }
}

/// Last line of the braced item that starts at line `i`: it ends where its
/// braces close; a header whose block opens on the next line (`{` alone)
/// reaches over that block; otherwise the item is the one line.
pub open spec fn brace_end(ls: Seq<LineV>, i: int, hi: int) -> int {
    if ls[i].opens > 0 {
        close_from(ls, depth(ls, i), i, hi)
    } else if i + 1 < hi && starts_with_brace(ls[i + 1].text) && !ends_with_semi(ls[i].text) {
        close_from(ls, depth(ls, i), i + 1, hi)
    } else {
        i
    }
}

/// The first line at or after `j` (before `hi`) that is neither blank nor
/// indented deeper than line `i`.
pub open spec fn indent_run(ls: Seq<LineV>, i: int, j: int, hi: int) -> int
    decreases hi - j,
{
    if j >= hi {
        hi
    } else if blank(ls[j]) || ls[j].indent > ls[i].indent {
        indent_run(ls, i, j + 1, hi)
    } else {
        j
    }
}

/// The last line before `j` that is not blank, or `i`.
pub open spec fn last_nonblank(ls: Seq<LineV>, i: int, j: int) -> int
    decreases j - i,
{
    if j <= i + 1 {
        i
    } else if !blank(ls[j - 1]) {
        j - 1
    } else {
        last_nonblank(ls, i, j - 1)
    }
}

/// Last line of the indented item that starts at line `i`: its deeper
/// indented lines, and in Ruby the `end` that closes it.
pub open spec fn indent_end(lang: Language, ls: Seq<LineV>, i: int, hi: int) -> int {
    let j = indent_run(ls, i, i + 1, hi);
    if lang == Language::Ruby && j < hi && ls[j].indent == ls[i].indent && ls[j].text == "end"@ {
        j
    } else {
        last_nonblank(ls, i, j)
    }
}

pub open spec fn is_indent_lang(lang: Language) -> bool {
    lang == Language::Python || lang == Language::Ruby
}

/// Last line of the item that starts at line `i`, within lines `..hi`.
pub open spec fn item_end(lang: Language, ls: Seq<LineV>, i: int, hi: int) -> int {
    let e = if is_indent_lang(lang) {
        indent_end(lang, ls, i, hi)
    } else {
        brace_end(ls, i, hi)
    };
    if e < i {
        i
    } else if e > hi - 1 {
        hi - 1
    } else {
        e
    }
}

// ---------------------------------------------------------------- texts

/// A line's contribution to an item's text: its trimmed text and a newline;
/// nothing for a blank line.
pub open spec fn line_text(l: LineV) -> Seq<char> {
    if blank(l) {
        Seq::<char>::empty()
    } else {
        l.text.push('\n')
    }
}

/// The text of lines `lo..hi`.
pub open spec fn region_text(ls: Seq<LineV>, lo: int, hi: int) -> Seq<char>
    decreases hi - lo,
{
    if lo >= hi || lo < 0 || hi > ls.len() {
        Seq::<char>::empty()
    } else {
        line_text(ls[lo]) + region_text(ls, lo + 1, hi)
    }
}

/// Whether line `l` is a comment in `lang`: it starts with `#` in Python
/// and Ruby; with `//`, `/*` or `*` (the inside of a block comment) in the
/// brace languages, and also with `#` in PHP.
pub open spec fn is_comment(lang: Language, l: LineV) -> bool {
    let t = l.text;
    if lang == Language::Rust || lang == Language::Unknown || t.len() == 0 {
        false
    } else if is_indent_lang(lang) {
        t[0] == '#'
    } else {
        t[0] == '*' || (lang == Language::Php && t[0] == '#') || (t.len() > 1 && t[0] == '/' && (
        t[1] == '/' || t[1] == '*'))
    }
}

/// The first line at or after `lo` (before `hi`) that is not a comment;
/// `hi` when there is none. The comments from `lo` up to it lead into that
/// line: the comments just before a class or function are its doc comments.
pub open spec fn doc_end(lang: Language, ls: Seq<LineV>, lo: int, hi: int) -> int
    decreases hi - lo,
{
    if lo >= hi || lo < 0 || hi > ls.len() {
        hi
    } else if is_comment(lang, ls[lo]) {
        doc_end(lang, ls, lo + 1, hi)
    } else {
        lo
    }
}

pub proof fn lemma_doc_end_bounds(lang: Language, ls: Seq<LineV>, lo: int, hi: int)
    requires
        0 <= lo <= hi <= ls.len(),
    ensures
        lo <= doc_end(lang, ls, lo, hi) <= hi,
        doc_end(lang, ls, lo, hi) < hi ==> !is_comment(lang, ls[doc_end(lang, ls, lo, hi)]),
    decreases hi - lo,
{
    if lo < hi && is_comment(lang, ls[lo]) {
        lemma_doc_end_bounds(lang, ls, lo + 1, hi);
    }
}

/// The text of lines `lo..hi` of a class body that its members do not
/// take: a member takes its own lines and the comments just before it.
pub open spec fn own_text(lang: Language, ls: Seq<LineV>, lo: int, hi: int) -> Seq<char>
    decreases hi - lo,
{
    if lo >= hi || lo < 0 || hi > ls.len() {
        Seq::<char>::empty()
    } else {
        let k = doc_end(lang, ls, lo, hi);
        proof {
            lemma_doc_end_bounds(lang, ls, lo, hi);
        }
        if k >= hi {
            region_text(ls, lo, hi)
        } else {
            let e = item_end(lang, ls, k, hi);
            match header(lang, ls[k], true) {
                HeaderV::Class(_) => own_text(lang, ls, e + 1, hi),
                HeaderV::Func(_, _) => own_text(lang, ls, e + 1, hi),
                _ => region_text(ls, lo, k + 1) + own_text(lang, ls, k + 1, hi),
            }
        }
    }
}

// ---------------------------------------------------------------- items

pub open spec fn class_item(name: Seq<char>, lo: int, tokens: Seq<char>) -> CodeItemView {
    CodeItemView {
        name,
        kind: CodeItemKind::Class,
        line: Some((lo + 1) as usize),
        tokens,
        parent: None,
    }
}

pub open spec fn func_item(name: Seq<char>, lo: int, tokens: Seq<char>, parent: Option<Seq<char>>) -> CodeItemView {
    CodeItemView {
        name,
        kind: CodeItemKind::Function,
        line: Some((lo + 1) as usize),
        tokens,
        parent,
    }
}

/// The items of lines `lo..hi`, in order of their first line; a class is
/// followed by its members, whose parent is the class. `parent` is the
/// class whose body these lines are, if any. The comments just before a
/// class or function begin its text; the item's line is that of its
/// declaration.
pub open spec fn scan(lang: Language, ls: Seq<LineV>, lo: int, hi: int, parent: Option<Seq<char>>) -> Seq<
    CodeItemView,
>
    decreases hi - lo,
{
    if lo >= hi || lo < 0 || hi > ls.len() {
        Seq::<CodeItemView>::empty()
    } else {
        let k = doc_end(lang, ls, lo, hi);
        proof {
            lemma_doc_end_bounds(lang, ls, lo, hi);
        }
        if k >= hi {
            Seq::<CodeItemView>::empty()
        } else {
            let e = item_end(lang, ls, k, hi);
            match header(lang, ls[k], parent is Some) {
                HeaderV::Class(name) => seq![
                    class_item(
                        name,
                        k,
                        region_text(ls, lo, k) + line_text(ls[k]) + own_text(lang, ls, k + 1, e + 1),
                    ),
                ] + scan(lang, ls, k + 1, e + 1, Some(name)) + scan(lang, ls, e + 1, hi, parent),
                HeaderV::Func(name, p) => seq![
                    func_item(
                        name,
                        k,
                        region_text(ls, lo, e + 1),
                        if p is Some {
                            p
                        } else {
                            parent
                        },
                    ),
                ] + scan(lang, ls, e + 1, hi, parent),
                HeaderV::Container => scan(lang, ls, k + 1, e + 1, parent) + scan(
                    lang,
                    ls,
                    e + 1,
                    hi,
                    parent,
                ),
                HeaderV::Plain => scan(lang, ls, k + 1, hi, parent),
            }
        }
    }
}

proof fn lemma_type_keyword_facts(kw: Seq<char>)
    requires
        kw == "class"@ || kw == "interface"@ || kw == "enum"@ || kw == "record"@ || kw == "struct"@ || kw == "union"@ || kw == "trait"@ || kw == "protocol"@ || kw == "actor"@ || kw == "object"@,
    ensures
        !is_modifier(kw),
        kw.len() > 0,
        kw[0] != '#' && kw[0] != '/' && kw[0] != '*' && kw[0] != '@',
{
    reveal_strlit("public");
    reveal_strlit("private");
    reveal_strlit("protected");
    reveal_strlit("internal");
    reveal_strlit("static");
    reveal_strlit("abstract");
    reveal_strlit("final");
    reveal_strlit("sealed");
    reveal_strlit("partial");
    reveal_strlit("export");
    reveal_strlit("default");
    reveal_strlit("async");
    reveal_strlit("open");
    reveal_strlit("override");
    reveal_strlit("virtual");
    reveal_strlit("readonly");
    reveal_strlit("unsafe");
    reveal_strlit("extern");
    reveal_strlit("inline");
    reveal_strlit("data");
    reveal_strlit("mutating");
    reveal_strlit("fileprivate");
    reveal_strlit("declare");
    reveal_strlit("synchronized");
    reveal_strlit("native");
    reveal_strlit("class");
    reveal_strlit("interface");
    reveal_strlit("enum");
    reveal_strlit("record");
    reveal_strlit("struct");
    reveal_strlit("union");
    reveal_strlit("trait");
    reveal_strlit("protocol");
    reveal_strlit("actor");
    reveal_strlit("object");
    if kw == "class"@ {
        assert(kw =~= seq!['c', 'l', 'a', 's', 's']);
    }
    if kw == "interface"@ {
        assert(kw =~= seq!['i', 'n', 't', 'e', 'r', 'f', 'a', 'c', 'e']);
    }
    if kw == "enum"@ {
        assert(kw =~= seq!['e', 'n', 'u', 'm']);
    }
    if kw == "record"@ {
        assert(kw =~= seq!['r', 'e', 'c', 'o', 'r', 'd']);
    }
    if kw == "struct"@ {
        assert(kw =~= seq!['s', 't', 'r', 'u', 'c', 't']);
    }
    if kw == "union"@ {
        assert(kw =~= seq!['u', 'n', 'i', 'o', 'n']);
    }
    if kw == "trait"@ {
        assert(kw =~= seq!['t', 'r', 'a', 'i', 't']);
    }
    if kw == "protocol"@ {
        assert(kw =~= seq!['p', 'r', 'o', 't', 'o', 'c', 'o', 'l']);
    }
    if kw == "actor"@ {
        assert(kw =~= seq!['a', 'c', 't', 'o', 'r']);
    }
    if kw == "object"@ {
        assert(kw =~= seq!['o', 'b', 'j', 'e', 'c', 't']);
    }
}

/// A line that begins with a type keyword of its language (`class`,
/// `interface`, `enum`, `record`, `struct`, `trait`, ..., as each language
/// has them) followed by a name `n`, and does not end with `;`, declares a
/// class named `n`: scanning from that line, the first item found is that
/// class, on that line.
pub proof fn lemma_type_keyword_declares_class(
    lang: Language,
    ls: Seq<LineV>,
    lo: int,
    hi: int,
    parent: Option<Seq<char>>,
    kw: Seq<char>,
    n: Seq<char>,
)
    requires
        0 <= lo < hi <= ls.len(),
        (lang == Language::Python && kw == "class"@) || (lang == Language::Ruby && kw == "class"@) || (
        lang == Language::JavaScript && kw == "class"@) || (lang == Language::TypeScript && (kw
            == "class"@ || kw == "interface"@ || kw == "enum"@)) || (lang == Language::Java && (kw
            == "class"@ || kw == "interface"@ || kw == "enum"@ || kw == "record"@)) || (lang
            == Language::CSharp && (kw == "class"@ || kw == "interface"@ || kw == "struct"@ || kw
            == "enum"@ || kw == "record"@)) || (lang == Language::Cpp && (kw == "class"@ || kw
            == "struct"@ || kw == "union"@ || kw == "enum"@)) || (lang == Language::Php && (kw
            == "class"@ || kw == "interface"@ || kw == "trait"@ || kw == "enum"@)) || (lang
            == Language::Swift && (kw == "class"@ || kw == "struct"@ || kw == "enum"@ || kw
            == "protocol"@ || kw == "actor"@)) || (lang == Language::Kotlin && (kw == "class"@
            || kw == "interface"@ || kw == "object"@ || kw == "enum"@)),
        ls[lo].text.len() > 0,
        ls[lo].text[0] == kw[0],
        ls[lo].text.last() != ';',
        ls[lo].toks.len() >= 2,
        ls[lo].toks[0] == TokV::Word(kw),
        ls[lo].toks[1] == TokV::Word(n),
        n != "class"@,
        n != "struct"@,
    ensures
        scan(lang, ls, lo, hi, parent).len() > 0,
        scan(lang, ls, lo, hi, parent)[0].kind == CodeItemKind::Class,
        scan(lang, ls, lo, hi, parent)[0].name == n,
        scan(lang, ls, lo, hi, parent)[0].line == Some((lo + 1) as usize),
        scan(lang, ls, lo, hi, parent)[0].parent is None,
{
    lemma_type_keyword_facts(kw);
    let l = ls[lo];
    assert(!is_comment(lang, l));
    assert(doc_end(lang, ls, lo, hi) == lo);
    assert(skip_mods(l.toks, 0) == 0);
    assert(class_header(lang, l.toks, l.text) == Some(n));
    assert(header(lang, l, parent is Some) == HeaderV::Class(n));
}

proof fn lemma_function_keyword_facts(kw: Seq<char>)
    requires
        kw == "def"@ || kw == "func"@ || kw == "fun"@ || kw == "function"@,
    ensures
        !is_modifier(kw),
        kw != "class"@ && kw != "interface"@ && kw != "enum"@ && kw != "record"@ && kw != "struct"@ && kw != "union"@ && kw != "trait"@ && kw != "protocol"@ && kw != "actor"@ && kw != "object"@ && kw != "namespace"@ && kw != "module"@ && kw != "type"@ && kw != "const"@ && kw != "let"@ && kw != "var"@ && kw != "init"@ && kw != "self"@,
        kw.len() > 0,
        kw[0] != '#' && kw[0] != '/' && kw[0] != '*' && kw[0] != '@',
{
    reveal_strlit("public");
    reveal_strlit("private");
    reveal_strlit("protected");
    reveal_strlit("internal");
    reveal_strlit("static");
    reveal_strlit("abstract");
    reveal_strlit("final");
    reveal_strlit("sealed");
    reveal_strlit("partial");
    reveal_strlit("export");
    reveal_strlit("default");
    reveal_strlit("async");
    reveal_strlit("open");
    reveal_strlit("override");
    reveal_strlit("virtual");
    reveal_strlit("readonly");
    reveal_strlit("unsafe");
    reveal_strlit("extern");
    reveal_strlit("inline");
    reveal_strlit("data");
    reveal_strlit("mutating");
    reveal_strlit("fileprivate");
    reveal_strlit("declare");
    reveal_strlit("synchronized");
    reveal_strlit("native");
    reveal_strlit("class");
    reveal_strlit("interface");
    reveal_strlit("enum");
    reveal_strlit("record");
    reveal_strlit("struct");
    reveal_strlit("union");
    reveal_strlit("trait");
    reveal_strlit("protocol");
    reveal_strlit("actor");
    reveal_strlit("object");
    reveal_strlit("namespace");
    reveal_strlit("module");
    reveal_strlit("type");
    reveal_strlit("const");
    reveal_strlit("let");
    reveal_strlit("var");
    reveal_strlit("init");
    reveal_strlit("self");
    reveal_strlit("def");
    reveal_strlit("func");
    reveal_strlit("fun");
    reveal_strlit("function");
    if kw == "def"@ {
        assert(kw =~= seq!['d', 'e', 'f']);
    }
    if kw == "func"@ {
        assert(kw =~= seq!['f', 'u', 'n', 'c']);
    }
    if kw == "fun"@ {
        assert(kw =~= seq!['f', 'u', 'n']);
    }
    if kw == "function"@ {
        assert(kw =~= seq!['f', 'u', 'n', 'c', 't', 'i', 'o', 'n']);
    }
}

/// A line that begins with the function keyword of its language (`def`,
/// `func`, `fun`, `function`) followed by a name `n` declares a function
/// named `n`: scanning from that line, the first item found is that
/// function, on that line, belonging to the class being scanned, if any.
pub proof fn lemma_function_keyword_declares_function(
    lang: Language,
    ls: Seq<LineV>,
    lo: int,
    hi: int,
    parent: Option<Seq<char>>,
    kw: Seq<char>,
    n: Seq<char>,
)
    requires
        0 <= lo < hi <= ls.len(),
        (is_indent_lang(lang) && kw == "def"@) || ((lang == Language::Go || lang == Language::Swift)
            && kw == "func"@) || (lang == Language::Kotlin && kw == "fun"@) || ((lang
            == Language::Php || lang == Language::JavaScript || lang == Language::TypeScript) && kw
            == "function"@),
        ls[lo].text.len() > 0,
        ls[lo].text[0] == kw[0],
        ls[lo].toks.len() >= 2,
        ls[lo].toks[0] == TokV::Word(kw),
        ls[lo].toks[1] == TokV::Word(n),
        n != "self"@,
    ensures
        scan(lang, ls, lo, hi, parent).len() > 0,
        scan(lang, ls, lo, hi, parent)[0].kind == CodeItemKind::Function,
        scan(lang, ls, lo, hi, parent)[0].name == n,
        scan(lang, ls, lo, hi, parent)[0].line == Some((lo + 1) as usize),
        scan(lang, ls, lo, hi, parent)[0].parent == parent,
{
    lemma_function_keyword_facts(kw);
    let l = ls[lo];
    assert(!is_comment(lang, l));
    assert(doc_end(lang, ls, lo, hi) == lo);
    assert(skip_mods(l.toks, 0) == 0);
    assert(class_header(lang, l.toks, l.text) is None);
    assert(!container_header(lang, l.toks, l.text));
    assert(func_header(lang, l.toks, l.text, parent is Some) == Some((n, None::<Seq<char>>)));
    assert(header(lang, l, parent is Some) == HeaderV::Func(n, None));
}

/// The classes and functions of source text `s` in `lang`.
pub open spec fn scan_source(lang: Language, s: Seq<char>) -> Seq<CodeItemView> {
    scan(lang, lines_v(s), 0, lines_v(s).len() as int, None)
}

// ================================================================ exec

/// A copy of `v`.
pub fn copy_chars(v: &Vec<char>) -> (r: Vec<char>)
    ensures
        r@ == v@,
{
    let mut r: Vec<char> = Vec::new();
    let mut i: usize = 0;
    while i < v.len()
        invariant
            i <= v@.len(),
            r@ == v@.take(i as int),
        decreases v@.len() - i,
    {
        r.push(v[i]);
        i = i + 1;
        assert(r@ =~= v@.take(i as int));
    }
    assert(v@.take(i as int) =~= v@);
    r
}

pub open spec fn opt_chars_view(o: Option<Vec<char>>) -> Option<Seq<char>> {
    match o {
        Some(v) => Some(v@),
        None => None,
    }
}

fn word_at_exec(t: &Vec<Tok>, p: usize, off: usize) -> (r: Option<&Vec<char>>)
    ensures
        match r {
            Some(w) => word_at(toks_view(t@), p + off) == Some(w@),
            None => word_at(toks_view(t@), p + off) is None,
        },
{
    if p < t.len() && off < t.len() - p {
        match &t[p + off] {
            Tok::Word(w) => Some(w),
            Tok::Punct(_) => None,
        }
    } else {
        None
    }
}

fn word_at_is(t: &Vec<Tok>, p: usize, off: usize, kw: &str) -> (r: bool)
    ensures
        r == (word_at(toks_view(t@), p + off) == Some(kw@)),
{
    match word_at_exec(t, p, off) {
        Some(w) => word_is(w, kw),
        None => false,
    }
}

fn word_copy_at(t: &Vec<Tok>, p: usize, off: usize) -> (r: Option<Vec<char>>)
    ensures
        opt_chars_view(r) == word_at(toks_view(t@), p + off),
{
    match word_at_exec(t, p, off) {
        Some(w) => Some(copy_chars(w)),
        None => None,
    }
}

fn punct_at_exec(t: &Vec<Tok>, p: usize, off: usize, c: char) -> (r: bool)
    ensures
        r == punct_at(toks_view(t@), p + off, c),
{
    if p < t.len() && off < t.len() - p {
        match &t[p + off] {
            Tok::Word(_) => false,
            Tok::Punct(x) => *x == c as u32,
        }
    } else {
        false
    }
}

fn find_punct_exec(t: &Vec<Tok>, p: usize, off: usize, c: char) -> (r: Option<usize>)
    ensures
        match r {
            Some(i) => find_punct(toks_view(t@), p + off, c) == Some(i as int) && i < t@.len(),
            None => find_punct(toks_view(t@), p + off, c) is None,
        },
{
    if p >= t.len() || off >= t.len() - p {
        return None;
    }
    let mut i: usize = p + off;
    while i < t.len()
        invariant
            p + off <= i,
            find_punct(toks_view(t@), p + off, c) == find_punct(toks_view(t@), i as int, c),
        decreases t@.len() - i,
    {
        if punct_at_exec(t, i, 0, c) {
            return Some(i);
        }
        i = i + 1;
    }
    None
}

fn arrow_from_exec(t: &Vec<Tok>, p: usize) -> (r: bool)
    ensures
        r == arrow_from(toks_view(t@), p as int),
{
    let mut i: usize = p;
    while i < t.len()
        invariant
            p <= i,
            arrow_from(toks_view(t@), p as int) == arrow_from(toks_view(t@), i as int),
        decreases t@.len() - i,
    {
        if i + 1 >= t.len() {
            return false;
        }
        if punct_at_exec(t, i, 0, '=') && punct_at_exec(t, i, 1, '>') {
            return true;
        }
        i = i + 1;
    }
    false
}

fn is_modifier_exec(w: &Vec<char>) -> (r: bool)
    ensures
        r == is_modifier(w@),
{
    word_is(w, "public") || word_is(w, "private") || word_is(w, "protected") || word_is(
        w,
        "internal",
    ) || word_is(w, "static") || word_is(w, "abstract") || word_is(w, "final") || word_is(
        w,
        "sealed",
    ) || word_is(w, "partial") || word_is(w, "export") || word_is(w, "default") || word_is(
        w,
        "async",
    ) || word_is(w, "open") || word_is(w, "override") || word_is(w, "virtual") || word_is(
        w,
        "readonly",
    ) || word_is(w, "unsafe") || word_is(w, "extern") || word_is(w, "inline") || word_is(
        w,
        "data",
    ) || word_is(w, "mutating") || word_is(w, "fileprivate") || word_is(w, "declare")
        || word_is(w, "synchronized") || word_is(w, "native")
}

fn is_control_exec(w: &Vec<char>) -> (r: bool)
    ensures
        r == is_control(w@),
{
    word_is(w, "if") || word_is(w, "for") || word_is(w, "while") || word_is(w, "switch")
        || word_is(w, "catch") || word_is(w, "return") || word_is(w, "sizeof") || word_is(
        w,
        "new",
    ) || word_is(w, "else") || word_is(w, "do") || word_is(w, "using") || word_is(w, "lock")
        || word_is(w, "foreach") || word_is(w, "typeof") || word_is(w, "await") || word_is(
        w,
        "throw",
    ) || word_is(w, "function") || word_is(w, "super") || word_is(w, "this") || word_is(
        w,
        "elif",
    ) || word_is(w, "when") || word_is(w, "match") || word_is(w, "case") || word_is(
        w,
        "delete",
    ) || word_is(w, "yield") || word_is(w, "assert")
}

fn is_class_kw_exec(lang: Language, w: &Vec<char>) -> (r: bool)
    ensures
        r == is_class_kw(lang, w@),
{
    match lang {
        Language::Python => word_is(w, "class"),
        Language::Ruby => word_is(w, "class"),
        Language::JavaScript => word_is(w, "class"),
        Language::TypeScript => word_is(w, "class") || word_is(w, "interface") || word_is(
            w,
            "enum",
        ),
        Language::Java => word_is(w, "class") || word_is(w, "interface") || word_is(w, "enum")
            || word_is(w, "record"),
        Language::CSharp => word_is(w, "class") || word_is(w, "interface") || word_is(
            w,
            "struct",
        ) || word_is(w, "enum") || word_is(w, "record"),
        Language::Cpp => word_is(w, "class") || word_is(w, "struct") || word_is(w, "union")
            || word_is(w, "enum"),
        Language::Php => word_is(w, "class") || word_is(w, "interface") || word_is(w, "trait")
            || word_is(w, "enum"),
        Language::Swift => word_is(w, "class") || word_is(w, "struct") || word_is(w, "enum")
            || word_is(w, "protocol") || word_is(w, "actor"),
        Language::Kotlin => word_is(w, "class") || word_is(w, "interface") || word_is(
            w,
            "object",
        ) || word_is(w, "enum"),
        _ => false,
    }
}

fn is_container_kw_exec(lang: Language, w: &Vec<char>) -> (r: bool)
    ensures
        r == is_container_kw(lang, w@),
{
    match lang {
        Language::CSharp | Language::Cpp | Language::TypeScript | Language::Php => word_is(
            w,
            "namespace",
        ),
        Language::Ruby => word_is(w, "module"),
        _ => false,
    }
}

fn skip_mods_exec(t: &Vec<Tok>) -> (r: usize)
    ensures
        r == skip_mods(toks_view(t@), 0),
{
    let mut p: usize = 0;
    while p < t.len()
        invariant
            skip_mods(toks_view(t@), 0) == skip_mods(toks_view(t@), p as int),
        decreases t@.len() - p,
    {
        match &t[p] {
            Tok::Word(w) => {
                if is_modifier_exec(w) {
                    p = p + 1;
                } else {
                    return p;
                }
            },
            Tok::Punct(c) => {
                if *c == '@' as u32 && word_at_exec(t, p, 1).is_some() {
                    p = p + 2;
                } else {
                    return p;
                }
            },
        }
    }
    p
}

fn ends_with_semi_exec(text: &Vec<char>) -> (r: bool)
    ensures
        r == ends_with_semi(text@),
{
    text.len() > 0 && text[text.len() - 1] == ';'
}

fn starts_with_brace_exec(text: &Vec<char>) -> (r: bool)
    ensures
        r == starts_with_brace(text@),
{
    text.len() > 0 && text[0] == '{'
}

fn class_header_exec(lang: Language, t: &Vec<Tok>, text: &Vec<char>) -> (r: Option<Vec<char>>)
    ensures
        opt_chars_view(r) == class_header(lang, toks_view(t@), text@),
{
    let p = skip_mods_exec(t);
    if ends_with_semi_exec(text) {
        return None;
    }
    if lang == Language::Go {
        if word_at_is(t, p, 0, "type") && word_at_exec(t, p, 1).is_some() && (word_at_is(
            t,
            p,
            2,
            "struct",
        ) || word_at_is(t, p, 2, "interface")) {
            word_copy_at(t, p, 1)
        } else {
            None
        }
    } else {
        match word_at_exec(t, p, 0) {
            Some(k) => {
                if is_class_kw_exec(lang, k) {
                    if word_at_is(t, p, 1, "class") || word_at_is(t, p, 1, "struct") {
                        word_copy_at(t, p, 2)
                    } else {
                        word_copy_at(t, p, 1)
                    }
                } else {
                    None
                }
            },
            None => None,
        }
    }
}

fn container_header_exec(lang: Language, t: &Vec<Tok>, text: &Vec<char>) -> (r: bool)
    ensures
        r == container_header(lang, toks_view(t@), text@),
{
    let p = skip_mods_exec(t);
    !ends_with_semi_exec(text) && match word_at_exec(t, p, 0) {
        Some(k) => is_container_kw_exec(lang, k) && word_at_exec(t, p, 1).is_some(),
        None => false,
    }
}

pub open spec fn opt_pair_view(o: Option<(Vec<char>, Option<Vec<char>>)>) -> Option<
    (Seq<char>, Option<Seq<char>>),
> {
    match o {
        Some(x) => Some((x.0@, opt_chars_view(x.1))),
        None => None,
    }
}

fn name_after_exec(t: &Vec<Tok>, p: usize, off: usize) -> (r: Option<(Vec<char>, Option<Vec<char>>)>)
    ensures
        opt_pair_view(r) == name_after(toks_view(t@), p + off),
{
    match word_copy_at(t, p, off) {
        Some(n) => Some((n, None)),
        None => None,
    }
}

fn go_method_exec(t: &Vec<Tok>, p: usize) -> (r: Option<(Vec<char>, Option<Vec<char>>)>)
    ensures
        opt_pair_view(r) == go_method(toks_view(t@), p as int),
{
    match find_punct_exec(t, p, 2, ')') {
        Some(r) => {
            if r == 0 {
                return None;
            }
            match (word_copy_at(t, r - 1, 0), word_copy_at(t, r, 1)) {
                (Some(recv), Some(n)) => Some((n, Some(recv))),
                _ => None,
            }
        },
        None => None,
    }
}

fn no_assign_before_exec(t: &Vec<Tok>, p: usize, f: usize) -> (r: bool)
    ensures
        r == no_assign_before(toks_view(t@), p as int, f as int),
{
    match find_punct_exec(t, p, 0, '=') {
        Some(q) => q > f,
        None => true,
    }
}

fn scope_parent_exec(lang: Language, t: &Vec<Tok>, p: usize, f: usize) -> (r: Option<Vec<char>>)
    ensures
        opt_chars_view(r) == scope_parent(lang, toks_view(t@), p as int, f as int),
{
    if lang == Language::Cpp && f >= 4 && f - 4 >= p && punct_at_exec(t, f - 2, 0, ':')
        && punct_at_exec(t, f - 3, 0, ':') {
        word_copy_at(t, f - 4, 0)
    } else {
        None
    }
}

fn generic_func_exec(lang: Language, t: &Vec<Tok>, text: &Vec<char>) -> (r: Option<
    (Vec<char>, Option<Vec<char>>),
>)
    ensures
        opt_pair_view(r) == generic_func(lang, toks_view(t@), text@),
{
    let p = skip_mods_exec(t);
    match (word_at_exec(t, p, 0), find_punct_exec(t, p, 0, '(')) {
        (Some(first), Some(f)) => {
            if f > p && !ends_with_semi_exec(text) && !is_control_exec(first)
                && no_assign_before_exec(t, p, f) {
                match word_at_exec(t, f - 1, 0) {
                    Some(name) => {
                        if is_control_exec(name) {
                            None
                        } else {
                            Some((copy_chars(name), scope_parent_exec(lang, t, p, f)))
                        }
                    },
                    None => None,
                }
            } else {
                None
            }
        },
        _ => None,
    }
}

fn func_header_exec(lang: Language, t: &Vec<Tok>, text: &Vec<char>, in_class: bool) -> (r: Option<
    (Vec<char>, Option<Vec<char>>),
>)
    ensures
        opt_pair_view(r) == func_header(lang, toks_view(t@), text@, in_class),
{
    let p = skip_mods_exec(t);
    match lang {
        Language::Python => {
            if word_at_is(t, p, 0, "def") {
                name_after_exec(t, p, 1)
            } else {
                None
            }
        },
        Language::Ruby => {
            if word_at_is(t, p, 0, "def") {
                if word_at_is(t, p, 1, "self") && punct_at_exec(t, p, 2, '.') {
                    name_after_exec(t, p, 3)
                } else {
                    name_after_exec(t, p, 1)
                }
            } else {
                None
            }
        },
        Language::Go => {
            if word_at_is(t, p, 0, "func") {
                if punct_at_exec(t, p, 1, '(') {
                    go_method_exec(t, p)
                } else {
                    name_after_exec(t, p, 1)
                }
            } else {
                None
            }
        },
        Language::Swift => {
            if word_at_is(t, p, 0, "func") {
                name_after_exec(t, p, 1)
            } else if in_class && word_at_is(t, p, 0, "init") && punct_at_exec(t, p, 1, '(') {
                Some((chars_of("init"), None))
            } else {
                None
            }
        },
        Language::Kotlin => {
            if word_at_is(t, p, 0, "fun") {
                name_after_exec(t, p, 1)
            } else {
                None
            }
        },
        Language::Php => {
            if word_at_is(t, p, 0, "function") {
                name_after_exec(t, p, 1)
            } else {
                None
            }
        },
        Language::JavaScript | Language::TypeScript => {
            if word_at_is(t, p, 0, "function") {
                name_after_exec(t, p, 1)
            } else if (word_at_is(t, p, 0, "const") || word_at_is(t, p, 0, "let") || word_at_is(
                t,
                p,
                0,
                "var",
            )) && word_at_exec(t, p, 1).is_some() && punct_at_exec(t, p, 2, '=') && (
            arrow_from_at(t, p, 3) || word_at_is(t, p, 3, "function")) {
                name_after_exec(t, p, 1)
            } else if in_class {
                generic_func_exec(lang, t, text)
            } else {
                None
            }
        },
        Language::Java | Language::CSharp | Language::Cpp => generic_func_exec(lang, t, text),
        _ => None,
    }
}

fn arrow_from_at(t: &Vec<Tok>, p: usize, off: usize) -> (r: bool)
    ensures
        r == arrow_from(toks_view(t@), p + off),
{
    if p >= t.len() || off >= t.len() - p {
        return false;
    }
    arrow_from_exec(t, p + off)
}

/// What a line declares (exec form of [`HeaderV`]).
pub enum Header {
    Class(Vec<char>),
    Func(Vec<char>, Option<Vec<char>>),
    Container,
    Plain,
}

impl View for Header {
    type V = HeaderV;

    open spec fn view(&self) -> HeaderV {
        match self {
            Header::Class(n) => HeaderV::Class(n@),
            Header::Func(n, p) => HeaderV::Func(n@, opt_chars_view(*p)),
            Header::Container => HeaderV::Container,
            Header::Plain => HeaderV::Plain,
        }
    }
}

/// Decides what line `l` declares.
pub fn classify(lang: Language, l: &LineInfo, in_class: bool) -> (h: Header)
    ensures
        h@ == header(lang, l@, in_class),
{
    if lang == Language::Rust || lang == Language::Unknown || l.text.len() == 0 {
        return Header::Plain;
    }
    match class_header_exec(lang, &l.toks, &l.text) {
        Some(n) => Header::Class(n),
        None => {
            if !in_class && container_header_exec(lang, &l.toks, &l.text) {
                Header::Container
            } else {
                match func_header_exec(lang, &l.toks, &l.text, in_class) {
                    Some((n, p)) => Header::Func(n, p),
                    None => Header::Plain,
                }
            }
        },
    }
}

// ---------------------------------------------------------------- exec regions

pub proof fn lemma_depth_bound(ls: Seq<LineV>, raw: Seq<Seq<char>>, k: int)
    requires
        0 <= k <= ls.len(),
        ls.len() == raw.len(),
        forall|j: int| 0 <= j < ls.len() ==> (#[trigger] ls[j]).opens + ls[j].closes <= raw[j].len(),
    ensures
        -(total_len(raw.take(k)) as int) <= depth(ls, k) <= total_len(raw.take(k)),
    decreases k,
{
    if k > 0 {
        lemma_depth_bound(ls, raw, k - 1);
        crate::text::lemma_total_len_take(raw, k - 1);
    }
}

/// The depth before every line, and after the last.
fn compute_depths(ls: &Vec<LineInfo>, Ghost(raw): Ghost<Seq<Seq<char>>>) -> (d: Vec<i128>)
    requires
        ls@.len() == raw.len(),
        forall|j: int|
            0 <= j < ls@.len() ==> (#[trigger] ls@[j]).opens + ls@[j].closes <= raw[j].len(),
        total_len(raw) <= usize::MAX,
    ensures
        d@.len() == ls@.len() + 1,
        forall|k: int| 0 <= k <= ls@.len() ==> #[trigger] d@[k] == depth(infos_view(ls@), k),
{
    let ghost lv = infos_view(ls@);
    let mut d: Vec<i128> = Vec::new();
    let mut cur: i128 = 0;
    let mut k: usize = 0;
    assert forall|j: int| 0 <= j < lv.len() implies (#[trigger] lv[j]).opens + lv[j].closes
        <= raw[j].len() by {
        assert(lv[j] == ls@[j]@);
    }
    while k < ls.len()
        invariant
            k <= ls@.len(),
            lv == infos_view(ls@),
            lv.len() == raw.len(),
            forall|j: int| 0 <= j < lv.len() ==> (#[trigger] lv[j]).opens + lv[j].closes <= raw[j].len(),
            total_len(raw) <= usize::MAX,
            d@.len() == k,
            cur == depth(lv, k as int),
            forall|j: int| 0 <= j < k ==> #[trigger] d@[j] == depth(lv, j),
        decreases ls@.len() - k,
    {
        proof {
            lemma_depth_bound(lv, raw, k + 1);
            crate::text::lemma_total_len_take(raw, k + 1);
            assert(lv[k as int] == ls@[k as int]@);
        }
        d.push(cur);
        cur = cur + ls[k].opens as i128 - ls[k].closes as i128;
        k = k + 1;
    }
    d.push(cur);
    d
}

/// The depths of `ls` stand in `d`.
pub open spec fn depths_ok(ls: Seq<LineV>, d: Seq<i128>) -> bool {
    &&& d.len() == ls.len() + 1
    &&& forall|k: int| 0 <= k <= ls.len() ==> #[trigger] d[k] == depth(ls, k)
}

fn close_from_exec(d: &Vec<i128>, Ghost(ls): Ghost<Seq<LineV>>, base: i128, k0: usize, hi: usize) -> (r: usize)
    requires
        depths_ok(ls, d@),
        k0 < hi <= ls.len(),
    ensures
        r == close_from(ls, base as int, k0 as int, hi as int),
{
    let mut k = k0;
    while k < hi - 1
        invariant
            depths_ok(ls, d@),
            k0 <= k < hi <= ls.len(),
            close_from(ls, base as int, k0 as int, hi as int) == close_from(
                ls,
                base as int,
                k as int,
                hi as int,
            ),
        decreases hi - k,
    {
        if d[k + 1] <= base {
            return k;
        }
        k = k + 1;
    }
    hi - 1
}

fn brace_end_exec(ls: &Vec<LineInfo>, d: &Vec<i128>, i: usize, hi: usize) -> (r: usize)
    requires
        depths_ok(infos_view(ls@), d@),
        i < hi <= ls@.len(),
    ensures
        r == brace_end(infos_view(ls@), i as int, hi as int),
{
    let ghost lv = infos_view(ls@);
    assert(lv[i as int] == ls@[i as int]@);
    if ls[i].opens > 0 {
        close_from_exec(d, Ghost(lv), d[i], i, hi)
    } else if i + 1 < hi && starts_with_brace_exec(&ls[i + 1].text) && !ends_with_semi_exec(
        &ls[i].text,
    ) {
        assert(lv[i + 1] == ls@[i + 1]@);
        close_from_exec(d, Ghost(lv), d[i], i + 1, hi)
    } else {
        i
    }
}

fn indent_end_exec(lang: Language, ls: &Vec<LineInfo>, i: usize, hi: usize) -> (r: usize)
    requires
        i < hi <= ls@.len(),
    ensures
        r as int == indent_end(lang, infos_view(ls@), i as int, hi as int),
        i <= r < hi,
{
    let ghost lv = infos_view(ls@);
    assert(lv[i as int] == ls@[i as int]@);
    let mut j: usize = i + 1;
    while j < hi && (ls[j].text.len() == 0 || ls[j].indent > ls[i].indent)
        invariant
            i < j <= hi <= ls@.len(),
            lv == infos_view(ls@),
            indent_run(lv, i as int, i + 1, hi as int) == indent_run(lv, i as int, j as int, hi as int),
        decreases hi - j,
    {
        assert(lv[j as int] == ls@[j as int]@);
        j = j + 1;
    }
    if j < hi {
        assert(lv[j as int] == ls@[j as int]@);
    }
    if lang == Language::Ruby && j < hi && ls[j].indent == ls[i].indent && word_is(&ls[j].text, "end") {
        return j;
    }
    let mut k: usize = j;
    while k > i + 1 && ls[k - 1].text.len() == 0
        invariant
            i < k <= j,
            j <= hi <= ls@.len(),
            lv == infos_view(ls@),
            last_nonblank(lv, i as int, j as int) == last_nonblank(lv, i as int, k as int),
        decreases k,
    {
        assert(lv[k - 1] == ls@[k - 1]@);
        k = k - 1;
    }
    if k > i + 1 {
        assert(lv[k - 1] == ls@[k - 1]@);
        k - 1
    } else {
        i
    }
}

fn item_end_exec(lang: Language, ls: &Vec<LineInfo>, d: &Vec<i128>, i: usize, hi: usize) -> (r: usize)
    requires
        depths_ok(infos_view(ls@), d@),
        i < hi <= ls@.len(),
    ensures
        r as int == item_end(lang, infos_view(ls@), i as int, hi as int),
        i <= r < hi,
{
    let e = if lang == Language::Python || lang == Language::Ruby {
        indent_end_exec(lang, ls, i, hi)
    } else {
        brace_end_exec(ls, d, i, hi)
    };
    if e < i {
        i
    } else if e > hi - 1 {
        hi - 1
    } else {
        e
    }
}

// ---------------------------------------------------------------- exec texts

fn push_line_text(acc: &mut Vec<char>, l: &LineInfo)
    ensures
        final(acc)@ == old(acc)@ + line_text(l@),
{
    let n = l.text.len();
    if n == 0 {
        assert(old(acc)@ + line_text(l@) =~= old(acc)@);
        return;
    }
    let mut k: usize = 0;
    while k < n
        invariant
            k <= n,
            n == l.text@.len(),
            acc@ == old(acc)@ + l.text@.take(k as int),
        decreases n - k,
    {
        acc.push(l.text[k]);
        k = k + 1;
        assert(acc@ =~= old(acc)@ + l.text@.take(k as int));
    }
    acc.push('\n');
    assert(acc@ =~= old(acc)@ + line_text(l@));
}

fn append_chars(acc: &mut Vec<char>, more: &Vec<char>)
    ensures
        final(acc)@ == old(acc)@ + more@,
{
    let mut k: usize = 0;
    while k < more.len()
        invariant
            k <= more@.len(),
            acc@ == old(acc)@ + more@.take(k as int),
        decreases more@.len() - k,
    {
        acc.push(more[k]);
        k = k + 1;
        assert(acc@ =~= old(acc)@ + more@.take(k as int));
    }
    assert(more@.take(k as int) =~= more@);
}

fn region_text_exec(ls: &Vec<LineInfo>, lo: usize, hi: usize) -> (r: Vec<char>)
    requires
        lo <= hi <= ls@.len(),
    ensures
        r@ == region_text(infos_view(ls@), lo as int, hi as int),
{
    let ghost lv = infos_view(ls@);
    let mut acc: Vec<char> = Vec::new();
    let mut k: usize = lo;
    while k < hi
        invariant
            lo <= k <= hi <= ls@.len(),
            lv == infos_view(ls@),
            acc@ + region_text(lv, k as int, hi as int) == region_text(lv, lo as int, hi as int),
        decreases hi - k,
    {
        let ghost before = acc@;
        assert(lv[k as int] == ls@[k as int]@);
        push_line_text(&mut acc, &ls[k]);
        assert(before + region_text(lv, k as int, hi as int) =~= acc@ + region_text(
            lv,
            k + 1,
            hi as int,
        ));
        k = k + 1;
    }
    assert(acc@ + region_text(lv, k as int, hi as int) =~= acc@);
    acc
}

fn is_comment_exec(lang: Language, l: &LineInfo) -> (r: bool)
    ensures
        r == is_comment(lang, l@),
{
    let n = l.text.len();
    if lang == Language::Rust || lang == Language::Unknown || n == 0 {
        false
    } else if lang == Language::Python || lang == Language::Ruby {
        l.text[0] == '#'
    } else {
        let c = l.text[0];
        c == '*' || (lang == Language::Php && c == '#') || (n > 1 && c == '/' && (l.text[1] == '/'
            || l.text[1] == '*'))
    }
}

fn doc_end_exec(lang: Language, ls: &Vec<LineInfo>, lo: usize, hi: usize) -> (r: usize)
    requires
        lo <= hi <= ls@.len(),
    ensures
        r as int == doc_end(lang, infos_view(ls@), lo as int, hi as int),
        lo <= r <= hi,
{
    let ghost lv = infos_view(ls@);
    let mut k: usize = lo;
    while k < hi
        invariant
            lo <= k <= hi <= ls@.len(),
            lv == infos_view(ls@),
            doc_end(lang, lv, k as int, hi as int) == doc_end(lang, lv, lo as int, hi as int),
        decreases hi - k,
    {
        assert(lv[k as int] == ls@[k as int]@);
        if !is_comment_exec(lang, &ls[k]) {
            return k;
        }
        k = k + 1;
    }
    k
}

fn own_text_exec(lang: Language, ls: &Vec<LineInfo>, d: &Vec<i128>, lo: usize, hi: usize) -> (r: Vec<char>)
    requires
        depths_ok(infos_view(ls@), d@),
        lo <= hi <= ls@.len(),
    ensures
        r@ == own_text(lang, infos_view(ls@), lo as int, hi as int),
{
    let ghost lv = infos_view(ls@);
    let mut acc: Vec<char> = Vec::new();
    let mut k: usize = lo;
    while k < hi
        invariant
            lo <= k <= hi <= ls@.len(),
            lv == infos_view(ls@),
            depths_ok(lv, d@),
            acc@ + own_text(lang, lv, k as int, hi as int) == own_text(lang, lv, lo as int, hi as int),
        decreases hi - k,
    {
        let ghost before = acc@;
        let j = doc_end_exec(lang, ls, k, hi);
        if j >= hi {
            let rest = region_text_exec(ls, k, hi);
            append_chars(&mut acc, &rest);
            assert(before + own_text(lang, lv, k as int, hi as int) =~= acc@ + own_text(
                lang,
                lv,
                hi as int,
                hi as int,
            ));
            k = hi;
        } else {
            assert(lv[j as int] == ls@[j as int]@);
            let e = item_end_exec(lang, ls, d, j, hi);
            match classify(lang, &ls[j], true) {
                Header::Class(_) => {
                    k = e + 1;
                },
                Header::Func(_, _) => {
                    k = e + 1;
                },
                _ => {
                    let lead = region_text_exec(ls, k, j + 1);
                    append_chars(&mut acc, &lead);
                    assert(before + own_text(lang, lv, k as int, hi as int) =~= acc@ + own_text(
                        lang,
                        lv,
                        j + 1,
                        hi as int,
                    ));
                    k = j + 1;
                },
            }
        }
    }
    assert(acc@ + own_text(lang, lv, k as int, hi as int) =~= acc@);
    acc
}

fn string_opt(o: &Option<Vec<char>>) -> (r: Option<String>)
    ensures
        crate::models::opt_string_view(r) == opt_chars_view(*o),
{
    match o {
        Some(v) => Some(string_from_chars(v.as_slice())),
        None => None,
    }
}

// ---------------------------------------------------------------- exec scan

fn scan_exec(
    lang: Language,
    ls: &Vec<LineInfo>,
    d: &Vec<i128>,
    lo: usize,
    hi: usize,
    parent: &Option<Vec<char>>,
    out: &mut Vec<CodeItem>,
)
    requires
        depths_ok(infos_view(ls@), d@),
        lo <= hi <= ls@.len(),
    ensures
        items_view(final(out)@) == items_view(old(out)@) + scan(
            lang,
            infos_view(ls@),
            lo as int,
            hi as int,
            opt_chars_view(*parent),
        ),
    decreases hi - lo,
{
    let ghost lv = infos_view(ls@);
    let ghost par = opt_chars_view(*parent);
    let mut i: usize = lo;
    while i < hi
        invariant
            lo <= i <= hi <= ls@.len(),
            lv == infos_view(ls@),
            par == opt_chars_view(*parent),
            depths_ok(lv, d@),
            items_view(out@) + scan(lang, lv, i as int, hi as int, par) == items_view(old(out)@)
                + scan(lang, lv, lo as int, hi as int, par),
        decreases hi - i,
    {
        let ghost before = items_view(out@);
        let j = doc_end_exec(lang, ls, i, hi);
        if j >= hi {
            assert(before + scan(lang, lv, i as int, hi as int, par) =~= items_view(out@) + scan(
                lang,
                lv,
                hi as int,
                hi as int,
                par,
            ));
            i = hi;
        } else {
            assert(lv[j as int] == ls@[j as int]@);
            let e = item_end_exec(lang, ls, d, j, hi);
            match classify(lang, &ls[j], parent.is_some()) {
                Header::Class(name) => {
                    let mut tokens = region_text_exec(ls, i, j);
                    push_line_text(&mut tokens, &ls[j]);
                    let own = own_text_exec(lang, ls, d, j + 1, e + 1);
                    append_chars(&mut tokens, &own);
                    let item = CodeItem {
                        name: string_from_chars(name.as_slice()),
                        kind: CodeItemKind::Class,
                        line: Some(j + 1),
                        tokens: string_from_chars(tokens.as_slice()),
                        parent: None,
                    };
                    let ghost gi = item;
                    let ghost before_out = out@;
                    out.push(item);
                    proof {
                        lemma_items_view_push(before_out, gi);
                    }
                    let sub: Option<Vec<char>> = Some(name);
                    scan_exec(lang, ls, d, j + 1, e + 1, &sub, out);
                    assert(before + scan(lang, lv, i as int, hi as int, par) =~= items_view(out@)
                        + scan(lang, lv, e + 1, hi as int, par));
                    i = e + 1;
                },
                Header::Func(name, p) => {
                    let tokens = region_text_exec(ls, i, e + 1);
                    let owner = if p.is_some() {
                        string_opt(&p)
                    } else {
                        string_opt(parent)
                    };
                    let item = CodeItem {
                        name: string_from_chars(name.as_slice()),
                        kind: CodeItemKind::Function,
                        line: Some(j + 1),
                        tokens: string_from_chars(tokens.as_slice()),
                        parent: owner,
                    };
                    let ghost gi = item;
                    let ghost before_out = out@;
                    out.push(item);
                    proof {
                        lemma_items_view_push(before_out, gi);
                    }
                    assert(before + scan(lang, lv, i as int, hi as int, par) =~= items_view(out@)
                        + scan(lang, lv, e + 1, hi as int, par));
                    i = e + 1;
                },
                Header::Container => {
                    scan_exec(lang, ls, d, j + 1, e + 1, parent, out);
                    assert(before + scan(lang, lv, i as int, hi as int, par) =~= items_view(out@)
                        + scan(lang, lv, e + 1, hi as int, par));
                    i = e + 1;
                },
                Header::Plain => {
                    assert(before + scan(lang, lv, i as int, hi as int, par) =~= items_view(out@)
                        + scan(lang, lv, j + 1, hi as int, par));
                    i = j + 1;
                },
            }
        }
    }
    assert(items_view(out@) + scan(lang, lv, i as int, hi as int, par) =~= items_view(out@));
}

/// The classes and functions of `source`, read as `lang` by the line
/// scanner.
pub fn scan_items(lang: Language, source: &str) -> (r: Vec<CodeItem>)
    ensures
        items_view(r@) == scan_source(lang, source@),
{
    let chars = chars_of(source);
    let ls = line_infos(&chars);
    let n = chars.len();
    assert(total_len(lines_of(chars@)) <= n);
    assert(infos_view(ls@).len() == ls@.len());
    assert(lines_v(chars@).len() == lines_of(chars@).len());
    let d = compute_depths(&ls, Ghost(lines_of(chars@)));
    let mut out: Vec<CodeItem> = Vec::new();
    scan_exec(lang, &ls, &d, 0, ls.len(), &None, &mut out);
    assert(items_view(Seq::<CodeItem>::empty()) =~= Seq::<CodeItemView>::empty());
    assert(Seq::<CodeItemView>::empty() + scan(lang, infos_view(ls@), 0, ls@.len() as int, None)
        =~= scan(lang, infos_view(ls@), 0, ls@.len() as int, None));
    out
}

} // verus!
