//! Source languages and how a file's path selects one.
use vstd::prelude::*;
use crate::text::{chars_of, word_is};

verus! {

/// The languages whose classes and functions the analyzer recognises.
#[derive(Debug, Clone, Copy, PartialEq, Eq, Structural)]
pub enum Language {
    Rust,
    Python,
    Ruby,
    JavaScript,
    TypeScript,
    Java,
    CSharp,
    Cpp,
    Go,
    Php,
    Swift,
    Kotlin,
    Unknown,
}

/// The extension of `p[..j]`: the characters after its last `'.'`, provided
/// no path separator follows that dot.
pub open spec fn ext_from(p: Seq<char>, j: int) -> Option<Seq<char>>
    decreases j,
{
    if j <= 0 || j > p.len() {
        None
    } else if p[j - 1] == '.' {
        Some(p.subrange(j, p.len() as int))
    } else if p[j - 1] == '/' || p[j - 1] == '\\' {
        None
    } else {
        ext_from(p, j - 1)
    }
}

/// The extension of a path, if it has one.
pub open spec fn extension_of(p: Seq<char>) -> Option<Seq<char>> {
    ext_from(p, p.len() as int)
}

/// The language that files with extension `e` are written in.
pub open spec fn language_of_extension(e: Seq<char>) -> Language {
    if e == "rs"@ {
        Language::Rust
    } else if e == "py"@ || e == "pyi"@ {
        Language::Python
    } else if e == "rb"@ {
        Language::Ruby
    } else if e == "js"@ || e == "jsx"@ || e == "mjs"@ || e == "cjs"@ {
        Language::JavaScript
    } else if e == "ts"@ || e == "tsx"@ || e == "mts"@ || e == "cts"@ {
        Language::TypeScript
    } else if e == "java"@ {
        Language::Java
    } else if e == "cs"@ {
        Language::CSharp
    } else if e == "c"@ || e == "h"@ || e == "cc"@ || e == "cpp"@ || e == "cxx"@ || e == "hpp"@
        || e == "hh"@ || e == "hxx"@ {
        Language::Cpp
    } else if e == "go"@ {
        Language::Go
    } else if e == "php"@ {
        Language::Php
    } else if e == "swift"@ {
        Language::Swift
    } else if e == "kt"@ || e == "kts"@ {
        Language::Kotlin
    } else {
        Language::Unknown
    }
}

/// The language of the file at path `p`, by its extension.
pub open spec fn language_of(p: Seq<char>) -> Language {
    match extension_of(p) {
        Some(e) => language_of_extension(e),
        None => Language::Unknown,
    }
}

pub open spec fn no_dot_or_separator(e: Seq<char>) -> bool {
    forall|i: int| 0 <= i < e.len() ==> e[i] != '.' && e[i] != '/' && e[i] != '\\'
}

proof fn lemma_ext_from_skips(p: Seq<char>, lo: int, j: int)
    requires
        0 < lo <= j <= p.len(),
        forall|i: int| lo <= i < p.len() ==> p[i] != '.' && p[i] != '/' && p[i] != '\\',
    ensures
        ext_from(p, j) == ext_from(p, lo),
    decreases j - lo,
{
    if j > lo {
        lemma_ext_from_skips(p, lo, j - 1);
    }
}

/// A path's extension is the text after the last `.` of its file name,
/// whatever comes before that dot (other dots, directories): for a path
/// `prefix.e` where `e` holds no `.`, `/` or `\\`, the extension is `e` and the
/// language is the one of `e`.
pub proof fn lemma_extension_after_last_dot(prefix: Seq<char>, e: Seq<char>)
    requires
        no_dot_or_separator(e),
    ensures
        extension_of(prefix + seq!['.'] + e) == Some(e),
        language_of(prefix + seq!['.'] + e) == language_of_extension(e),
{
    let p = prefix + seq!['.'] + e;
    let lo: int = prefix.len() as int + 1;
    assert forall|i: int| lo <= i < p.len() implies p[i] != '.' && p[i] != '/' && p[i] != '\\' by {
        assert(p[i] == e[i - lo]);
    }
    lemma_ext_from_skips(p, lo, p.len() as int);
    assert(p[lo - 1] == '.');
    assert(p.subrange(lo, p.len() as int) =~= e);
}

/// A file name without a `.` has no extension, and its language is
/// unknown, whatever directories stand before it.
pub proof fn lemma_no_dot_no_language(dir: Seq<char>, name: Seq<char>)
    requires
        no_dot_or_separator(name),
        dir.len() == 0 || dir.last() == '/' || dir.last() == '\\',
    ensures
        extension_of(dir + name) is None,
        language_of(dir + name) == Language::Unknown,
{
    let p = dir + name;
    let lo: int = dir.len() as int;
    if lo == 0 {
        assert(p =~= name);
        if p.len() > 0 {
            assert forall|i: int| 1 <= i < p.len() implies p[i] != '.' && p[i] != '/' && p[i]
                != '\\' by {}
            lemma_ext_from_skips(p, 1, p.len() as int);
            assert(ext_from(p, 0) is None);
            assert(ext_from(p, 1) is None);
        }
        assert(extension_of(p) is None);
    } else {
        assert forall|i: int| lo <= i < p.len() implies p[i] != '.' && p[i] != '/' && p[i]
            != '\\' by {
            assert(p[i] == name[i - lo]);
        }
        lemma_ext_from_skips(p, lo, p.len() as int);
        assert(p[lo - 1] == dir.last());
        assert(ext_from(p, lo) is None);
        assert(extension_of(p) is None);
    }
}

/// The extensions of each language, after any path: `x.rs` is Rust,
/// `x.py` Python, and so on, whatever `x` is.
pub proof fn lemma_extension_table(prefix: Seq<char>)
    ensures
        language_of(prefix + seq!['.'] + seq!['r', 's']) == Language::Rust,
        language_of(prefix + seq!['.'] + seq!['p', 'y']) == Language::Python,
        language_of(prefix + seq!['.'] + seq!['p', 'y', 'i']) == Language::Python,
        language_of(prefix + seq!['.'] + seq!['r', 'b']) == Language::Ruby,
        language_of(prefix + seq!['.'] + seq!['j', 's']) == Language::JavaScript,
        language_of(prefix + seq!['.'] + seq!['j', 's', 'x']) == Language::JavaScript,
        language_of(prefix + seq!['.'] + seq!['m', 'j', 's']) == Language::JavaScript,
        language_of(prefix + seq!['.'] + seq!['c', 'j', 's']) == Language::JavaScript,
        language_of(prefix + seq!['.'] + seq!['t', 's']) == Language::TypeScript,
        language_of(prefix + seq!['.'] + seq!['t', 's', 'x']) == Language::TypeScript,
        language_of(prefix + seq!['.'] + seq!['m', 't', 's']) == Language::TypeScript,
        language_of(prefix + seq!['.'] + seq!['c', 't', 's']) == Language::TypeScript,
        language_of(prefix + seq!['.'] + seq!['j', 'a', 'v', 'a']) == Language::Java,
        language_of(prefix + seq!['.'] + seq!['c', 's']) == Language::CSharp,
        language_of(prefix + seq!['.'] + seq!['c']) == Language::Cpp,
        language_of(prefix + seq!['.'] + seq!['h']) == Language::Cpp,
        language_of(prefix + seq!['.'] + seq!['c', 'c']) == Language::Cpp,
        language_of(prefix + seq!['.'] + seq!['c', 'p', 'p']) == Language::Cpp,
        language_of(prefix + seq!['.'] + seq!['c', 'x', 'x']) == Language::Cpp,
        language_of(prefix + seq!['.'] + seq!['h', 'p', 'p']) == Language::Cpp,
        language_of(prefix + seq!['.'] + seq!['h', 'h']) == Language::Cpp,
        language_of(prefix + seq!['.'] + seq!['h', 'x', 'x']) == Language::Cpp,
        language_of(prefix + seq!['.'] + seq!['g', 'o']) == Language::Go,
        language_of(prefix + seq!['.'] + seq!['p', 'h', 'p']) == Language::Php,
        language_of(prefix + seq!['.'] + seq!['s', 'w', 'i', 'f', 't']) == Language::Swift,
        language_of(prefix + seq!['.'] + seq!['k', 't']) == Language::Kotlin,
        language_of(prefix + seq!['.'] + seq!['k', 't', 's']) == Language::Kotlin,
{
    reveal_strlit("rs");
    reveal_strlit("py");
    reveal_strlit("pyi");
    reveal_strlit("rb");
    reveal_strlit("js");
    reveal_strlit("jsx");
    reveal_strlit("mjs");
    reveal_strlit("cjs");
    reveal_strlit("ts");
    reveal_strlit("tsx");
    reveal_strlit("mts");
    reveal_strlit("cts");
    reveal_strlit("java");
    reveal_strlit("cs");
    reveal_strlit("c");
    reveal_strlit("h");
    reveal_strlit("cc");
    reveal_strlit("cpp");
    reveal_strlit("cxx");
    reveal_strlit("hpp");
    reveal_strlit("hh");
    reveal_strlit("hxx");
    reveal_strlit("go");
    reveal_strlit("php");
    reveal_strlit("swift");
    reveal_strlit("kt");
    reveal_strlit("kts");
    assert(seq!['r', 's'] =~= "rs"@);
    assert(seq!['p', 'y'] =~= "py"@);
    assert(seq!['p', 'y', 'i'] =~= "pyi"@);
    assert(seq!['r', 'b'] =~= "rb"@);
    assert(seq!['j', 's'] =~= "js"@);
    assert(seq!['j', 's', 'x'] =~= "jsx"@);
    assert(seq!['m', 'j', 's'] =~= "mjs"@);
    assert(seq!['c', 'j', 's'] =~= "cjs"@);
    assert(seq!['t', 's'] =~= "ts"@);
    assert(seq!['t', 's', 'x'] =~= "tsx"@);
    assert(seq!['m', 't', 's'] =~= "mts"@);
    assert(seq!['c', 't', 's'] =~= "cts"@);
    assert(seq!['j', 'a', 'v', 'a'] =~= "java"@);
    assert(seq!['c', 's'] =~= "cs"@);
    assert(seq!['c'] =~= "c"@);
    assert(seq!['h'] =~= "h"@);
    assert(seq!['c', 'c'] =~= "cc"@);
    assert(seq!['c', 'p', 'p'] =~= "cpp"@);
    assert(seq!['c', 'x', 'x'] =~= "cxx"@);
    assert(seq!['h', 'p', 'p'] =~= "hpp"@);
    assert(seq!['h', 'h'] =~= "hh"@);
    assert(seq!['h', 'x', 'x'] =~= "hxx"@);
    assert(seq!['g', 'o'] =~= "go"@);
    assert(seq!['p', 'h', 'p'] =~= "php"@);
    assert(seq!['s', 'w', 'i', 'f', 't'] =~= "swift"@);
    assert(seq!['k', 't'] =~= "kt"@);
    assert(seq!['k', 't', 's'] =~= "kts"@);
    lemma_extension_after_last_dot(prefix, seq!['r', 's']);
    lemma_extension_after_last_dot(prefix, seq!['p', 'y']);
    lemma_extension_after_last_dot(prefix, seq!['p', 'y', 'i']);
    lemma_extension_after_last_dot(prefix, seq!['r', 'b']);
    lemma_extension_after_last_dot(prefix, seq!['j', 's']);
    lemma_extension_after_last_dot(prefix, seq!['j', 's', 'x']);
    lemma_extension_after_last_dot(prefix, seq!['m', 'j', 's']);
    lemma_extension_after_last_dot(prefix, seq!['c', 'j', 's']);
    lemma_extension_after_last_dot(prefix, seq!['t', 's']);
    lemma_extension_after_last_dot(prefix, seq!['t', 's', 'x']);
    lemma_extension_after_last_dot(prefix, seq!['m', 't', 's']);
    lemma_extension_after_last_dot(prefix, seq!['c', 't', 's']);
    lemma_extension_after_last_dot(prefix, seq!['j', 'a', 'v', 'a']);
    lemma_extension_after_last_dot(prefix, seq!['c', 's']);
    lemma_extension_after_last_dot(prefix, seq!['c']);
    lemma_extension_after_last_dot(prefix, seq!['h']);
    lemma_extension_after_last_dot(prefix, seq!['c', 'c']);
    lemma_extension_after_last_dot(prefix, seq!['c', 'p', 'p']);
    lemma_extension_after_last_dot(prefix, seq!['c', 'x', 'x']);
    lemma_extension_after_last_dot(prefix, seq!['h', 'p', 'p']);
    lemma_extension_after_last_dot(prefix, seq!['h', 'h']);
    lemma_extension_after_last_dot(prefix, seq!['h', 'x', 'x']);
    lemma_extension_after_last_dot(prefix, seq!['g', 'o']);
    lemma_extension_after_last_dot(prefix, seq!['p', 'h', 'p']);
    lemma_extension_after_last_dot(prefix, seq!['s', 'w', 'i', 'f', 't']);
    lemma_extension_after_last_dot(prefix, seq!['k', 't']);
    lemma_extension_after_last_dot(prefix, seq!['k', 't', 's']);
}

fn language_of_ext_exec(e: &Vec<char>) -> (r: Language)
    ensures
        r == language_of_extension(e@),
{
    if word_is(e, "rs") {
        Language::Rust
    } else if word_is(e, "py") || word_is(e, "pyi") {
        Language::Python
    } else if word_is(e, "rb") {
        Language::Ruby
    } else if word_is(e, "js") || word_is(e, "jsx") || word_is(e, "mjs") || word_is(e, "cjs") {
        Language::JavaScript
    } else if word_is(e, "ts") || word_is(e, "tsx") || word_is(e, "mts") || word_is(e, "cts") {
        Language::TypeScript
    } else if word_is(e, "java") {
        Language::Java
    } else if word_is(e, "cs") {
        Language::CSharp
    } else if word_is(e, "c") || word_is(e, "h") || word_is(e, "cc") || word_is(e, "cpp")
        || word_is(e, "cxx") || word_is(e, "hpp") || word_is(e, "hh") || word_is(e, "hxx") {
        Language::Cpp
    } else if word_is(e, "go") {
        Language::Go
    } else if word_is(e, "php") {
        Language::Php
    } else if word_is(e, "swift") {
        Language::Swift
    } else if word_is(e, "kt") || word_is(e, "kts") {
        Language::Kotlin
    } else {
        Language::Unknown
    }
}

/// The language of the file at `path`, chosen by its extension; files
/// with no extension, or one not listed, are [`Language::Unknown`].
pub fn language_of_path(path: &str) -> (r: Language)
    ensures
        r == language_of(path@),
{
    let p = chars_of(path);
    let n = p.len();
    let mut j: usize = n;
    while j > 0 && p[j - 1] != '.' && p[j - 1] != '/' && p[j - 1] != '\\'
        invariant
            j <= n,
            n == p@.len(),
            ext_from(p@, n as int) == ext_from(p@, j as int),
        decreases j,
    {
        j = j - 1;
    }
    if j == 0 || p[j - 1] != '.' {
        return Language::Unknown;
    }
    let mut e: Vec<char> = Vec::new();
    let mut k: usize = j;
    while k < n
        invariant
            j <= k <= n,
            n == p@.len(),
            e@ == p@.subrange(j as int, k as int),
        decreases n - k,
    {
        e.push(p[k]);
        k = k + 1;
        assert(e@ =~= p@.subrange(j as int, k as int));
    }
    language_of_ext_exec(&e)
}

} // verus!
