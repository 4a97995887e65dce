//! Code items (classes and functions) found in a source file.
use vstd::prelude::*;
use crate::lang::{Language, language_of, language_of_path};
use crate::rust_syntax::rust_items;
pub use crate::rust_syntax::parse_rust_items;
use crate::scan::{scan, scan_items, scan_source, header, HeaderV};

verus! {

/// Whether a code item is a type-like unit (class, struct, enum, trait,
/// interface, union, record, protocol, actor) or a function or method.
#[derive(Debug, Clone, Copy, PartialEq, Eq, Structural)]
pub enum CodeItemKind {
    Class,
    Function,
}

/// One class or function of a source file: its name, its 1-based line, a
/// normalised text whose change marks a modification, and the type that
/// holds it, for methods.
#[derive(Debug, Clone, PartialEq, Eq)]
pub struct CodeItem {
    pub name: String,
    pub kind: CodeItemKind,
    pub line: Option<usize>,
    pub tokens: String,
    pub parent: Option<String>,
}

/// The value of a [`CodeItem`].
pub struct CodeItemView {
    pub name: Seq<char>,
    pub kind: CodeItemKind,
    pub line: Option<usize>,
    pub tokens: Seq<char>,
    pub parent: Option<Seq<char>>,
}

impl View for CodeItem {
    type V = CodeItemView;

    open spec fn view(&self) -> CodeItemView {
        CodeItemView {
            name: self.name@,
            kind: self.kind,
            line: self.line,
            tokens: self.tokens@,
            parent: crate::models::opt_string_view(self.parent),
        }
    }
}

/// The views of a sequence of items.
pub open spec fn items_view(items: Seq<CodeItem>) -> Seq<CodeItemView> {
    items.map_values(|c: CodeItem| c@)
}

pub proof fn lemma_items_view_push(s: Seq<CodeItem>, c: CodeItem)
    ensures
        items_view(s.push(c)) == items_view(s).push(c@),
{
    assert(items_view(s.push(c)) =~= items_view(s).push(c@));
}

/// The classes and functions of source text `s` written in `lang`: Rust
/// is parsed with `syn`; the other languages are read by the line scanner;
/// an unknown language has none.
pub open spec fn items_for(lang: Language, s: Seq<char>) -> Seq<CodeItemView> {
    if lang == Language::Rust {
        rust_items(s)
    } else {
        scan_source(lang, s)
    }
}

/// The classes and functions of the file at `path` with content `s`.
pub open spec fn items_for_path(path: Seq<char>, s: Seq<char>) -> Seq<CodeItemView> {
    items_for(language_of(path), s)
}

pub proof fn lemma_scan_unknown(ls: Seq<crate::text::LineV>, lo: int, hi: int, parent: Option<Seq<char>>)
    ensures
        scan(Language::Unknown, ls, lo, hi, parent) == Seq::<CodeItemView>::empty(),
    decreases hi - lo,
{
    if !(lo >= hi || lo < 0 || hi > ls.len()) {
        assert(header(Language::Unknown, ls[lo], parent is Some) == HeaderV::Plain);
        lemma_scan_unknown(ls, lo + 1, hi, parent);
    }
}

/// The classes and functions of `source`, read as `language`.
pub fn parse_items(source: &str, language: Language) -> (r: Vec<CodeItem>)
    ensures
        items_view(r@) == items_for(language, source@),
{
    match language {
        Language::Rust => parse_rust_items(source),
        Language::Unknown => {
            proof {
                lemma_scan_unknown(
                    crate::text::lines_v(source@),
                    0,
                    crate::text::lines_v(source@).len() as int,
                    None,
                );
            }
            let r: Vec<CodeItem> = Vec::new();
            assert(items_view(r@) =~= Seq::<CodeItemView>::empty());
            r
        },
        _ => scan_items(language, source),
    }
}

/// The classes and functions of the file at `path` whose content is
/// `source`; the language is chosen by the path's extension.
pub fn parse_items_for_path(path: &str, source: &str) -> (r: Vec<CodeItem>)
    ensures
        items_view(r@) == items_for_path(path@, source@),
{
    parse_items(source, language_of_path(path))
}

} // verus!
