//! Rust items, as the `syn` parser reads them.
//!
//! `syn` parses the file. Each parsed item is held in a [`SynNode`] that
//! also records where it stands: the parsed text and the path of indices
//! that leads to it (its index among the file's items, then among the items
//! of each inline module around it). The facts that `syn` reports of an item
//! are named as functions of that place; which of them make a class or a
//! function, and with which text, is decided below in verified code
//! ([`rust_items`]).
use vstd::prelude::*;
use crate::ast::{CodeItem, CodeItemKind, CodeItemView, items_view, lemma_items_view_push};
use crate::text::{chars_of, string_from_chars};
use quote::ToTokens;
use syn::spanned::Spanned;

verus! {

/// `syn::File`, a parsed Rust file; opaque here.
#[verifier::external_type_specification]
#[verifier::external_body]
pub struct ExSynFile(syn::File);

/// `syn::Item`, an item of a parsed Rust file; opaque here.
#[verifier::external_type_specification]
#[verifier::external_body]
pub struct ExSynItem(syn::Item);

/// A file parsed by `syn`, with the text it was parsed from. Only
/// [`parse_rust_file`] makes one.
pub struct SynFile {
    file: syn::File,
    source: Ghost<Seq<char>>,
}

impl View for SynFile {
    type V = Seq<char>;

    closed spec fn view(&self) -> Seq<char> {
        self.source@
    }
}

/// An item of a parsed file, with its place: the parsed text and the path
/// of indices that leads to it. Only [`file_item`] and [`mod_item`] make
/// one.
pub struct SynNode {
    item: syn::Item,
    at: Ghost<(Seq<char>, Seq<int>)>,
}

impl View for SynNode {
    type V = (Seq<char>, Seq<int>);

    closed spec fn view(&self) -> (Seq<char>, Seq<int>) {
        self.at@
    }
}

/// The kinds of `syn::Item` that the analyzer tells apart.
pub enum SynItemKind {
    Struct,
    Enum,
    Union,
    Trait,
    Fn,
    Impl,
    Mod,
    Other,
}

/// The name, 1-based starting line and printed token stream of a
/// function.
pub struct RustHead {
    pub name: String,
    pub line: usize,
    pub tokens: String,
}

/// An item of an `impl` or `trait` block: a function, or anything else
/// with its printed token stream.
pub enum RustMember {
    Fn(RustHead),
    Other(String),
}

/// The value of a [`RustMember`].
pub enum RustMemberView {
    Fn(Seq<char>, usize, Seq<char>),
    Other(Seq<char>),
}

impl View for RustMember {
    type V = RustMemberView;

    open spec fn view(&self) -> RustMemberView {
        match self {
            RustMember::Fn(h) => RustMemberView::Fn(h.name@, h.line, h.tokens@),
            RustMember::Other(t) => RustMemberView::Other(t@),
        }
    }
}

/// The attributes of a trait (doc comments among them), each printed, and
/// the parts of its definition outside its braces, each printed as a token
/// stream (empty where absent).
#[derive(Default)]
pub struct TraitHead {
    pub attrs: Vec<String>,
    pub vis: String,
    pub unsafety: String,
    pub auto_token: String,
    pub ident: String,
    pub generics: String,
    pub supertraits: String,
    pub where_clause: String,
}

/// The value of a [`TraitHead`].
pub struct TraitHeadView {
    pub attrs: Seq<Seq<char>>,
    pub vis: Seq<char>,
    pub unsafety: Seq<char>,
    pub auto_token: Seq<char>,
    pub ident: Seq<char>,
    pub generics: Seq<char>,
    pub supertraits: Seq<char>,
    pub where_clause: Seq<char>,
}

impl View for TraitHead {
    type V = TraitHeadView;

    open spec fn view(&self) -> TraitHeadView {
        TraitHeadView {
            attrs: self.attrs@.map_values(|a: String| a@),
            vis: self.vis@,
            unsafety: self.unsafety@,
            auto_token: self.auto_token@,
            ident: self.ident@,
            generics: self.generics@,
            supertraits: self.supertraits@,
            where_clause: self.where_clause@,
        }
    }
}

// ------------------------------------------------- what syn reports

/// The number of items of `syn::parse_file(source)`; `None` when it does
/// not parse.
pub uninterp spec fn parsed_len(source: Seq<char>) -> Option<nat>;

/// The variant of the item at `path` in the parse of `source`.
pub uninterp spec fn kind_at(source: Seq<char>, path: Seq<int>) -> SynItemKind;

/// The identifier of the item at `path`, printed, for a struct, enum,
/// union, trait or function; empty for other items.
pub uninterp spec fn ident_at(source: Seq<char>, path: Seq<int>) -> Seq<char>;

/// The line on which the span of the item at `path` starts.
pub uninterp spec fn line_at(source: Seq<char>, path: Seq<int>) -> usize;

/// The item at `path`, printed as a token stream.
pub uninterp spec fn tokens_at(source: Seq<char>, path: Seq<int>) -> Seq<char>;

/// The self type of the `impl` item at `path`, printed.
pub uninterp spec fn self_ty_at(source: Seq<char>, path: Seq<int>) -> Seq<char>;

/// The attributes and the parts outside the braces of the trait at `path`,
/// printed.
pub uninterp spec fn trait_head_at(source: Seq<char>, path: Seq<int>) -> TraitHeadView;

/// The number of items of the `impl` block at `path` (0 for other items).
pub uninterp spec fn impl_len_at(source: Seq<char>, path: Seq<int>) -> nat;

/// Item `j` of the `impl` block at `path`.
pub uninterp spec fn impl_member_at(source: Seq<char>, path: Seq<int>, j: int) -> RustMemberView;

/// The number of items of the trait at `path` (0 for other items).
pub uninterp spec fn trait_len_at(source: Seq<char>, path: Seq<int>) -> nat;

/// Item `j` of the trait at `path`.
pub uninterp spec fn trait_member_at(source: Seq<char>, path: Seq<int>, j: int) -> RustMemberView;

/// The number of inline items of the module at `path`; `None` for
/// `mod m;` and for other items.
pub uninterp spec fn mod_len_at(source: Seq<char>, path: Seq<int>) -> Option<nat>;

/// Parses `source` with `syn::parse_file`.
///
/// Trusted: `None` exactly when `syn::parse_file` returns an error; the file
/// remembers the text it was parsed from.
#[verifier::external_body]
fn parse_rust_file(source: &str) -> (r: Option<SynFile>)
    ensures
        r is Some <==> parsed_len(source@) is Some,
        r matches Some(f) ==> f@ == source@,
{
    syn::parse_file(source).ok().map(|file| SynFile { file, source: Ghost(source@) })
}

/// The number of items of a parsed file (`items.len()`).
#[verifier::external_body]
fn file_len(f: &SynFile) -> (r: usize)
    ensures
        parsed_len(f@) == Some(r as nat),
{
    f.file.items.len()
}

/// Item `i` of a parsed file, with its place.
#[verifier::external_body]
fn file_item(f: &SynFile, i: usize) -> (r: SynNode)
    requires
        parsed_len(f@) matches Some(k) && i < k,
    ensures
        r@ == (f@, Seq::<int>::empty().push(i as int)),
{
    SynNode { item: f.file.items[i].clone(), at: Ghost((f.source@, Seq::<int>::empty().push(i as int))) }
}

/// Which kind of item `n` is (`syn::Item`'s variant).
#[verifier::external_body]
fn item_kind(n: &SynNode) -> (r: SynItemKind)
    ensures
        r == kind_at(n@.0, n@.1),
{
    match &n.item {
        syn::Item::Struct(_) => SynItemKind::Struct,
        syn::Item::Enum(_) => SynItemKind::Enum,
        syn::Item::Union(_) => SynItemKind::Union,
        syn::Item::Trait(_) => SynItemKind::Trait,
        syn::Item::Fn(_) => SynItemKind::Fn,
        syn::Item::Impl(_) => SynItemKind::Impl,
        syn::Item::Mod(_) => SynItemKind::Mod,
        _ => SynItemKind::Other,
    }
}

/// The identifier of a struct, enum, union, trait or function item
/// (`ident.to_string()`); empty for other items.
#[verifier::external_body]
fn item_ident(n: &SynNode) -> (r: String)
    ensures
        r@ == ident_at(n@.0, n@.1),
{
    match &n.item {
        syn::Item::Struct(s) => s.ident.to_string(),
        syn::Item::Enum(e) => e.ident.to_string(),
        syn::Item::Union(u) => u.ident.to_string(),
        syn::Item::Trait(t) => t.ident.to_string(),
        syn::Item::Fn(f) => f.sig.ident.to_string(),
        _ => String::new(),
    }
}

/// The line on which the item's span starts (`span().start().line`).
#[verifier::external_body]
fn item_line(n: &SynNode) -> (r: usize)
    ensures
        r == line_at(n@.0, n@.1),
{
    n.item.span().start().line
}

/// The item printed as a token stream (`to_token_stream().to_string()`).
#[verifier::external_body]
fn item_tokens(n: &SynNode) -> (r: String)
    ensures
        r@ == tokens_at(n@.0, n@.1),
{
    n.item.to_token_stream().to_string()
}

/// The self type of an `impl` item, printed; empty for other items.
#[verifier::external_body]
fn impl_self_ty(n: &SynNode) -> (r: String)
    ensures
        r@ == self_ty_at(n@.0, n@.1),
{
    match &n.item {
        syn::Item::Impl(i) => i.self_ty.to_token_stream().to_string(),
        _ => String::new(),
    }
}

/// The attributes of a trait item and its fields outside its braces, each
/// printed; all empty for other items.
#[verifier::external_body]
fn trait_head(n: &SynNode) -> (r: TraitHead)
    ensures
        r@ == trait_head_at(n@.0, n@.1),
{
    match &n.item {
        syn::Item::Trait(t) => TraitHead {
            attrs: t.attrs.iter().map(|a| a.to_token_stream().to_string()).collect(),
            vis: t.vis.to_token_stream().to_string(),
            unsafety: t.unsafety.to_token_stream().to_string(),
            auto_token: t.auto_token.to_token_stream().to_string(),
            ident: t.ident.to_token_stream().to_string(),
            generics: t.generics.to_token_stream().to_string(),
            supertraits: t.supertraits.to_token_stream().to_string(),
            where_clause: t.generics.where_clause.to_token_stream().to_string(),
        },
        _ => TraitHead::default(),
    }
}

/// The number of items of an `impl` block (`items.len()`); 0 for other
/// items.
#[verifier::external_body]
fn impl_len(n: &SynNode) -> (r: usize)
    ensures
        r == impl_len_at(n@.0, n@.1),
{
    match &n.item {
        syn::Item::Impl(i) => i.items.len(),
        _ => 0,
    }
}

/// Item `j` of an `impl` block: a function with its name, line and printed
/// tokens, or another item printed.
#[verifier::external_body]
fn impl_member(n: &SynNode, j: usize) -> (r: RustMember)
    requires
        j < impl_len_at(n@.0, n@.1),
    ensures
        r@ == impl_member_at(n@.0, n@.1, j as int),
{
    let items: &[syn::ImplItem] = match &n.item {
        syn::Item::Impl(i) => &i.items,
        _ => &[],
    };
    match &items[j] {
        syn::ImplItem::Fn(f) => RustMember::Fn(
            RustHead {
                name: f.sig.ident.to_string(),
                line: f.span().start().line,
                tokens: f.to_token_stream().to_string(),
            },
        ),
        m => RustMember::Other(m.to_token_stream().to_string()),
    }
}

/// The number of items of a trait (`items.len()`); 0 for other items.
#[verifier::external_body]
fn trait_len(n: &SynNode) -> (r: usize)
    ensures
        r == trait_len_at(n@.0, n@.1),
{
    match &n.item {
        syn::Item::Trait(t) => t.items.len(),
        _ => 0,
    }
}

/// Item `j` of a trait: a function with its name, line and printed tokens,
/// or another item printed.
#[verifier::external_body]
fn trait_member(n: &SynNode, j: usize) -> (r: RustMember)
    requires
        j < trait_len_at(n@.0, n@.1),
    ensures
        r@ == trait_member_at(n@.0, n@.1, j as int),
{
    let items: &[syn::TraitItem] = match &n.item {
        syn::Item::Trait(t) => &t.items,
        _ => &[],
    };
    match &items[j] {
        syn::TraitItem::Fn(f) => RustMember::Fn(
            RustHead {
                name: f.sig.ident.to_string(),
                line: f.span().start().line,
                tokens: f.to_token_stream().to_string(),
            },
        ),
        m => RustMember::Other(m.to_token_stream().to_string()),
    }
}

/// The number of inline items of a module (`content`'s items); `None` for
/// `mod m;` and for other items.
#[verifier::external_body]
fn mod_len(n: &SynNode) -> (r: Option<usize>)
    ensures
        r matches Some(k) ==> mod_len_at(n@.0, n@.1) == Some(k as nat),
        r is None ==> mod_len_at(n@.0, n@.1) is None,
{
    match &n.item {
        syn::Item::Mod(m) => m.content.as_ref().map(|c| c.1.len()),
        _ => None,
    }
}

/// Inline item `j` of a module, with its place.
#[verifier::external_body]
fn mod_item(n: &SynNode, j: usize) -> (r: SynNode)
    requires
        mod_len_at(n@.0, n@.1) matches Some(k) && j < k,
    ensures
        r@ == (n@.0, n@.1.push(j as int)),
{
    let items: &[syn::Item] = match &n.item {
        syn::Item::Mod(syn::ItemMod { content: Some((_, v)), .. }) => v,
        _ => &[],
    };
    SynNode { item: items[j].clone(), at: Ghost((n.at@.0, n.at@.1.push(j as int))) }
}

// ------------------------------------------------- the analyzer's reading

pub open spec fn head_item(
    name: Seq<char>,
    line: usize,
    tokens: Seq<char>,
    kind: CodeItemKind,
    parent: Option<Seq<char>>,
) -> CodeItemView {
    CodeItemView { name, kind, line: Some(line), tokens, parent }
}

/// Member `j` of the trait (`is_trait`) or `impl` block at `path`.
pub open spec fn member_at(source: Seq<char>, path: Seq<int>, j: int, is_trait: bool) -> RustMemberView {
    if is_trait {
        trait_member_at(source, path, j)
    } else {
        impl_member_at(source, path, j)
    }
}

/// The functions among the first `n` members of the trait or `impl` block
/// at `path`, as methods of `parent`; other members give no item.
pub open spec fn member_items(source: Seq<char>, path: Seq<int>, n: nat, is_trait: bool, parent: Seq<char>) -> Seq<
    CodeItemView,
>
    decreases n,
{
    if n == 0 {
        Seq::<CodeItemView>::empty()
    } else {
        member_items(source, path, (n - 1) as nat, is_trait, parent) + match member_at(
            source,
            path,
            n - 1,
            is_trait,
        ) {
            RustMemberView::Fn(name, line, tokens) => seq![
                head_item(name, line, tokens, CodeItemKind::Function, Some(parent)),
            ],
            RustMemberView::Other(_) => Seq::<CodeItemView>::empty(),
        }
    }
}

/// The printed attributes `attrs`, each followed by a space.
pub open spec fn attrs_text(attrs: Seq<Seq<char>>) -> Seq<char>
    decreases attrs.len(),
{
    if attrs.len() == 0 {
        Seq::<char>::empty()
    } else {
        attrs_text(attrs.drop_last()) + attrs.last() + seq![' ']
    }
}

/// The printed attributes and parts of a trait's definition outside its
/// braces, each followed by a space.
pub open spec fn trait_head_text(h: TraitHeadView) -> Seq<char> {
    attrs_text(h.attrs) + h.vis + seq![' '] + h.unsafety + seq![' '] + h.auto_token + seq![' '] + h.ident + seq![' ']
        + h.generics + seq![' '] + h.supertraits + seq![' '] + h.where_clause + seq![' ']
}

/// The printed items among the first `n` items of the trait at `path` that
/// are not functions, each followed by a space.
pub open spec fn trait_other_text(source: Seq<char>, path: Seq<int>, n: nat) -> Seq<char>
    decreases n,
{
    if n == 0 {
        Seq::<char>::empty()
    } else {
        trait_other_text(source, path, (n - 1) as nat) + match trait_member_at(source, path, n - 1) {
            RustMemberView::Other(t) => t + seq![' '],
            RustMemberView::Fn(_, _, _) => Seq::<char>::empty(),
        }
    }
}

/// The text whose change marks a trait as modified: its attributes (doc
/// comments among them), its definition outside the braces and its items
/// other than functions. The functions are items
/// of their own, so an edit inside one modifies that function alone.
pub open spec fn trait_text(source: Seq<char>, path: Seq<int>) -> Seq<char> {
    trait_head_text(trait_head_at(source, path)) + trait_other_text(
        source,
        path,
        trait_len_at(source, path),
    )
}

/// The code items of the item at `path`: a struct, enum or union is a
/// class whose text is the whole item; a trait is a class whose text is
/// [`trait_text`], followed by its functions as methods of the trait; a
/// free function is a function; the functions of an `impl` block are
/// methods of its self type; an inline module contributes its own items
/// (to `fuel` levels of nesting); other items give none.
pub open spec fn node_items(source: Seq<char>, path: Seq<int>, fuel: nat) -> Seq<CodeItemView>
    decreases fuel, 0nat, 0nat,
{
    let name = ident_at(source, path);
    let line = line_at(source, path);
    match kind_at(source, path) {
        SynItemKind::Struct => seq![
            head_item(name, line, tokens_at(source, path), CodeItemKind::Class, None),
        ],
        SynItemKind::Enum => seq![
            head_item(name, line, tokens_at(source, path), CodeItemKind::Class, None),
        ],
        SynItemKind::Union => seq![
            head_item(name, line, tokens_at(source, path), CodeItemKind::Class, None),
        ],
        SynItemKind::Trait => seq![
            head_item(name, line, trait_text(source, path), CodeItemKind::Class, None),
        ] + member_items(source, path, trait_len_at(source, path), true, name),
        SynItemKind::Fn => seq![
            head_item(name, line, tokens_at(source, path), CodeItemKind::Function, None),
        ],
        SynItemKind::Impl => member_items(
            source,
            path,
            impl_len_at(source, path),
            false,
            self_ty_at(source, path),
        ),
        SynItemKind::Mod => match mod_len_at(source, path) {
            Some(k) => if fuel == 0 {
                Seq::<CodeItemView>::empty()
            } else {
                level_items(source, path, k, (fuel - 1) as nat)
            },
            None => Seq::<CodeItemView>::empty(),
        },
        SynItemKind::Other => Seq::<CodeItemView>::empty(),
    }
}

/// The code items of the first `k` items under `path` (the file's items
/// when `path` is empty, a module's otherwise), in order.
pub open spec fn level_items(source: Seq<char>, path: Seq<int>, k: nat, fuel: nat) -> Seq<CodeItemView>
    decreases fuel, 1nat, k,
{
    if k == 0 {
        Seq::<CodeItemView>::empty()
    } else {
        level_items(source, path, (k - 1) as nat, fuel) + node_items(source, path.push(k - 1), fuel)
    }
}

/// The code items of a Rust source text; none when it does not parse.
/// Inline modules are followed to `usize::MAX` levels, more than any text
/// can nest.
pub open spec fn rust_items(source: Seq<char>) -> Seq<CodeItemView> {
    match parsed_len(source) {
        Some(k) => level_items(source, Seq::<int>::empty(), k, usize::MAX as nat),
        None => Seq::<CodeItemView>::empty(),
    }
}

/// Whether the item at `path` is a struct, enum, union or function: an
/// item whose code item carries its whole printed token stream.
pub open spec fn is_whole_text_kind(k: SynItemKind) -> bool {
    k == SynItemKind::Struct || k == SynItemKind::Enum || k == SynItemKind::Union || k
        == SynItemKind::Fn
}

/// A Rust file that parses to a single struct, enum, union or function has
/// exactly one code item: named by the item's identifier, on the item's
/// line, with no parent, a function for `fn` and a class otherwise, whose
/// text is the item's whole printed token stream (a struct's fields, an
/// enum's variants, a function's body all included).
pub proof fn lemma_single_item_file(source: Seq<char>)
    requires
        parsed_len(source) == Some(1nat),
        is_whole_text_kind(kind_at(source, seq![0int])),
    ensures
        rust_items(source) == seq![
            CodeItemView {
                name: ident_at(source, seq![0int]),
                kind: if kind_at(source, seq![0int]) == SynItemKind::Fn {
                    CodeItemKind::Function
                } else {
                    CodeItemKind::Class
                },
                line: Some(line_at(source, seq![0int])),
                tokens: tokens_at(source, seq![0int]),
                parent: None,
            },
        ],
{
    let top = Seq::<int>::empty();
    assert(top.push(0) =~= seq![0int]);
    assert(level_items(source, top, 0, usize::MAX as nat) == Seq::<CodeItemView>::empty());
    let items = level_items(source, top, 1, usize::MAX as nat);
    assert(items == Seq::<CodeItemView>::empty() + node_items(source, seq![0int], usize::MAX as nat));
    assert(items =~= node_items(source, seq![0int], usize::MAX as nat));
}

proof fn lemma_member_items_all_fns(source: Seq<char>, path: Seq<int>, n: nat, is_trait: bool, parent: Seq<char>)
    requires
        forall|j: int| 0 <= j < n ==> #[trigger] member_at(source, path, j, is_trait) is Fn,
    ensures
        member_items(source, path, n, is_trait, parent).len() == n,
        forall|j: int|
            0 <= j < n ==> #[trigger] member_items(source, path, n, is_trait, parent)[j] == (match member_at(
                source,
                path,
                j,
                is_trait,
            ) {
                RustMemberView::Fn(name, line, tokens) => CodeItemView {
                    name,
                    kind: CodeItemKind::Function,
                    line: Some(line),
                    tokens,
                    parent: Some(parent),
                },
                RustMemberView::Other(_) => CodeItemView {
                    name: Seq::empty(),
                    kind: CodeItemKind::Class,
                    line: None,
                    tokens: Seq::empty(),
                    parent: None,
                },
            }),
    decreases n,
{
    if n > 0 {
        lemma_member_items_all_fns(source, path, (n - 1) as nat, is_trait, parent);
        assert(member_at(source, path, n - 1, is_trait) is Fn);
    }
}

/// The functions of an `impl` block are its methods: in a file that parses
/// to a single `impl` block all of whose items are functions, the code items
/// are those functions, one for each, in order, each with its name, line
/// and printed text, and with the block's self type as parent.
pub proof fn lemma_impl_methods(source: Seq<char>)
    requires
        parsed_len(source) == Some(1nat),
        kind_at(source, seq![0int]) == SynItemKind::Impl,
        forall|j: int|
            0 <= j < impl_len_at(source, seq![0int]) ==> #[trigger] impl_member_at(source, seq![0int], j) is Fn,
    ensures
        rust_items(source).len() == impl_len_at(source, seq![0int]),
        forall|j: int|
            0 <= j < impl_len_at(source, seq![0int]) ==> (#[trigger] rust_items(source)[j]).kind
                == CodeItemKind::Function && rust_items(source)[j].parent == Some(
                self_ty_at(source, seq![0int]),
            ) && impl_member_at(source, seq![0int], j) == RustMemberView::Fn(
                rust_items(source)[j].name,
                rust_items(source)[j].line.unwrap(),
                rust_items(source)[j].tokens,
            ),
{
    let p = seq![0int];
    let top = Seq::<int>::empty();
    assert(top.push(0) =~= p);
    assert(level_items(source, top, 0, usize::MAX as nat) == Seq::<CodeItemView>::empty());
    assert(rust_items(source) =~= node_items(source, p, usize::MAX as nat));
    let len = impl_len_at(source, p);
    assert forall|j: int| 0 <= j < len implies #[trigger] member_at(source, p, j, false) is Fn by {
        assert(impl_member_at(source, p, j) is Fn);
    }
    lemma_member_items_all_fns(source, p, len, false, self_ty_at(source, p));
}

proof fn lemma_trait_other_text_same(a: Seq<char>, pa: Seq<int>, b: Seq<char>, pb: Seq<int>, n: nat)
    requires
        forall|j: int|
            0 <= j < n ==> (#[trigger] trait_member_at(a, pa, j) is Fn <==> trait_member_at(b, pb, j) is Fn)
                && (trait_member_at(a, pa, j) is Other ==> trait_member_at(a, pa, j) == trait_member_at(b, pb, j)),
    ensures
        trait_other_text(a, pa, n) == trait_other_text(b, pb, n),
    decreases n,
{
    if n > 0 {
        lemma_trait_other_text_same(a, pa, b, pb, (n - 1) as nat);
        assert(trait_member_at(a, pa, n - 1) is Fn <==> trait_member_at(b, pb, n - 1) is Fn);
    }
}

/// A trait's text does not depend on its functions: two traits with the
/// same attributes and definition outside their braces, and the same items
/// in the same places except that the functions may differ in any way
/// (bodies, signatures, names), have the same text, so an edit inside a
/// trait's function leaves the trait unmodified.
pub proof fn lemma_trait_text_ignores_functions(a: Seq<char>, pa: Seq<int>, b: Seq<char>, pb: Seq<int>, fuel: nat)
    requires
        kind_at(a, pa) == SynItemKind::Trait,
        kind_at(b, pb) == SynItemKind::Trait,
        trait_head_at(a, pa) == trait_head_at(b, pb),
        trait_len_at(a, pa) == trait_len_at(b, pb),
        forall|j: int|
            0 <= j < trait_len_at(a, pa) ==> (#[trigger] trait_member_at(a, pa, j) is Fn
                <==> trait_member_at(b, pb, j) is Fn) && (trait_member_at(a, pa, j) is Other
                ==> trait_member_at(a, pa, j) == trait_member_at(b, pb, j)),
    ensures
        node_items(a, pa, fuel).len() > 0,
        node_items(b, pb, fuel).len() > 0,
        node_items(a, pa, fuel)[0].kind == CodeItemKind::Class,
        node_items(a, pa, fuel)[0].tokens == node_items(b, pb, fuel)[0].tokens,
{
    lemma_trait_other_text_same(a, pa, b, pb, trait_len_at(a, pa));
}

fn push_item(out: &mut Vec<CodeItem>, c: CodeItem)
    ensures
        final(out)@ == old(out)@.push(c),
        items_view(final(out)@) == items_view(old(out)@).push(c@),
{
    let ghost g = c;
    out.push(c);
    proof {
        lemma_items_view_push(old(out)@, g);
    }
}

fn append_str(acc: &mut Vec<char>, s: &str)
    ensures
        final(acc)@ == old(acc)@ + s@,
{
    let cs = chars_of(s);
    let mut i: usize = 0;
    while i < cs.len()
        invariant
            i <= cs@.len(),
            cs@ == s@,
            acc@ == old(acc)@ + cs@.take(i as int),
        decreases cs@.len() - i,
    {
        acc.push(cs[i]);
        i = i + 1;
        assert(acc@ =~= old(acc)@ + cs@.take(i as int));
    }
    assert(cs@.take(i as int) =~= cs@);
}

fn append_word(acc: &mut Vec<char>, s: &String)
    ensures
        final(acc)@ == old(acc)@ + s@ + seq![' '],
{
    append_str(acc, s.as_str());
    acc.push(' ');
}

/// The text of the trait at `n`'s place (see [`trait_text`]).
fn trait_text_of(n: &SynNode) -> (r: String)
    ensures
        r@ == trait_text(n@.0, n@.1),
{
    let h = trait_head(n);
    let mut acc: Vec<char> = Vec::new();
    let mut a: usize = 0;
    while a < h.attrs.len()
        invariant
            a <= h.attrs@.len(),
            acc@ == attrs_text(h@.attrs.take(a as int)),
        decreases h.attrs@.len() - a,
    {
        append_word(&mut acc, &h.attrs[a]);
        a = a + 1;
        assert(h@.attrs.take(a as int).drop_last() =~= h@.attrs.take(a - 1));
    }
    assert(h@.attrs.take(a as int) =~= h@.attrs);
    append_word(&mut acc, &h.vis);
    append_word(&mut acc, &h.unsafety);
    append_word(&mut acc, &h.auto_token);
    append_word(&mut acc, &h.ident);
    append_word(&mut acc, &h.generics);
    append_word(&mut acc, &h.supertraits);
    append_word(&mut acc, &h.where_clause);
    assert(acc@ =~= trait_head_text(h@));
    let len = trait_len(n);
    let mut j: usize = 0;
    while j < len
        invariant
            j <= len,
            len == trait_len_at(n@.0, n@.1),
            acc@ == trait_head_text(trait_head_at(n@.0, n@.1)) + trait_other_text(n@.0, n@.1, j as nat),
        decreases len - j,
    {
        match trait_member(n, j) {
            RustMember::Other(t) => {
                append_word(&mut acc, &t);
            },
            RustMember::Fn(_) => {},
        }
        j = j + 1;
        assert(acc@ =~= trait_head_text(trait_head_at(n@.0, n@.1)) + trait_other_text(
            n@.0,
            n@.1,
            j as nat,
        ));
    }
    string_from_chars(acc.as_slice())
}

/// Appends the functions among the members of the trait (`is_trait`) or
/// `impl` block at `n`'s place, as methods of `parent`.
fn push_members(n: &SynNode, is_trait: bool, parent: &String, out: &mut Vec<CodeItem>)
    ensures
        items_view(final(out)@) == items_view(old(out)@) + member_items(
            n@.0,
            n@.1,
            if is_trait {
                trait_len_at(n@.0, n@.1)
            } else {
                impl_len_at(n@.0, n@.1)
            },
            is_trait,
            parent@,
        ),
{
    let len = if is_trait {
        trait_len(n)
    } else {
        impl_len(n)
    };
    let mut j: usize = 0;
    while j < len
        invariant
            j <= len,
            len == (if is_trait {
                trait_len_at(n@.0, n@.1)
            } else {
                impl_len_at(n@.0, n@.1)
            }),
            items_view(out@) == items_view(old(out)@) + member_items(n@.0, n@.1, j as nat, is_trait, parent@),
        decreases len - j,
    {
        let m = if is_trait {
            trait_member(n, j)
        } else {
            impl_member(n, j)
        };
        match m {
            RustMember::Fn(h) => {
                let c = CodeItem {
                    name: h.name,
                    kind: CodeItemKind::Function,
                    line: Some(h.line),
                    tokens: h.tokens,
                    parent: Some(parent.clone()),
                };
                push_item(out, c);
            },
            RustMember::Other(_) => {},
        }
        j = j + 1;
        assert(items_view(out@) =~= items_view(old(out)@) + member_items(
            n@.0,
            n@.1,
            j as nat,
            is_trait,
            parent@,
        ));
    }
}

fn class_item(name: String, line: usize, tokens: String) -> (c: CodeItem)
    ensures
        c@ == head_item(name@, line, tokens@, CodeItemKind::Class, None),
{
    CodeItem { name, kind: CodeItemKind::Class, line: Some(line), tokens, parent: None }
}

/// Appends the code items of the item at `n`'s place (see [`node_items`]).
fn push_node_items(n: &SynNode, fuel: usize, out: &mut Vec<CodeItem>)
    ensures
        items_view(final(out)@) == items_view(old(out)@) + node_items(n@.0, n@.1, fuel as nat),
    decreases fuel, 0nat,
{
    match item_kind(n) {
        SynItemKind::Struct | SynItemKind::Enum | SynItemKind::Union => {
            push_item(out, class_item(item_ident(n), item_line(n), item_tokens(n)));
        },
        SynItemKind::Trait => {
            let name = item_ident(n);
            let c = class_item(name.clone(), item_line(n), trait_text_of(n));
            push_item(out, c);
            push_members(n, true, &name, out);
            assert(items_view(out@) =~= items_view(old(out)@) + node_items(n@.0, n@.1, fuel as nat));
        },
        SynItemKind::Fn => {
            let c = CodeItem {
                name: item_ident(n),
                kind: CodeItemKind::Function,
                line: Some(item_line(n)),
                tokens: item_tokens(n),
                parent: None,
            };
            push_item(out, c);
        },
        SynItemKind::Impl => {
            let ty = impl_self_ty(n);
            push_members(n, false, &ty, out);
        },
        SynItemKind::Mod => {
            match mod_len(n) {
                Some(k) => {
                    if fuel == 0 {
                        assert(items_view(out@) =~= items_view(old(out)@) + node_items(
                            n@.0,
                            n@.1,
                            fuel as nat,
                        ));
                    } else {
                        let mut subs: Vec<SynNode> = Vec::new();
                        let mut j: usize = 0;
                        while j < k
                            invariant
                                j <= k,
                                mod_len_at(n@.0, n@.1) == Some(k as nat),
                                subs@.len() == j,
                                forall|i: int| 0 <= i < j ==> #[trigger] subs@[i]@ == (n@.0, n@.1.push(i)),
                            decreases k - j,
                        {
                            subs.push(mod_item(n, j));
                            j = j + 1;
                        }
                        collect_items(&subs, Ghost(n@.0), Ghost(n@.1), fuel - 1, out);
                    }
                },
                None => {
                    assert(items_view(out@) =~= items_view(old(out)@) + node_items(
                        n@.0,
                        n@.1,
                        fuel as nat,
                    ));
                },
            }
        },
        SynItemKind::Other => {
            assert(items_view(out@) =~= items_view(old(out)@) + node_items(n@.0, n@.1, fuel as nat));
        },
    }
}

/// Appends the code items of `items`, the items under `path` in the parse
/// of `source`, in order (see [`level_items`]).
fn collect_items(
    items: &Vec<SynNode>,
    Ghost(source): Ghost<Seq<char>>,
    Ghost(path): Ghost<Seq<int>>,
    fuel: usize,
    out: &mut Vec<CodeItem>,
)
    requires
        forall|i: int| 0 <= i < items@.len() ==> #[trigger] items@[i]@ == (source, path.push(i)),
    ensures
        items_view(final(out)@) == items_view(old(out)@) + level_items(
            source,
            path,
            items@.len(),
            fuel as nat,
        ),
    decreases fuel, 1nat,
{
    let mut k: usize = 0;
    assert(items_view(out@) =~= items_view(old(out)@) + level_items(source, path, 0, fuel as nat));
    while k < items.len()
        invariant
            k <= items@.len(),
            forall|i: int| 0 <= i < items@.len() ==> #[trigger] items@[i]@ == (source, path.push(i)),
            items_view(out@) == items_view(old(out)@) + level_items(source, path, k as nat, fuel as nat),
        decreases items@.len() - k,
    {
        assert(items@[k as int]@ == (source, path.push(k as int)));
        push_node_items(&items[k], fuel, out);
        k = k + 1;
        assert(items_view(out@) =~= items_view(old(out)@) + level_items(
            source,
            path,
            k as nat,
            fuel as nat,
        ));
    }
}

/// The classes and functions of a Rust source file, found by parsing it
/// with `syn`; none when it does not parse.
pub fn parse_rust_items(source: &str) -> (r: Vec<CodeItem>)
    ensures
        items_view(r@) == rust_items(source@),
{
    let mut out: Vec<CodeItem> = Vec::new();
    match parse_rust_file(source) {
        Some(f) => {
            let len = file_len(&f);
            let mut tops: Vec<SynNode> = Vec::new();
            let mut i: usize = 0;
            while i < len
                invariant
                    i <= len,
                    parsed_len(f@) == Some(len as nat),
                    tops@.len() == i,
                    forall|j: int|
                        0 <= j < i ==> #[trigger] tops@[j]@ == (f@, Seq::<int>::empty().push(j)),
                decreases len - i,
            {
                tops.push(file_item(&f, i));
                i = i + 1;
            }
            collect_items(&tops, Ghost(f@), Ghost(Seq::<int>::empty()), usize::MAX, &mut out);
            assert(items_view(Seq::<CodeItem>::empty()) + level_items(
                source@,
                Seq::<int>::empty(),
                len as nat,
                usize::MAX as nat,
            ) =~= rust_items(source@));
        },
        None => {
            assert(items_view(out@) =~= Seq::<CodeItemView>::empty());
        },
    }
    out
}

} // verus!
