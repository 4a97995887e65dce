//! Edit events of one file: comparing the items of two versions, and the
//! file-level event that precedes them.
use vstd::prelude::*;
use crate::ast::{CodeItem, CodeItemKind, CodeItemView, items_view, items_for_path, parse_items_for_path};
use crate::models::{EditEvent, EditEventView, EditKind, events_view, opt_string_view, string_of_str};
use crate::text::{chars_of, chars_equal};
use crate::lang::{Language, language_of};
use crate::rust_syntax::{SynItemKind, parsed_len, kind_at, ident_at, line_at, tokens_at, rust_items, is_whole_text_kind, lemma_single_item_file};

verus! {

// ---------------------------------------------------------------- spec

pub open spec fn added_kind(k: CodeItemKind) -> EditKind {
    match k {
        CodeItemKind::Class => EditKind::ClassAdded,
        CodeItemKind::Function => EditKind::FunctionAdded,
    }
}

pub open spec fn modified_kind(k: CodeItemKind) -> EditKind {
    match k {
        CodeItemKind::Class => EditKind::ClassModified,
        CodeItemKind::Function => EditKind::FunctionModified,
    }
}

pub open spec fn deleted_kind(k: CodeItemKind) -> EditKind {
    match k {
        CodeItemKind::Class => EditKind::ClassDeleted,
        CodeItemKind::Function => EditKind::FunctionDeleted,
    }
}

/// The event of kind `kind` about item `it` of `file`.
pub open spec fn item_event(kind: EditKind, it: CodeItemView, file: Seq<char>) -> EditEventView {
    EditEventView { kind, symbol: Some(it.name), file, line: it.line }
}

/// The file-level event of kind `kind` about `file`.
pub open spec fn file_event(kind: EditKind, file: Seq<char>) -> EditEventView {
    EditEventView { kind, symbol: None, file, line: None }
}

/// Whether old item `o` may stand for new item `n`: same kind and name,
/// and, when `strict`, the same parent.
pub open spec fn same_key(o: CodeItemView, n: CodeItemView, strict: bool) -> bool {
    o.kind == n.kind && o.name == n.name && (strict ==> o.parent == n.parent)
}

/// The first old item at or after `j`, not yet matched, that may stand
/// for `n`.
pub open spec fn find_from(
    old: Seq<CodeItemView>,
    matched: Seq<bool>,
    n: CodeItemView,
    strict: bool,
    j: int,
) -> Option<int>
    decreases old.len() - j,
{
    if j < 0 || j >= old.len() {
        None
    } else if !matched[j] && same_key(old[j], n, strict) {
        Some(j)
    } else {
        find_from(old, matched, n, strict, j + 1)
    }
}

/// The old item matched to `n`: the first unmatched one with the same kind,
/// name and parent; failing that, the first with the same kind and name.
pub open spec fn match_for(old: Seq<CodeItemView>, matched: Seq<bool>, n: CodeItemView) -> Option<int> {
    match find_from(old, matched, n, true, 0) {
        Some(j) => Some(j),
        None => find_from(old, matched, n, false, 0),
    }
}

/// Handles new item `n`: a matched item whose text changed is modified; an
/// unmatched one is added.
pub open spec fn step_new(old: Seq<CodeItemView>, matched: Seq<bool>, n: CodeItemView, file: Seq<char>) -> (
    Seq<bool>,
    Seq<EditEventView>,
) {
    match match_for(old, matched, n) {
        Some(j) => (
            matched.update(j, true),
            if old[j].tokens != n.tokens {
                seq![item_event(modified_kind(n.kind), n, file)]
            } else {
                Seq::<EditEventView>::empty()
            },
        ),
        None => (matched, seq![item_event(added_kind(n.kind), n, file)]),
    }
}

/// The old items matched and the events raised after handling the new items
/// in order.
pub open spec fn pass_new(old: Seq<CodeItemView>, new: Seq<CodeItemView>, file: Seq<char>) -> (
    Seq<bool>,
    Seq<EditEventView>,
)
    decreases new.len(),
{
    if new.len() == 0 {
        (Seq::new(old.len(), |i: int| false), Seq::<EditEventView>::empty())
    } else {
        let r = pass_new(old, new.drop_last(), file);
        let s = step_new(old, r.0, new.last(), file);
        (s.0, r.1 + s.1)
    }
}

/// Deletion events for the old items among the first `k` left unmatched.
pub open spec fn deleted_events(old: Seq<CodeItemView>, matched: Seq<bool>, k: int, file: Seq<char>) -> Seq<
    EditEventView,
>
    decreases k,
{
    if k <= 0 || k > old.len() {
        Seq::<EditEventView>::empty()
    } else {
        deleted_events(old, matched, k - 1, file) + if !matched[k - 1] {
            seq![item_event(deleted_kind(old[k - 1].kind), old[k - 1], file)]
        } else {
            Seq::<EditEventView>::empty()
        }
    }
}

/// The item-level events between two versions of a file: for each new
/// item in order, modified or added; then each old item left unmatched, in
/// order, deleted.
pub open spec fn compare_spec(old: Seq<CodeItemView>, new: Seq<CodeItemView>, file: Seq<char>) -> Seq<
    EditEventView,
> {
    let r = pass_new(old, new, file);
    r.1 + deleted_events(old, r.0, old.len() as int, file)
}

/// Events for every item of one version, all added or all deleted.
pub open spec fn items_events(items: Seq<CodeItemView>, added: bool, file: Seq<char>) -> Seq<
    EditEventView,
> {
    items.map_values(
        |it: CodeItemView|
            item_event(
                if added {
                    added_kind(it.kind)
                } else {
                    deleted_kind(it.kind)
                },
                it,
                file,
            ),
    )
}

/// The events of a file between two versions (`None` where the file does
/// not exist): an added file and each of its items added; a deleted file
/// and each of its items deleted; an unchanged file nothing; a modified
/// file, then its item-level changes.
pub open spec fn analyze_spec(path: Seq<char>, old: Option<Seq<char>>, new: Option<Seq<char>>) -> Seq<
    EditEventView,
> {
    match (old, new) {
        (None, Some(t)) => seq![file_event(EditKind::FileAdded, path)] + items_events(
            items_for_path(path, t),
            true,
            path,
        ),
        (Some(t), None) => seq![file_event(EditKind::FileDeleted, path)] + items_events(
            items_for_path(path, t),
            false,
            path,
        ),
        (Some(a), Some(b)) => if a == b {
            Seq::<EditEventView>::empty()
        } else {
            seq![file_event(EditKind::FileModified, path)] + compare_spec(
                items_for_path(path, a),
                items_for_path(path, b),
                path,
            )
        },
        (None, None) => Seq::<EditEventView>::empty(),
    }
}

// ---------------------------------------------------------------- lemmas

pub proof fn lemma_find_from(old: Seq<CodeItemView>, matched: Seq<bool>, n: CodeItemView, strict: bool, j: int)
    requires
        matched.len() == old.len(),
        0 <= j,
    ensures
        match find_from(old, matched, n, strict, j) {
            Some(x) => j <= x < old.len() && !matched[x] && same_key(old[x], n, strict) && forall|y: int|
                j <= y < x ==> !(!matched[y] && same_key(old[y], n, strict)),
            None => forall|y: int| j <= y < old.len() ==> !(!matched[y] && same_key(old[y], n, strict)),
        },
    decreases old.len() - j,
{
    if j < old.len() {
        lemma_find_from(old, matched, n, strict, j + 1);
    }
}

// ---------------------------------------------------------------- laws

proof fn lemma_pass_same(items: Seq<CodeItemView>, file: Seq<char>, i: int)
    requires
        0 <= i <= items.len(),
    ensures
        pass_new(items, items.take(i), file).0 == Seq::new(items.len(), |j: int| j < i),
        pass_new(items, items.take(i), file).1 == Seq::<EditEventView>::empty(),
    decreases i,
{
    if i == 0 {
        assert(items.take(0) =~= Seq::<CodeItemView>::empty());
        assert(Seq::new(items.len(), |j: int| false) =~= Seq::new(items.len(), |j: int| j < 0));
    } else {
        lemma_pass_same(items, file, i - 1);
        let new = items.take(i);
        assert(new.drop_last() =~= items.take(i - 1));
        let m = Seq::new(items.len(), |j: int| j < i - 1);
        let n = items[i - 1];
        lemma_find_from(items, m, n, true, 0);
        assert(!m[i - 1] && same_key(items[i - 1], n, true));
        assert(find_from(items, m, n, true, 0) == Some(i - 1));
        assert(m.update(i - 1, true) =~= Seq::new(items.len(), |j: int| j < i));
        assert(Seq::<EditEventView>::empty() + Seq::<EditEventView>::empty() =~= Seq::<
            EditEventView,
        >::empty());
    }
}

proof fn lemma_deleted_none(old: Seq<CodeItemView>, file: Seq<char>, k: int)
    requires
        0 <= k <= old.len(),
    ensures
        deleted_events(old, Seq::new(old.len(), |j: int| j < old.len()), k, file) == Seq::<
            EditEventView,
        >::empty(),
    decreases k,
{
    if k > 0 {
        lemma_deleted_none(old, file, k - 1);
        assert(Seq::<EditEventView>::empty() + Seq::<EditEventView>::empty() =~= Seq::<
            EditEventView,
        >::empty());
    }
}

/// Comparing a list of items with itself raises no event: every item is
/// matched to itself and its text is unchanged.
pub proof fn lemma_compare_same_items(items: Seq<CodeItemView>, file: Seq<char>)
    ensures
        compare_spec(items, items, file) == Seq::<EditEventView>::empty(),
{
    lemma_pass_same(items, file, items.len() as int);
    assert(items.take(items.len() as int) =~= items);
    lemma_deleted_none(items, file, items.len() as int);
    assert(Seq::<EditEventView>::empty() + Seq::<EditEventView>::empty() =~= Seq::<
        EditEventView,
    >::empty());
}

/// A file whose content is the same in both versions has no edit.
pub proof fn lemma_unchanged_file_has_no_edits(path: Seq<char>, content: Seq<char>)
    ensures
        analyze_spec(path, Some(content), Some(content)) == Seq::<EditEventView>::empty(),
{
}

/// A change to a file that leaves its classes and functions as they were
/// (for instance, to comments or blank lines) counts as one edit: the file
/// was modified.
pub proof fn lemma_change_outside_items(path: Seq<char>, old: Seq<char>, new: Seq<char>)
    requires
        old != new,
        items_for_path(path, old) == items_for_path(path, new),
    ensures
        analyze_spec(path, Some(old), Some(new)) == seq![file_event(EditKind::FileModified, path)],
{
    lemma_compare_same_items(items_for_path(path, new), path);
    assert(seq![file_event(EditKind::FileModified, path)] + Seq::<EditEventView>::empty()
        =~= seq![file_event(EditKind::FileModified, path)]);
}

/// One old item and one new item of the same kind and name are the same
/// unit, whatever their parents: no event when its text is unchanged, else
/// one "modified" event about the new item. (The parent decides only which
/// of several candidates is taken.)
pub proof fn lemma_same_kind_and_name_match(a: CodeItemView, b: CodeItemView, file: Seq<char>)
    requires
        a.kind == b.kind,
        a.name == b.name,
    ensures
        compare_spec(seq![a], seq![b], file) == if a.tokens == b.tokens {
            Seq::<EditEventView>::empty()
        } else {
            seq![
                EditEventView {
                    kind: if b.kind == CodeItemKind::Class {
                        EditKind::ClassModified
                    } else {
                        EditKind::FunctionModified
                    },
                    symbol: Some(b.name),
                    file,
                    line: b.line,
                },
            ]
        },
{
    let old = seq![a];
    let new = seq![b];
    let m0 = Seq::new(1, |i: int| false);
    assert(new.drop_last() =~= Seq::<CodeItemView>::empty());
    assert(pass_new(old, Seq::<CodeItemView>::empty(), file).0 == m0);
    assert(pass_new(old, new, file).0 == step_new(old, m0, b, file).0);
    assert(find_from(old, m0, b, false, 0) == Some(0int));
    assert(match_for(old, m0, b) == Some(0int)) by {
        lemma_find_from(old, m0, b, true, 0);
    }
    let m1 = m0.update(0, true);
    assert(pass_new(old, new, file).0 == m1);
    assert(deleted_events(old, m1, 0, file) == Seq::<EditEventView>::empty());
    assert(deleted_events(old, m1, 1, file) =~= Seq::<EditEventView>::empty());
    let evs = compare_spec(old, new, file);
    if a.tokens == b.tokens {
        assert(evs =~= Seq::<EditEventView>::empty());
    } else {
        assert(evs =~= seq![item_event(modified_kind(b.kind), b, file)]);
    }
}

pub open spec fn added_event(n: CodeItemView, file: Seq<char>) -> EditEventView {
    EditEventView {
        kind: if n.kind == CodeItemKind::Class {
            EditKind::ClassAdded
        } else {
            EditKind::FunctionAdded
        },
        symbol: Some(n.name),
        file,
        line: n.line,
    }
}

pub open spec fn deleted_event(o: CodeItemView, file: Seq<char>) -> EditEventView {
    EditEventView {
        kind: if o.kind == CodeItemKind::Class {
            EditKind::ClassDeleted
        } else {
            EditKind::FunctionDeleted
        },
        symbol: Some(o.name),
        file,
        line: o.line,
    }
}

proof fn lemma_pass_from_nothing(new: Seq<CodeItemView>, file: Seq<char>)
    ensures
        pass_new(Seq::<CodeItemView>::empty(), new, file).0.len() == 0,
        pass_new(Seq::<CodeItemView>::empty(), new, file).1 == new.map_values(
            |n: CodeItemView| added_event(n, file),
        ),
    decreases new.len(),
{
    let old = Seq::<CodeItemView>::empty();
    if new.len() == 0 {
        assert(new.map_values(|n: CodeItemView| added_event(n, file)) =~= Seq::<EditEventView>::empty());
    } else {
        lemma_pass_from_nothing(new.drop_last(), file);
        let m = pass_new(old, new.drop_last(), file).0;
        assert(find_from(old, m, new.last(), true, 0) is None);
        assert(find_from(old, m, new.last(), false, 0) is None);
        assert(new.map_values(|n: CodeItemView| added_event(n, file)) =~= new.drop_last().map_values(
            |n: CodeItemView| added_event(n, file),
        ).push(added_event(new.last(), file)));
    }
}

/// With no old items, every new item is added, in order.
pub proof fn lemma_compare_from_nothing(new: Seq<CodeItemView>, file: Seq<char>)
    ensures
        compare_spec(Seq::<CodeItemView>::empty(), new, file) == new.map_values(
            |n: CodeItemView| added_event(n, file),
        ),
{
    lemma_pass_from_nothing(new, file);
    let r = pass_new(Seq::<CodeItemView>::empty(), new, file);
    assert(deleted_events(Seq::<CodeItemView>::empty(), r.0, 0, file) == Seq::<EditEventView>::empty());
    assert(r.1 + Seq::<EditEventView>::empty() =~= r.1);
}

proof fn lemma_deleted_all(old: Seq<CodeItemView>, file: Seq<char>, k: int)
    requires
        0 <= k <= old.len(),
    ensures
        deleted_events(old, Seq::new(old.len(), |i: int| false), k, file) == old.take(k).map_values(
            |o: CodeItemView| deleted_event(o, file),
        ),
    decreases k,
{
    if k == 0 {
        assert(old.take(0).map_values(|o: CodeItemView| deleted_event(o, file)) =~= Seq::<
            EditEventView,
        >::empty());
    } else {
        lemma_deleted_all(old, file, k - 1);
        assert(old.take(k).map_values(|o: CodeItemView| deleted_event(o, file)) =~= old.take(
            k - 1,
        ).map_values(|o: CodeItemView| deleted_event(o, file)).push(deleted_event(old[k - 1], file)));
    }
}

/// With no new items, every old item is deleted, in order.
pub proof fn lemma_compare_to_nothing(old: Seq<CodeItemView>, file: Seq<char>)
    ensures
        compare_spec(old, Seq::<CodeItemView>::empty(), file) == old.map_values(
            |o: CodeItemView| deleted_event(o, file),
        ),
{
    lemma_deleted_all(old, file, old.len() as int);
    assert(old.take(old.len() as int) =~= old);
    let r = pass_new(old, Seq::<CodeItemView>::empty(), file);
    assert(Seq::<EditEventView>::empty() + deleted_events(old, r.0, old.len() as int, file)
        =~= deleted_events(old, r.0, old.len() as int, file));
}

/// An old item and a new item of different kinds or names are different
/// units: the new one is added and the old one deleted.
pub proof fn lemma_different_units(a: CodeItemView, b: CodeItemView, file: Seq<char>)
    requires
        a.kind != b.kind || a.name != b.name,
    ensures
        compare_spec(seq![a], seq![b], file) == seq![added_event(b, file), deleted_event(a, file)],
{
    let old = seq![a];
    let new = seq![b];
    let m0 = Seq::new(1, |i: int| false);
    assert(new.drop_last() =~= Seq::<CodeItemView>::empty());
    assert(pass_new(old, Seq::<CodeItemView>::empty(), file).0 == m0);
    assert(find_from(old, m0, b, true, 1) is None);
    assert(find_from(old, m0, b, false, 1) is None);
    assert(find_from(old, m0, b, true, 0) is None);
    assert(find_from(old, m0, b, false, 0) is None);
    assert(pass_new(old, new, file).0 == m0);
    assert(deleted_events(old, m0, 0, file) == Seq::<EditEventView>::empty());
    assert(deleted_events(old, m0, 1, file) =~= seq![deleted_event(a, file)]);
    assert(compare_spec(old, new, file) =~= seq![added_event(b, file), deleted_event(a, file)]);
}

/// Of two old candidates with the new item's kind and name, the one with
/// the same parent is taken (even when it comes second); the other is
/// deleted.
pub proof fn lemma_same_parent_preferred(a1: CodeItemView, a2: CodeItemView, b: CodeItemView, file: Seq<char>)
    requires
        a1.kind == b.kind && a1.name == b.name,
        a2.kind == b.kind && a2.name == b.name,
        a1.parent != b.parent,
        a2.parent == b.parent,
    ensures
        compare_spec(seq![a1, a2], seq![b], file) == (if a2.tokens == b.tokens {
            Seq::<EditEventView>::empty()
        } else {
            seq![
                EditEventView {
                    kind: if b.kind == CodeItemKind::Class {
                        EditKind::ClassModified
                    } else {
                        EditKind::FunctionModified
                    },
                    symbol: Some(b.name),
                    file,
                    line: b.line,
                },
            ]
        }) + seq![deleted_event(a1, file)],
{
    let old = seq![a1, a2];
    let new = seq![b];
    let m0 = Seq::new(2, |i: int| false);
    assert(new.drop_last() =~= Seq::<CodeItemView>::empty());
    assert(pass_new(old, Seq::<CodeItemView>::empty(), file).0 == m0);
    assert(find_from(old, m0, b, true, 2) is None);
    assert(find_from(old, m0, b, true, 1) == Some(1int));
    assert(find_from(old, m0, b, true, 0) == Some(1int));
    let m1 = m0.update(1, true);
    assert(pass_new(old, new, file).0 == m1);
    assert(deleted_events(old, m1, 0, file) == Seq::<EditEventView>::empty());
    assert(deleted_events(old, m1, 1, file) =~= seq![deleted_event(a1, file)]);
    assert(deleted_events(old, m1, 2, file) =~= seq![deleted_event(a1, file)]);
    let evs = compare_spec(old, new, file);
    if a2.tokens == b.tokens {
        assert(evs =~= seq![deleted_event(a1, file)]);
    } else {
        assert(evs =~= seq![item_event(modified_kind(b.kind), b, file), deleted_event(a1, file)]);
    }
}

/// Changing the definition of a Rust type or function modifies it: when
/// two versions of a `.rs` file each parse to a single struct, enum, union
/// or function, of the same kind and name, whose printed token streams
/// differ (a field added to a struct, say), the file's events are the file
/// modified and that item modified, at its new line.
pub proof fn lemma_changed_rust_definition(path: Seq<char>, a: Seq<char>, b: Seq<char>)
    requires
        language_of(path) == Language::Rust,
        parsed_len(a) == Some(1nat),
        parsed_len(b) == Some(1nat),
        is_whole_text_kind(kind_at(a, seq![0int])),
        kind_at(a, seq![0int]) == kind_at(b, seq![0int]),
        ident_at(a, seq![0int]) == ident_at(b, seq![0int]),
        tokens_at(a, seq![0int]) != tokens_at(b, seq![0int]),
    ensures
        analyze_spec(path, Some(a), Some(b)) == seq![
            file_event(EditKind::FileModified, path),
            EditEventView {
                kind: if kind_at(b, seq![0int]) == SynItemKind::Fn {
                    EditKind::FunctionModified
                } else {
                    EditKind::ClassModified
                },
                symbol: Some(ident_at(b, seq![0int])),
                file: path,
                line: Some(line_at(b, seq![0int])),
            },
        ],
{
    lemma_single_item_file(a);
    lemma_single_item_file(b);
    assert(a != b);
    let ia = rust_items(a)[0];
    let ib = rust_items(b)[0];
    assert(items_for_path(path, a) == seq![ia]);
    assert(items_for_path(path, b) == seq![ib]);
    lemma_same_kind_and_name_match(ia, ib, path);
}

/// Creating a file and deleting it mirror each other: the same number of
/// events, about the same symbols and lines, each "added" kind matched by
/// the "deleted" kind of the same unit.
pub proof fn lemma_add_delete_mirror(path: Seq<char>, content: Seq<char>)
    ensures
        ({
            let a = analyze_spec(path, None, Some(content));
            let d = analyze_spec(path, Some(content), None);
            &&& a.len() == d.len()
            &&& a[0].kind == EditKind::FileAdded
            &&& d[0].kind == EditKind::FileDeleted
            &&& forall|i: int|
                0 <= i < a.len() ==> (#[trigger] a[i]).symbol == d[i].symbol && a[i].line == d[i].line
                    && a[i].file == d[i].file
            &&& forall|i: int|
                1 <= i < a.len() ==> ((#[trigger] a[i]).kind == EditKind::ClassAdded <==> d[i].kind
                    == EditKind::ClassDeleted) && (a[i].kind == EditKind::FunctionAdded
                    <==> d[i].kind == EditKind::FunctionDeleted)
        }),
{
    let items = items_for_path(path, content);
    let a = analyze_spec(path, None, Some(content));
    let d = analyze_spec(path, Some(content), None);
    assert forall|i: int| 1 <= i < a.len() implies ((#[trigger] a[i]).kind == EditKind::ClassAdded
        <==> d[i].kind == EditKind::ClassDeleted) && (a[i].kind == EditKind::FunctionAdded
        <==> d[i].kind == EditKind::FunctionDeleted) by {
        assert(a[i] == item_event(added_kind(items[i - 1].kind), items[i - 1], path));
        assert(d[i] == item_event(deleted_kind(items[i - 1].kind), items[i - 1], path));
    }
    assert forall|i: int| 0 <= i < a.len() implies (#[trigger] a[i]).symbol == d[i].symbol
        && a[i].line == d[i].line && a[i].file == d[i].file by {
        if i > 0 {
            assert(a[i] == item_event(added_kind(items[i - 1].kind), items[i - 1], path));
            assert(d[i] == item_event(deleted_kind(items[i - 1].kind), items[i - 1], path));
        }
    }
}

/// Number of events of kind `k`.
pub open spec fn count_events(evs: Seq<EditEventView>, k: EditKind) -> nat
    decreases evs.len(),
{
    if evs.len() == 0 {
        0
    } else {
        count_events(evs.drop_last(), k) + if evs.last().kind == k {
            1nat
        } else {
            0nat
        }
    }
}

/// Number of items of kind `k`.
pub open spec fn count_items(items: Seq<CodeItemView>, k: CodeItemKind) -> nat
    decreases items.len(),
{
    if items.len() == 0 {
        0
    } else {
        count_items(items.drop_last(), k) + if items.last().kind == k {
            1nat
        } else {
            0nat
        }
    }
}

/// Number of matched old items of kind `k` among the first `n`.
pub open spec fn count_matched(old: Seq<CodeItemView>, m: Seq<bool>, k: CodeItemKind, n: int) -> nat
    decreases n,
{
    if n <= 0 {
        0
    } else {
        count_matched(old, m, k, n - 1) + if m[n - 1] && old[n - 1].kind == k {
            1nat
        } else {
            0nat
        }
    }
}

proof fn lemma_count_events_add(a: Seq<EditEventView>, b: Seq<EditEventView>, k: EditKind)
    ensures
        count_events(a + b, k) == count_events(a, k) + count_events(b, k),
    decreases b.len(),
{
    if b.len() == 0 {
        assert(a + b =~= a);
    } else {
        lemma_count_events_add(a, b.drop_last(), k);
        assert((a + b).drop_last() =~= a + b.drop_last());
    }
}

proof fn lemma_count_matched_update(old: Seq<CodeItemView>, m: Seq<bool>, k: CodeItemKind, j: int, n: int)
    requires
        0 <= j < old.len(),
        m.len() == old.len(),
        0 <= n <= old.len(),
        !m[j],
    ensures
        count_matched(old, m.update(j, true), k, n) == count_matched(old, m, k, n) + if j < n
            && old[j].kind == k {
            1nat
        } else {
            0nat
        },
    decreases n,
{
    if n > 0 {
        lemma_count_matched_update(old, m, k, j, n - 1);
    }
}

proof fn lemma_count_matched_none(old: Seq<CodeItemView>, k: CodeItemKind, n: int)
    requires
        0 <= n <= old.len(),
    ensures
        count_matched(old, Seq::new(old.len(), |i: int| false), k, n) == 0,
    decreases n,
{
    if n > 0 {
        lemma_count_matched_none(old, k, n - 1);
    }
}

proof fn lemma_count_single(e: EditEventView, k: EditKind)
    ensures
        count_events(seq![e], k) == if e.kind == k {
            1nat
        } else {
            0nat
        },
        count_events(Seq::<EditEventView>::empty(), k) == 0,
{
    let one = seq![e];
    assert(one.drop_last() =~= Seq::<EditEventView>::empty());
    assert(one.last() == e);
    assert(count_events(Seq::<EditEventView>::empty(), k) == 0);
    assert(count_events(one, k) == count_events(one.drop_last(), k) + if one.last().kind == k {
        1nat
    } else {
        0nat
    });
}

proof fn lemma_pass_counts(old: Seq<CodeItemView>, new: Seq<CodeItemView>, file: Seq<char>, k: CodeItemKind)
    ensures
        pass_new(old, new, file).0.len() == old.len(),
        count_events(pass_new(old, new, file).1, added_kind(k)) + count_matched(
            old,
            pass_new(old, new, file).0,
            k,
            old.len() as int,
        ) == count_items(new, k),
        count_events(pass_new(old, new, file).1, deleted_kind(k)) == 0,
    decreases new.len(),
{
    if new.len() == 0 {
        lemma_count_matched_none(old, k, old.len() as int);
        lemma_count_single(file_event(EditKind::FileAdded, file), added_kind(k));
    } else {
        let r = pass_new(old, new.drop_last(), file);
        lemma_pass_counts(old, new.drop_last(), file, k);
        let n = new.last();
        lemma_find_from(old, r.0, n, true, 0);
        lemma_find_from(old, r.0, n, false, 0);
        let st = step_new(old, r.0, n, file);
        assert(pass_new(old, new, file) == (st.0, r.1 + st.1));
        lemma_count_events_add(r.1, st.1, added_kind(k));
        lemma_count_events_add(r.1, st.1, deleted_kind(k));
        assert(count_items(new, k) == count_items(new.drop_last(), k) + if n.kind == k {
            1nat
        } else {
            0nat
        });
        match match_for(old, r.0, n) {
            Some(j) => {
                assert(0 <= j < old.len() && !r.0[j] && old[j].kind == n.kind);
                lemma_count_matched_update(old, r.0, k, j, old.len() as int);
                let e = item_event(modified_kind(n.kind), n, file);
                lemma_count_single(e, added_kind(k));
                lemma_count_single(e, deleted_kind(k));
                assert(count_events(st.1, added_kind(k)) == 0);
                assert(count_events(st.1, deleted_kind(k)) == 0);
            },
            None => {
                let e = item_event(added_kind(n.kind), n, file);
                lemma_count_single(e, added_kind(k));
                lemma_count_single(e, deleted_kind(k));
                assert(st.0 == r.0);
                assert(count_events(st.1, added_kind(k)) == if n.kind == k {
                    1nat
                } else {
                    0nat
                });
                assert(count_events(st.1, deleted_kind(k)) == 0);
            },
        }
    }
}

proof fn lemma_deleted_counts(old: Seq<CodeItemView>, m: Seq<bool>, file: Seq<char>, k: CodeItemKind, n: int)
    requires
        m.len() == old.len(),
        0 <= n <= old.len(),
    ensures
        count_events(deleted_events(old, m, n, file), deleted_kind(k)) + count_matched(old, m, k, n)
            == count_items(old.take(n), k),
        count_events(deleted_events(old, m, n, file), added_kind(k)) == 0,
    decreases n,
{
    if n == 0 {
        assert(old.take(0) =~= Seq::<CodeItemView>::empty());
        lemma_count_single(file_event(EditKind::FileAdded, file), added_kind(k));
    } else {
        lemma_deleted_counts(old, m, file, k, n - 1);
        assert(old.take(n).drop_last() =~= old.take(n - 1));
        assert(count_items(old.take(n), k) == count_items(old.take(n - 1), k) + if old[n - 1].kind
            == k {
            1nat
        } else {
            0nat
        });
        let prev = deleted_events(old, m, n - 1, file);
        let ev = item_event(deleted_kind(old[n - 1].kind), old[n - 1], file);
        let e: Seq<EditEventView> = if !m[n - 1] {
            seq![ev]
        } else {
            Seq::<EditEventView>::empty()
        };
        assert(deleted_events(old, m, n, file) == prev + e);
        lemma_count_events_add(prev, e, deleted_kind(k));
        lemma_count_events_add(prev, e, added_kind(k));
        lemma_count_single(ev, deleted_kind(k));
        lemma_count_single(ev, added_kind(k));
    }
}

/// Units are conserved: for each kind of item, the items added plus the
/// items of the old version equal the items deleted plus the items of the
/// new version (every item on either side is matched once, added or
/// deleted).
pub proof fn lemma_compare_counts(old: Seq<CodeItemView>, new: Seq<CodeItemView>, file: Seq<char>, k: CodeItemKind)
    ensures
        count_events(compare_spec(old, new, file), added_kind(k)) + count_items(old, k)
            == count_events(compare_spec(old, new, file), deleted_kind(k)) + count_items(new, k),
{
    let r = pass_new(old, new, file);
    lemma_pass_counts(old, new, file, k);
    lemma_deleted_counts(old, r.0, file, k, old.len() as int);
    assert(old.take(old.len() as int) =~= old);
    let d = deleted_events(old, r.0, old.len() as int, file);
    lemma_count_events_add(r.1, d, added_kind(k));
    lemma_count_events_add(r.1, d, deleted_kind(k));
}

/// Every event of `evs` is about `file`.
pub open spec fn all_about(evs: Seq<EditEventView>, file: Seq<char>) -> bool {
    forall|i: int| 0 <= i < evs.len() ==> (#[trigger] evs[i]).file == file
}

proof fn lemma_all_about_add(a: Seq<EditEventView>, b: Seq<EditEventView>, file: Seq<char>)
    requires
        all_about(a, file),
        all_about(b, file),
    ensures
        all_about(a + b, file),
{
    assert forall|i: int| 0 <= i < (a + b).len() implies (#[trigger] (a + b)[i]).file == file by {
        if i < a.len() {
            assert((a + b)[i] == a[i]);
        } else {
            assert((a + b)[i] == b[i - a.len()]);
        }
    }
}

proof fn lemma_pass_about(old: Seq<CodeItemView>, new: Seq<CodeItemView>, file: Seq<char>)
    ensures
        all_about(pass_new(old, new, file).1, file),
    decreases new.len(),
{
    if new.len() > 0 {
        let r = pass_new(old, new.drop_last(), file);
        lemma_pass_about(old, new.drop_last(), file);
        let st = step_new(old, r.0, new.last(), file);
        lemma_all_about_add(r.1, st.1, file);
    }
}

proof fn lemma_deleted_about(old: Seq<CodeItemView>, m: Seq<bool>, k: int, file: Seq<char>)
    ensures
        all_about(deleted_events(old, m, k, file), file),
    decreases k,
{
    if 0 < k <= old.len() {
        lemma_deleted_about(old, m, k - 1, file);
        let e: Seq<EditEventView> = if !m[k - 1] {
            seq![item_event(deleted_kind(old[k - 1].kind), old[k - 1], file)]
        } else {
            Seq::<EditEventView>::empty()
        };
        lemma_all_about_add(deleted_events(old, m, k - 1, file), e, file);
    }
}

/// Every event raised for a file names that file.
pub proof fn lemma_events_name_their_file(path: Seq<char>, old: Option<Seq<char>>, new: Option<Seq<char>>)
    ensures
        all_about(analyze_spec(path, old, new), path),
{
    match (old, new) {
        (Some(a), Some(b)) => {
            if a != b {
                let r = pass_new(items_for_path(path, a), items_for_path(path, b), path);
                lemma_pass_about(items_for_path(path, a), items_for_path(path, b), path);
                lemma_deleted_about(
                    items_for_path(path, a),
                    r.0,
                    items_for_path(path, a).len() as int,
                    path,
                );
                lemma_all_about_add(
                    r.1,
                    deleted_events(items_for_path(path, a), r.0, items_for_path(path, a).len() as int, path),
                    path,
                );
                lemma_all_about_add(
                    seq![file_event(EditKind::FileModified, path)],
                    compare_spec(items_for_path(path, a), items_for_path(path, b), path),
                    path,
                );
            }
        },
        (None, Some(t)) => {
            lemma_all_about_add(
                seq![file_event(EditKind::FileAdded, path)],
                items_events(items_for_path(path, t), true, path),
                path,
            );
        },
        (Some(t), None) => {
            lemma_all_about_add(
                seq![file_event(EditKind::FileDeleted, path)],
                items_events(items_for_path(path, t), false, path),
                path,
            );
        },
        (None, None) => {},
    }
}

// ---------------------------------------------------------------- exec

fn opt_string_eq(a: &Option<String>, b: &Option<String>) -> (r: bool)
    ensures
        r == (opt_string_view(*a) == opt_string_view(*b)),
{
    match (a, b) {
        (Some(x), Some(y)) => *x == *y,
        (None, None) => true,
        _ => false,
    }
}

fn key_matches(o: &CodeItem, n: &CodeItem, strict: bool) -> (r: bool)
    ensures
        r == same_key(o@, n@, strict),
{
    o.kind == n.kind && o.name == n.name && (!strict || opt_string_eq(&o.parent, &n.parent))
}

fn find_match(old_items: &[CodeItem], matched: &Vec<bool>, n: &CodeItem, strict: bool) -> (r: Option<usize>)
    requires
        matched@.len() == old_items@.len(),
    ensures
        match r {
            Some(j) => find_from(items_view(old_items@), matched@, n@, strict, 0) == Some(j as int),
            None => find_from(items_view(old_items@), matched@, n@, strict, 0) is None,
        },
{
    let ghost ov = items_view(old_items@);
    let mut j: usize = 0;
    while j < old_items.len()
        invariant
            j <= old_items@.len(),
            matched@.len() == old_items@.len(),
            ov == items_view(old_items@),
            find_from(ov, matched@, n@, strict, 0) == find_from(ov, matched@, n@, strict, j as int),
        decreases old_items@.len() - j,
    {
        assert(ov[j as int] == old_items@[j as int]@);
        if !matched[j] && key_matches(&old_items[j], n, strict) {
            return Some(j);
        }
        j = j + 1;
    }
    None
}

fn item_edit(kind: EditKind, it: &CodeItem, file_path: &str) -> (e: EditEvent)
    ensures
        e@ == item_event(kind, it@, file_path@),
{
    EditEvent {
        kind,
        symbol: Some(it.name.clone()),
        file: string_of_str(file_path),
        line: it.line,
    }
}

fn push_event(events: &mut Vec<EditEvent>, e: EditEvent)
    ensures
        events_view(final(events)@) == events_view(old(events)@).push(e@),
{
    let ghost g = e;
    events.push(e);
    assert(events_view(old(events)@.push(g)) =~= events_view(old(events)@).push(g@));
}

/// The item-level events between the items of an old and a new version of
/// the file at `file_path`: each new item, in order, is matched to the first
/// unmatched old item of the same kind, name and parent (or, failing that,
/// of the same kind and name); a matched item whose text changed is
/// modified, an unmatched one added; old items left unmatched are then
/// deleted, in order.
pub fn compare_items(file_path: &str, old_items: &[CodeItem], new_items: &[CodeItem]) -> (r: Vec<
    EditEvent,
>)
    ensures
        events_view(r@) == compare_spec(items_view(old_items@), items_view(new_items@), file_path@),
{
    let ghost ov = items_view(old_items@);
    let ghost nv = items_view(new_items@);
    let ghost f = file_path@;
    let mut matched: Vec<bool> = Vec::new();
    let mut k: usize = 0;
    while k < old_items.len()
        invariant
            k <= old_items@.len(),
            matched@ == Seq::new(k as nat, |i: int| false),
        decreases old_items@.len() - k,
    {
        matched.push(false);
        k = k + 1;
        assert(matched@ =~= Seq::new(k as nat, |i: int| false));
    }
    let mut events: Vec<EditEvent> = Vec::new();
    let mut i: usize = 0;
    assert(nv.take(0) =~= Seq::<CodeItemView>::empty());
    assert(events_view(events@) =~= Seq::<EditEventView>::empty());
    while i < new_items.len()
        invariant
            i <= new_items@.len(),
            ov == items_view(old_items@),
            nv == items_view(new_items@),
            f == file_path@,
            matched@.len() == old_items@.len(),
            matched@ == pass_new(ov, nv.take(i as int), f).0,
            events_view(events@) == pass_new(ov, nv.take(i as int), f).1,
        decreases new_items@.len() - i,
    {
        let n = &new_items[i];
        let ghost prev = pass_new(ov, nv.take(i as int), f);
        assert(nv.take(i + 1).drop_last() =~= nv.take(i as int));
        assert(nv.take(i + 1).last() == n@);
        proof {
            lemma_find_from(ov, matched@, n@, true, 0);
            lemma_find_from(ov, matched@, n@, false, 0);
        }
        let m = match find_match(old_items, &matched, n, true) {
            Some(j) => Some(j),
            None => find_match(old_items, &matched, n, false),
        };
        match m {
            Some(j) => {
                assert(ov[j as int] == old_items@[j as int]@);
                matched.set(j, true);
                if old_items[j].tokens != n.tokens {
                    let kind = match n.kind {
                        CodeItemKind::Class => EditKind::ClassModified,
                        CodeItemKind::Function => EditKind::FunctionModified,
                    };
                    push_event(&mut events, item_edit(kind, n, file_path));
                } else {
                    assert(events_view(events@) + Seq::<EditEventView>::empty() =~= events_view(
                        events@,
                    ));
                }
            },
            None => {
                let kind = match n.kind {
                    CodeItemKind::Class => EditKind::ClassAdded,
                    CodeItemKind::Function => EditKind::FunctionAdded,
                };
                push_event(&mut events, item_edit(kind, n, file_path));
            },
        }
        assert(matched@ =~= pass_new(ov, nv.take(i + 1), f).0);
        assert(events_view(events@) =~= pass_new(ov, nv.take(i + 1), f).1);
        i = i + 1;
    }
    assert(nv.take(i as int) =~= nv);
    let ghost done = events_view(events@);
    let mut k: usize = 0;
    assert(done + deleted_events(ov, matched@, 0, f) =~= done);
    while k < old_items.len()
        invariant
            k <= old_items@.len(),
            ov == items_view(old_items@),
            f == file_path@,
            matched@.len() == old_items@.len(),
            events_view(events@) == done + deleted_events(ov, matched@, k as int, f),
        decreases old_items@.len() - k,
    {
        assert(ov[k as int] == old_items@[k as int]@);
        if !matched[k] {
            let old_item = &old_items[k];
            let kind = match old_item.kind {
                CodeItemKind::Class => EditKind::ClassDeleted,
                CodeItemKind::Function => EditKind::FunctionDeleted,
            };
            push_event(&mut events, item_edit(kind, old_item, file_path));
        }
        assert(events_view(events@) =~= done + deleted_events(ov, matched@, k + 1, f));
        k = k + 1;
    }
    events
}

fn push_item_events(events: &mut Vec<EditEvent>, items: &Vec<CodeItem>, added: bool, file_path: &str)
    ensures
        events_view(final(events)@) == events_view(old(events)@) + items_events(
            items_view(items@),
            added,
            file_path@,
        ),
{
    let ghost iv = items_view(items@);
    let mut k: usize = 0;
    assert(events_view(events@) =~= events_view(old(events)@) + items_events(
        iv.take(0),
        added,
        file_path@,
    ));
    while k < items.len()
        invariant
            k <= items@.len(),
            iv == items_view(items@),
            events_view(events@) == events_view(old(events)@) + items_events(
                iv.take(k as int),
                added,
                file_path@,
            ),
        decreases items@.len() - k,
    {
        let it = &items[k];
        assert(iv[k as int] == it@);
        let kind = match (it.kind, added) {
            (CodeItemKind::Class, true) => EditKind::ClassAdded,
            (CodeItemKind::Function, true) => EditKind::FunctionAdded,
            (CodeItemKind::Class, false) => EditKind::ClassDeleted,
            (CodeItemKind::Function, false) => EditKind::FunctionDeleted,
        };
        push_event(events, item_edit(kind, it, file_path));
        assert(items_events(iv.take(k + 1), added, file_path@) =~= items_events(
            iv.take(k as int),
            added,
            file_path@,
        ).push(item_event(kind, it@, file_path@)));
        assert(events_view(events@) =~= events_view(old(events)@) + items_events(
            iv.take(k + 1),
            added,
            file_path@,
        ));
        k = k + 1;
    }
    assert(iv.take(k as int) =~= iv);
}

fn file_edit(kind: EditKind, file_path: &str) -> (e: EditEvent)
    ensures
        e@ == file_event(kind, file_path@),
{
    EditEvent { kind, symbol: None, file: string_of_str(file_path), line: None }
}

fn append_events(events: &mut Vec<EditEvent>, more: Vec<EditEvent>)
    ensures
        events_view(final(events)@) == events_view(old(events)@) + events_view(more@),
{
    let mut more = more;
    let ghost m = more@;
    events.append(&mut more);
    assert(events_view(old(events)@ + m) =~= events_view(old(events)@) + events_view(m));
}

/// The edit events of the file at `file_path` between an old and a new
/// version, `None` standing for a file that does not exist in that version.
/// An added (deleted) file gives a file event followed by an added
/// (deleted) event for each of its items; a file whose content is unchanged
/// gives none; a modified file gives a file event followed by the events
/// of [`compare_items`].
pub fn analyze_file_diff(file_path: &str, old_content: Option<&str>, new_content: Option<&str>) -> (r: Vec<
    EditEvent,
>)
    ensures
        events_view(r@) == analyze_spec(
            file_path@,
            crate::models::opt_str_view(old_content),
            crate::models::opt_str_view(new_content),
        ),
{
    let mut events: Vec<EditEvent> = Vec::new();
    match (old_content, new_content) {
        (None, Some(new_text)) => {
            push_event(&mut events, file_edit(EditKind::FileAdded, file_path));
            let items = parse_items_for_path(file_path, new_text);
            push_item_events(&mut events, &items, true, file_path);
            assert(events_view(events@) =~= analyze_spec(file_path@, None, Some(new_text@)));
        },
        (Some(old_text), None) => {
            push_event(&mut events, file_edit(EditKind::FileDeleted, file_path));
            let items = parse_items_for_path(file_path, old_text);
            push_item_events(&mut events, &items, false, file_path);
            assert(events_view(events@) =~= analyze_spec(file_path@, Some(old_text@), None));
        },
        (Some(old_text), Some(new_text)) => {
            if chars_equal(&chars_of(old_text), &chars_of(new_text)) {
                assert(events_view(events@) =~= Seq::<EditEventView>::empty());
                return events;
            }
            push_event(&mut events, file_edit(EditKind::FileModified, file_path));
            let old_items = parse_items_for_path(file_path, old_text);
            let new_items = parse_items_for_path(file_path, new_text);
            let item_events = compare_items(file_path, old_items.as_slice(), new_items.as_slice());
            append_events(&mut events, item_events);
            assert(events_view(events@) =~= analyze_spec(
                file_path@,
                Some(old_text@),
                Some(new_text@),
            ));
        },
        (None, None) => {
            assert(events_view(events@) =~= Seq::<EditEventView>::empty());
        },
    }
    events
}

} // verus!
