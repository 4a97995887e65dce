//! Edit events and the running report that counts them.
use vstd::prelude::*;

verus! {

/// The nine kinds of semantic edit; each event counts as exactly one edit.
#[derive(Debug, Clone, Copy, PartialEq, Eq, Structural)]
pub enum EditKind {
    FileAdded,
    FileModified,
    FileDeleted,
    ClassAdded,
    ClassModified,
    ClassDeleted,
    FunctionAdded,
    FunctionModified,
    FunctionDeleted,
}

/// One semantic edit: its kind, the symbol it concerns (none for file-level
/// events), the file, and the 1-based line of the symbol where known.
#[derive(Debug, Clone, PartialEq, Eq)]
pub struct EditEvent {
    pub kind: EditKind,
    pub symbol: Option<String>,
    pub file: String,
    pub line: Option<usize>,
}

/// The mathematical value of an [`EditEvent`].
pub struct EditEventView {
    pub kind: EditKind,
    pub symbol: Option<Seq<char>>,
    pub file: Seq<char>,
    pub line: Option<usize>,
}

pub open spec fn opt_string_view(s: Option<String>) -> Option<Seq<char>> {
    match s {
        Some(t) => Some(t@),
        None => None,
    }
}

pub open spec fn opt_str_view(s: Option<&str>) -> Option<Seq<char>> {
    match s {
        Some(t) => Some(t@),
        None => None,
    }
}

impl View for EditEvent {
    type V = EditEventView;

    open spec fn view(&self) -> EditEventView {
        EditEventView {
            kind: self.kind,
            symbol: opt_string_view(self.symbol),
            file: self.file@,
            line: self.line,
        }
    }
}

/// The views of a sequence of events.
pub open spec fn events_view(events: Seq<EditEvent>) -> Seq<EditEventView> {
    events.map_values(|e: EditEvent| e@)
}

pub fn string_of_str(s: &str) -> (r: String)
    ensures
        r@ == s@,
{
    String::from_str(s)
}

impl EditKind {
    /// Builds the event of this kind for `symbol` in `file` at `line`.
    pub fn into_event(self, symbol: Option<&str>, file: &str, line: Option<usize>) -> (e: EditEvent)
        ensures
            e@ == (EditEventView { kind: self, symbol: opt_str_view(symbol), file: file@, line }),
    {
        let symbol = match symbol {
            Some(s) => Some(string_of_str(s)),
            None => None,
        };
        EditEvent { kind: self, symbol, file: string_of_str(file), line }
    }
}

/// Number of events in `events` whose kind is `k`.
pub open spec fn count_kind(events: Seq<EditEvent>, k: EditKind) -> nat
    decreases events.len(),
{
    if events.len() == 0 {
        0
    } else {
        count_kind(events.drop_last(), k) + if events.last().kind == k {
            1nat
        } else {
            0nat
        }
    }
}

/// The totals of an analysis, with every event that contributed to them.
#[derive(Debug, Clone, PartialEq, Eq)]
pub struct EditReport {
    pub total_edits: usize,
    pub files_added: usize,
    pub files_modified: usize,
    pub files_deleted: usize,
    pub classes_added: usize,
    pub classes_modified: usize,
    pub classes_deleted: usize,
    pub functions_added: usize,
    pub functions_modified: usize,
    pub functions_deleted: usize,
    pub events: Vec<EditEvent>,
}

impl EditReport {
    /// The counter of the report that tallies events of kind `k`.
    pub open spec fn counter(&self, k: EditKind) -> usize {
        match k {
            EditKind::FileAdded => self.files_added,
            EditKind::FileModified => self.files_modified,
            EditKind::FileDeleted => self.files_deleted,
            EditKind::ClassAdded => self.classes_added,
            EditKind::ClassModified => self.classes_modified,
            EditKind::ClassDeleted => self.classes_deleted,
            EditKind::FunctionAdded => self.functions_added,
            EditKind::FunctionModified => self.functions_modified,
            EditKind::FunctionDeleted => self.functions_deleted,
        }
    }

    /// A consistent report: the total is the number of events, and each
    /// counter is the number of events of its kind.
    pub open spec fn wf(&self) -> bool {
        &&& self.total_edits == self.events@.len()
        &&& self.files_added == count_kind(self.events@, EditKind::FileAdded)
        &&& self.files_modified == count_kind(self.events@, EditKind::FileModified)
        &&& self.files_deleted == count_kind(self.events@, EditKind::FileDeleted)
        &&& self.classes_added == count_kind(self.events@, EditKind::ClassAdded)
        &&& self.classes_modified == count_kind(self.events@, EditKind::ClassModified)
        &&& self.classes_deleted == count_kind(self.events@, EditKind::ClassDeleted)
        &&& self.functions_added == count_kind(self.events@, EditKind::FunctionAdded)
        &&& self.functions_modified == count_kind(self.events@, EditKind::FunctionModified)
        &&& self.functions_deleted == count_kind(self.events@, EditKind::FunctionDeleted)
    }

    /// `after` is `before` with one more event of kind `k` counted: that
    /// counter and the total each grow by one, the other counters stay.
    pub open spec fn counted_one_more(before: EditReport, after: EditReport, k: EditKind) -> bool {
        &&& after.total_edits == before.total_edits + 1
        &&& after.files_added == before.files_added + if k == EditKind::FileAdded { 1int } else { 0int }
        &&& after.files_modified == before.files_modified + if k == EditKind::FileModified { 1int } else { 0int }
        &&& after.files_deleted == before.files_deleted + if k == EditKind::FileDeleted { 1int } else { 0int }
        &&& after.classes_added == before.classes_added + if k == EditKind::ClassAdded { 1int } else { 0int }
        &&& after.classes_modified == before.classes_modified + if k == EditKind::ClassModified { 1int } else { 0int }
        &&& after.classes_deleted == before.classes_deleted + if k == EditKind::ClassDeleted { 1int } else { 0int }
        &&& after.functions_added == before.functions_added + if k == EditKind::FunctionAdded { 1int } else { 0int }
        &&& after.functions_modified == before.functions_modified + if k == EditKind::FunctionModified { 1int } else { 0int }
        &&& after.functions_deleted == before.functions_deleted + if k == EditKind::FunctionDeleted { 1int } else { 0int }
    }

    /// Records `event`: its kind's counter and the total each grow by one, and
    /// the event is appended.
    pub fn add_event(&mut self, event: EditEvent)
        requires
            old(self).total_edits < usize::MAX,
            old(self).counter(event.kind) < usize::MAX,
        ensures
            final(self).events@ == old(self).events@.push(event),
            Self::counted_one_more(*old(self), *final(self), event.kind),
            old(self).wf() ==> final(self).wf(),
    {
        let ghost before = self.events@;
        let ghost ev = event;
        match event.kind {
            EditKind::FileAdded => self.files_added = self.files_added + 1,
            EditKind::FileModified => self.files_modified = self.files_modified + 1,
            EditKind::FileDeleted => self.files_deleted = self.files_deleted + 1,
            EditKind::ClassAdded => self.classes_added = self.classes_added + 1,
            EditKind::ClassModified => self.classes_modified = self.classes_modified + 1,
            EditKind::ClassDeleted => self.classes_deleted = self.classes_deleted + 1,
            EditKind::FunctionAdded => self.functions_added = self.functions_added + 1,
            EditKind::FunctionModified => self.functions_modified = self.functions_modified + 1,
            EditKind::FunctionDeleted => self.functions_deleted = self.functions_deleted + 1,
        }
        self.total_edits = self.total_edits + 1;
        self.events.push(event);
        proof {
            lemma_count_push(before, ev, EditKind::FileAdded);
            lemma_count_push(before, ev, EditKind::FileModified);
            lemma_count_push(before, ev, EditKind::FileDeleted);
            lemma_count_push(before, ev, EditKind::ClassAdded);
            lemma_count_push(before, ev, EditKind::ClassModified);
            lemma_count_push(before, ev, EditKind::ClassDeleted);
            lemma_count_push(before, ev, EditKind::FunctionAdded);
            lemma_count_push(before, ev, EditKind::FunctionModified);
            lemma_count_push(before, ev, EditKind::FunctionDeleted);
        }
    }
}

/// Appending an event adds one to the count of its own kind only.
pub proof fn lemma_count_push(s: Seq<EditEvent>, e: EditEvent, k: EditKind)
    ensures
        count_kind(s.push(e), k) == count_kind(s, k) + if e.kind == k {
            1nat
        } else {
            0nat
        },
{
    assert(s.push(e).drop_last() =~= s);
}

/// Every event has exactly one of the nine kinds, so the counts of the kinds
/// add up to the number of events.
pub proof fn lemma_counts_sum(s: Seq<EditEvent>)
    ensures
        count_kind(s, EditKind::FileAdded) + count_kind(s, EditKind::FileModified) + count_kind(
            s,
            EditKind::FileDeleted,
        ) + count_kind(s, EditKind::ClassAdded) + count_kind(s, EditKind::ClassModified)
            + count_kind(s, EditKind::ClassDeleted) + count_kind(s, EditKind::FunctionAdded)
            + count_kind(s, EditKind::FunctionModified) + count_kind(s, EditKind::FunctionDeleted)
            == s.len(),
    decreases s.len(),
{
    if s.len() > 0 {
        lemma_counts_sum(s.drop_last());
    }
}

/// In a consistent report the total number of edits is the sum of the nine
/// per-kind counters: each event counts as exactly one edit.
pub proof fn lemma_total_is_sum_of_counters(r: EditReport)
    requires
        r.wf(),
    ensures
        r.total_edits == r.files_added + r.files_modified + r.files_deleted + r.classes_added
            + r.classes_modified + r.classes_deleted + r.functions_added + r.functions_modified
            + r.functions_deleted,
{
    lemma_counts_sum(r.events@);
}

impl Default for EditReport {
    /// The empty report: every counter zero and no events.
    fn default() -> (r: EditReport)
        ensures
            r.total_edits == 0,
            r.events@.len() == 0,
            r.wf(),
    {
        EditReport {
            total_edits: 0,
            files_added: 0,
            files_modified: 0,
            files_deleted: 0,
            classes_added: 0,
            classes_modified: 0,
            classes_deleted: 0,
            functions_added: 0,
            functions_modified: 0,
            functions_deleted: 0,
            events: Vec::new(),
        }
    }
}

} // verus!
