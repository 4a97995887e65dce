//! A whole change set: the report over many files, and which files a
//! configuration leaves out.
use vstd::prelude::*;
use crate::analyzer::{analyze_file_diff, analyze_spec};
use crate::models::{EditEvent, EditEventView, EditKind, EditReport, count_kind, events_view, opt_string_view};
use crate::text::{chars_of, chars_equal};

verus! {

/// One file as it stands in two versions; `None` where it does not exist.
pub struct FileChange {
    pub path: String,
    pub old_content: Option<String>,
    pub new_content: Option<String>,
}

/// How a diff is taken: rename detection (carried out where the versions
/// are read) and the path patterns to leave out of the report.
pub struct DiffConfig {
    pub find_renames: bool,
    pub rename_threshold: Option<u32>,
    pub ignore_patterns: Vec<String>,
}

/// Why a report could not be built.
#[derive(Debug, Clone, Copy, PartialEq, Eq, Structural)]
pub enum ReportError {
    /// More edits than a counter can hold.
    TooManyEdits,
}

/// How a file changed between the two versions of a diff.
#[derive(Debug, Clone, Copy, PartialEq, Eq, Structural)]
pub enum DeltaStatus {
    /// The file exists only in the new version.
    Added,
    /// The file is new in the working tree and not tracked.
    Untracked,
    /// The file exists only in the old version.
    Deleted,
    /// Any other change: the file is read in both versions.
    Changed,
}

/// Whether the old version of a file with this status is read: not for a
/// file that was added or is untracked.
pub fn reads_old_version(status: DeltaStatus) -> (r: bool)
    ensures
        r == !(status == DeltaStatus::Added || status == DeltaStatus::Untracked),
{
    match status {
        DeltaStatus::Added | DeltaStatus::Untracked => false,
        _ => true,
    }
}

/// Whether the new version of a file with this status is read: not for a
/// deleted file.
pub fn reads_new_version(status: DeltaStatus) -> (r: bool)
    ensures
        r == (status != DeltaStatus::Deleted),
{
    match status {
        DeltaStatus::Deleted => false,
        _ => true,
    }
}

/// Whether the path `p` (with `/` between its components) names a Rust
/// source file: its file name has the extension `rs`, that is, it ends in
/// `.rs` after at least one character of its own, as `Path::extension`
/// reads it.
pub open spec fn is_rust_source_path(p: Seq<char>) -> bool {
    p.len() >= 4 && p[p.len() - 3] == '.' && p[p.len() - 2] == 'r' && p[p.len() - 1] == 's'
        && p[p.len() - 4] != '/'
}

/// Whether the file at `path` is a Rust source file (see
/// [`is_rust_source_path`]); the files a directory walk reports on.
pub fn is_rust_source(path: &str) -> (r: bool)
    ensures
        r == is_rust_source_path(path@),
{
    let p = chars_of(path);
    let n = p.len();
    n >= 4 && p[n - 3] == '.' && p[n - 2] == 'r' && p[n - 1] == 's' && p[n - 4] != '/'
}

// ---------------------------------------------------------------- ignore patterns

/// Whether `x` occurs in `s` at position `i`.
pub open spec fn occurs_at(s: Seq<char>, x: Seq<char>, i: int) -> bool {
    0 <= i && i + x.len() <= s.len() && s.subrange(i, i + x.len()) == x
}

pub open spec fn starts_with(s: Seq<char>, x: Seq<char>) -> bool {
    occurs_at(s, x, 0)
}

pub open spec fn ends_with(s: Seq<char>, x: Seq<char>) -> bool {
    occurs_at(s, x, s.len() - x.len())
}

/// Whether a path component starts with `x`: at the start of the path or
/// right after a `/`.
pub open spec fn component_starts_with(s: Seq<char>, x: Seq<char>) -> bool {
    starts_with(s, x) || exists|i: int|
        0 < i <= s.len() && s[i - 1] == '/' && #[trigger] occurs_at(s, x, i)
}

/// Whether `pattern` covers `path`: a pattern ending in `/` covers every
/// path inside a directory of that name; a pattern starting with `*`
/// covers every path ending with the rest of it; any other pattern covers
/// the path itself and what lies below it, named from the top or from any
/// directory.
pub open spec fn pattern_covers(pattern: Seq<char>, path: Seq<char>) -> bool {
    if pattern.len() == 0 {
        false
    } else if pattern.last() == '/' {
        component_starts_with(path, pattern)
    } else if pattern[0] == '*' {
        ends_with(path, pattern.subrange(1, pattern.len() as int))
    } else {
        path == pattern || component_starts_with(path, pattern.push('/')) || ends_with(
            path,
            seq!['/'] + pattern,
        )
    }
}

/// Whether some pattern of `patterns` covers `path`.
pub open spec fn ignored_by(patterns: Seq<Seq<char>>, path: Seq<char>) -> bool {
    exists|k: int| 0 <= k < patterns.len() && pattern_covers(#[trigger] patterns[k], path)
}

/// A plain pattern (not ending in `/`, not starting with `*`) names a file
/// or a directory: a configuration holding it leaves out the path equal to
/// it, everything inside a directory of that name at any depth, and a file
/// of that name in any directory.
pub proof fn lemma_plain_pattern_ignores(ps: Seq<Seq<char>>, k: int, d: Seq<char>, rest: Seq<char>)
    requires
        0 <= k < ps.len(),
        ps[k].len() > 0,
        ps[k].last() != '/',
        ps[k][0] != '*',
    ensures
        ignored_by(ps, ps[k]),
        ignored_by(ps, ps[k] + seq!['/'] + rest),
        ignored_by(ps, d + seq!['/'] + ps[k] + seq!['/'] + rest),
        ignored_by(ps, d + seq!['/'] + ps[k]),
{
    let p = ps[k];
    let x = p.push('/');
    let a = p + seq!['/'] + rest;
    assert(a.subrange(0, x.len() as int) =~= x);
    assert(occurs_at(a, x, 0));
    assert(pattern_covers(p, a));
    let b = d + seq!['/'] + p + seq!['/'] + rest;
    let i: int = d.len() as int + 1;
    assert(b[i - 1] == '/');
    assert(b.subrange(i, i + x.len()) =~= x);
    assert(occurs_at(b, x, i));
    assert(pattern_covers(p, b));
    let c = d + seq!['/'] + p;
    assert(c.subrange(c.len() - (p.len() + 1), c.len() as int) =~= seq!['/'] + p);
    assert(pattern_covers(p, c));
    assert(pattern_covers(p, p));
}

/// A pattern ending in `/` leaves out everything inside a directory of
/// that name, at the top or at any depth.
pub proof fn lemma_dir_pattern_ignores(ps: Seq<Seq<char>>, k: int, d: Seq<char>, rest: Seq<char>)
    requires
        0 <= k < ps.len(),
        ps[k].len() > 0,
        ps[k].last() == '/',
    ensures
        ignored_by(ps, ps[k] + rest),
        ignored_by(ps, d + seq!['/'] + ps[k] + rest),
{
    let p = ps[k];
    let a = p + rest;
    assert(a.subrange(0, p.len() as int) =~= p);
    assert(pattern_covers(p, a));
    let b = d + seq!['/'] + p + rest;
    let i: int = d.len() as int + 1;
    assert(b[i - 1] == '/');
    assert(b.subrange(i, i + p.len()) =~= p);
    assert(occurs_at(b, p, i));
    assert(pattern_covers(p, b));
}

/// A pattern `*x` (not ending in `/`) leaves out every path ending with
/// `x`.
pub proof fn lemma_star_pattern_ignores(ps: Seq<Seq<char>>, k: int, q: Seq<char>)
    requires
        0 <= k < ps.len(),
        ps[k].len() > 0,
        ps[k][0] == '*',
        ps[k].last() != '/',
    ensures
        ignored_by(ps, q + ps[k].subrange(1, ps[k].len() as int)),
{
    let p = ps[k];
    let x = p.subrange(1, p.len() as int);
    let a = q + x;
    assert(a.subrange(a.len() - x.len(), a.len() as int) =~= x);
    assert(pattern_covers(p, a));
}

/// A pattern covers only paths that contain it: the pattern itself
/// somewhere in the path, or, for `*x` not ending in `/`, `x` at the end of
/// the path.
pub proof fn lemma_covered_paths_contain_the_pattern(p: Seq<char>, path: Seq<char>)
    requires
        pattern_covers(p, path),
    ensures
        p[0] == '*' && p.last() != '/' ==> path.len() + 1 >= p.len() && path.subrange(
            path.len() - (p.len() - 1),
            path.len() as int,
        ) == p.subrange(1, p.len() as int),
        p[0] != '*' || p.last() == '/' ==> exists|i: int|
            0 <= i && i + p.len() <= path.len() && #[trigger] path.subrange(i, i + p.len()) == p,
{
    if p[0] != '*' || p.last() == '/' {
        if p.last() == '/' {
            if starts_with(path, p) {
                assert(path.subrange(0, p.len() as int) == p);
            } else {
                let i = choose|i: int| 0 < i <= path.len() && path[i - 1] == '/' && #[trigger] occurs_at(path, p, i);
                assert(path.subrange(i, i + p.len()) == p);
            }
        } else if path == p {
            assert(path.subrange(0, p.len() as int) =~= p);
        } else if component_starts_with(path, p.push('/')) {
            let x = p.push('/');
            let i = if starts_with(path, x) {
                0
            } else {
                choose|i: int| 0 < i <= path.len() && path[i - 1] == '/' && #[trigger] occurs_at(path, x, i)
            };
            assert(path.subrange(i, i + x.len()) == x);
            assert(path.subrange(i, i + p.len()) =~= x.subrange(0, p.len() as int));
            assert(x.subrange(0, p.len() as int) =~= p);
        } else {
            let x = seq!['/'] + p;
            let i = path.len() - x.len();
            assert(path.subrange(i, path.len() as int) == x);
            assert(path.subrange(i + 1, i + 1 + p.len()) =~= x.subrange(1, x.len() as int));
            assert(x.subrange(1, x.len() as int) =~= p);
        }
    }
}

pub open spec fn strings_view(v: Seq<String>) -> Seq<Seq<char>> {
    v.map_values(|s: String| s@)
}

fn occurs_at_exec(s: &Vec<char>, x: &Vec<char>, i: usize) -> (r: bool)
    ensures
        r == occurs_at(s@, x@, i as int),
{
    if i > s.len() || x.len() > s.len() - i {
        return false;
    }
    let mut k: usize = 0;
    while k < x.len()
        invariant
            i + x@.len() <= s.len(),
            k <= x@.len(),
            forall|j: int| 0 <= j < k ==> s@[i + j] == x@[j],
        decreases x@.len() - k,
    {
        if s[i + k] != x[k] {
            assert(s@.subrange(i as int, i + x@.len())[k as int] != x@[k as int]);
            return false;
        }
        k = k + 1;
    }
    assert(s@.subrange(i as int, i + x@.len()) =~= x@);
    true
}

fn component_starts_with_exec(s: &Vec<char>, x: &Vec<char>) -> (r: bool)
    ensures
        r == component_starts_with(s@, x@),
{
    if occurs_at_exec(s, x, 0) {
        return true;
    }
    let mut j: usize = 0;
    while j < s.len()
        invariant
            j <= s@.len(),
            !starts_with(s@, x@),
            forall|i: int|
                0 < i <= j ==> !(s@[i - 1] == '/' && #[trigger] occurs_at(s@, x@, i)),
        decreases s@.len() - j,
    {
        if s[j] == '/' && occurs_at_exec(s, x, j + 1) {
            return true;
        }
        j = j + 1;
    }
    false
}

fn pattern_covers_exec(pattern: &Vec<char>, path: &Vec<char>) -> (r: bool)
    ensures
        r == pattern_covers(pattern@, path@),
{
    let n = pattern.len();
    if n == 0 {
        false
    } else if pattern[n - 1] == '/' {
        component_starts_with_exec(path, pattern)
    } else if pattern[0] == '*' {
        let mut rest: Vec<char> = Vec::new();
        let mut k: usize = 1;
        while k < n
            invariant
                1 <= k <= n,
                n == pattern@.len(),
                rest@ == pattern@.subrange(1, k as int),
            decreases n - k,
        {
            rest.push(pattern[k]);
            k = k + 1;
            assert(rest@ =~= pattern@.subrange(1, k as int));
        }
        if rest.len() > path.len() {
            false
        } else {
            occurs_at_exec(path, &rest, path.len() - rest.len())
        }
    } else {
        let mut below = crate::scan::copy_chars(pattern);
        below.push('/');
        let mut tail: Vec<char> = Vec::new();
        tail.push('/');
        let mut k: usize = 0;
        while k < n
            invariant
                k <= n,
                n == pattern@.len(),
                tail@ == seq!['/'] + pattern@.take(k as int),
            decreases n - k,
        {
            tail.push(pattern[k]);
            k = k + 1;
            assert(tail@ =~= seq!['/'] + pattern@.take(k as int));
        }
        assert(pattern@.take(n as int) =~= pattern@);
        let ends = if tail.len() > path.len() {
            false
        } else {
            occurs_at_exec(path, &tail, path.len() - tail.len())
        };
        chars_equal(path, pattern) || component_starts_with_exec(path, &below) || ends
    }
}

impl DiffConfig {
    /// Whether the file at `path` is left out of the report: some ignore
    /// pattern covers it (see [`pattern_covers`]).
    pub fn is_ignored(&self, path: &str) -> (r: bool)
        ensures
            r == ignored_by(strings_view(self.ignore_patterns@), path@),
    {
        let p = chars_of(path);
        let ghost pats = strings_view(self.ignore_patterns@);
        let mut k: usize = 0;
        while k < self.ignore_patterns.len()
            invariant
                k <= self.ignore_patterns@.len(),
                pats == strings_view(self.ignore_patterns@),
                p@ == path@,
                forall|j: int| 0 <= j < k ==> !pattern_covers(#[trigger] pats[j], path@),
            decreases self.ignore_patterns@.len() - k,
        {
            let pat = chars_of(self.ignore_patterns[k].as_str());
            assert(pats[k as int] == self.ignore_patterns@[k as int]@);
            if pattern_covers_exec(&pat, &p) {
                return true;
            }
            k = k + 1;
        }
        false
    }
}

// ---------------------------------------------------------------- report

pub open spec fn opt_view(o: Option<String>) -> Option<Seq<char>> {
    opt_string_view(o)
}

/// The events of one change.
pub open spec fn change_events(c: FileChange) -> Seq<EditEventView> {
    analyze_spec(c.path@, opt_view(c.old_content), opt_view(c.new_content))
}

/// The events of the changes in order, leaving out the files that
/// `patterns` cover.
pub open spec fn changes_events(cs: Seq<FileChange>, patterns: Seq<Seq<char>>) -> Seq<EditEventView>
    decreases cs.len(),
{
    if cs.len() == 0 {
        Seq::<EditEventView>::empty()
    } else {
        changes_events(cs.drop_last(), patterns) + if ignored_by(patterns, cs.last().path@) {
            Seq::<EditEventView>::empty()
        } else {
            change_events(cs.last())
        }
    }
}

/// With no ignore patterns, the events of a change set are the events of
/// each change in turn: every file's events, in the order of the changes.
pub proof fn lemma_no_patterns_keep_every_change(cs: Seq<FileChange>)
    ensures
        changes_events(cs, Seq::<Seq<char>>::empty()) == cs.map_values(
            |c: FileChange| change_events(c),
        ).flatten(),
    decreases cs.len(),
{
    let f = |c: FileChange| change_events(c);
    if cs.len() == 0 {
        assert(cs.map_values(f) =~= Seq::<Seq<EditEventView>>::empty());
    } else {
        lemma_no_patterns_keep_every_change(cs.drop_last());
        assert(!ignored_by(Seq::<Seq<char>>::empty(), cs.last().path@));
        assert(cs.map_values(f) =~= cs.drop_last().map_values(f).push(change_events(cs.last())));
        cs.drop_last().map_values(f).lemma_flatten_push(change_events(cs.last()));
    }
}

pub proof fn lemma_count_le_len(s: Seq<EditEvent>, k: EditKind)
    ensures
        count_kind(s, k) <= s.len(),
    decreases s.len(),
{
    if s.len() > 0 {
        lemma_count_le_len(s.drop_last(), k);
    }
}

fn opt_str(o: &Option<String>) -> (r: Option<&str>)
    ensures
        crate::models::opt_str_view(r) == opt_string_view(*o),
{
    match o {
        Some(s) => Some(s.as_str()),
        None => None,
    }
}

/// The report of a change set: the events of each file not ignored by
/// `config`, in order, counted. Fails only when there are more edits than
/// a `usize` counts.
pub fn build_report(changes: &[FileChange], config: &DiffConfig) -> (r: Result<EditReport, ReportError>)
    ensures
        match r {
            Ok(rep) => rep.wf() && events_view(rep.events@) == changes_events(
                changes@,
                strings_view(config.ignore_patterns@),
            ) && rep.total_edits == changes_events(
                changes@,
                strings_view(config.ignore_patterns@),
            ).len(),
            Err(_) => changes_events(changes@, strings_view(config.ignore_patterns@)).len()
                > usize::MAX,
        },
{
    let ghost pats = strings_view(config.ignore_patterns@);
    let mut report = EditReport::default();
    let mut i: usize = 0;
    assert(changes@.take(0) =~= Seq::<FileChange>::empty());
    assert(events_view(report.events@) =~= changes_events(changes@.take(0), pats));
    while i < changes.len()
        invariant
            i <= changes@.len(),
            pats == strings_view(config.ignore_patterns@),
            report.wf(),
            events_view(report.events@) == changes_events(changes@.take(i as int), pats),
        decreases changes@.len() - i,
    {
        let c = &changes[i];
        assert(changes@.take(i + 1).drop_last() =~= changes@.take(i as int));
        assert(changes@.take(i + 1).last() == *c);
        if !config.is_ignored(c.path.as_str()) {
            let events = analyze_file_diff(c.path.as_str(), opt_str(&c.old_content), opt_str(&c.new_content));
            let ghost base = events_view(report.events@);
            let ghost fe = events_view(events@);
            assert(changes_events(changes@.take(i + 1), pats) == base + fe);
            let mut k: usize = 0;
            while k < events.len()
                invariant
                    pats == strings_view(config.ignore_patterns@),
                    i < changes@.len(),
                    changes_events(changes@.take(i + 1), pats) == base + fe,
                    k <= events@.len(),
                    fe == events_view(events@),
                    report.wf(),
                    events_view(report.events@) == base + fe.take(k as int),
                decreases events@.len() - k,
            {
                if report.total_edits == usize::MAX {
                    proof {
                        let all = changes_events(changes@, pats);
                        lemma_changes_prefix(changes@, pats, i as int + 1);
                        assert(events_view(report.events@).len() == report.events@.len());
                        assert(report.events@.len() == usize::MAX);
                        assert((base + fe.take(k as int)).len() == base.len() + k);
                        assert((base + fe).len() == base.len() + fe.len());
                        assert(all.len() >= (base + fe).len());
                        assert(all.len() > usize::MAX);
                    }
                    return Err(ReportError::TooManyEdits);
                }
                let e = events[k].clone_event();
                proof {
                    lemma_count_le_len(report.events@, e.kind);
                }
                let ghost ge = e;
                let ghost before = report.events@;
                report.add_event(e);
                assert(events_view(before.push(ge)) =~= events_view(before).push(ge@));
                assert(fe.take(k + 1) =~= fe.take(k as int).push(fe[k as int]));
                k = k + 1;
            }
            assert(fe.take(k as int) =~= fe);
        }
        i = i + 1;
    }
    assert(changes@.take(i as int) =~= changes@);
    Ok(report)
}

/// The events of a prefix of the changes come first in the events of all.
pub proof fn lemma_changes_prefix(cs: Seq<FileChange>, patterns: Seq<Seq<char>>, k: int)
    requires
        0 <= k <= cs.len(),
    ensures
        changes_events(cs.take(k), patterns).len() <= changes_events(cs, patterns).len(),
    decreases cs.len() - k,
{
    if k < cs.len() {
        lemma_changes_prefix(cs, patterns, k + 1);
        assert(cs.take(k + 1).drop_last() =~= cs.take(k));
    } else {
        assert(cs.take(k) =~= cs);
    }
}

impl EditEvent {
    /// A copy of this event.
    pub fn clone_event(&self) -> (r: EditEvent)
        ensures
            r@ == self@,
            r.kind == self.kind,
    {
        let symbol = match &self.symbol {
            Some(s) => Some(s.clone()),
            None => None,
        };
        EditEvent { kind: self.kind, symbol, file: self.file.clone(), line: self.line }
    }
}

} // verus!
