//! The walk over the windows in index order: one record per window, a running
//! ledger of contributors, and the decision of what each window needs.
use vstd::prelude::*;
use indexmap::IndexSet;
use crate::calendar::Date;
use crate::commits::CommitRecord;
use crate::metrics::{
    CommitsMetrics, Counter, total, commit_days, author_emails, committer_emails, author_names,
    minor_count, minor_threshold, absorb,
};
use crate::string_set::{dedup, set_items, new_string_set, set_insert, set_len};
use crate::windows::IncubationMonth;

verus! {

/// The commit-derived metrics of one window.
#[derive(Clone, Copy, Debug, PartialEq, Eq, Structural)]
pub struct WindowMetrics {
    pub measurement_month: usize,
    pub window_start_date: Date,
    pub window_end_date: Date,
    pub commits: usize,
    pub active_days: usize,
    pub added_lines: usize,
    pub deleted_lines: usize,
    pub files_added: usize,
    pub files_deleted: usize,
    pub files_modified: usize,
    pub files_renamed: usize,
    pub authors: usize,
    pub committers: usize,
    pub minor_contributors: usize,
    pub major_contributors: usize,
    pub new_contributors: usize,
}

/// The record of window `w` with commits and diffs `m`, given the contributors
/// `ledger` seen in earlier windows.
pub open spec fn window_record(
    w: IncubationMonth,
    m: CommitsMetrics,
    ledger: Seq<Seq<char>>,
) -> WindowMetrics {
    let cs = m.commits@;
    let names = author_names(cs);
    let minor = minor_count(dedup(names), names, minor_threshold(cs.len()));
    WindowMetrics {
        measurement_month: w.incubation_month,
        window_start_date: w.start_date,
        window_end_date: w.end_date,
        commits: cs.len() as usize,
        active_days: dedup(commit_days(cs)).len() as usize,
        added_lines: total(m.diffs@, Counter::AddedLines) as usize,
        deleted_lines: total(m.diffs@, Counter::DeletedLines) as usize,
        files_added: total(m.diffs@, Counter::FilesAdded) as usize,
        files_deleted: total(m.diffs@, Counter::FilesDeleted) as usize,
        files_modified: total(m.diffs@, Counter::FilesModified) as usize,
        files_renamed: total(m.diffs@, Counter::FilesRenamed) as usize,
        authors: dedup(author_emails(cs)).len() as usize,
        committers: dedup(committer_emails(cs)).len() as usize,
        minor_contributors: minor as usize,
        major_contributors: (dedup(names).len() - minor) as usize,
        new_contributors: (absorb(ledger, author_emails(cs)).len() - ledger.len()) as usize,
    }
}

/// The record of a window without commits: its bounds, and zero for every
/// process metric.
pub open spec fn carried_forward(w: IncubationMonth) -> WindowMetrics {
    WindowMetrics {
        measurement_month: w.incubation_month,
        window_start_date: w.start_date,
        window_end_date: w.end_date,
        commits: 0,
        active_days: 0,
        added_lines: 0,
        deleted_lines: 0,
        files_added: 0,
        files_deleted: 0,
        files_modified: 0,
        files_renamed: 0,
        authors: 0,
        committers: 0,
        minor_contributors: 0,
        major_contributors: 0,
        new_contributors: 0,
    }
}

/// The contributors seen in the first `i` windows of `bs`, in order of first appearance.
pub open spec fn ledger_after(bs: Seq<CommitsMetrics>, i: int) -> Seq<Seq<char>>
    decreases i,
{
    if i <= 0 {
        seq![]
    } else {
        absorb(ledger_after(bs, i - 1), author_emails(bs[i - 1].commits@))
    }
}

/// Adds the authors of `commits` to the ledger and returns how many of them it
/// did not hold yet.
pub fn update_ledger(ledger: &mut IndexSet<String>, commits: &Vec<CommitRecord>) -> (r: usize)
    ensures
        set_items(*final(ledger)) == absorb(set_items(*old(ledger)), author_emails(commits@)),
        r == set_items(*final(ledger)).len() - set_items(*old(ledger)).len(),
{
    let ghost cs = commits@;
    let ghost start = set_items(*ledger);
    let mut added: usize = 0;
    let mut k: usize = 0;
    while k < commits.len()
        invariant
            cs == commits@,
            k <= cs.len(),
            set_items(*ledger) == absorb(start, author_emails(cs.take(k as int))),
            added == set_items(*ledger).len() - start.len(),
            added <= k,
        decreases cs.len() - k,
    {
        let e = commits[k].author_email.clone();
        proof {
            assert(author_emails(cs.take(k + 1)) =~= author_emails(cs.take(k as int)).push(e@));
            assert(author_emails(cs.take(k + 1)).drop_last() =~= author_emails(cs.take(k as int)));
        }
        if set_insert(ledger, e) {
            added = added + 1;
        }
        k = k + 1;
    }
    proof {
        assert(cs.take(cs.len() as int) =~= cs);
    }
    added
}

/// The record of one window; the window's authors join the ledger.
pub fn window_metrics(
    window: &IncubationMonth,
    m: &CommitsMetrics,
    ledger: &mut IndexSet<String>,
) -> (r: WindowMetrics)
    requires
        m.wf(),
        m.sums_fit(),
    ensures
        r == window_record(*window, *m, set_items(*old(ledger))),
        set_items(*final(ledger)) == absorb(set_items(*old(ledger)), author_emails(m.commits@)),
{
    let (minor, major) = m.major_minor_contributors();
    let authors = m.authors_emails();
    let committers = m.committers_emails();
    let new_contributors = update_ledger(ledger, &m.commits);
    WindowMetrics {
        measurement_month: window.incubation_month,
        window_start_date: window.start_date,
        window_end_date: window.end_date,
        commits: m.commits.len(),
        active_days: m.active_days(),
        added_lines: m.added_lines(),
        deleted_lines: m.deleted_lines(),
        files_added: m.files_added(),
        files_deleted: m.files_deleted(),
        files_modified: m.files_modified(),
        files_renamed: m.files_renamed(),
        authors: set_len(&authors),
        committers: set_len(&committers),
        minor_contributors: minor,
        major_contributors: major,
        new_contributors,
    }
}

/// A window without commits has a record of zeros.
pub proof fn lemma_empty_window(w: IncubationMonth, m: CommitsMetrics, ledger: Seq<Seq<char>>)
    requires
        m.wf(),
        m.commits.len() == 0,
    ensures
        window_record(w, m, ledger) == carried_forward(w),
{
    let cs = m.commits@;
    assert(author_names(cs) =~= Seq::<Seq<char>>::empty());
    assert(author_emails(cs) =~= Seq::<Seq<char>>::empty());
    assert(committer_emails(cs) =~= Seq::<Seq<char>>::empty());
    assert(commit_days(cs) =~= Seq::<Date>::empty());
    assert(dedup(author_names(cs)) =~= Seq::<Seq<char>>::empty());
}

/// One record per window, in window order: windows without commits are carried
/// forward with zero process metrics, and each window counts as new the
/// authors that no earlier window had.
pub fn rollup(windows: &Vec<IncubationMonth>, buckets: &Vec<CommitsMetrics>) -> (r: Vec<
    WindowMetrics,
>)
    requires
        windows.len() == buckets.len(),
        forall|i: int| 0 <= i < buckets.len() ==> (#[trigger] buckets[i]).wf() && buckets[i].sums_fit(),
    ensures
        r.len() == windows.len(),
        forall|i: int|
            0 <= i < r.len() ==> #[trigger] r[i] == window_record(
                windows[i],
                buckets[i],
                ledger_after(buckets@, i),
            ),
        forall|i: int|
            0 <= i < r.len() && (#[trigger] buckets[i]).commits.len() == 0 ==> r[i]
                == carried_forward(windows[i]),
{
    let mut ledger = new_string_set();
    let mut out: Vec<WindowMetrics> = Vec::new();
    let mut i: usize = 0;
    while i < windows.len()
        invariant
            windows.len() == buckets.len(),
            forall|j: int|
                0 <= j < buckets.len() ==> (#[trigger] buckets[j]).wf() && buckets[j].sums_fit(),
            i <= windows.len(),
            out.len() == i,
            set_items(ledger) == ledger_after(buckets@, i as int),
            forall|j: int|
                0 <= j < i ==> #[trigger] out[j] == window_record(
                    windows[j],
                    buckets[j],
                    ledger_after(buckets@, j),
                ),
            forall|j: int|
                0 <= j < i && (#[trigger] buckets[j]).commits.len() == 0 ==> out[j]
                    == carried_forward(windows[j]),
        decreases windows.len() - i,
    {
        let rec = window_metrics(&windows[i], &buckets[i], &mut ledger);
        proof {
            if buckets[i as int].commits.len() == 0 {
                lemma_empty_window(windows[i as int], buckets[i as int], ledger_after(buckets@, i as int));
            }
        }
        out.push(rec);
        i = i + 1;
    }
    out
}

/// What the walk does for one window.
#[derive(Clone, Debug, PartialEq, Eq)]
pub enum WindowAction {
    /// No commits: emit a record of zeros; out-of-band metrics are still asked for.
    CarryForward,
    /// Aggregate the window's commits; no source-tree metrics are wanted.
    Analyze,
    /// Aggregate the window's commits and check the tree out at this commit
    /// (the window's last) for the source-tree metrics.
    AnalyzeAt(String),
}

/// Decides what a window needs, given its commits and whether source-tree
/// metrics are wanted.
pub fn plan_window(commits: &Vec<CommitRecord>, tree_metrics: bool) -> (r: WindowAction)
    ensures
        commits.len() == 0 ==> r == WindowAction::CarryForward,
        commits.len() > 0 && !tree_metrics ==> r == WindowAction::Analyze,
        commits.len() > 0 && tree_metrics ==> (r matches WindowAction::AnalyzeAt(id) && id@
            == commits@.last().id@),
{
    if commits.len() == 0 {
        WindowAction::CarryForward
    } else if !tree_metrics {
        WindowAction::Analyze
    } else {
        WindowAction::AnalyzeAt(commits[commits.len() - 1].id.clone())
    }
}

} // verus!
