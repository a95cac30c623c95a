//! Per-window activity metrics rolled up from the window's commits and diffs.
use vstd::prelude::*;
use indexmap::IndexSet;
use crate::calendar::{Date, utc_date};
use crate::commits::{CommitRecord, commit_day};
use crate::diff::DiffData;
use crate::string_set::{dedup, set_items, new_string_set, set_insert};

verus! {

/// One of the counters that a diff contributes to a window.
#[derive(Clone, Copy, Debug, PartialEq, Eq, Structural)]
pub enum Counter {
    AddedLines,
    DeletedLines,
    FilesAdded,
    FilesDeleted,
    FilesModified,
    FilesRenamed,
}

/// The value of counter `c` in the diff `d`.
pub open spec fn counter_value(d: DiffData, c: Counter) -> nat {
    match c {
        Counter::AddedLines => d.added_lines as nat,
        Counter::DeletedLines => d.deleted_lines as nat,
        Counter::FilesAdded => d.files_added as nat,
        Counter::FilesDeleted => d.files_deleted as nat,
        Counter::FilesModified => d.files_modified as nat,
        Counter::FilesRenamed => d.files_renamed as nat,
    }
}

/// The sum of counter `c` over the diffs `ds`.
pub open spec fn total(ds: Seq<DiffData>, c: Counter) -> nat
    decreases ds.len(),
{
    if ds.len() == 0 {
        0
    } else {
        total(ds.drop_last(), c) + counter_value(ds.last(), c)
    }
}

/// The days on which the commits were committed, in commit order; a commit
/// whose time has no calendar day is left out.
pub open spec fn commit_days(cs: Seq<CommitRecord>) -> Seq<Date>
    decreases cs.len(),
{
    if cs.len() == 0 {
        seq![]
    } else {
        let p = commit_days(cs.drop_last());
        match commit_day(cs.last()) {
            Some(d) => p.push(d),
            None => p,
        }
    }
}

/// The authors' emails of the commits, in commit order.
pub open spec fn author_emails(cs: Seq<CommitRecord>) -> Seq<Seq<char>> {
    cs.map_values(|c: CommitRecord| c.author_email@)
}

/// The committers' emails of the commits, in commit order.
pub open spec fn committer_emails(cs: Seq<CommitRecord>) -> Seq<Seq<char>> {
    cs.map_values(|c: CommitRecord| c.committer_email@)
}

/// The authors' names of the commits, in commit order.
pub open spec fn author_names(cs: Seq<CommitRecord>) -> Seq<Seq<char>> {
    cs.map_values(|c: CommitRecord| c.author_name@)
}

/// How often `x` occurs in `s`.
pub open spec fn occurrences(s: Seq<Seq<char>>, x: Seq<char>) -> nat
    decreases s.len(),
{
    if s.len() == 0 {
        0
    } else {
        occurrences(s.drop_last(), x) + if s.last() == x {
            1nat
        } else {
            0nat
        }
    }
}

/// The largest commit count of a minor contributor among `n` commits: five
/// percent of `n`, truncated.
pub open spec fn minor_threshold(n: nat) -> nat {
    n / 20
}

/// How many of the authors `authors` made at most `t` of the commits whose
/// authors are `names`.
pub open spec fn minor_count(authors: Seq<Seq<char>>, names: Seq<Seq<char>>, t: nat) -> nat
    decreases authors.len(),
{
    if authors.len() == 0 {
        0
    } else {
        minor_count(authors.drop_last(), names, t) + if occurrences(names, authors.last()) <= t {
            1nat
        } else {
            0nat
        }
    }
}

/// The items of a set into which the values `xs` were inserted in order.
pub open spec fn absorb(items: Seq<Seq<char>>, xs: Seq<Seq<char>>) -> Seq<Seq<char>>
    decreases xs.len(),
{
    if xs.len() == 0 {
        items
    } else {
        let p = absorb(items, xs.drop_last());
        if p.contains(xs.last()) {
            p
        } else {
            p.push(xs.last())
        }
    }
}

/// The commits of one window together with their diffs, diff `i` belonging to commit `i`.
pub struct CommitsMetrics {
    pub commits: Vec<CommitRecord>,
    pub diffs: Vec<DiffData>,
}

impl CommitsMetrics {
    pub open spec fn wf(&self) -> bool {
        self.commits.len() == self.diffs.len()
    }

    /// Every counter's sum fits in a machine word.
    pub open spec fn sums_fit(&self) -> bool {
        forall|c: Counter| #[trigger] total(self.diffs@, c) <= usize::MAX
    }

    /// Pairs the commits of a window with their diffs.
    pub fn new(commits: Vec<CommitRecord>, diffs: Vec<DiffData>) -> (r: CommitsMetrics)
        requires
            commits.len() == diffs.len(),
        ensures
            r.commits@ == commits@,
            r.diffs@ == diffs@,
            r.wf(),
    {
        CommitsMetrics { commits, diffs }
    }

    /// The number of distinct calendar days on which a commit was made.
    pub fn active_days(&self) -> (r: usize)
        ensures
            r == dedup(commit_days(self.commits@)).len(),
    {
        let ghost cs = self.commits@;
        let mut seen: Vec<Date> = Vec::new();
        let mut k: usize = 0;
        while k < self.commits.len()
            invariant
                cs == self.commits@,
                k <= cs.len(),
                seen@ == dedup(commit_days(cs.take(k as int))),
                seen.len() <= k,
            decreases cs.len() - k,
        {
            proof {
                assert(cs.take(k + 1).drop_last() =~= cs.take(k as int));
            }
            match utc_date(self.commits[k].time) {
                Some(day) => {
                    proof {
                        let p = commit_days(cs.take(k as int));
                        assert(p.push(day).drop_last() =~= p);
                    }
                    if !holds_day(&seen, day) {
                        seen.push(day);
                    }
                },
                None => {},
            }
            k = k + 1;
        }
        proof {
            assert(cs.take(cs.len() as int) =~= cs);
        }
        seen.len()
    }

    /// The number of added lines over all commits.
    pub fn added_lines(&self) -> (r: usize)
        requires
            self.sums_fit(),
        ensures
            r == total(self.diffs@, Counter::AddedLines),
    {
        sum_counter(&self.diffs, Counter::AddedLines)
    }

    /// The number of deleted lines over all commits.
    pub fn deleted_lines(&self) -> (r: usize)
        requires
            self.sums_fit(),
        ensures
            r == total(self.diffs@, Counter::DeletedLines),
    {
        sum_counter(&self.diffs, Counter::DeletedLines)
    }

    /// The number of added files over all commits.
    pub fn files_added(&self) -> (r: usize)
        requires
            self.sums_fit(),
        ensures
            r == total(self.diffs@, Counter::FilesAdded),
    {
        sum_counter(&self.diffs, Counter::FilesAdded)
    }

    /// The number of deleted files over all commits.
    pub fn files_deleted(&self) -> (r: usize)
        requires
            self.sums_fit(),
        ensures
            r == total(self.diffs@, Counter::FilesDeleted),
    {
        sum_counter(&self.diffs, Counter::FilesDeleted)
    }

    /// The number of modified files over all commits.
    pub fn files_modified(&self) -> (r: usize)
        requires
            self.sums_fit(),
        ensures
            r == total(self.diffs@, Counter::FilesModified),
    {
        sum_counter(&self.diffs, Counter::FilesModified)
    }

    /// The number of renamed files over all commits.
    pub fn files_renamed(&self) -> (r: usize)
        requires
            self.sums_fit(),
        ensures
            r == total(self.diffs@, Counter::FilesRenamed),
    {
        sum_counter(&self.diffs, Counter::FilesRenamed)
    }

    /// The distinct authors' emails, in the order of first appearance.
    pub fn authors_emails(&self) -> (r: IndexSet<String>)
        ensures
            set_items(r) == dedup(author_emails(self.commits@)),
    {
        let ghost cs = self.commits@;
        let mut s = new_string_set();
        let mut k: usize = 0;
        while k < self.commits.len()
            invariant
                cs == self.commits@,
                k <= cs.len(),
                set_items(s) == dedup(author_emails(cs.take(k as int))),
            decreases cs.len() - k,
        {
            let e = self.commits[k].author_email.clone();
            proof {
                assert(author_emails(cs.take(k + 1)) =~= author_emails(cs.take(k as int)).push(e@));
                assert(author_emails(cs.take(k + 1)).drop_last() =~= author_emails(
                    cs.take(k as int),
                ));
            }
            set_insert(&mut s, e);
            k = k + 1;
        }
        proof {
            assert(cs.take(cs.len() as int) =~= cs);
        }
        s
    }

    /// The distinct committers' emails, in the order of first appearance.
    pub fn committers_emails(&self) -> (r: IndexSet<String>)
        ensures
            set_items(r) == dedup(committer_emails(self.commits@)),
    {
        let ghost cs = self.commits@;
        let mut s = new_string_set();
        let mut k: usize = 0;
        while k < self.commits.len()
            invariant
                cs == self.commits@,
                k <= cs.len(),
                set_items(s) == dedup(committer_emails(cs.take(k as int))),
            decreases cs.len() - k,
        {
            let e = self.commits[k].committer_email.clone();
            proof {
                assert(committer_emails(cs.take(k + 1)) =~= committer_emails(cs.take(k as int)).push(
                    e@,
                ));
                assert(committer_emails(cs.take(k + 1)).drop_last() =~= committer_emails(
                    cs.take(k as int),
                ));
            }
            set_insert(&mut s, e);
            k = k + 1;
        }
        proof {
            assert(cs.take(cs.len() as int) =~= cs);
        }
        s
    }

    /// The numbers of minor and major contributors: an author (by name) is minor
    /// when their commits in this window are at most five percent of the
    /// window's commits (truncated), and major otherwise.
    pub fn major_minor_contributors(&self) -> (r: (usize, usize))
        ensures
            r.0 == minor_count(
                dedup(author_names(self.commits@)),
                author_names(self.commits@),
                minor_threshold(self.commits@.len()),
            ),
            r.0 + r.1 == dedup(author_names(self.commits@)).len(),
    {
        let ghost cs = self.commits@;
        let ghost names = author_names(cs);
        let threshold = self.commits.len() / 20;
        let mut seen = new_string_set();
        let mut minor: usize = 0;
        let mut major: usize = 0;
        let mut k: usize = 0;
        while k < self.commits.len()
            invariant
                cs == self.commits@,
                names == author_names(cs),
                threshold == minor_threshold(cs.len()),
                k <= cs.len(),
                set_items(seen) == dedup(author_names(cs.take(k as int))),
                minor == minor_count(set_items(seen), names, threshold as nat),
                minor + major == set_items(seen).len(),
                minor + major <= k,
            decreases cs.len() - k,
        {
            let name = &self.commits[k].author_name;
            proof {
                assert(author_names(cs.take(k + 1)) =~= author_names(cs.take(k as int)).push(
                    name@,
                ));
                assert(author_names(cs.take(k + 1)).drop_last() =~= author_names(
                    cs.take(k as int),
                ));
            }
            let ghost before = set_items(seen);
            if set_insert(&mut seen, name.clone()) {
                proof {
                    assert(set_items(seen).drop_last() =~= before);
                }
                let n = count_author(&self.commits, name);
                if n <= threshold {
                    minor = minor + 1;
                } else {
                    major = major + 1;
                }
            }
            k = k + 1;
        }
        proof {
            assert(cs.take(cs.len() as int) =~= cs);
        }
        (minor, major)
    }
}

/// Whether `day` is one of `seen`.
fn holds_day(seen: &Vec<Date>, day: Date) -> (r: bool)
    ensures
        r == seen@.contains(day),
{
    let mut i: usize = 0;
    while i < seen.len()
        invariant
            i <= seen.len(),
            forall|j: int| 0 <= j < i ==> seen@[j] != day,
        decreases seen.len() - i,
    {
        if seen[i] == day {
            assert(seen@[i as int] == day);
            return true;
        }
        i = i + 1;
    }
    false
}

/// The number of commits whose author is `name`.
fn count_author(commits: &Vec<CommitRecord>, name: &String) -> (r: usize)
    ensures
        r == occurrences(author_names(commits@), name@),
{
    let ghost cs = commits@;
    let mut n: usize = 0;
    let mut k: usize = 0;
    while k < commits.len()
        invariant
            cs == commits@,
            k <= cs.len(),
            n == occurrences(author_names(cs.take(k as int)), name@),
            n <= k,
        decreases cs.len() - k,
    {
        proof {
            assert(author_names(cs.take(k + 1)).drop_last() =~= author_names(cs.take(k as int)));
        }
        if commits[k].author_name == *name {
            n = n + 1;
        }
        k = k + 1;
    }
    proof {
        assert(cs.take(cs.len() as int) =~= cs);
    }
    n
}

fn counter(d: &DiffData, c: Counter) -> (r: usize)
    ensures
        r == counter_value(*d, c),
{
    match c {
        Counter::AddedLines => d.added_lines,
        Counter::DeletedLines => d.deleted_lines,
        Counter::FilesAdded => d.files_added,
        Counter::FilesDeleted => d.files_deleted,
        Counter::FilesModified => d.files_modified,
        Counter::FilesRenamed => d.files_renamed,
    }
}

/// A sum over a prefix is at most the sum over the whole.
proof fn lemma_total_prefix(ds: Seq<DiffData>, k: int, c: Counter)
    requires
        0 <= k <= ds.len(),
    ensures
        total(ds.take(k), c) <= total(ds, c),
    decreases ds.len(),
{
    if k < ds.len() {
        lemma_total_prefix(ds.drop_last(), k, c);
        assert(ds.drop_last().take(k) =~= ds.take(k));
    } else {
        assert(ds.take(k) =~= ds);
    }
}

fn sum_counter(ds: &Vec<DiffData>, c: Counter) -> (r: usize)
    requires
        total(ds@, c) <= usize::MAX,
    ensures
        r == total(ds@, c),
{
    let mut acc: usize = 0;
    let mut k: usize = 0;
    while k < ds.len()
        invariant
            k <= ds.len(),
            total(ds@, c) <= usize::MAX,
            acc == total(ds@.take(k as int), c),
        decreases ds.len() - k,
    {
        proof {
            assert(ds@.take(k + 1).drop_last() =~= ds@.take(k as int));
            lemma_total_prefix(ds@, k + 1, c);
        }
        acc = acc + counter(&ds[k], c);
        k = k + 1;
    }
    proof {
        assert(ds@.take(ds.len() as int) =~= ds@);
    }
    acc
}

/// Active days count dates, not commits: three commits on one day and one on
/// another make two active days.
pub proof fn lemma_active_days_of_two_dates(cs: Seq<CommitRecord>, d1: Date, d2: Date)
    requires
        cs.len() == 4,
        commit_day(cs[0]) == Some(d1),
        commit_day(cs[1]) == Some(d1),
        commit_day(cs[2]) == Some(d1),
        commit_day(cs[3]) == Some(d2),
        d1 != d2,
    ensures
        dedup(commit_days(cs)).len() == 2,
{
    let c1 = cs.take(1);
    let c2 = cs.take(2);
    let c3 = cs.take(3);
    assert(c1.drop_last() =~= Seq::<CommitRecord>::empty());
    assert(c2.drop_last() =~= c1);
    assert(c3.drop_last() =~= c2);
    assert(cs.drop_last() =~= c3);
    assert(c1.last() == cs[0]);
    assert(commit_days(c1.drop_last()) =~= Seq::<Date>::empty());
    assert(commit_days(c1) =~= seq![d1]);
    assert(commit_days(c2) =~= seq![d1, d1]);
    assert(commit_days(c3) =~= seq![d1, d1, d1]);
    assert(commit_days(cs) =~= seq![d1, d1, d1, d2]);
    let s = seq![d1, d1, d1, d2];
    assert(s.drop_last() =~= seq![d1, d1, d1]);
    assert(seq![d1, d1, d1].drop_last() =~= seq![d1, d1]);
    assert(seq![d1, d1].drop_last() =~= seq![d1]);
    assert(seq![d1].drop_last() =~= Seq::<Date>::empty());
    assert(dedup(seq![d1].drop_last()) =~= Seq::<Date>::empty());
    assert(dedup(seq![d1]) =~= seq![d1]);
    assert(seq![d1].contains(d1)) by {
        assert(seq![d1][0] == d1);
    }
    assert(dedup(seq![d1, d1]) =~= seq![d1]);
    assert(dedup(seq![d1, d1, d1]) =~= seq![d1]);
    assert(!seq![d1].contains(d2));
    assert(dedup(s) =~= seq![d1, d2]);
}

/// Tiering uses five percent of the window's commits, truncated: with 42
/// commits by four authors who made 5, 15, 2 and 20 of them, only the author of
/// 2 commits (at most 2 = 42 / 20) is minor, and the other three are major.
pub proof fn lemma_tiers_of_forty_two(cs: Seq<CommitRecord>, a: Seq<char>, b: Seq<char>, c: Seq<char>, d: Seq<char>)
    requires
        cs.len() == 42,
        dedup(author_names(cs)) == seq![a, b, c, d],
        occurrences(author_names(cs), a) == 5,
        occurrences(author_names(cs), b) == 15,
        occurrences(author_names(cs), c) == 2,
        occurrences(author_names(cs), d) == 20,
    ensures
        minor_count(dedup(author_names(cs)), author_names(cs), minor_threshold(cs.len())) == 1,
        dedup(author_names(cs)).len() - 1 == 3,
{
    let names = author_names(cs);
    let s = seq![a, b, c, d];
    assert(minor_threshold(42) == 2);
    assert(s.drop_last() =~= seq![a, b, c]);
    assert(seq![a, b, c].drop_last() =~= seq![a, b]);
    assert(seq![a, b].drop_last() =~= seq![a]);
    assert(seq![a].drop_last() =~= Seq::<Seq<char>>::empty());
    assert(seq![a].last() == a);
    assert(minor_count(Seq::<Seq<char>>::empty(), names, 2) == 0);
    assert(minor_count(seq![a], names, 2) == 0);
    assert(minor_count(seq![a, b], names, 2) == 0);
    assert(minor_count(seq![a, b, c], names, 2) == 1);
    assert(minor_count(s, names, 2) == 1);
}

} // verus!
