//! Commits as plain values: which ones a period selects, and which window each
//! selected commit belongs to.
use vstd::prelude::*;
use vstd::multiset::Multiset;
use indexmap::{IndexMap, IndexSet};
use crate::calendar::{Date, utc_date_of, utc_date};
use crate::diff::{DiffData, DiffLine, source_lines};
use crate::string_set::set_items;
use crate::windows::{
    IncubationMonth, in_window, windows_linked, is_segmentation, lemma_windows_cover,
};

verus! {

/// A commit of the repository, read out of the version-control store.
#[derive(Clone, Debug, PartialEq, Eq)]
pub struct CommitRecord {
    /// The commit's hash.
    pub id: String,
    pub parent_count: usize,
    /// The committer's time, in seconds since the Unix epoch.
    pub time: i64,
    pub author_name: String,
    pub author_email: String,
    pub committer_email: String,
    pub message: String,
}

impl CommitRecord {
    /// A copy of this record.
    pub fn duplicate(&self) -> (r: CommitRecord)
        ensures
            r == *self,
    {
        CommitRecord {
            id: self.id.clone(),
            parent_count: self.parent_count,
            time: self.time,
            author_name: self.author_name.clone(),
            author_email: self.author_email.clone(),
            committer_email: self.committer_email.clone(),
            message: self.message.clone(),
        }
    }
}

/// The UTC day on which a commit was committed.
pub open spec fn commit_day(c: CommitRecord) -> Option<Date> {
    utc_date_of(c.time as int)
}

impl CommitRecord {
    /// The UTC day on which the commit was committed, if it can be represented.
    pub fn day(&self) -> (r: Option<Date>)
        ensures
            r == commit_day(*self),
            r matches Some(d) ==> d.wf(),
    {
        utc_date(self.time)
    }
}

/// The commit was committed between `start` and `end`, both days included.
pub open spec fn committed_within(c: CommitRecord, start: Date, end: Date) -> bool {
    match commit_day(c) {
        Some(d) => d.wf() && start.key() <= d.key() && d.key() <= end.key(),
        None => false,
    }
}

/// Whether the walk keeps a commit: the first commit of the walk may be a root,
/// any other must have exactly one parent; and it must lie in the period.
pub open spec fn keeps(c: CommitRecord, first: bool, start: Date, end: Date) -> bool {
    &&& if first {
        c.parent_count <= 1
    } else {
        c.parent_count == 1
    }
    &&& committed_within(c, start, end)
}

/// The commits of the walk `cs` that the period from `start` to `end` keeps, in walk order.
pub open spec fn selected(cs: Seq<CommitRecord>, start: Date, end: Date) -> Seq<CommitRecord>
    decreases cs.len(),
{
    if cs.len() == 0 {
        seq![]
    } else {
        let p = selected(cs.drop_last(), start, end);
        if keeps(cs.last(), cs.len() == 1, start, end) {
            p.push(cs.last())
        } else {
            p
        }
    }
}

/// The commit was committed on a day of window `w`.
pub open spec fn in_bucket(c: CommitRecord, w: IncubationMonth) -> bool {
    match commit_day(c) {
        Some(d) => in_window(d, w),
        None => false,
    }
}

/// The commits of `cs` that fall in window `w`, in their order in `cs`.
pub open spec fn commits_in(cs: Seq<CommitRecord>, w: IncubationMonth) -> Seq<CommitRecord>
    decreases cs.len(),
{
    if cs.len() == 0 {
        seq![]
    } else {
        let p = commits_in(cs.drop_last(), w);
        if in_bucket(cs.last(), w) {
            p.push(cs.last())
        } else {
            p
        }
    }
}

/// The commit falls in some window of `ws`.
pub open spec fn fits_window(c: CommitRecord, ws: Seq<IncubationMonth>) -> bool {
    exists|i: int| 0 <= i < ws.len() && in_bucket(c, ws[i])
}

/// Every commit of `cs` falls in some window of `ws`.
pub open spec fn placeable(cs: Seq<CommitRecord>, ws: Seq<IncubationMonth>) -> bool {
    forall|k: int| 0 <= k < cs.len() ==> fits_window(#[trigger] cs[k], ws)
}

/// Keeps, in walk order, the commits of the walk `commits` that were committed
/// from `start` to `end` and are no merge commits.
pub fn select_commits(commits: &Vec<CommitRecord>, start: Date, end: Date) -> (r: Vec<
    CommitRecord,
>)
    requires
        start.wf(),
        end.wf(),
    ensures
        r@ == selected(commits@, start, end),
{
    let mut out: Vec<CommitRecord> = Vec::new();
    let mut k: usize = 0;
    while k < commits.len()
        invariant
            start.wf(),
            end.wf(),
            k <= commits.len(),
            out@ == selected(commits@.take(k as int), start, end),
        decreases commits.len() - k,
    {
        let c = &commits[k];
        let parents_ok = if k == 0 {
            c.parent_count <= 1
        } else {
            c.parent_count == 1
        };
        if parents_ok {
            match utc_date(c.time) {
                Some(d) => {
                    if start.is_on_or_before(&d) && d.is_on_or_before(&end) {
                        out.push(c.duplicate());
                    }
                },
                None => {},
            }
        }
        proof {
            assert(commits@.take(k + 1).drop_last() =~= commits@.take(k as int));
        }
        k = k + 1;
    }
    proof {
        assert(commits@.take(commits.len() as int) =~= commits@);
    }
    out
}

/// Merge exclusion: no selected commit has two or more parents, and a selected
/// commit without a parent is the first commit of the walk. That first commit
/// is kept, first, whenever it has at most one parent and lies in the period.
pub proof fn lemma_selected_no_merges(cs: Seq<CommitRecord>, start: Date, end: Date)
    ensures
        forall|k: int|
            0 <= k < selected(cs, start, end).len() ==> {
                let c = #[trigger] selected(cs, start, end)[k];
                c.parent_count == 1 || (c.parent_count == 0 && c == cs[0])
            },
        cs.len() > 0 && keeps(cs[0], true, start, end) ==> selected(cs, start, end).len() > 0
            && selected(cs, start, end)[0] == cs[0],
    decreases cs.len(),
{
    if cs.len() > 0 {
        lemma_selected_no_merges(cs.drop_last(), start, end);
        if cs.len() > 1 {
            assert(cs.drop_last()[0] == cs[0]);
        }
        let p = selected(cs.drop_last(), start, end);
        assert forall|k: int| 0 <= k < p.len() implies selected(cs, start, end)[k] == p[k] by {
            if keeps(cs.last(), cs.len() == 1, start, end) {
                assert(p.push(cs.last())[k] == p[k]);
            }
        }
        if cs.len() == 1 {
            assert(cs.drop_last() =~= Seq::<CommitRecord>::empty());
        }
    }
}

/// Every selected commit was committed within the period.
pub proof fn lemma_selected_within(cs: Seq<CommitRecord>, start: Date, end: Date)
    ensures
        forall|k: int|
            0 <= k < selected(cs, start, end).len() ==> committed_within(
                #[trigger] selected(cs, start, end)[k],
                start,
                end,
            ),
    decreases cs.len(),
{
    if cs.len() > 0 {
        lemma_selected_within(cs.drop_last(), start, end);
        let p = selected(cs.drop_last(), start, end);
        assert forall|k: int| 0 <= k < p.len() implies selected(cs, start, end)[k] == p[k] by {
            if keeps(cs.last(), cs.len() == 1, start, end) {
                assert(p.push(cs.last())[k] == p[k]);
            }
        }
    }
}

/// A commit is in the list of a window exactly when it is one of the commits and
/// falls in that window.
pub proof fn lemma_commits_in_contains(cs: Seq<CommitRecord>, w: IncubationMonth, c: CommitRecord)
    ensures
        commits_in(cs, w).contains(c) <==> (cs.contains(c) && in_bucket(c, w)),
    decreases cs.len(),
{
    if cs.len() > 0 {
        lemma_commits_in_contains(cs.drop_last(), w, c);
        assert(cs =~= cs.drop_last().push(cs.last()));
        if cs.drop_last().contains(c) {
            let j = choose|j: int| 0 <= j < cs.drop_last().len() && cs.drop_last()[j] == c;
            assert(cs[j] == c);
        }
        if commits_in(cs.drop_last(), w).contains(c) {
            let p = commits_in(cs.drop_last(), w);
            let j = choose|j: int| 0 <= j < p.len() && p[j] == c;
            if in_bucket(cs.last(), w) {
                assert(p.push(cs.last())[j] == c);
            }
        }
        if cs.contains(c) {
            let j = choose|j: int| 0 <= j < cs.len() && cs[j] == c;
            if j < cs.len() - 1 {
                assert(cs.drop_last()[j] == c);
            }
        }
        if in_bucket(cs.last(), w) {
            let p = commits_in(cs.drop_last(), w);
            assert(p.push(cs.last())[p.len() as int] == cs.last());
        }
    }
}

/// Why commits cannot be placed into windows.
#[derive(Clone, Copy, Debug, PartialEq, Eq, Structural)]
pub enum AssignError {
    /// A commit falls in none of the windows.
    CommitOutsideWindows,
}

/// Whether some window of `windows` holds the day of `c`.
fn fits_some_window(c: &CommitRecord, windows: &Vec<IncubationMonth>) -> (r: bool)
    requires
        windows_linked(windows@),
    ensures
        r == fits_window(*c, windows@),
{
    let day = match utc_date(c.time) {
        Some(d) => d,
        None => {
            return false;
        },
    };
    let mut i: usize = 0;
    while i < windows.len()
        invariant
            i <= windows.len(),
            windows_linked(windows@),
            commit_day(*c) == Some(day),
            day.wf(),
            forall|j: int| 0 <= j < i ==> !in_bucket(*c, #[trigger] windows[j]),
        decreases windows.len() - i,
    {
        let w = &windows[i];
        assert(w.start_date.wf() && w.end_date.wf());
        if w.start_date.is_on_or_before(&day) && day.is_on_or_before(&w.end_date) {
            return true;
        }
        i = i + 1;
    }
    false
}

/// The commits of `commits` that fall in window `w`, in their order.
fn commits_of_window(commits: &Vec<CommitRecord>, w: &IncubationMonth) -> (r: Vec<CommitRecord>)
    requires
        w.start_date.wf(),
        w.end_date.wf(),
    ensures
        r@ == commits_in(commits@, *w),
{
    let mut out: Vec<CommitRecord> = Vec::new();
    let mut k: usize = 0;
    while k < commits.len()
        invariant
            k <= commits.len(),
            w.start_date.wf(),
            w.end_date.wf(),
            out@ == commits_in(commits@.take(k as int), *w),
        decreases commits.len() - k,
    {
        let c = &commits[k];
        match utc_date(c.time) {
            Some(d) => {
                if w.start_date.is_on_or_before(&d) && d.is_on_or_before(&w.end_date) {
                    out.push(c.duplicate());
                }
            },
            None => {},
        }
        proof {
            assert(commits@.take(k + 1).drop_last() =~= commits@.take(k as int));
        }
        k = k + 1;
    }
    proof {
        assert(commits@.take(commits.len() as int) =~= commits@);
    }
    out
}

#[verifier::external_type_specification]
#[verifier::external_body]
#[verifier::reject_recursive_types(K)]
#[verifier::reject_recursive_types(V)]
#[verifier::reject_recursive_types(S)]
pub struct ExIndexMap<K, V, S>(indexmap::IndexMap<K, V, S>);

/// The entries of a map from window index to commits, in insertion order.
pub uninterp spec fn window_entries(m: IndexMap<usize, Vec<CommitRecord>>) -> Seq<
    (usize, Vec<CommitRecord>),
>;

/// Relies on indexmap::IndexMap::new: a map without entries.
#[verifier::external_body]
fn new_window_map() -> (r: IndexMap<usize, Vec<CommitRecord>>)
    ensures
        window_entries(r) == Seq::<(usize, Vec<CommitRecord>)>::empty(),
{
    IndexMap::new()
}

/// Relies on indexmap::IndexMap::insert: a key not yet present is appended
/// with its value, last in order (and `None` comes back); a present key keeps
/// its place and takes the new value.
#[verifier::external_body]
fn window_map_insert(
    m: &mut IndexMap<usize, Vec<CommitRecord>>,
    k: usize,
    v: Vec<CommitRecord>,
) -> (r: bool)
    ensures
        r == !(exists|j: int|
            0 <= j < window_entries(*old(m)).len() && (#[trigger] window_entries(*old(m))[j]).0
                == k),
        r ==> window_entries(*final(m)) == window_entries(*old(m)).push((k, v)),
        !r ==> exists|j: int|
            0 <= j < window_entries(*old(m)).len() && (#[trigger] window_entries(*old(m))[j]).0
                == k && window_entries(*final(m)) == window_entries(*old(m)).update(j, (k, v)),
{
    m.insert(k, v).is_none()
}

/// Relies on indexmap::IndexMap::len: the number of entries.
#[verifier::external_body]
pub(crate) fn window_map_len(m: &IndexMap<usize, Vec<CommitRecord>>) -> (r: usize)
    ensures
        r == window_entries(*m).len(),
{
    m.len()
}

/// Relies on indexmap::IndexMap::get_index: the entry at a position, if the
/// position is below the length.
#[verifier::external_body]
pub(crate) fn window_map_entry(
    m: &IndexMap<usize, Vec<CommitRecord>>,
    i: usize,
) -> (r: Option<(usize, &Vec<CommitRecord>)>)
    ensures
        r is Some <==> i < window_entries(*m).len(),
        r matches Some(e) ==> e.0 == window_entries(*m)[i as int].0 && *e.1 == window_entries(
            *m,
        )[i as int].1,
{
    m.get_index(i).map(|(k, v)| (*k, v))
}

/// Buckets the commits into the windows: the entry of window `i` has the
/// window's index as key and, in their order, the commits committed on a day of
/// the window. A commit that falls in no window is an error.
pub fn commits_to_inc_months(commits: &Vec<CommitRecord>, windows: &Vec<IncubationMonth>) -> (r:
    Result<IndexMap<usize, Vec<CommitRecord>>, AssignError>)
    requires
        windows_linked(windows@),
    ensures
        r is Ok <==> placeable(commits@, windows@),
        r matches Ok(m) ==> window_entries(m).len() == windows.len() && forall|i: int|
            0 <= i < windows.len() ==> (#[trigger] window_entries(m)[i]).0
                == windows[i].incubation_month && window_entries(m)[i].1@ == commits_in(
                commits@,
                windows[i],
            ),
{
    let mut k: usize = 0;
    while k < commits.len()
        invariant
            k <= commits.len(),
            windows_linked(windows@),
            forall|j: int| 0 <= j < k ==> fits_window(#[trigger] commits@[j], windows@),
        decreases commits.len() - k,
    {
        if !fits_some_window(&commits[k], windows) {
            proof {
                if placeable(commits@, windows@) {
                    assert(fits_window(commits@[k as int], windows@));
                }
            }
            return Err(AssignError::CommitOutsideWindows);
        }
        k = k + 1;
    }
    let mut out = new_window_map();
    let mut i: usize = 0;
    while i < windows.len()
        invariant
            i <= windows.len(),
            windows_linked(windows@),
            placeable(commits@, windows@),
            window_entries(out).len() == i,
            forall|j: int|
                0 <= j < i ==> (#[trigger] window_entries(out)[j]).0 == windows[j].incubation_month
                    && window_entries(out)[j].1@ == commits_in(commits@, windows[j]),
        decreases windows.len() - i,
    {
        let w = &windows[i];
        assert(w.start_date.wf() && w.incubation_month == i + 1);
        let ghost before = window_entries(out);
        let bucket = commits_of_window(commits, w);
        let fresh = window_map_insert(&mut out, w.incubation_month, bucket);
        proof {
            if !fresh {
                let j = choose|j: int| 0 <= j < before.len() && (#[trigger] before[j]).0 == w.incubation_month;
                assert(windows[j].incubation_month == j + 1);
                assert(false);
            }
            assert(window_entries(out) == before.push((w.incubation_month, bucket)));
        }
        i = i + 1;
    }
    Ok(out)
}

broadcast use {vstd::seq_lib::group_to_multiset_ensures, vstd::multiset::group_multiset_axioms};

/// The commits of the lists of the first `n` windows, taken together.
pub open spec fn lists_union(
    cs: Seq<CommitRecord>,
    ws: Seq<IncubationMonth>,
    n: int,
) -> Multiset<CommitRecord>
    decreases n,
{
    if n <= 0 {
        Multiset::empty()
    } else {
        lists_union(cs, ws, n - 1).add(commits_in(cs, ws[n - 1]).to_multiset())
    }
}

/// The commit falls in window `k` of `ws` and in no other.
pub open spec fn only_in(c: CommitRecord, ws: Seq<IncubationMonth>, k: int) -> bool {
    &&& 0 <= k < ws.len()
    &&& in_bucket(c, ws[k])
    &&& forall|j: int| 0 <= j < ws.len() && #[trigger] in_bucket(c, ws[j]) ==> j == k
}

/// The commit falls in exactly one window of `ws`.
pub open spec fn has_home(c: CommitRecord, ws: Seq<IncubationMonth>) -> bool {
    exists|k: int| #[trigger] only_in(c, ws, k)
}

proof fn lemma_union_empty(ws: Seq<IncubationMonth>, n: int)
    ensures
        lists_union(Seq::<CommitRecord>::empty(), ws, n) =~= Multiset::<CommitRecord>::empty(),
    decreases n,
{
    if n > 0 {
        lemma_union_empty(ws, n - 1);
        assert(commits_in(Seq::<CommitRecord>::empty(), ws[n - 1]) =~= Seq::<CommitRecord>::empty());
        assert(Seq::<CommitRecord>::empty().to_multiset() =~= Multiset::<CommitRecord>::empty());
    }
}

proof fn lemma_union_push(
    cs: Seq<CommitRecord>,
    c: CommitRecord,
    ws: Seq<IncubationMonth>,
    n: int,
    k: int,
)
    requires
        0 <= n <= ws.len(),
        only_in(c, ws, k),
    ensures
        lists_union(cs.push(c), ws, n) == if k < n {
            lists_union(cs, ws, n).insert(c)
        } else {
            lists_union(cs, ws, n)
        },
    decreases n,
{
    if n > 0 {
        lemma_union_push(cs, c, ws, n - 1, k);
        assert(cs.push(c).drop_last() =~= cs);
        let w = ws[n - 1];
        let a = lists_union(cs, ws, n - 1);
        let b = commits_in(cs, w);
        if in_bucket(c, w) {
            assert(n - 1 == k);
            assert(commits_in(cs.push(c), w) == b.push(c));
            assert(b.push(c).to_multiset() =~= b.to_multiset().insert(c));
            assert(a.add(b.to_multiset().insert(c)) =~= a.add(b.to_multiset()).insert(c));
        } else {
            assert(commits_in(cs.push(c), w) == b);
            if k < n - 1 {
                assert(a.insert(c).add(b.to_multiset()) =~= a.add(b.to_multiset()).insert(c));
            }
        }
    }
}

/// When each commit falls in exactly one window, the windows' lists together
/// hold exactly the commits.
proof fn lemma_union_all(cs: Seq<CommitRecord>, ws: Seq<IncubationMonth>)
    requires
        forall|i: int| 0 <= i < cs.len() ==> has_home(#[trigger] cs[i], ws),
    ensures
        lists_union(cs, ws, ws.len() as int) == cs.to_multiset(),
    decreases cs.len(),
{
    if cs.len() == 0 {
        lemma_union_empty(ws, ws.len() as int);
        assert(cs =~= Seq::<CommitRecord>::empty());
        assert(cs.to_multiset() =~= Multiset::<CommitRecord>::empty());
    } else {
        let p = cs.drop_last();
        assert forall|i: int| 0 <= i < p.len() implies has_home(#[trigger] p[i], ws) by {
            assert(p[i] == cs[i]);
        }
        lemma_union_all(p, ws);
        let c = cs.last();
        assert(has_home(cs[cs.len() - 1], ws));
        let k = choose|k: int| only_in(c, ws, k);
        lemma_union_push(p, c, ws, ws.len() as int, k);
        assert(cs =~= p.push(c));
        assert(p.push(c).to_multiset() =~= p.to_multiset().insert(c));
        assert(lists_union(p.push(c), ws, ws.len() as int) == p.to_multiset().insert(c));
    }
}

/// Commit partition: for a segmentation of the period, every commit of `cs`
/// committed within the period lies in exactly one window's list, each list
/// holds only commits of `cs`, and the lists together hold exactly the commits
/// of `cs` (as a multiset: nothing added, nothing lost).
pub proof fn lemma_dated_partition(
    cs: Seq<CommitRecord>,
    start: Date,
    end: Date,
    ws: Seq<IncubationMonth>,
)
    requires
        is_segmentation(start, end, ws),
        forall|k: int| 0 <= k < cs.len() ==> committed_within(#[trigger] cs[k], start, end),
    ensures
        placeable(cs, ws),
        forall|c: CommitRecord|
            #[trigger] cs.contains(c) ==> exists|i: int|
                0 <= i < ws.len() && commits_in(cs, ws[i]).contains(c) && forall|j: int|
                    0 <= j < ws.len() && #[trigger] commits_in(cs, ws[j]).contains(c) ==> j == i,
        forall|i: int, c: CommitRecord|
            0 <= i < ws.len() && #[trigger] commits_in(cs, ws[i]).contains(c) ==> cs.contains(c),
        lists_union(cs, ws, ws.len() as int) == cs.to_multiset(),
{
    let sel = cs;
    assert forall|c: CommitRecord| #[trigger] sel.contains(c) implies exists|i: int|
        0 <= i < ws.len() && commits_in(sel, ws[i]).contains(c) && forall|j: int|
            0 <= j < ws.len() && #[trigger] commits_in(sel, ws[j]).contains(c) ==> j == i by {
        let k = choose|k: int| 0 <= k < sel.len() && sel[k] == c;
        assert(committed_within(sel[k], start, end));
        let d = commit_day(c)->0;
        lemma_windows_cover(start, end, ws, d);
        let i = choose|i: int| 0 <= i < ws.len() && in_window(d, #[trigger] ws[i]);
        lemma_commits_in_contains(sel, ws[i], c);
        assert forall|j: int|
            0 <= j < ws.len() && #[trigger] commits_in(sel, ws[j]).contains(c) implies j == i by {
            lemma_commits_in_contains(sel, ws[j], c);
        }
    }
    assert forall|k: int| 0 <= k < sel.len() implies fits_window(#[trigger] sel[k], ws) by {
        let c = sel[k];
        assert(sel.contains(c));
        let i = choose|i: int| 0 <= i < ws.len() && commits_in(sel, ws[i]).contains(c);
        lemma_commits_in_contains(sel, ws[i], c);
    }
    assert forall|i: int, c: CommitRecord|
        0 <= i < ws.len() && #[trigger] commits_in(sel, ws[i]).contains(c) implies sel.contains(
        c,
    ) by {
        lemma_commits_in_contains(sel, ws[i], c);
    }
    assert forall|i: int| 0 <= i < sel.len() implies has_home(#[trigger] sel[i], ws) by {
        let c = sel[i];
        assert(committed_within(c, start, end));
        let d = commit_day(c)->0;
        lemma_windows_cover(start, end, ws, d);
        let k = choose|k: int| 0 <= k < ws.len() && in_window(d, #[trigger] ws[k]);
        assert(only_in(c, ws, k));
    }
    lemma_union_all(sel, ws);
}

/// Commit partition for the selection: the commits that `select_commits`
/// keeps from the walk `cs` are partitioned by the windows of the period.
pub proof fn lemma_commit_partition(
    cs: Seq<CommitRecord>,
    start: Date,
    end: Date,
    ws: Seq<IncubationMonth>,
)
    requires
        is_segmentation(start, end, ws),
    ensures
        placeable(selected(cs, start, end), ws),
        forall|c: CommitRecord|
            #[trigger] selected(cs, start, end).contains(c) ==> exists|i: int|
                0 <= i < ws.len() && commits_in(selected(cs, start, end), ws[i]).contains(c)
                    && forall|j: int|
                    0 <= j < ws.len() && #[trigger] commits_in(
                        selected(cs, start, end),
                        ws[j],
                    ).contains(c) ==> j == i,
        forall|i: int, c: CommitRecord|
            0 <= i < ws.len() && #[trigger] commits_in(selected(cs, start, end), ws[i]).contains(c)
                ==> selected(cs, start, end).contains(c),
        lists_union(selected(cs, start, end), ws, ws.len() as int) == selected(
            cs,
            start,
            end,
        ).to_multiset(),
{
    lemma_selected_within(cs, start, end);
    lemma_dated_partition(selected(cs, start, end), start, end, ws);
}

/// The commits whose diff could be read and touches a file with an extension of
/// `exts`; `diffs[i]` is the diff of commit `i`, or nothing when it could not be read.
pub open spec fn restricted(
    cs: Seq<CommitRecord>,
    diffs: Seq<Option<Vec<DiffLine>>>,
    exts: Seq<Seq<char>>,
) -> Seq<CommitRecord>
    decreases cs.len(),
{
    if cs.len() == 0 || diffs.len() != cs.len() {
        seq![]
    } else {
        let p = restricted(cs.drop_last(), diffs.drop_last(), exts);
        match diffs.last() {
            Some(d) => if source_lines(d@, exts).len() > 0 {
                p.push(cs.last())
            } else {
                p
            },
            None => p,
        }
    }
}

/// Keeps the commits whose diff touches a source file of the allow-list
/// `extensions`; a commit whose diff could not be read is dropped.
pub fn restrict_to_languages(
    commits: &Vec<CommitRecord>,
    diffs: &Vec<Option<Vec<DiffLine>>>,
    extensions: &IndexSet<String>,
) -> (r: Vec<CommitRecord>)
    requires
        commits.len() == diffs.len(),
    ensures
        r@ == restricted(commits@, diffs@, set_items(*extensions)),
{
    let ghost exts = set_items(*extensions);
    let mut out: Vec<CommitRecord> = Vec::new();
    let mut k: usize = 0;
    while k < commits.len()
        invariant
            commits.len() == diffs.len(),
            k <= commits.len(),
            exts == set_items(*extensions),
            out@ == restricted(commits@.take(k as int), diffs@.take(k as int), exts),
        decreases commits.len() - k,
    {
        proof {
            assert(commits@.take(k + 1).drop_last() =~= commits@.take(k as int));
            assert(diffs@.take(k + 1).drop_last() =~= diffs@.take(k as int));
        }
        match &diffs[k] {
            Some(lines) => {
                let data = DiffData::new();
                if data.parse_diff_restricted_langs(lines, extensions).is_some() {
                    out.push(commits[k].duplicate());
                }
            },
            None => {},
        }
        k = k + 1;
    }
    proof {
        assert(commits@.take(commits.len() as int) =~= commits@);
        assert(diffs@.take(diffs.len() as int) =~= diffs@);
    }
    out
}

} // verus!
