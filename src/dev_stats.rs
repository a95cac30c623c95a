//! One row per file that a commit changed, for statistics per developer.
use vstd::prelude::*;
use crate::calendar::{utc_text, utc_text_of};
use crate::commits::CommitRecord;
use crate::diff::{DeltaStatus, FileChange};
use crate::emails::chars_of;
use crate::months::text_from_chars;

verus! {

/// What one commit did to one file.
#[derive(Clone, Debug, Default, PartialEq, Eq)]
pub struct CommitFileMetrics {
    pub incubation_month: usize,
    pub commit_sha: String,
    pub email: String,
    pub name: String,
    /// The commit's time in UTC.
    pub date: String,
    pub timestamp: i64,
    pub filename: String,
    /// `A`, `D`, `M`, `R`, or `U` for any other status.
    pub change_type: String,
    pub lines_added: usize,
    pub lines_deleted: usize,
    /// The commit's message on one line, each line break written ` _nl_ `.
    pub commit_message: String,
    /// A link to the commit, where one is known.
    pub commit_url: String,
}

/// The one-letter code of a delta status.
pub open spec fn status_letter(st: DeltaStatus) -> Seq<char> {
    match st {
        DeltaStatus::Added => seq!['A'],
        DeltaStatus::Deleted => seq!['D'],
        DeltaStatus::Modified => seq!['M'],
        DeltaStatus::Renamed => seq!['R'],
        DeltaStatus::Unknown => seq!['U'],
    }
}

/// `s` with every line break written ` _nl_ `.
pub open spec fn one_line(s: Seq<char>) -> Seq<char>
    decreases s.len(),
{
    if s.len() == 0 {
        seq![]
    } else if s.last() == '\n' {
        one_line(s.drop_last()) + seq![' ', '_', 'n', 'l', '_', ' ']
    } else {
        one_line(s.drop_last()).push(s.last())
    }
}

/// The row of a file change of commit `c` in window `month`.
pub open spec fn row_matches(
    r: CommitFileMetrics,
    month: usize,
    c: CommitRecord,
    f: FileChange,
    ignore_message: bool,
) -> bool {
    &&& r.incubation_month == month
    &&& r.commit_sha@ == c.id@
    &&& r.email@ == c.author_email@
    &&& r.name@ == c.author_name@
    &&& Some(r.date@) == utc_text_of(c.time as int)
    &&& r.timestamp == c.time
    &&& r.filename@ == f.filename@
    &&& r.change_type@ == status_letter(f.change_type)
    &&& r.lines_added == f.lines_added
    &&& r.lines_deleted == f.lines_deleted
    &&& r.commit_message@ == if ignore_message {
        Seq::<char>::empty()
    } else {
        one_line(c.message@)
    }
    &&& r.commit_url@ == Seq::<char>::empty()
}

fn letter(st: DeltaStatus) -> (r: String)
    ensures
        r@ == status_letter(st),
{
    let mut v: Vec<char> = Vec::new();
    match st {
        DeltaStatus::Added => v.push('A'),
        DeltaStatus::Deleted => v.push('D'),
        DeltaStatus::Modified => v.push('M'),
        DeltaStatus::Renamed => v.push('R'),
        DeltaStatus::Unknown => v.push('U'),
    }
    assert(v@ =~= status_letter(st));
    text_from_chars(&v)
}

/// A message on one line.
pub fn flatten_message(message: &str) -> (r: String)
    ensures
        r@ == one_line(message@),
{
    let cs = chars_of(message);
    let mut out: Vec<char> = Vec::new();
    let mut i: usize = 0;
    while i < cs.len()
        invariant
            i <= cs.len(),
            out@ == one_line(cs@.take(i as int)),
        decreases cs.len() - i,
    {
        proof {
            assert(cs@.take(i + 1).drop_last() =~= cs@.take(i as int));
        }
        let ghost before = out@;
        if cs[i] == '\n' {
            out.push(' ');
            out.push('_');
            out.push('n');
            out.push('l');
            out.push('_');
            out.push(' ');
            assert(out@ =~= before + seq![' ', '_', 'n', 'l', '_', ' ']);
        } else {
            out.push(cs[i]);
        }
        i = i + 1;
    }
    proof {
        assert(cs@.take(cs.len() as int) =~= cs@);
    }
    text_from_chars(&out)
}

/// The rows of the file changes `changes` of commit `c` in window `month`, in
/// their order; nothing when the commit's time cannot be displayed.
pub fn commit_file_rows(
    month: usize,
    c: &CommitRecord,
    changes: &Vec<FileChange>,
    ignore_message: bool,
) -> (r: Vec<CommitFileMetrics>)
    ensures
        utc_text_of(c.time as int) is None ==> r.len() == 0,
        utc_text_of(c.time as int) is Some ==> r.len() == changes.len(),
        forall|i: int|
            0 <= i < r.len() ==> row_matches(#[trigger] r[i], month, *c, changes[i], ignore_message),
{
    let date = match utc_text(c.time) {
        Some(t) => t,
        None => {
            return Vec::new();
        },
    };
    let message = if ignore_message {
        String::new()
    } else {
        flatten_message(c.message.as_str())
    };
    let mut out: Vec<CommitFileMetrics> = Vec::new();
    let mut i: usize = 0;
    while i < changes.len()
        invariant
            i <= changes.len(),
            out.len() == i,
            Some(date@) == utc_text_of(c.time as int),
            message@ == if ignore_message {
                Seq::<char>::empty()
            } else {
                one_line(c.message@)
            },
            forall|j: int|
                0 <= j < i ==> row_matches(#[trigger] out[j], month, *c, changes[j], ignore_message),
        decreases changes.len() - i,
    {
        let f = &changes[i];
        let row = CommitFileMetrics {
            incubation_month: month,
            commit_sha: c.id.clone(),
            email: c.author_email.clone(),
            name: c.author_name.clone(),
            date: date.clone(),
            timestamp: c.time,
            filename: f.filename.clone(),
            change_type: letter(f.change_type),
            lines_added: f.lines_added,
            lines_deleted: f.lines_deleted,
            commit_message: message.clone(),
            commit_url: String::new(),
        };
        out.push(row);
        i = i + 1;
    }
    out
}

} // verus!
