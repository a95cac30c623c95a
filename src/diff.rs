//! Line-level diffs between a commit and its parent, reduced to counters.
use vstd::prelude::*;
use indexmap::IndexSet;
use crate::string_set::{set_items, set_contains};

verus! {

/// What a diff says happened to a file.
#[derive(Clone, Copy, Debug, PartialEq, Eq, Structural)]
pub enum DeltaStatus {
    Added,
    Deleted,
    Modified,
    Renamed,
    /// Any other status (copied, type change, unreadable, ...).
    Unknown,
}

/// One line of a patch: its marker (`+` added, `-` deleted, `F` file header,
/// others for context and hunks) and the file delta that it belongs to.
#[derive(Clone, Debug, PartialEq, Eq)]
pub struct DiffLine {
    pub origin: char,
    pub status: DeltaStatus,
    /// The new file's path, absent for a deleted file.
    pub new_path: Option<String>,
    /// The old file's path, absent for an added file.
    pub old_path: Option<String>,
    /// The extension of the new file's path, if it has one.
    pub new_extension: Option<String>,
    /// The extension of the old file's path, if it has one.
    pub old_extension: Option<String>,
}

/// A copy of an optional string.
fn copy_text(o: &Option<String>) -> (r: Option<String>)
    ensures
        r == *o,
{
    match o {
        Some(t) => Some(t.clone()),
        None => None,
    }
}

impl DiffLine {
    /// A copy of this line.
    pub fn duplicate(&self) -> (r: DiffLine)
        ensures
            r == *self,
    {
        DiffLine {
            origin: self.origin,
            status: self.status,
            new_path: copy_text(&self.new_path),
            old_path: copy_text(&self.old_path),
            new_extension: copy_text(&self.new_extension),
            old_extension: copy_text(&self.old_extension),
        }
    }
}

/// The counters of one commit's diff.
#[derive(Clone, Copy, Debug, Default, PartialEq, Eq, Structural)]
pub struct DiffData {
    pub added_lines: usize,
    pub deleted_lines: usize,
    pub files_added: usize,
    pub files_deleted: usize,
    pub files_renamed: usize,
    pub files_modified: usize,
}

/// The number of lines of `ls` with marker `o`.
pub open spec fn count_origin(ls: Seq<DiffLine>, o: char) -> nat
    decreases ls.len(),
{
    if ls.len() == 0 {
        0
    } else {
        count_origin(ls.drop_last(), o) + if ls.last().origin == o {
            1nat
        } else {
            0nat
        }
    }
}

/// The number of file headers of `ls` whose delta has status `st`.
pub open spec fn count_files(ls: Seq<DiffLine>, st: DeltaStatus) -> nat
    decreases ls.len(),
{
    if ls.len() == 0 {
        0
    } else {
        count_files(ls.drop_last(), st) + if ls.last().origin == 'F' && ls.last().status == st {
            1nat
        } else {
            0nat
        }
    }
}

/// The counters of the lines `ls`.
pub open spec fn summary(ls: Seq<DiffLine>) -> DiffData {
    DiffData {
        added_lines: count_origin(ls, '+') as usize,
        deleted_lines: count_origin(ls, '-') as usize,
        files_added: count_files(ls, DeltaStatus::Added) as usize,
        files_deleted: count_files(ls, DeltaStatus::Deleted) as usize,
        files_renamed: count_files(ls, DeltaStatus::Renamed) as usize,
        files_modified: count_files(ls, DeltaStatus::Modified) as usize,
    }
}

/// An extension that the allow-list `exts` holds.
pub open spec fn listed(ext: Option<String>, exts: Seq<Seq<char>>) -> bool {
    match ext {
        Some(e) => exts.contains(e@),
        None => false,
    }
}

/// The line belongs to a file whose old or new path has a listed extension.
pub open spec fn touches_source(l: DiffLine, exts: Seq<Seq<char>>) -> bool {
    listed(l.new_extension, exts) || listed(l.old_extension, exts)
}

/// The lines of `ls` that belong to a file with a listed extension.
pub open spec fn source_lines(ls: Seq<DiffLine>, exts: Seq<Seq<char>>) -> Seq<DiffLine>
    decreases ls.len(),
{
    if ls.len() == 0 {
        seq![]
    } else {
        let p = source_lines(ls.drop_last(), exts);
        if touches_source(ls.last(), exts) {
            p.push(ls.last())
        } else {
            p
        }
    }
}

/// Whether an extension is in the allow-list.
pub fn is_source_file(ext: &Option<String>, extensions: &IndexSet<String>) -> (r: bool)
    ensures
        r == listed(*ext, set_items(*extensions)),
{
    match ext {
        Some(e) => set_contains(extensions, e.as_str()),
        None => false,
    }
}

impl DiffData {
    /// Counters that are all zero.
    pub fn new() -> (r: DiffData)
        ensures
            r == summary(Seq::<DiffLine>::empty()),
    {
        DiffData {
            added_lines: 0,
            deleted_lines: 0,
            files_added: 0,
            files_deleted: 0,
            files_renamed: 0,
            files_modified: 0,
        }
    }

    /// Counts the added and deleted lines of a patch, and classifies each file
    /// once, at its header, by the status of its delta.
    pub fn parse_diff(&self, lines: &Vec<DiffLine>) -> (r: DiffData)
        ensures
            r == summary(lines@),
    {
        let mut r = DiffData::new();
        let mut k: usize = 0;
        while k < lines.len()
            invariant
                k <= lines.len(),
                r == summary(lines@.take(k as int)),
                count_origin(lines@.take(k as int), '+') <= k,
                count_origin(lines@.take(k as int), '-') <= k,
                count_files(lines@.take(k as int), DeltaStatus::Added) <= k,
                count_files(lines@.take(k as int), DeltaStatus::Deleted) <= k,
                count_files(lines@.take(k as int), DeltaStatus::Renamed) <= k,
                count_files(lines@.take(k as int), DeltaStatus::Modified) <= k,
            decreases lines.len() - k,
        {
            let l = &lines[k];
            proof {
                assert(lines@.take(k + 1).drop_last() =~= lines@.take(k as int));
            }
            if l.origin == '+' {
                r.added_lines = r.added_lines + 1;
            } else if l.origin == '-' {
                r.deleted_lines = r.deleted_lines + 1;
            } else if l.origin == 'F' {
                match l.status {
                    DeltaStatus::Added => {
                        r.files_added = r.files_added + 1;
                    },
                    DeltaStatus::Deleted => {
                        r.files_deleted = r.files_deleted + 1;
                    },
                    DeltaStatus::Modified => {
                        r.files_modified = r.files_modified + 1;
                    },
                    DeltaStatus::Renamed => {
                        r.files_renamed = r.files_renamed + 1;
                    },
                    DeltaStatus::Unknown => {},
                }
            }
            k = k + 1;
        }
        proof {
            assert(lines@.take(lines.len() as int) =~= lines@);
        }
        r
    }

    /// Like `parse_diff`, over the lines of files whose old or new path has an
    /// extension of the allow-list; nothing when no line belongs to such a file.
    pub fn parse_diff_restricted_langs(
        &self,
        lines: &Vec<DiffLine>,
        extensions: &IndexSet<String>,
    ) -> (r: Option<DiffData>)
        ensures
            r == if source_lines(lines@, set_items(*extensions)).len() == 0 {
                None
            } else {
                Some(summary(source_lines(lines@, set_items(*extensions))))
            },
    {
        let ghost exts = set_items(*extensions);
        let mut kept: Vec<DiffLine> = Vec::new();
        let mut k: usize = 0;
        while k < lines.len()
            invariant
                k <= lines.len(),
                exts == set_items(*extensions),
                kept@ == source_lines(lines@.take(k as int), exts),
            decreases lines.len() - k,
        {
            let l = &lines[k];
            proof {
                assert(lines@.take(k + 1).drop_last() =~= lines@.take(k as int));
            }
            if is_source_file(&l.new_extension, extensions) || is_source_file(
                &l.old_extension,
                extensions,
            ) {
                kept.push(l.duplicate());
            }
            k = k + 1;
        }
        proof {
            assert(lines@.take(lines.len() as int) =~= lines@);
        }
        if kept.len() == 0 {
            None
        } else {
            Some(self.parse_diff(&kept))
        }
    }
}

/// The lines that one file gained and lost in a commit, and what happened to it.
#[derive(Clone, Debug, PartialEq, Eq)]
pub struct FileChange {
    pub filename: String,
    pub change_type: DeltaStatus,
    pub lines_added: usize,
    pub lines_deleted: usize,
}

/// A file change as plain values: name, status, lines added, lines deleted.
pub open spec fn change_view(f: FileChange) -> (Seq<char>, DeltaStatus, nat, nat) {
    (f.filename@, f.change_type, f.lines_added as nat, f.lines_deleted as nat)
}

/// The file that a line belongs to: its new path, else its old path, else empty.
pub open spec fn line_file(l: DiffLine) -> Seq<char> {
    match l.new_path {
        Some(p) => p@,
        None => match l.old_path {
            Some(p) => p@,
            None => seq![],
        },
    }
}

/// The first row of `t` for file `name`, or -1.
pub open spec fn row_of(t: Seq<(Seq<char>, DeltaStatus, nat, nat)>, name: Seq<char>) -> int
    decreases t.len(),
{
    if t.len() == 0 {
        -1
    } else {
        let i = row_of(t.drop_last(), name);
        if i >= 0 {
            i
        } else if t.last().0 == name {
            t.len() - 1
        } else {
            -1
        }
    }
}

/// Per file, in order of its first header, added or deleted line: the lines it
/// gained and lost, and the status of the delta where it first appeared. A file
/// whose patch has a header and no added or deleted line (a pure rename, say)
/// still has its row, with zero lines.
pub open spec fn file_table(ls: Seq<DiffLine>) -> Seq<(Seq<char>, DeltaStatus, nat, nat)>
    decreases ls.len(),
{
    if ls.len() == 0 {
        seq![]
    } else {
        let t = file_table(ls.drop_last());
        let l = ls.last();
        let name = line_file(l);
        let i = row_of(t, name);
        if l.origin == '+' {
            if i >= 0 {
                t.update(i, (t[i].0, t[i].1, t[i].2 + 1, t[i].3))
            } else {
                t.push((name, l.status, 1, 0))
            }
        } else if l.origin == '-' {
            if i >= 0 {
                t.update(i, (t[i].0, t[i].1, t[i].2, t[i].3 + 1))
            } else {
                t.push((name, l.status, 0, 1))
            }
        } else if l.origin == 'F' && i < 0 {
            t.push((name, l.status, 0, 0))
        } else {
            t
        }
    }
}

/// The file of a line, as an owned text.
fn file_of(l: &DiffLine) -> (r: String)
    ensures
        r@ == line_file(*l),
{
    match &l.new_path {
        Some(p) => p.clone(),
        None => match &l.old_path {
            Some(p) => p.clone(),
            None => String::new(),
        },
    }
}

/// Where the row of file `name` is in `rows`, if there is one.
fn find_row(rows: &Vec<FileChange>, name: &String) -> (r: Option<usize>)
    ensures
        match r {
            Some(i) => i == row_of(rows@.map_values(|f: FileChange| change_view(f)), name@),
            None => row_of(rows@.map_values(|f: FileChange| change_view(f)), name@) == -1,
        },
{
    let ghost t = rows@.map_values(|f: FileChange| change_view(f));
    let mut i: usize = 0;
    while i < rows.len()
        invariant
            t == rows@.map_values(|f: FileChange| change_view(f)),
            i <= rows.len(),
            row_of(t.take(i as int), name@) == -1,
        decreases rows.len() - i,
    {
        proof {
            assert(t.take(i + 1).drop_last() =~= t.take(i as int));
        }
        if rows[i].filename == *name {
            proof {
                lemma_row_of_prefix(t, name@, i + 1);
            }
            return Some(i);
        }
        i = i + 1;
    }
    proof {
        assert(t.take(rows.len() as int) =~= t);
    }
    None
}

/// The first row of a file is found within any prefix that holds it.
proof fn lemma_row_of_prefix(t: Seq<(Seq<char>, DeltaStatus, nat, nat)>, name: Seq<char>, k: int)
    requires
        0 <= k <= t.len(),
        row_of(t.take(k), name) >= 0,
    ensures
        row_of(t, name) == row_of(t.take(k), name),
    decreases t.len(),
{
    if k < t.len() {
        assert(t.drop_last().take(k) =~= t.take(k));
        lemma_row_of_prefix(t.drop_last(), name, k);
    } else {
        assert(t.take(k) =~= t);
    }
}

/// A row index that `row_of` gives is within the table.
proof fn lemma_row_of_bounds(t: Seq<(Seq<char>, DeltaStatus, nat, nat)>, name: Seq<char>)
    ensures
        -1 <= row_of(t, name) < t.len(),
        row_of(t, name) >= 0 ==> t[row_of(t, name)].0 == name,
    decreases t.len(),
{
    if t.len() > 0 {
        lemma_row_of_bounds(t.drop_last(), name);
    }
}

/// Attributes the added and deleted lines of a patch to their files.
pub fn file_changes(lines: &Vec<DiffLine>) -> (r: Vec<FileChange>)
    ensures
        r@.map_values(|f: FileChange| change_view(f)) == file_table(lines@),
{
    let mut rows: Vec<FileChange> = Vec::new();
    let mut k: usize = 0;
    while k < lines.len()
        invariant
            k <= lines.len(),
            rows@.map_values(|f: FileChange| change_view(f)) == file_table(lines@.take(k as int)),
            forall|j: int| 0 <= j < rows.len() ==> #[trigger] rows@[j].lines_added <= k && rows@[j].lines_deleted <= k,
        decreases lines.len() - k,
    {
        let l = &lines[k];
        let ghost t = rows@.map_values(|f: FileChange| change_view(f));
        proof {
            assert(lines@.take(k + 1).drop_last() =~= lines@.take(k as int));
            lemma_row_of_bounds(t, line_file(*l));
        }
        if l.origin == '+' || l.origin == '-' || l.origin == 'F' {
            let name = file_of(l);
            match find_row(&rows, &name) {
                Some(i) => {
                    if l.origin != 'F' {
                        let ghost before = rows@;
                        let mut row = rows.remove(i);
                        if l.origin == '+' {
                            row.lines_added = row.lines_added + 1;
                        } else {
                            row.lines_deleted = row.lines_deleted + 1;
                        }
                        rows.insert(i, row);
                        proof {
                            assert(rows@ =~= before.update(i as int, row));
                            assert forall|j: int| 0 <= j < rows.len() implies #[trigger] rows@[j].lines_added
                                <= k + 1 && rows@[j].lines_deleted <= k + 1 by {
                                if j != i {
                                    assert(rows@[j] == before[j]);
                                }
                            }
                            assert(rows@.map_values(|f: FileChange| change_view(f)) =~= t.update(
                                i as int,
                                change_view(row),
                            ));
                        }
                    }
                },
                None => {
                    let row = FileChange {
                        filename: name,
                        change_type: l.status,
                        lines_added: if l.origin == '+' {
                            1
                        } else {
                            0
                        },
                        lines_deleted: if l.origin == '-' {
                            1
                        } else {
                            0
                        },
                    };
                    let ghost before = rows@;
                    rows.push(row);
                    proof {
                        assert forall|j: int| 0 <= j < rows.len() implies #[trigger] rows@[j].lines_added
                            <= k + 1 && rows@[j].lines_deleted <= k + 1 by {
                            if j < before.len() {
                                assert(rows@[j] == before[j]);
                            }
                        }
                        assert(rows@.map_values(|f: FileChange| change_view(f)) =~= t.push(
                            change_view(row),
                        ));
                    }
                },
            }
        }
        k = k + 1;
    }
    proof {
        assert(lines@.take(lines.len() as int) =~= lines@);
    }
    rows
}

} // verus!
