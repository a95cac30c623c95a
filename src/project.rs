//! The projects under study and the options of an analysis run.
use vstd::prelude::*;
use indexmap::IndexMap;
use crate::commits::{CommitRecord, window_entries, window_map_len, window_map_entry};

verus! {

/// A project: its name, where its repository is, its observation period
/// (`YYYY-MM-DD`) and its status.
#[derive(Clone, Debug, PartialEq, Eq, Hash)]
pub struct Project {
    pub name: String,
    pub path: String,
    pub start_date: String,
    pub end_date: String,
    pub status: String,
}

/// The options of an analysis run.
#[derive(Clone, Debug, Default, PartialEq, Eq)]
pub struct Args {
    pub flag_force_full_analysis: bool,
    pub flag_full_analysis: bool,
    pub flag_threads: Option<usize>,
    pub flag_download_emails: bool,
    pub flag_parse_single_project: Option<String>,
    pub flag_list_projects: bool,
    pub flag_skip_tokei: bool,
    pub flag_skip_sokrates: bool,
    pub flag_skip_email_analysis: bool,
    pub flag_commit_messages: bool,
    pub flag_missing_emails: bool,
    pub flag_print_supported_languages: bool,
    pub flag_restrict_languages: bool,
    pub flag_manual_test_project: Option<String>,
    pub flag_output_folder: Option<String>,
    pub flag_metadata_filepath: Option<String>,
    pub flag_commit_devs_files: bool,
    pub flag_time_window: Option<i64>,
    pub flag_print_incubation_dates: bool,
    pub flag_ignore_start_end_dates: bool,
    pub flag_ignore_commit_message: bool,
    pub flag_git_folder: Option<String>,
    pub flag_fetch_github_issues: bool,
    pub flag_github_output_folder: Option<String>,
    pub flag_github_url: Option<String>,
}

/// The message of one commit, with the window it belongs to.
#[derive(Clone, Debug, PartialEq, Eq, Hash)]
pub struct CommitMessage {
    pub project: String,
    pub status: String,
    pub inc_month: usize,
    pub sha: String,
    pub message: String,
}

/// The message rows of the commits of `entries` (window index, commits),
/// entry after entry.
pub open spec fn message_rows(
    project: Project,
    entries: Seq<(usize, Vec<CommitRecord>)>,
) -> Seq<CommitMessage>
    decreases entries.len(),
{
    if entries.len() == 0 {
        seq![]
    } else {
        let e = entries.last();
        message_rows(project, entries.drop_last()) + e.1@.map_values(
            |c: CommitRecord|
                CommitMessage {
                    project: project.name,
                    status: project.status,
                    inc_month: e.0,
                    sha: c.id,
                    message: c.message,
                },
        )
    }
}

/// One row per commit, window after window: the project, its status, the
/// window's index, the commit's hash and its message.
pub fn commits_messages(project: &Project, inc_month_commits: &IndexMap<usize, Vec<CommitRecord>>) -> (r: Vec<
    CommitMessage,
>)
    ensures
        r@ == message_rows(*project, window_entries(*inc_month_commits)),
{
    let ghost entries = window_entries(*inc_month_commits);
    let n = window_map_len(inc_month_commits);
    let mut out: Vec<CommitMessage> = Vec::new();
    let mut i: usize = 0;
    while i < n
        invariant
            n == entries.len(),
            entries == window_entries(*inc_month_commits),
            i <= n,
            out@ == message_rows(*project, entries.take(i as int)),
        decreases n - i,
    {
        let (month, b) = match window_map_entry(inc_month_commits, i) {
            Some(e) => e,
            None => {
                proof {
                    assert(false);
                }
                return out;
            },
        };
        let ghost before = out@;
        let mut k: usize = 0;
        while k < b.len()
            invariant
                i < n,
                n == entries.len(),
                month == entries[i as int].0,
                *b == entries[i as int].1,
                k <= b.len(),
                out@ == before + b@.take(k as int).map_values(
                    |c: CommitRecord|
                        CommitMessage {
                            project: project.name,
                            status: project.status,
                            inc_month: month,
                            sha: c.id,
                            message: c.message,
                        },
                ),
            decreases b.len() - k,
        {
            let c = &b[k];
            let row = CommitMessage {
                project: project.name.clone(),
                status: project.status.clone(),
                inc_month: month,
                sha: c.id.clone(),
                message: c.message.clone(),
            };
            out.push(row);
            proof {
                assert(b@.take(k + 1) =~= b@.take(k as int).push(b@[k as int]));
                assert(out@ =~= before + b@.take(k + 1).map_values(
                    |c: CommitRecord|
                        CommitMessage {
                            project: project.name,
                            status: project.status,
                            inc_month: month,
                            sha: c.id,
                            message: c.message,
                        },
                ));
            }
            k = k + 1;
        }
        proof {
            assert(b@.take(b.len() as int) =~= b@);
            assert(entries.take(i + 1).drop_last() =~= entries.take(i as int));
        }
        i = i + 1;
    }
    proof {
        assert(entries.take(n as int) =~= entries);
    }
    out
}

} // verus!
