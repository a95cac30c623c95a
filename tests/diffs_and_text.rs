use incubator_metrics::branches::default_branch;
use incubator_metrics::commits::CommitRecord;
use incubator_metrics::dev_stats::{commit_file_rows, flatten_message};
use incubator_metrics::diff::{file_changes, is_source_file, DeltaStatus, DiffData, DiffLine, FileChange};
use incubator_metrics::project::{commits_messages, CommitMessage, Project};
use incubator_metrics::emails::{EmailStats, EmailsMetrics};
use indexmap::{IndexMap, IndexSet};

fn line(origin: char, status: DeltaStatus, path: &str, ext: &str) -> DiffLine {
    DiffLine {
        origin,
        status,
        new_path: Some(path.to_string()),
        old_path: Some(path.to_string()),
        new_extension: Some(ext.to_string()),
        old_extension: Some(ext.to_string()),
    }
}

fn patch() -> Vec<DiffLine> {
    vec![
        line('F', DeltaStatus::Added, "a.rs", "rs"),
        line('H', DeltaStatus::Added, "a.rs", "rs"),
        line('+', DeltaStatus::Added, "a.rs", "rs"),
        line('+', DeltaStatus::Added, "a.rs", "rs"),
        line('F', DeltaStatus::Deleted, "b.md", "md"),
        line('-', DeltaStatus::Deleted, "b.md", "md"),
        line('F', DeltaStatus::Renamed, "c.rs", "rs"),
        line('F', DeltaStatus::Modified, "d.md", "md"),
        line(' ', DeltaStatus::Modified, "d.md", "md"),
        line('+', DeltaStatus::Modified, "d.md", "md"),
        line('-', DeltaStatus::Modified, "d.md", "md"),
        line('F', DeltaStatus::Unknown, "e.rs", "rs"),
    ]
}

#[test]
fn diff_lines_and_files_are_counted() {
    let d = DiffData::new().parse_diff(&patch());
    assert_eq!(
        d,
        DiffData { added_lines: 3, deleted_lines: 2, files_added: 1, files_deleted: 1, files_renamed: 1, files_modified: 1 }
    );
    assert_eq!(DiffData::new().parse_diff(&vec![]), DiffData::new());
}

#[test]
fn restricted_diff_counts_only_listed_files() {
    let mut exts: IndexSet<String> = IndexSet::new();
    exts.insert("rs".to_string());
    let d = DiffData::new().parse_diff_restricted_langs(&patch(), &exts).unwrap();
    assert_eq!(
        d,
        DiffData { added_lines: 2, deleted_lines: 0, files_added: 1, files_deleted: 0, files_renamed: 1, files_modified: 0 }
    );
    let mut other: IndexSet<String> = IndexSet::new();
    other.insert("py".to_string());
    assert_eq!(DiffData::new().parse_diff_restricted_langs(&patch(), &other), None);
    assert!(is_source_file(&Some("rs".to_string()), &exts));
    assert!(!is_source_file(&None, &exts));
}

#[test]
fn email_stats_skip_quotes_and_forwarded_text() {
    let text = "Hello there, all.\n\n> quoted line\n \nSecond  line here\nOn Mon, Bob wrote:\n";
    assert_eq!(EmailsMetrics::extract_email_stats(Some(text)), EmailStats { words: 6, characters: 32 });
    let forwarded = "Short note\r\n-----Original Message-----\r\nold text here\r\n";
    assert_eq!(EmailsMetrics::extract_email_stats(Some(forwarded)), EmailStats { words: 2, characters: 10 });
    assert_eq!(EmailsMetrics::preprocess_emails(Some(forwarded)), EmailStats { words: 2, characters: 10 });
}

#[test]
fn email_stats_of_nothing_are_zero() {
    assert_eq!(EmailsMetrics::extract_email_stats(None), EmailStats { words: 0, characters: 0 });
    assert_eq!(EmailsMetrics::extract_email_stats(Some("")), EmailStats { words: 0, characters: 0 });
    assert_eq!(EmailsMetrics::preprocess_emails(Some("> all quoted\n.\n")), EmailStats { words: 0, characters: 0 });
}

#[test]
fn reply_header_is_dropped_only_at_the_end() {
    let text = "On Monday we ship wrote:\nthanks";
    assert_eq!(EmailsMetrics::extract_email_stats(Some(text)), EmailStats { words: 6, characters: 31 });
}

#[test]
fn default_branch_prefers_overrides_then_main_lines() {
    let mut branches: IndexSet<String> = IndexSet::new();
    branches.insert("feature".to_string());
    branches.insert("trunk".to_string());
    branches.insert("main".to_string());
    assert_eq!(default_branch("Kafka", &branches), Some("main".to_string()));
    assert_eq!(default_branch("Dubbo", &branches), Some("3.0".to_string()));
    assert_eq!(default_branch("FreeMarker", &branches), Some("2.3-gae".to_string()));
    assert_eq!(default_branch("DolphinScheduler", &branches), Some("dev".to_string()));
    let mut none: IndexSet<String> = IndexSet::new();
    none.insert("feature".to_string());
    assert_eq!(default_branch("Kafka", &none), None);
    none.insert("develop".to_string());
    assert_eq!(default_branch("Kafka", &none), Some("develop".to_string()));
}

#[test]
fn file_changes_attribute_lines_to_files() {
    let changes = file_changes(&patch());
    assert_eq!(
        changes,
        vec![
            FileChange { filename: "a.rs".to_string(), change_type: DeltaStatus::Added, lines_added: 2, lines_deleted: 0 },
            FileChange { filename: "b.md".to_string(), change_type: DeltaStatus::Deleted, lines_added: 0, lines_deleted: 1 },
            FileChange { filename: "c.rs".to_string(), change_type: DeltaStatus::Renamed, lines_added: 0, lines_deleted: 0 },
            FileChange { filename: "d.md".to_string(), change_type: DeltaStatus::Modified, lines_added: 1, lines_deleted: 1 },
            FileChange { filename: "e.rs".to_string(), change_type: DeltaStatus::Unknown, lines_added: 0, lines_deleted: 0 },
        ]
    );
    let deleted_only = vec![DiffLine {
        origin: '-',
        status: DeltaStatus::Deleted,
        new_path: None,
        old_path: Some("gone.txt".to_string()),
        new_extension: None,
        old_extension: Some("txt".to_string()),
    }];
    assert_eq!(file_changes(&deleted_only)[0].filename, "gone.txt");
}

fn sample_commit() -> CommitRecord {
    CommitRecord {
        id: "abc123".to_string(),
        parent_count: 1,
        time: 1_640_995_200,
        author_name: "Ann".to_string(),
        author_email: "ann@example.org".to_string(),
        committer_email: "ann@example.org".to_string(),
        message: "Fix bug\n\nDetails".to_string(),
    }
}

#[test]
fn file_rows_carry_commit_details() {
    let c = sample_commit();
    let changes = file_changes(&patch());
    let rows = commit_file_rows(4, &c, &changes, false);
    assert_eq!(rows.len(), 5);
    assert_eq!(rows[0].incubation_month, 4);
    assert_eq!(rows[0].commit_sha, "abc123");
    assert_eq!(rows[0].date, "2022-01-01 00:00:00 UTC");
    assert_eq!(rows[0].change_type, "A");
    assert_eq!(rows[1].change_type, "D");
    assert_eq!(rows[2].change_type, "R");
    assert_eq!((rows[2].lines_added, rows[2].lines_deleted), (0, 0));
    assert_eq!(rows[3].lines_deleted, 1);
    assert_eq!(rows[4].change_type, "U");
    assert_eq!(rows[0].commit_message, "Fix bug _nl_  _nl_ Details");
    assert_eq!(commit_file_rows(4, &c, &changes, true)[0].commit_message, "");
    assert_eq!(flatten_message("one\ntwo"), "one _nl_ two");
}

#[test]
fn commit_messages_follow_window_order() {
    let project = Project {
        name: "Demo".to_string(),
        path: "/tmp/demo".to_string(),
        start_date: "2022-01-01".to_string(),
        end_date: "2022-02-01".to_string(),
        status: "graduated".to_string(),
    };
    let mut second = sample_commit();
    second.id = "def456".to_string();
    second.message = "Second".to_string();
    let mut months: IndexMap<usize, Vec<CommitRecord>> = IndexMap::new();
    months.insert(1, vec![sample_commit()]);
    months.insert(2, vec![]);
    months.insert(3, vec![second]);
    let rows = commits_messages(&project, &months);
    assert_eq!(rows.len(), 2);
    assert_eq!(
        rows[1],
        CommitMessage {
            project: "Demo".to_string(),
            status: "graduated".to_string(),
            inc_month: 3,
            sha: "def456".to_string(),
            message: "Second".to_string(),
        }
    );
    assert_eq!(rows[0].inc_month, 1);
}

#[test]
fn pure_rename_still_gets_its_row() {
    let rename = vec![DiffLine {
        origin: 'F',
        status: DeltaStatus::Renamed,
        new_path: Some("b.rs".to_string()),
        old_path: Some("a.rs".to_string()),
        new_extension: Some("rs".to_string()),
        old_extension: Some("rs".to_string()),
    }];
    assert_eq!(
        file_changes(&rename),
        vec![FileChange { filename: "b.rs".to_string(), change_type: DeltaStatus::Renamed, lines_added: 0, lines_deleted: 0 }]
    );
    let rows = commit_file_rows(1, &sample_commit(), &file_changes(&rename), true);
    assert_eq!(rows.len(), 1);
    assert_eq!((rows[0].filename.as_str(), rows[0].change_type.as_str()), ("b.rs", "R"));
}
