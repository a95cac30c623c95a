use incubator_metrics::calendar::Date;
use incubator_metrics::commits::{
    commits_to_inc_months, restrict_to_languages, select_commits, AssignError, CommitRecord,
};
use incubator_metrics::diff::{DeltaStatus, DiffData, DiffLine};
use incubator_metrics::metrics::CommitsMetrics;
use incubator_metrics::rollup::{plan_window, rollup, window_metrics, WindowAction};
use incubator_metrics::windows::segment_fixed;
use indexmap::IndexSet;

/// 2022-01-01T00:00:00Z
const JAN_1_2022: i64 = 1_640_995_200;
const DAY: i64 = 86_400;

fn d(year: i32, month: u32, day: u32) -> Date {
    Date::from_ymd(year, month, day).unwrap()
}

fn commit(id: &str, parents: usize, time: i64, author: &str) -> CommitRecord {
    CommitRecord {
        id: id.to_string(),
        parent_count: parents,
        time,
        author_name: author.to_string(),
        author_email: format!("{}@example.org", author.to_lowercase()),
        committer_email: "committer@example.org".to_string(),
        message: format!("change {}", id),
    }
}

fn zeros(n: usize) -> Vec<DiffData> {
    vec![DiffData::new(); n]
}

#[test]
fn test_minor_major_contributors() {
    let mut commits = vec![];
    for (name, count) in [("DevA", 5), ("DevB", 15), ("DevC", 2), ("DevD", 20)] {
        for i in 0..count {
            commits.push(commit(&format!("{}{}", name, i), 1, JAN_1_2022, name));
        }
    }
    assert_eq!(commits.len(), 42);
    let m = CommitsMetrics::new(commits, zeros(42));
    let (minor, major) = m.major_minor_contributors();
    assert_eq!(1, minor);
    assert_eq!(3, major)
}

#[test]
fn single_commit_author_in_sparse_window_is_major() {
    let m = CommitsMetrics::new(vec![commit("a", 1, JAN_1_2022, "Solo")], zeros(1));
    assert_eq!(m.major_minor_contributors(), (0, 1));
}

#[test]
fn selection_keeps_a_root_first_commit_and_drops_merges() {
    let walk = vec![
        commit("root", 0, JAN_1_2022, "A"),
        commit("c1", 1, JAN_1_2022 + DAY, "A"),
        commit("merge", 2, JAN_1_2022 + 2 * DAY, "B"),
        commit("c2", 1, JAN_1_2022 + 3 * DAY, "B"),
        commit("orphan", 0, JAN_1_2022 + 4 * DAY, "C"),
    ];
    let kept = select_commits(&walk, d(2022, 1, 1), d(2022, 12, 31));
    let ids: Vec<&str> = kept.iter().map(|c| c.id.as_str()).collect();
    assert_eq!(ids, vec!["root", "c1", "c2"]);
}

#[test]
fn selection_drops_a_merge_as_first_commit() {
    let walk = vec![commit("merge", 2, JAN_1_2022, "A"), commit("c1", 1, JAN_1_2022, "A")];
    let kept = select_commits(&walk, d(2022, 1, 1), d(2022, 1, 1));
    assert_eq!(kept.len(), 1);
    assert_eq!(kept[0].id, "c1");
}

#[test]
fn selection_keeps_the_whole_first_and_last_day() {
    let walk = vec![
        commit("before", 1, JAN_1_2022 - 1, "A"),
        commit("first", 1, JAN_1_2022, "A"),
        commit("last", 1, JAN_1_2022 + 2 * DAY - 1, "A"),
        commit("after", 1, JAN_1_2022 + 2 * DAY, "A"),
    ];
    let kept = select_commits(&walk, d(2022, 1, 1), d(2022, 1, 2));
    let ids: Vec<&str> = kept.iter().map(|c| c.id.as_str()).collect();
    assert_eq!(ids, vec!["first", "last"]);
}

#[test]
fn every_selected_commit_lands_in_exactly_one_window() {
    let walk: Vec<CommitRecord> =
        (0..40).map(|i| commit(&format!("c{}", i), 1, JAN_1_2022 + i * DAY / 2, "A")).collect();
    let start = d(2022, 1, 1);
    let end = d(2022, 1, 20);
    let selected = select_commits(&walk, start, end);
    assert_eq!(selected.len(), 40);
    let windows = segment_fixed(start, end, 7);
    let buckets = commits_to_inc_months(&selected, &windows).unwrap();
    assert_eq!(buckets.len(), 3);
    assert_eq!(buckets.keys().copied().collect::<Vec<_>>(), vec![1, 2, 3]);
    assert_eq!(buckets.values().map(|b| b.len()).collect::<Vec<_>>(), vec![14, 14, 12]);
    for c in &selected {
        assert_eq!(buckets.values().filter(|b| b.contains(c)).count(), 1);
    }
    assert_eq!(buckets.get(&1).unwrap()[0].id, "c0");
    assert_eq!(buckets.get(&3).unwrap()[11].id, "c39");
}

#[test]
fn windows_without_commits_are_present_and_empty() {
    let commits = vec![commit("a", 1, JAN_1_2022 + 25 * DAY, "A")];
    let windows = segment_fixed(d(2022, 1, 1), d(2022, 1, 31), 10);
    let buckets = commits_to_inc_months(&commits, &windows).unwrap();
    assert_eq!(buckets.values().map(|b| b.len()).collect::<Vec<_>>(), vec![0, 0, 1, 0]);
}

#[test]
fn a_commit_outside_every_window_is_an_error() {
    let commits = vec![commit("late", 1, JAN_1_2022 + 40 * DAY, "A")];
    let windows = segment_fixed(d(2022, 1, 1), d(2022, 1, 31), 10);
    assert_eq!(commits_to_inc_months(&commits, &windows), Err(AssignError::CommitOutsideWindows));
}

#[test]
fn active_days_count_distinct_dates() {
    let commits = vec![
        commit("a", 1, JAN_1_2022 + 3600, "A"),
        commit("b", 1, JAN_1_2022 + 7200, "B"),
        commit("c", 1, JAN_1_2022 + 80000, "A"),
        commit("d", 1, JAN_1_2022 + DAY + 10, "C"),
    ];
    let m = CommitsMetrics::new(commits, zeros(4));
    assert_eq!(m.active_days(), 2);
}

#[test]
fn emails_are_deduplicated_in_order() {
    let commits = vec![
        commit("a", 1, JAN_1_2022, "Bob"),
        commit("b", 1, JAN_1_2022, "Ann"),
        commit("c", 1, JAN_1_2022, "Bob"),
    ];
    let m = CommitsMetrics::new(commits, zeros(3));
    let authors: Vec<String> = m.authors_emails().into_iter().collect();
    assert_eq!(authors, vec!["bob@example.org".to_string(), "ann@example.org".to_string()]);
    assert_eq!(m.committers_emails().len(), 1);
}

#[test]
fn diff_counters_are_summed() {
    let d1 = DiffData { added_lines: 3, deleted_lines: 1, files_added: 1, files_deleted: 0, files_renamed: 0, files_modified: 2 };
    let d2 = DiffData { added_lines: 4, deleted_lines: 6, files_added: 0, files_deleted: 2, files_renamed: 1, files_modified: 1 };
    let commits = vec![commit("a", 1, JAN_1_2022, "A"), commit("b", 1, JAN_1_2022, "A")];
    let m = CommitsMetrics::new(commits, vec![d1, d2]);
    assert_eq!(m.added_lines(), 7);
    assert_eq!(m.deleted_lines(), 7);
    assert_eq!(m.files_added(), 1);
    assert_eq!(m.files_deleted(), 2);
    assert_eq!(m.files_renamed(), 1);
    assert_eq!(m.files_modified(), 3);
}

#[test]
fn rollup_carries_empty_windows_forward_and_counts_new_contributors() {
    let windows = segment_fixed(d(2022, 1, 1), d(2022, 1, 30), 10);
    let first = CommitsMetrics::new(
        vec![commit("a", 1, JAN_1_2022, "Ann"), commit("b", 1, JAN_1_2022 + DAY, "Bob")],
        vec![DiffData { added_lines: 5, ..DiffData::new() }, DiffData::new()],
    );
    let empty = CommitsMetrics::new(vec![], vec![]);
    let third = CommitsMetrics::new(
        vec![commit("c", 1, JAN_1_2022 + 21 * DAY, "Bob"), commit("d", 1, JAN_1_2022 + 22 * DAY, "Cid")],
        zeros(2),
    );
    let records = rollup(&windows, &vec![first, empty, third]);
    assert_eq!(records.len(), 3);
    assert_eq!(records[0].commits, 2);
    assert_eq!(records[0].added_lines, 5);
    assert_eq!(records[0].new_contributors, 2);
    assert_eq!(records[0].active_days, 2);
    let r = &records[1];
    assert_eq!(r.measurement_month, 2);
    assert_eq!(r.window_start_date, d(2022, 1, 11));
    assert_eq!(r.window_end_date, d(2022, 1, 20));
    assert_eq!(
        (r.commits, r.active_days, r.added_lines, r.deleted_lines, r.authors, r.committers),
        (0, 0, 0, 0, 0, 0)
    );
    assert_eq!(
        (r.files_added, r.files_deleted, r.files_modified, r.files_renamed),
        (0, 0, 0, 0)
    );
    assert_eq!((r.minor_contributors, r.major_contributors, r.new_contributors), (0, 0, 0));
    assert_eq!(records[2].new_contributors, 1);
    assert_eq!(records[2].authors, 2);
}

#[test]
fn window_metrics_extend_the_ledger() {
    let windows = segment_fixed(d(2022, 1, 1), d(2022, 1, 10), 10);
    let m = CommitsMetrics::new(vec![commit("a", 1, JAN_1_2022, "Ann")], zeros(1));
    let mut ledger: IndexSet<String> = IndexSet::new();
    ledger.insert("ann@example.org".to_string());
    let r = window_metrics(&windows[0], &m, &mut ledger);
    assert_eq!(r.new_contributors, 0);
    assert_eq!(r.authors, 1);
    assert_eq!(ledger.len(), 1);
}

#[test]
fn planning_follows_the_window_state() {
    assert_eq!(plan_window(&vec![], true), WindowAction::CarryForward);
    let cs = vec![commit("a", 1, JAN_1_2022, "A"), commit("b", 1, JAN_1_2022, "A")];
    assert_eq!(plan_window(&cs, false), WindowAction::Analyze);
    assert_eq!(plan_window(&cs, true), WindowAction::AnalyzeAt("b".to_string()));
}

fn line(origin: char, status: DeltaStatus, path: &str, ext: Option<&str>) -> DiffLine {
    DiffLine {
        origin,
        status,
        new_path: Some(path.to_string()),
        old_path: Some(path.to_string()),
        new_extension: ext.map(|e| e.to_string()),
        old_extension: ext.map(|e| e.to_string()),
    }
}

#[test]
fn restriction_keeps_commits_touching_listed_extensions() {
    let mut exts: IndexSet<String> = IndexSet::new();
    exts.insert("rs".to_string());
    let commits = vec![
        commit("code", 1, JAN_1_2022, "A"),
        commit("docs", 1, JAN_1_2022, "A"),
        commit("unreadable", 1, JAN_1_2022, "A"),
    ];
    let diffs = vec![
        Some(vec![line('F', DeltaStatus::Modified, "src/lib.rs", Some("rs")), line('+', DeltaStatus::Modified, "src/lib.rs", Some("rs"))]),
        Some(vec![line('F', DeltaStatus::Modified, "README.md", Some("md"))]),
        None,
    ];
    let kept = restrict_to_languages(&commits, &diffs, &exts);
    assert_eq!(kept.len(), 1);
    assert_eq!(kept[0].id, "code");
}

#[test]
fn test1() {
    // five commits inside the period stand in for the fixture repository's history:
    // 2022-03-20, 2022-04-02, 2022-05-30, 2022-06-01 and 2022-07-07
    let walk = vec![
        commit("c0", 0, JAN_1_2022 + 78 * DAY, "A"),
        commit("c1", 1, JAN_1_2022 + 91 * DAY, "B"),
        commit("c2", 1, JAN_1_2022 + 149 * DAY, "A"),
        commit("c3", 1, JAN_1_2022 + 151 * DAY, "C"),
        commit("c4", 1, JAN_1_2022 + 187 * DAY, "A"),
    ];
    let (start, end) = (d(2022, 3, 15), d(2022, 7, 8));
    let commits = select_commits(&walk, start, end);
    let commits_inc_months = commits_to_inc_months(&commits, &segment_fixed(start, end, 30));
    let actual_commits = commits_inc_months
        .as_ref()
        .unwrap()
        .iter()
        .map(|x| x.1)
        .flatten()
        .collect::<Vec<_>>();

    let expected_months = 4;
    let expected_nr_commits = 5;
    let keys = &commits_inc_months
        .as_ref()
        .unwrap()
        .keys()
        .collect::<Vec<_>>();
    assert_eq!(keys.len(), expected_months);
    assert_eq!(actual_commits.len(), expected_nr_commits);
}
