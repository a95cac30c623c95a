use incubator_metrics::calendar::Date;
use incubator_metrics::emails::EmailsMetrics;
use incubator_metrics::mailing_list::EmailRecord;

fn mail(name: &str, address: &str, subject: &str, date: (i32, u32, u32), reply: bool, body: &str) -> Option<EmailRecord> {
    Some(EmailRecord {
        from_name: name.to_string(),
        from_address: address.to_string(),
        subject: subject.to_string(),
        date: Some(date),
        has_references: reply,
        body: Some(body.to_string()),
    })
}

fn archive() -> Vec<Option<EmailRecord>> {
    vec![
        mail("Ann Lee", "ann@example.org", "Release plan", (2022, 1, 3), false, "Let us ship."),
        mail("Bob, Jr.", "bob@example.org", "Re: Release plan", (2022, 1, 4), true, "Agreed\n> Let us ship"),
        mail("Ann Lee (JIRA)", "jira@apache.org", "[jira] Created: X-1", (2022, 1, 4), false, "issue"),
        mail("Ann Lee", "ann@example.org", "svn commit: r1", (2022, 1, 5), false, "diff"),
        mail("Cid (Commented) (JIRA)", "cid@example.org", "Re: Release plan", (2022, 2, 1), true, "Late reply here"),
        mail("jiraposter@reviews.apache.org", "bot@example.org", "Review Request", (2022, 1, 6), false, "review"),
        None,
        mail("Dee", "dee@example.org", "Broken date", (2022, 2, 30), false, "one two"),
    ]
}

#[test]
fn archive_metrics_count_every_dated_message() {
    let m = EmailsMetrics::metrics(&archive());
    assert_eq!(m.emails_jira, 1);
    assert_eq!(m.emails, 4);
    assert_eq!(m.devs, 4);
    assert_eq!(m.emails_thread_starter, 2);
    assert_eq!(m.emails_threads, 2);
    assert_eq!(m.emails_thread_starter_word_count, 3 + 2);
    assert_eq!(m.emails_thread_starter_characters, 11 + 7);
    assert_eq!(m.emails_threads_word_count, 1 + 3);
    assert_eq!(m.emails_threads_characters, 6 + 15);
    assert_eq!((m.emails_no_replies, m.emails_no_replies_word_count, m.emails_no_replies_characters), (0, 0, 0));
}

#[test]
fn window_metrics_count_only_messages_dated_inside() {
    let start = Date::from_ymd(2022, 1, 1).unwrap();
    let end = Date::from_ymd(2022, 1, 31).unwrap();
    let m = EmailsMetrics::metrics_time_window(start, end, &archive());
    assert_eq!(m.emails, 2);
    assert_eq!(m.devs, 2);
    assert_eq!(m.emails_jira, 1);
    assert_eq!(m.emails_thread_starter, 2);
    assert_eq!(m.emails_threads, 2);
}

#[test]
fn empty_archive_gives_zeros() {
    assert_eq!(EmailsMetrics::metrics(&vec![]), EmailsMetrics::default());
}
