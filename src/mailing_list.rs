//! Activity on a project's developer mailing list within a window: how many
//! messages and writers, and how much was written in threads.
use vstd::prelude::*;
use crate::calendar::Date;
use crate::emails::{EmailsMetrics, EmailStats, text_stats, chars_of, has_prefix, starts_with};
use crate::string_set::{set_items, new_string_set, set_insert, set_len};
use crate::text::{
    drop_commas, replace_text, trim, contains_text, without_commas, replace_all, trimmed, has_text,
};

verus! {

/// A message of a mailing-list archive, as a mail parser reads it.
#[derive(Clone, Debug, PartialEq, Eq)]
pub struct EmailRecord {
    /// The sender's display name, empty when there is none.
    pub from_name: String,
    /// The sender's address, empty when there is none.
    pub from_address: String,
    pub subject: String,
    /// Year, month and day of the date header, as written (not always a real day).
    pub date: Option<(i32, u32, u32)>,
    /// The message refers to earlier ones: it is a reply within a thread.
    pub has_references: bool,
    /// The plain-text body.
    pub body: Option<String>,
}

/// The writer of a message: the display name without commas and without the
/// issue tracker's `(Commented) (JIRA)` and `(JIRA)` marks, trimmed.
pub open spec fn sender(e: EmailRecord) -> Seq<char> {
    trim(
        replace_text(
            trim(replace_text(drop_commas(e.from_name@), "(Commented) (JIRA)"@, seq![])),
            "(JIRA)"@,
            seq![],
        ),
    )
}

/// The message was sent by the issue tracker.
pub open spec fn from_tracker(e: EmailRecord) -> bool {
    drop_commas(e.from_address@) == "jira@apache.org"@
}

/// The message announces a commit or relays an issue.
pub open spec fn commit_notice(e: EmailRecord) -> bool {
    starts_with(e.subject@, "svn commit"@) || starts_with(e.subject@, "cvs commit"@)
        || contains_text(e.subject@, "[jira]"@)
}

/// The message was posted by the review board, which hides its writers.
pub open spec fn from_review_board(e: EmailRecord) -> bool {
    sender(e) == "jiraposter@reviews.apache.org"@
}

/// The message's date is a real day within the window; any message counts
/// when there is no window.
pub open spec fn dated_within(e: EmailRecord, window: Option<(Date, Date)>) -> bool {
    match window {
        None => true,
        Some(w) => match e.date {
            Some(ymd) => {
                let d = Date { year: ymd.0, month: ymd.1, day: ymd.2 };
                d.wf() && w.0.key() <= d.key() && d.key() <= w.1.key()
            },
            None => false,
        },
    }
}

/// The counts of a message's body; zeros without one.
pub open spec fn body_stats(e: EmailRecord) -> EmailStats {
    match e.body {
        Some(b) => text_stats(b@),
        None => EmailStats { words: 0, characters: 0 },
    }
}

/// The length of a message's body; zero without one.
pub open spec fn body_len(e: Option<EmailRecord>) -> nat {
    match e {
        Some(m) => match m.body {
            Some(b) => b@.len(),
            None => 0,
        },
        None => 0,
    }
}

/// The total length of the bodies of `es`.
pub open spec fn bodies_len(es: Seq<Option<EmailRecord>>) -> nat
    decreases es.len(),
{
    if es.len() == 0 {
        0
    } else {
        bodies_len(es.drop_last()) + body_len(es.last())
    }
}

/// Metrics that are all zero.
pub open spec fn zero_metrics() -> EmailsMetrics {
    EmailsMetrics {
        emails: 0,
        devs: 0,
        emails_thread_starter: 0,
        emails_thread_starter_word_count: 0,
        emails_thread_starter_characters: 0,
        emails_threads: 0,
        emails_threads_word_count: 0,
        emails_threads_characters: 0,
        emails_no_replies: 0,
        emails_no_replies_word_count: 0,
        emails_no_replies_characters: 0,
        emails_jira: 0,
    }
}

/// Counts one more message `e` into `m`, whose writers so far are `devs`.
pub open spec fn count_email(
    m: EmailsMetrics,
    devs: Seq<Seq<char>>,
    e: EmailRecord,
    window: Option<(Date, Date)>,
) -> (EmailsMetrics, Seq<Seq<char>>) {
    if from_tracker(e) {
        (EmailsMetrics { emails_jira: (m.emails_jira + 1) as usize, ..m }, devs)
    } else if commit_notice(e) || from_review_board(e) {
        (m, devs)
    } else {
        let dated = dated_within(e, window);
        let m1 = if dated {
            EmailsMetrics { emails: (m.emails + 1) as usize, ..m }
        } else {
            m
        };
        let devs1 = if dated && !devs.contains(sender(e)) {
            devs.push(sender(e))
        } else {
            devs
        };
        let st = body_stats(e);
        if !e.has_references {
            (
                EmailsMetrics {
                    emails_thread_starter: (m1.emails_thread_starter + 1) as usize,
                    emails_thread_starter_word_count: (m1.emails_thread_starter_word_count
                        + st.words) as usize,
                    emails_thread_starter_characters: (m1.emails_thread_starter_characters
                        + st.characters) as usize,
                    ..m1
                },
                devs1,
            )
        } else {
            (
                EmailsMetrics {
                    emails_threads: (m1.emails_threads + 1) as usize,
                    emails_threads_word_count: (m1.emails_threads_word_count + st.words) as usize,
                    emails_threads_characters: (m1.emails_threads_characters
                        + st.characters) as usize,
                    ..m1
                },
                devs1,
            )
        }
    }
}

/// The counts over the messages `es` (an unreadable message is absent), with
/// the writers in order of first appearance.
pub open spec fn tally(es: Seq<Option<EmailRecord>>, window: Option<(Date, Date)>) -> (
    EmailsMetrics,
    Seq<Seq<char>>,
)
    decreases es.len(),
{
    if es.len() == 0 {
        (zero_metrics(), seq![])
    } else {
        let p = tally(es.drop_last(), window);
        match es.last() {
            Some(e) => count_email(p.0, p.1, e, window),
            None => p,
        }
    }
}

/// The metrics of the messages `es`: `devs` is the number of distinct writers.
pub open spec fn email_metrics(es: Seq<Option<EmailRecord>>, window: Option<(Date, Date)>) -> EmailsMetrics {
    let t = tally(es, window);
    EmailsMetrics { devs: t.1.len() as usize, ..t.0 }
}

/// Whether two character sequences are equal.
fn same_chars(a: &Vec<char>, b: &Vec<char>) -> (r: bool)
    ensures
        r == (a@ == b@),
{
    if a.len() != b.len() {
        return false;
    }
    let mut i: usize = 0;
    while i < a.len()
        invariant
            a.len() == b.len(),
            i <= a.len(),
            forall|j: int| 0 <= j < i ==> a@[j] == b@[j],
        decreases a.len() - i,
    {
        if a[i] != b[i] {
            assert(a@[i as int] != b@[i as int]);
            return false;
        }
        i = i + 1;
    }
    assert(a@ =~= b@);
    true
}

/// The writer of a message, as characters.
fn sender_chars(e: &EmailRecord) -> (r: Vec<char>)
    ensures
        r@ == sender(*e),
{
    let name = without_commas(&chars_of(e.from_name.as_str()));
    let commented = chars_of("(Commented) (JIRA)");
    let jira = chars_of("(JIRA)");
    let nothing: Vec<char> = Vec::new();
    proof {
        reveal_strlit("(Commented) (JIRA)");
        reveal_strlit("(JIRA)");
    }
    assert(nothing@ =~= Seq::<char>::empty());
    let first = trimmed(&replace_all(&name, &commented, &nothing));
    trimmed(&replace_all(&first, &jira, &nothing))
}

impl EmailsMetrics {
    /// Counts the messages `emails`, within `window` when one is given.
    /// A message from the issue tracker only counts as such; commit notices,
    /// relayed issues and review-board posts are skipped. Any other message
    /// counts (with its writer) when its date lies in the window, and, dated
    /// or not, adds its words and characters to the thread starters or to
    /// the replies.
    pub fn parse_emails(
        emails: &Vec<Option<EmailRecord>>,
        window: Option<(Date, Date)>,
    ) -> (r: EmailsMetrics)
        requires
            bodies_len(emails@) <= isize::MAX,
            window matches Some(w) ==> w.0.wf() && w.1.wf(),
        ensures
            r == email_metrics(emails@, window),
    {
        let jira_addr = chars_of("jira@apache.org");
        let svn = chars_of("svn commit");
        let cvs = chars_of("cvs commit");
        let jira_tag = chars_of("[jira]");
        let bot = chars_of("jiraposter@reviews.apache.org");
        let mut m = EmailsMetrics {
            emails: 0,
            devs: 0,
            emails_thread_starter: 0,
            emails_thread_starter_word_count: 0,
            emails_thread_starter_characters: 0,
            emails_threads: 0,
            emails_threads_word_count: 0,
            emails_threads_characters: 0,
            emails_no_replies: 0,
            emails_no_replies_word_count: 0,
            emails_no_replies_characters: 0,
            emails_jira: 0,
        };
        let mut devs = new_string_set();
        let mut k: usize = 0;
        while k < emails.len()
            invariant
                k <= emails.len(),
                bodies_len(emails@) <= isize::MAX,
                window matches Some(w) ==> w.0.wf() && w.1.wf(),
                jira_addr@ == "jira@apache.org"@,
                svn@ == "svn commit"@,
                cvs@ == "cvs commit"@,
                jira_tag@ == "[jira]"@,
                bot@ == "jiraposter@reviews.apache.org"@,
                m == tally(emails@.take(k as int), window).0,
                set_items(devs) == tally(emails@.take(k as int), window).1,
                m.devs == 0,
                m.emails <= k && m.emails_jira <= k,
                m.emails_thread_starter <= k && m.emails_threads <= k,
                m.emails_no_replies == 0 && m.emails_no_replies_word_count == 0
                    && m.emails_no_replies_characters == 0,
                m.emails_thread_starter_word_count + m.emails_threads_word_count
                    <= bodies_len(emails@.take(k as int)),
                m.emails_thread_starter_characters + m.emails_threads_characters
                    <= 2 * bodies_len(emails@.take(k as int)),
                bodies_len(emails@.take(k as int)) <= bodies_len(emails@),
            decreases emails.len() - k,
        {
            proof {
                assert(emails@.take(k + 1).drop_last() =~= emails@.take(k as int));
                lemma_bodies_prefix(emails@, k + 1);
            }
            match &emails[k] {
                None => {},
                Some(e) => {
                    let addr = without_commas(&chars_of(e.from_address.as_str()));
                    let subject = chars_of(e.subject.as_str());
                    if same_chars(&addr, &jira_addr) {
                        m.emails_jira = m.emails_jira + 1;
                    } else if has_prefix(&subject, &svn) || has_prefix(&subject, &cvs) || has_text(
                        &subject,
                        &jira_tag,
                    ) || same_chars(&sender_chars(e), &bot) {
                    } else {
                        let dev = sender_chars(e);
                        let dated = match window {
                            None => true,
                            Some((start, end)) => match e.date {
                                Some((y, mo, d)) => match Date::from_ymd(y, mo, d) {
                                    Some(day) => start.is_on_or_before(&day) && day.is_on_or_before(
                                        &end,
                                    ),
                                    None => false,
                                },
                                None => false,
                            },
                        };
                        if dated {
                            m.emails = m.emails + 1;
                            set_insert(&mut devs, crate::months::text_from_chars(&dev));
                        }
                        let st = match &e.body {
                            Some(b) => EmailsMetrics::extract_email_stats(Some(b.as_str())),
                            None => EmailStats { words: 0, characters: 0 },
                        };
                        if !e.has_references {
                            m.emails_thread_starter = m.emails_thread_starter + 1;
                            m.emails_thread_starter_word_count = m.emails_thread_starter_word_count
                                + st.words;
                            m.emails_thread_starter_characters = m.emails_thread_starter_characters
                                + st.characters;
                        } else {
                            m.emails_threads = m.emails_threads + 1;
                            m.emails_threads_word_count = m.emails_threads_word_count + st.words;
                            m.emails_threads_characters = m.emails_threads_characters
                                + st.characters;
                        }
                    }
                },
            }
            k = k + 1;
        }
        proof {
            assert(emails@.take(emails.len() as int) =~= emails@);
        }
        m.devs = set_len(&devs);
        m
    }

    /// The counts of all the messages of an archive.
    pub fn metrics(emails: &Vec<Option<EmailRecord>>) -> (r: EmailsMetrics)
        requires
            bodies_len(emails@) <= isize::MAX,
        ensures
            r == email_metrics(emails@, None),
    {
        Self::parse_emails(emails, None)
    }

    /// The counts of the messages dated from `start_date` to `end_date`.
    pub fn metrics_time_window(
        start_date: Date,
        end_date: Date,
        emails: &Vec<Option<EmailRecord>>,
    ) -> (r: EmailsMetrics)
        requires
            bodies_len(emails@) <= isize::MAX,
            start_date.wf(),
            end_date.wf(),
        ensures
            r == email_metrics(emails@, Some((start_date, end_date))),
    {
        Self::parse_emails(emails, Some((start_date, end_date)))
    }
}

proof fn lemma_bodies_prefix(es: Seq<Option<EmailRecord>>, k: int)
    requires
        0 <= k <= es.len(),
    ensures
        bodies_len(es.take(k)) <= bodies_len(es),
    decreases es.len(),
{
    if k < es.len() {
        lemma_bodies_prefix(es.drop_last(), k);
        assert(es.drop_last().take(k) =~= es.take(k));
    } else {
        assert(es.take(k) =~= es);
    }
}

} // verus!
