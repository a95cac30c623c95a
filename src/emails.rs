//! Word and character counts of mailing-list messages, after the quoted and
//! forwarded parts are taken out.
use vstd::prelude::*;
use vstd::std_specs::iter::IteratorSpec;

verus! {

/// The characters of a text, in order.
pub fn chars_of(s: &str) -> (r: Vec<char>)
    ensures
        r@ == s@,
{
    let mut out: Vec<char> = Vec::new();
    let mut it = s.chars();
    let ghost total = s@;
    loop
        invariant
            it.remaining() == total.skip(out.len() as int),
            out@ == total.take(out.len() as int),
            out.len() <= total.len(),
            total == s@,
        decreases total.len() - out.len(),
    {
        match it.next() {
            Some(c) => {
                proof {
                    assert(total.take(out.len() + 1) =~= total.take(out.len() as int).push(c));
                    assert(total.skip(out.len() + 1) =~= total.skip(out.len() as int).drop_first());
                }
                out.push(c);
            },
            None => {
                proof {
                    assert(total.take(out.len() as int) =~= total);
                }
                return out;
            },
        }
    }
}

/// The word and character counts of one message body.
#[derive(Clone, Copy, Debug, PartialEq, Eq, Structural)]
pub struct EmailStats {
    pub words: usize,
    pub characters: usize,
}

/// The mailing-list activity of one window.
#[derive(Clone, Copy, Debug, Default, PartialEq, Eq, Structural)]
pub struct EmailsMetrics {
    /// Number of emails.
    pub emails: usize,
    /// Number of developers who wrote them.
    pub devs: usize,
    /// Number of emails that started a thread.
    pub emails_thread_starter: usize,
    pub emails_thread_starter_word_count: usize,
    pub emails_thread_starter_characters: usize,
    /// Number of replies within threads.
    pub emails_threads: usize,
    pub emails_threads_word_count: usize,
    pub emails_threads_characters: usize,
    /// Number of emails without replies.
    pub emails_no_replies: usize,
    pub emails_no_replies_word_count: usize,
    pub emails_no_replies_characters: usize,
    /// Number of emails sent by the issue tracker.
    pub emails_jira: usize,
}

/// White space as Unicode's White_Space property defines it, which is what
/// `char::is_whitespace` tests.
pub open spec fn is_space(c: char) -> bool {
    let u = c as u32;
    (0x9 <= u <= 0xd) || u == 0x20 || u == 0x85 || u == 0xa0 || u == 0x1680 || (0x2000 <= u
        <= 0x200a) || u == 0x2028 || u == 0x2029 || u == 0x202f || u == 0x205f || u == 0x3000
}

/// A line without the `\r` of a `\r\n` ending.
pub open spec fn strip_cr(l: Seq<char>) -> Seq<char> {
    if l.len() > 0 && l.last() == '\r' {
        l.drop_last()
    } else {
        l
    }
}

/// Reading `t` with `.` and `,` dropped: the lines ended so far, and the line
/// being read.
pub open spec fn scan(t: Seq<char>) -> (Seq<Seq<char>>, Seq<char>)
    decreases t.len(),
{
    if t.len() == 0 {
        (seq![], seq![])
    } else {
        let p = scan(t.drop_last());
        let c = t.last();
        if c == '\n' {
            (p.0.push(strip_cr(p.1)), seq![])
        } else if c == '.' || c == ',' {
            p
        } else {
            (p.0, p.1.push(c))
        }
    }
}

/// The lines of `t` with `.` and `,` dropped; a final line ending is optional.
pub open spec fn text_lines(t: Seq<char>) -> Seq<Seq<char>> {
    let p = scan(t);
    if p.1.len() > 0 {
        p.0.push(p.1)
    } else {
        p.0
    }
}

/// A line that counts: not empty, not a single space, not quoted with `>`.
pub open spec fn counted_line(l: Seq<char>) -> bool {
    l.len() > 0 && l != seq![' '] && l[0] != '>'
}

/// The lines of `ls` that count, in order.
pub open spec fn counted_lines(ls: Seq<Seq<char>>) -> Seq<Seq<char>>
    decreases ls.len(),
{
    if ls.len() == 0 {
        seq![]
    } else {
        let p = counted_lines(ls.drop_last());
        if counted_line(ls.last()) {
            p.push(ls.last())
        } else {
            p
        }
    }
}

/// `l` begins with `p`.
pub open spec fn starts_with(l: Seq<char>, p: Seq<char>) -> bool {
    p.len() <= l.len() && l.take(p.len() as int) == p
}

/// `l` finishes with `p`.
pub open spec fn ends_with(l: Seq<char>, p: Seq<char>) -> bool {
    p.len() <= l.len() && l.skip(l.len() - p.len()) == p
}

/// The first line of a forwarded message.
pub open spec fn is_forward_marker(l: Seq<char>) -> bool {
    starts_with(l, "-----Original Message-----"@)
}

/// The index of the first forward marker of `ls` from `i` on, or the length.
pub open spec fn first_marker_from(ls: Seq<Seq<char>>, i: int) -> int
    decreases ls.len() - i,
{
    if i < 0 || i >= ls.len() {
        ls.len() as int
    } else if is_forward_marker(ls[i]) {
        i
    } else {
        first_marker_from(ls, i + 1)
    }
}

/// The line that introduces a quoted reply (`On ... wrote:`).
pub open spec fn is_reply_header(l: Seq<char>) -> bool {
    starts_with(l, "On"@) && ends_with(l, "wrote:"@)
}

/// The lines of a message that count: those before a forwarded message,
/// without a final reply header.
pub open spec fn body_lines(t: Seq<char>) -> Seq<Seq<char>> {
    let ls = counted_lines(text_lines(t));
    let m = ls.take(first_marker_from(ls, 0));
    if m.len() > 0 && is_reply_header(m.last()) {
        m.drop_last()
    } else {
        m
    }
}

/// The number of words of a line: maximal runs of non-space characters.
pub open spec fn line_words(l: Seq<char>) -> nat
    decreases l.len(),
{
    if l.len() == 0 {
        0
    } else {
        line_words(l.drop_last()) + if !is_space(l.last()) && (l.len() == 1 || is_space(
            l[l.len() - 2],
        )) {
            1nat
        } else {
            0nat
        }
    }
}

/// The number of non-space characters of a line.
pub open spec fn line_letters(l: Seq<char>) -> nat
    decreases l.len(),
{
    if l.len() == 0 {
        0
    } else {
        line_letters(l.drop_last()) + if !is_space(l.last()) {
            1nat
        } else {
            0nat
        }
    }
}

/// The number of words of all the lines.
pub open spec fn total_words(ls: Seq<Seq<char>>) -> nat
    decreases ls.len(),
{
    if ls.len() == 0 {
        0
    } else {
        total_words(ls.drop_last()) + line_words(ls.last())
    }
}

/// The number of non-space characters of all the lines.
pub open spec fn total_letters(ls: Seq<Seq<char>>) -> nat
    decreases ls.len(),
{
    if ls.len() == 0 {
        0
    } else {
        total_letters(ls.drop_last()) + line_letters(ls.last())
    }
}

/// The counts of a message body: its words, and the characters of those words
/// joined by single spaces.
pub open spec fn text_stats(t: Seq<char>) -> EmailStats {
    let w = total_words(body_lines(t));
    EmailStats {
        words: w as usize,
        characters: if w == 0 {
            0
        } else {
            (total_letters(body_lines(t)) + w - 1) as usize
        },
    }
}

/// The characters of each line.
pub open spec fn views(ls: Seq<Vec<char>>) -> Seq<Seq<char>> {
    ls.map_values(|l: Vec<char>| l@)
}

/// The number of characters of all the lines.
pub open spec fn total_len(ls: Seq<Seq<char>>) -> nat
    decreases ls.len(),
{
    if ls.len() == 0 {
        0
    } else {
        total_len(ls.drop_last()) + ls.last().len()
    }
}

/// Whether `c` is white space.
pub fn is_space_char(c: char) -> (r: bool)
    ensures
        r == is_space(c),
{
    let u = c as u32;
    (0x9 <= u && u <= 0xd) || u == 0x20 || u == 0x85 || u == 0xa0 || u == 0x1680 || (0x2000 <= u
        && u <= 0x200a) || u == 0x2028 || u == 0x2029 || u == 0x202f || u == 0x205f || u == 0x3000
}

/// A copy of a line.
fn copy_line(l: &Vec<char>) -> (r: Vec<char>)
    ensures
        r@ == l@,
{
    let mut out: Vec<char> = Vec::new();
    let mut i: usize = 0;
    while i < l.len()
        invariant
            i <= l.len(),
            out@ == l@.take(i as int),
        decreases l.len() - i,
    {
        proof {
            assert(l@.take(i + 1) =~= l@.take(i as int).push(l@[i as int]));
        }
        out.push(l[i]);
        i = i + 1;
    }
    proof {
        assert(l@.take(l.len() as int) =~= l@);
    }
    out
}

proof fn lemma_views_push(ls: Seq<Vec<char>>, l: Vec<char>)
    ensures
        views(ls.push(l)) == views(ls).push(l@),
        total_len(views(ls.push(l))) == total_len(views(ls)) + l@.len(),
{
    assert(views(ls.push(l)) =~= views(ls).push(l@));
    assert(views(ls.push(l)).drop_last() =~= views(ls));
}

/// The lines of a text, with `.` and `,` dropped.
fn split_lines(t: &Vec<char>) -> (r: Vec<Vec<char>>)
    ensures
        views(r@) == text_lines(t@),
        total_len(views(r@)) <= t.len(),
{
    let mut lines: Vec<Vec<char>> = Vec::new();
    let mut cur: Vec<char> = Vec::new();
    let mut k: usize = 0;
    while k < t.len()
        invariant
            k <= t.len(),
            views(lines@) == scan(t@.take(k as int)).0,
            cur@ == scan(t@.take(k as int)).1,
            total_len(views(lines@)) + cur.len() <= k,
        decreases t.len() - k,
    {
        let c = t[k];
        proof {
            assert(t@.take(k + 1).drop_last() =~= t@.take(k as int));
        }
        if c == '\n' {
            if cur.len() > 0 && cur[cur.len() - 1] == '\r' {
                cur.pop();
            }
            proof {
                lemma_views_push(lines@, cur);
            }
            lines.push(cur);
            cur = Vec::new();
        } else if c != '.' && c != ',' {
            cur.push(c);
        }
        k = k + 1;
    }
    proof {
        assert(t@.take(t.len() as int) =~= t@);
    }
    if cur.len() > 0 {
        proof {
            lemma_views_push(lines@, cur);
        }
        lines.push(cur);
    }
    lines
}

/// The lines that count, in order.
fn counted(ls: &Vec<Vec<char>>) -> (r: Vec<Vec<char>>)
    ensures
        views(r@) == counted_lines(views(ls@)),
        total_len(views(r@)) <= total_len(views(ls@)),
{
    let mut out: Vec<Vec<char>> = Vec::new();
    let mut k: usize = 0;
    while k < ls.len()
        invariant
            k <= ls.len(),
            views(out@) == counted_lines(views(ls@.take(k as int))),
            total_len(views(out@)) <= total_len(views(ls@.take(k as int))),
        decreases ls.len() - k,
    {
        let l = &ls[k];
        proof {
            assert(views(ls@.take(k + 1)).drop_last() =~= views(ls@.take(k as int)));
            assert(views(ls@.take(k + 1)).last() == l@);
            lemma_views_push(ls@.take(k as int), *l);
            assert(ls@.take(k + 1) =~= ls@.take(k as int).push(*l));
        }
        let keep = l.len() > 0 && !(l.len() == 1 && l[0] == ' ') && l[0] != '>';
        proof {
            if l.len() == 1 && l[0] == ' ' {
                assert(l@ =~= seq![' ']);
            }
            if l@ == seq![' '] {
                assert(l@[0] == ' ');
            }
        }
        if keep {
            let c = copy_line(l);
            proof {
                lemma_views_push(out@, c);
            }
            out.push(c);
        }
        k = k + 1;
    }
    proof {
        assert(ls@.take(ls.len() as int) =~= ls@);
    }
    out
}

/// Whether `l` starts with `p`.
pub(crate) fn has_prefix(l: &Vec<char>, p: &Vec<char>) -> (r: bool)
    ensures
        r == starts_with(l@, p@),
{
    if p.len() > l.len() {
        return false;
    }
    let mut i: usize = 0;
    while i < p.len()
        invariant
            p.len() <= l.len(),
            i <= p.len(),
            forall|j: int| 0 <= j < i ==> l@[j] == p@[j],
        decreases p.len() - i,
    {
        if l[i] != p[i] {
            proof {
                assert(l@.take(p.len() as int)[i as int] != p@[i as int]);
            }
            return false;
        }
        i = i + 1;
    }
    assert(l@.take(p.len() as int) =~= p@);
    true
}

/// Whether `l` ends with `p`.
fn has_suffix(l: &Vec<char>, p: &Vec<char>) -> (r: bool)
    ensures
        r == ends_with(l@, p@),
{
    if p.len() > l.len() {
        return false;
    }
    let off = l.len() - p.len();
    let mut i: usize = 0;
    while i < p.len()
        invariant
            p.len() <= l.len(),
            off == l.len() - p.len(),
            i <= p.len(),
            forall|j: int| 0 <= j < i ==> l@[off + j] == p@[j],
        decreases p.len() - i,
    {
        if l[off + i] != p[i] {
            proof {
                assert(l@.skip(off as int)[i as int] != p@[i as int]);
            }
            return false;
        }
        i = i + 1;
    }
    assert(l@.skip(off as int) =~= p@);
    true
}

proof fn lemma_total_len_prefix(ls: Seq<Seq<char>>, i: int)
    requires
        0 <= i <= ls.len(),
    ensures
        total_len(ls.take(i)) <= total_len(ls),
    decreases ls.len(),
{
    if i < ls.len() {
        lemma_total_len_prefix(ls.drop_last(), i);
        assert(ls.drop_last().take(i) =~= ls.take(i));
    } else {
        assert(ls.take(i) =~= ls);
    }
}

/// The number of lines of `ls` that form the body: those before the first
/// forward marker, less a reply header that ends them.
fn body_end(ls: &Vec<Vec<char>>) -> (r: usize)
    ensures
        r <= ls.len(),
        views(ls@).take(r as int) == ({
            let v = views(ls@);
            let m = v.take(first_marker_from(v, 0));
            if m.len() > 0 && is_reply_header(m.last()) {
                m.drop_last()
            } else {
                m
            }
        }),
{
    let ghost v = views(ls@);
    let marker = chars_of("-----Original Message-----");
    let mut i: usize = 0;
    let mut found = false;
    while !found && i < ls.len()
        invariant
            v == views(ls@),
            marker@ == "-----Original Message-----"@,
            i <= ls.len(),
            found ==> i < ls.len() && is_forward_marker(v[i as int]),
            first_marker_from(v, 0) == first_marker_from(v, i as int),
        decreases ls.len() - i + if found {
            0int
        } else {
            1int
        },
    {
        assert(v[i as int] == ls@[i as int]@);
        if has_prefix(&ls[i], &marker) {
            found = true;
        } else {
            i = i + 1;
        }
    }
    let ghost m = v.take(first_marker_from(v, 0));
    assert(first_marker_from(v, 0) == i);
    assert(m.len() == i);
    if i > 0 {
        let on = chars_of("On");
        let wrote = chars_of("wrote:");
        let last = &ls[i - 1];
        assert(m.last() == last@);
        if has_prefix(last, &on) && has_suffix(last, &wrote) {
            assert(v.take(i - 1) =~= m.drop_last());
            return i - 1;
        }
    }
    i
}

/// The words and the non-space characters of one line.
fn line_counts(l: &Vec<char>) -> (r: (usize, usize))
    ensures
        r.0 == line_words(l@),
        r.1 == line_letters(l@),
        r.0 <= r.1 <= l.len(),
{
    let mut words: usize = 0;
    let mut letters: usize = 0;
    let mut i: usize = 0;
    while i < l.len()
        invariant
            i <= l.len(),
            words == line_words(l@.take(i as int)),
            letters == line_letters(l@.take(i as int)),
            words <= letters <= i,
        decreases l.len() - i,
    {
        proof {
            assert(l@.take(i + 1).drop_last() =~= l@.take(i as int));
            if i > 0 {
                assert(l@.take(i + 1)[i - 1] == l@[i - 1]);
            }
        }
        if !is_space_char(l[i]) {
            letters = letters + 1;
            if i == 0 || is_space_char(l[i - 1]) {
                words = words + 1;
            }
        }
        i = i + 1;
    }
    proof {
        assert(l@.take(l.len() as int) =~= l@);
    }
    (words, letters)
}

/// The words and the non-space characters of the first `end` lines.
fn lines_counts(ls: &Vec<Vec<char>>, end: usize) -> (r: (usize, usize))
    requires
        end <= ls.len(),
        total_len(views(ls@)) <= isize::MAX,
    ensures
        r.0 == total_words(views(ls@).take(end as int)),
        r.1 == total_letters(views(ls@).take(end as int)),
        r.0 <= r.1 <= total_len(views(ls@)),
        r.1 <= isize::MAX,
{
    let ghost v = views(ls@);
    let mut words: usize = 0;
    let mut letters: usize = 0;
    let mut i: usize = 0;
    while i < end
        invariant
            v == views(ls@),
            end <= ls.len(),
            total_len(v) <= isize::MAX,
            i <= end,
            words == total_words(v.take(i as int)),
            letters == total_letters(v.take(i as int)),
            words <= letters <= total_len(v.take(i as int)),
        decreases end - i,
    {
        let (w, c) = line_counts(&ls[i]);
        proof {
            assert(v.take(i + 1).drop_last() =~= v.take(i as int));
            assert(v.take(i + 1).last() == ls@[i as int]@);
            lemma_total_len_prefix(v, i + 1);
        }
        words = words + w;
        letters = letters + c;
        i = i + 1;
    }
    proof {
        lemma_total_len_prefix(v, end as int);
    }
    (words, letters)
}

impl EmailsMetrics {
    /// Counts the words of a message body and the characters of those words
    /// joined by single spaces. `.` and `,` are dropped; empty lines, lines of
    /// one space and lines quoted with `>` do not count; neither does anything
    /// from a `-----Original Message-----` line on, nor a final `On ... wrote:`
    /// line. No text gives zeros.
    pub fn extract_email_stats(text: Option<&str>) -> (r: EmailStats)
        requires
            text matches Some(t) ==> t@.len() <= isize::MAX,
        ensures
            text matches Some(t) ==> r == text_stats(t@),
            text matches Some(t) ==> r.words <= t@.len() && r.characters <= 2 * t@.len(),
            text is None ==> r == (EmailStats { words: 0, characters: 0 }),
    {
        match text {
            None => EmailStats { words: 0, characters: 0 },
            Some(t) => {
                let chars = chars_of(t);
                let lines = split_lines(&chars);
                let kept = counted(&lines);
                let end = body_end(&kept);
                let (words, letters) = lines_counts(&kept, end);
                let characters = if words == 0 {
                    0
                } else {
                    letters + words - 1
                };
                EmailStats { words, characters }
            },
        }
    }

    /// The same counts as `extract_email_stats`.
    pub fn preprocess_emails(text: Option<&str>) -> (r: EmailStats)
        requires
            text matches Some(t) ==> t@.len() <= isize::MAX,
        ensures
            text matches Some(t) ==> r == text_stats(t@),
            text matches Some(t) ==> r.words <= t@.len() && r.characters <= 2 * t@.len(),
            text is None ==> r == (EmailStats { words: 0, characters: 0 }),
    {
        Self::extract_email_stats(text)
    }
}

} // verus!
