//! Partition of an observation period into ordered, contiguous measurement
//! windows: fixed-length ones, or one per calendar month.
use vstd::prelude::*;
use crate::calendar::{
    Date, next_date, span, month_end, lemma_key_order, lemma_next_date,
    days_in_month, parsed_date, parse_ymd,
};

verus! {

/// One measurement window: its 1-based index and the first and last day it covers.
#[derive(Clone, Copy, Debug, PartialEq, Eq, Structural)]
pub struct IncubationMonth {
    pub start_date: Date,
    pub end_date: Date,
    pub incubation_month: usize,
}

/// Window `i` carries index `i + 1`, spans at least one real day, and the next
/// window starts on the day after it ends.
pub open spec fn windows_linked(ws: Seq<IncubationMonth>) -> bool {
    &&& forall|i: int|
        0 <= i < ws.len() ==> {
            &&& (#[trigger] ws[i]).incubation_month == i + 1
            &&& ws[i].start_date.wf()
            &&& ws[i].end_date.wf()
            &&& ws[i].start_date.key() <= ws[i].end_date.key()
        }
    &&& forall|i: int|
        0 < i < ws.len() ==> (#[trigger] ws[i]).start_date == next_date(ws[i - 1].end_date)
}

/// `ws` is a chain of windows from `start` to `end`.
pub open spec fn is_segmentation(start: Date, end: Date, ws: Seq<IncubationMonth>) -> bool {
    &&& ws.len() > 0
    &&& ws[0].start_date == start
    &&& ws.last().end_date == end
    &&& windows_linked(ws)
}

/// Every window but the last spans exactly `n` days; the last spans at most `n`.
pub open spec fn is_fixed_segmentation(
    start: Date,
    end: Date,
    n: int,
    ws: Seq<IncubationMonth>,
) -> bool {
    &&& is_segmentation(start, end, ws)
    &&& forall|i: int|
        0 <= i < ws.len() - 1 ==> span(#[trigger] ws[i].start_date, ws[i].end_date) == n
    &&& span(ws.last().start_date, ws.last().end_date) <= n
}

/// Each window lies within one calendar month, and every window but the last
/// ends on the last day of its month.
pub open spec fn is_month_segmentation(start: Date, end: Date, ws: Seq<IncubationMonth>) -> bool {
    &&& is_segmentation(start, end, ws)
    &&& forall|i: int|
        0 <= i < ws.len() ==> {
            &&& (#[trigger] ws[i]).start_date.year == ws[i].end_date.year
            &&& ws[i].start_date.month == ws[i].end_date.month
        }
    &&& forall|i: int|
        0 <= i < ws.len() - 1 ==> (#[trigger] ws[i]).end_date == month_end(ws[i].start_date)
}

/// The day `d` lies in window `w`.
pub open spec fn in_window(d: Date, w: IncubationMonth) -> bool {
    w.start_date.key() <= d.key() <= w.end_date.key()
}

/// Counting days is additive over a split point.
pub proof fn lemma_span_split(a: Date, b: Date, c: Date)
    requires
        a.wf(),
        b.wf(),
        c.wf(),
        a.key() <= b.key() <= c.key(),
    ensures
        span(a, c) == span(a, b) + span(b, c) - 1,
    decreases b.key() - a.key(),
{
    if a.key() < b.key() {
        lemma_next_date(a, b);
        lemma_span_split(next_date(a), b, c);
    } else {
        lemma_key_order(a, b);
    }
}

/// A window chain is strictly increasing: a later window starts after an earlier one ends.
pub proof fn lemma_windows_ordered(ws: Seq<IncubationMonth>, i: int, j: int)
    requires
        windows_linked(ws),
        0 <= i < j < ws.len(),
    ensures
        ws[i].end_date.key() < ws[j].start_date.key(),
    decreases j - i,
{
    assert(ws[i + 1].start_date == next_date(ws[i].end_date));
    assert(ws[i].start_date.key() <= ws[i].end_date.key());
    assert(ws[i + 1].start_date.key() <= ws[i + 1].end_date.key());
    if j > i + 1 {
        lemma_windows_ordered(ws, i + 1, j);
    }
}

/// Window coverage: the windows of a segmentation from `start` to `end` do not
/// overlap, and every day from `start` to `end` lies in exactly one of them.
pub proof fn lemma_windows_cover(start: Date, end: Date, ws: Seq<IncubationMonth>, d: Date)
    requires
        is_segmentation(start, end, ws),
        d.wf(),
        start.key() <= d.key() <= end.key(),
    ensures
        ws[0].start_date == start,
        ws.last().end_date == end,
        forall|i: int, j: int|
            0 <= i < j < ws.len() ==> ws[i].end_date.key() < (#[trigger] ws[j]).start_date.key()
                && #[trigger] ws[i].incubation_month == i + 1,
        exists|i: int| 0 <= i < ws.len() && in_window(d, #[trigger] ws[i]),
        forall|i: int, j: int|
            0 <= i < ws.len() && 0 <= j < ws.len() && in_window(d, #[trigger] ws[i]) && in_window(
                d,
                #[trigger] ws[j],
            ) ==> i == j,
{
    assert forall|i: int, j: int|
        0 <= i < j < ws.len() implies ws[i].end_date.key() < (#[trigger] ws[j]).start_date.key()
        && #[trigger] ws[i].incubation_month == i + 1 by {
        lemma_windows_ordered(ws, i, j);
    }
    let k = lemma_find_window(ws, d, ws.len() - 1);
    assert(in_window(d, ws[k]));
    assert forall|i: int, j: int|
        0 <= i < ws.len() && 0 <= j < ws.len() && in_window(d, #[trigger] ws[i]) && in_window(
            d,
            #[trigger] ws[j],
        ) implies i == j by {
        if i < j {
            lemma_windows_ordered(ws, i, j);
        } else if j < i {
            lemma_windows_ordered(ws, j, i);
        }
    }
}

/// Among windows `0..=m` of a chain, the last one that starts on or before `d`
/// holds `d`, provided `d` is no later than the end of window `m`.
proof fn lemma_find_window(ws: Seq<IncubationMonth>, d: Date, m: int) -> (k: int)
    requires
        windows_linked(ws),
        0 <= m < ws.len(),
        d.wf(),
        ws[0].start_date.key() <= d.key() <= ws[m].end_date.key(),
    ensures
        0 <= k <= m,
        in_window(d, ws[k]),
    decreases m,
{
    if ws[m].start_date.key() <= d.key() {
        m
    } else {
        assert(ws[m].start_date == next_date(ws[m - 1].end_date));
        if ws[m - 1].end_date.key() < d.key() {
            lemma_next_date(ws[m - 1].end_date, d);
        }
        lemma_find_window(ws, d, m - 1)
    }
}

/// Days from `start` to the end of window `i` of a fixed segmentation.
proof fn lemma_fixed_offsets(start: Date, end: Date, n: int, ws: Seq<IncubationMonth>, i: int)
    requires
        is_fixed_segmentation(start, end, n, ws),
        0 <= i < ws.len(),
    ensures
        span(start, ws[i].start_date) == i * n + 1,
    decreases i,
{
    if i > 0 {
        lemma_fixed_offsets(start, end, n, ws, i - 1);
        let w = ws[i - 1];
        assert(ws[i].start_date == next_date(w.end_date));
        assert(span(w.start_date, w.end_date) == n);
        lemma_windows_ordered(ws, 0, i);
        if i - 1 > 0 {
            lemma_windows_ordered(ws, 0, i - 1);
        }
        lemma_span_split(start, w.start_date, w.end_date);
        let e = w.end_date;
        let e2 = next_date(e);
        lemma_next_date(e, ws[i].end_date);
        lemma_span_split(start, e, e2);
        lemma_span_split(e, e2, e2);
        assert(span(e, e2) == 2);
        assert(span(start, e) == (i - 1) * n + n);
        assert(span(start, e2) == (i - 1) * n + n + 1);
        assert(i * n == (i - 1) * n + n) by (nonlinear_arith);
        assert(span(start, ws[i].start_date) == i * n + 1);
    } else {
        assert(span(start, start) == 1);
        assert(0 * n == 0);
    }
}

/// The number of windows of a fixed segmentation is fixed by the number of days.
proof fn lemma_fixed_count(start: Date, end: Date, n: int, ws: Seq<IncubationMonth>)
    requires
        is_fixed_segmentation(start, end, n, ws),
    ensures
        (ws.len() - 1) * n < span(start, end) <= ws.len() * n,
{
    let l = ws.len() - 1;
    lemma_fixed_offsets(start, end, n, ws, l);
    let w = ws[l];
    assert(w.end_date.wf());
    if l > 0 {
        lemma_windows_ordered(ws, 0, l);
    }
    lemma_span_split(start, w.start_date, end);
    assert((l + 1) * n == l * n + n) by (nonlinear_arith);
}

/// Window count monotonicity: for a fixed period, shorter windows never give
/// fewer windows.
pub proof fn lemma_shorter_windows_not_fewer(
    start: Date,
    end: Date,
    n1: int,
    n2: int,
    ws1: Seq<IncubationMonth>,
    ws2: Seq<IncubationMonth>,
)
    requires
        1 <= n1 <= n2,
        is_fixed_segmentation(start, end, n1, ws1),
        is_fixed_segmentation(start, end, n2, ws2),
    ensures
        ws1.len() >= ws2.len(),
{
    lemma_fixed_count(start, end, n1, ws1);
    lemma_fixed_count(start, end, n2, ws2);
    let l1 = ws1.len() as int;
    let l2 = ws2.len() as int;
    assert(l1 * n1 <= l1 * n2) by (nonlinear_arith)
        requires
            n1 <= n2,
            l1 >= 0,
    ;
    assert(l2 - 1 < l1) by (nonlinear_arith)
        requires
            (l2 - 1) * n2 < l1 * n2,
            n2 >= 1,
    ;
}

/// Fixed-length windows of `time_window` days from `start` to `end`; the last
/// one is clipped to `end`, and a single remaining day still makes a window.
pub fn segment_fixed(start: Date, end: Date, time_window: u64) -> (r: Vec<IncubationMonth>)
    requires
        start.wf(),
        end.wf(),
        start.key() <= end.key(),
        time_window >= 1,
    ensures
        is_fixed_segmentation(start, end, time_window as int, r@),
{
    let mut out: Vec<IncubationMonth> = Vec::new();
    let mut cur_start = start;
    let mut d = start;
    let mut count: u64 = 1;
    while !end.is_on_or_before(&d)
        invariant
            start.wf(),
            end.wf(),
            d.wf(),
            cur_start.wf(),
            start.key() <= cur_start.key() <= d.key() <= end.key(),
            count == span(cur_start, d),
            1 <= count <= time_window,
            out.len() <= d.key() - start.key(),
            windows_linked(out@),
            out.len() == 0 ==> cur_start == start,
            out.len() > 0 ==> out[0].start_date == start && cur_start == next_date(
                out@.last().end_date,
            ),
            forall|i: int|
                0 <= i < out.len() ==> span(#[trigger] out[i].start_date, out[i].end_date)
                    == time_window,
        decreases end.key() - d.key(),
    {
        proof {
            lemma_next_date(d, end);
            lemma_span_split(cur_start, d, next_date(d));
            lemma_span_split(d, next_date(d), next_date(d));
        }
        let nd = d.next_day();
        if count == time_window {
            let w = IncubationMonth {
                start_date: cur_start,
                end_date: d,
                incubation_month: out.len() + 1,
            };
            out.push(w);
            cur_start = nd;
            count = 1;
        } else {
            count = count + 1;
        }
        d = nd;
    }
    proof {
        lemma_key_order(d, end);
    }
    let last = IncubationMonth { start_date: cur_start, end_date: end, incubation_month: out.len() + 1 };
    out.push(last);
    out
}

/// The last day of the month that holds `d`.
pub fn last_day_of_month(d: &Date) -> (r: Date)
    requires
        d.wf(),
    ensures
        r == month_end(*d),
        r.wf(),
        d.key() <= r.key(),
{
    Date { year: d.year, month: d.month, day: days_in_month(d.year, d.month) }
}

/// One window per calendar month touched by the period from `start` to `end`:
/// the first starts at `start`, the others on the first of their month, and the
/// last ends at `end`.
pub fn segment_months(start: Date, end: Date) -> (r: Vec<IncubationMonth>)
    requires
        start.wf(),
        end.wf(),
        start.key() <= end.key(),
    ensures
        is_month_segmentation(start, end, r@),
{
    let mut out: Vec<IncubationMonth> = Vec::new();
    let mut cur = start;
    while !end.is_on_or_before(&last_day_of_month(&cur))
        invariant
            start.wf(),
            end.wf(),
            cur.wf(),
            start.key() <= cur.key() <= end.key(),
            out.len() <= cur.key() - start.key(),
            windows_linked(out@),
            out.len() == 0 ==> cur == start,
            out.len() > 0 ==> out[0].start_date == start && cur == next_date(
                out@.last().end_date,
            ),
            forall|i: int|
                0 <= i < out.len() ==> {
                    &&& (#[trigger] out[i]).start_date.year == out[i].end_date.year
                    &&& out[i].start_date.month == out[i].end_date.month
                    &&& out[i].end_date == month_end(out[i].start_date)
                },
        decreases end.key() - cur.key(),
    {
        let me = last_day_of_month(&cur);
        proof {
            lemma_next_date(me, end);
        }
        let w = IncubationMonth { start_date: cur, end_date: me, incubation_month: out.len() + 1 };
        out.push(w);
        cur = me.next_day();
    }
    proof {
        lemma_key_order(cur, end);
        lemma_key_order(end, month_end(cur));
    }
    let last = IncubationMonth { start_date: cur, end_date: end, incubation_month: out.len() + 1 };
    out.push(last);
    out
}

/// The number of a date's month, counted across years.
pub open spec fn month_number(d: Date) -> int {
    d.year * 12 + d.month - 1
}

proof fn lemma_month_starts(start: Date, end: Date, ws: Seq<IncubationMonth>, i: int)
    requires
        is_month_segmentation(start, end, ws),
        0 <= i < ws.len(),
    ensures
        month_number(ws[i].start_date) == month_number(start) + i,
    decreases i,
{
    if i > 0 {
        lemma_month_starts(start, end, ws, i - 1);
        let w = ws[i - 1];
        assert(ws[i].start_date == next_date(w.end_date));
        assert(w.end_date == month_end(w.start_date));
    }
}

/// A month segmentation has one window for every calendar month that the
/// period touches, the first and last included, in calendar order.
pub proof fn lemma_month_windows_count(start: Date, end: Date, ws: Seq<IncubationMonth>)
    requires
        is_month_segmentation(start, end, ws),
    ensures
        ws.len() == month_number(end) - month_number(start) + 1,
        forall|i: int|
            0 <= i < ws.len() ==> month_number(#[trigger] ws[i].start_date) == month_number(start)
                + i,
{
    assert forall|i: int| 0 <= i < ws.len() implies month_number(#[trigger] ws[i].start_date)
        == month_number(start) + i by {
        lemma_month_starts(start, end, ws, i);
    }
    let l = ws.len() - 1;
    assert(ws[l].start_date.year == ws[l].end_date.year);
    assert(ws[l].start_date.month == ws[l].end_date.month);
}

/// Why a period cannot be segmented.
#[derive(Clone, Copy, Debug, PartialEq, Eq, Structural)]
pub enum SegmentError {
    /// A date is not a `YYYY-MM-DD` calendar day.
    UnparsableDate,
    /// The period ends before it starts.
    InvalidDateRange,
    /// A fixed window is shorter than one day.
    InvalidTimeWindow,
    /// A month lies beyond the years that dates cover.
    MonthOutOfRange,
}

/// Reads the two dates of a period: both must parse, and the end must not come
/// before the start.
pub fn parse_period(start_date: &str, end_date: &str) -> (r: Result<(Date, Date), SegmentError>)
    ensures
        match (parsed_date(start_date@), parsed_date(end_date@)) {
            (Some(s), Some(e)) => if e.key() < s.key() {
                r == Err::<(Date, Date), SegmentError>(SegmentError::InvalidDateRange)
            } else {
                r == Ok::<(Date, Date), SegmentError>((s, e))
            },
            _ => r == Err::<(Date, Date), SegmentError>(SegmentError::UnparsableDate),
        },
        r matches Ok((s, e)) ==> s.wf() && e.wf(),
{
    let s = parse_ymd(start_date);
    let e = parse_ymd(end_date);
    match (s, e) {
        (Some(s), Some(e)) => {
            if s.is_on_or_before(&e) {
                Ok((s, e))
            } else {
                Err(SegmentError::InvalidDateRange)
            }
        },
        _ => Err(SegmentError::UnparsableDate),
    }
}

/// Fixed-length windows of `time_window` days over the period from
/// `start_date` to `end_date` (both `YYYY-MM-DD`).
pub fn parse_date_to_inc_months_with_time_window(
    start_date: &str,
    end_date: &str,
    time_window: i64,
) -> (r: Result<Vec<IncubationMonth>, SegmentError>)
    ensures
        match (parsed_date(start_date@), parsed_date(end_date@)) {
            (Some(s), Some(e)) => if e.key() < s.key() {
                r == Err::<Vec<IncubationMonth>, SegmentError>(SegmentError::InvalidDateRange)
            } else if time_window < 1 {
                r == Err::<Vec<IncubationMonth>, SegmentError>(SegmentError::InvalidTimeWindow)
            } else {
                r matches Ok(ws) && is_fixed_segmentation(s, e, time_window as int, ws@)
            },
            _ => r == Err::<Vec<IncubationMonth>, SegmentError>(SegmentError::UnparsableDate),
        },
{
    let (s, e) = match parse_period(start_date, end_date) {
        Ok(p) => p,
        Err(err) => {
            return Err(err);
        },
    };
    if time_window < 1 {
        return Err(SegmentError::InvalidTimeWindow);
    }
    Ok(segment_fixed(s, e, time_window as u64))
}

/// One window per calendar month touched by the period from `start_date` to
/// `end_date` (both `YYYY-MM-DD`).
pub fn parse_dates_to_inc_months(start_date: &str, end_date: &str) -> (r: Result<
    Vec<IncubationMonth>,
    SegmentError,
>)
    ensures
        match (parsed_date(start_date@), parsed_date(end_date@)) {
            (Some(s), Some(e)) => if e.key() < s.key() {
                r == Err::<Vec<IncubationMonth>, SegmentError>(SegmentError::InvalidDateRange)
            } else {
                r matches Ok(ws) && is_month_segmentation(s, e, ws@)
            },
            _ => r == Err::<Vec<IncubationMonth>, SegmentError>(SegmentError::UnparsableDate),
        },
{
    let (s, e) = match parse_period(start_date, end_date) {
        Ok(p) => p,
        Err(err) => {
            return Err(err);
        },
    };
    Ok(segment_months(s, e))
}

} // verus!
