//! Calendar months counted from the start of an observation period, and their labels.
use vstd::prelude::*;
use vstd::arithmetic::div_mod::lemma_fundamental_div_mod_converse;
use crate::calendar::{Date, MAX_YEAR, parsed_date};
use crate::windows::{parse_period, SegmentError};

verus! {

/// The decimal digit for `d`, from 0 to 9.
pub open spec fn digit_char(d: int) -> char {
    if d == 0 {
        '0'
    } else if d == 1 {
        '1'
    } else if d == 2 {
        '2'
    } else if d == 3 {
        '3'
    } else if d == 4 {
        '4'
    } else if d == 5 {
        '5'
    } else if d == 6 {
        '6'
    } else if d == 7 {
        '7'
    } else if d == 8 {
        '8'
    } else {
        '9'
    }
}

/// The decimal digits of `n`.
pub open spec fn nat_text(n: nat) -> Seq<char>
    decreases n,
{
    if n < 10 {
        seq![digit_char(n as int)]
    } else {
        nat_text(n / 10).push(digit_char((n % 10) as int))
    }
}

/// `n` in decimal, with a leading `-` when negative.
pub open spec fn int_text(n: int) -> Seq<char> {
    if n < 0 {
        seq!['-'] + nat_text((-n) as nat)
    } else {
        nat_text(n as nat)
    }
}

/// A month number in two digits.
pub open spec fn month_digits(m: int) -> Seq<char> {
    if m < 10 {
        seq!['0', digit_char(m)]
    } else {
        nat_text(m as nat)
    }
}

/// The month `k` months after month `m` of year `y`, as (year, month).
pub open spec fn month_after(y: int, m: int, k: int) -> (int, int) {
    let idx = y * 12 + (m - 1) + k;
    (idx / 12, idx % 12 + 1)
}

fn digit(d: u64) -> (r: char)
    requires
        d < 10,
    ensures
        r == digit_char(d as int),
{
    if d == 0 {
        '0'
    } else if d == 1 {
        '1'
    } else if d == 2 {
        '2'
    } else if d == 3 {
        '3'
    } else if d == 4 {
        '4'
    } else if d == 5 {
        '5'
    } else if d == 6 {
        '6'
    } else if d == 7 {
        '7'
    } else if d == 8 {
        '8'
    } else {
        '9'
    }
}

/// Appends the decimal digits of `n`.
fn push_decimal(out: &mut Vec<char>, n: u64)
    ensures
        final(out)@ == old(out)@ + nat_text(n as nat),
    decreases n,
{
    if n >= 10 {
        push_decimal(out, n / 10);
    }
    out.push(digit(n % 10));
    proof {
        if n >= 10 {
            assert(final(out)@ =~= old(out)@ + nat_text(n as nat));
        } else {
            assert(final(out)@ =~= old(out)@ + nat_text(n as nat));
        }
    }
}

/// Appends a year in decimal.
fn push_year(out: &mut Vec<char>, y: i32)
    ensures
        final(out)@ == old(out)@ + int_text(y as int),
{
    if y < 0 {
        out.push('-');
        let ghost mid = out@;
        push_decimal(out, (-(y as i64)) as u64);
        assert(final(out)@ =~= old(out)@ + int_text(y as int));
    } else {
        push_decimal(out, y as u64);
    }
}

/// Appends a month in two digits.
fn push_month(out: &mut Vec<char>, m: u32)
    requires
        1 <= m <= 12,
    ensures
        final(out)@ == old(out)@ + month_digits(m as int),
{
    if m < 10 {
        out.push('0');
        out.push(digit(m as u64));
        assert(final(out)@ =~= old(out)@ + month_digits(m as int));
    } else {
        push_decimal(out, m as u64);
    }
}

/// Relies on String's FromIterator<char>: the string holds the characters in order.
#[verifier::external_body]
pub(crate) fn text_from_chars(v: &Vec<char>) -> (r: String)
    ensures
        r@ == v@,
{
    v.iter().collect()
}

/// The year and month that lie `k` months after `(year, month)`, one month at a time.
fn step_months(year: i32, month: u32, k: usize) -> (r: (i32, u32))
    requires
        1 <= month <= 12,
        year * 12 + (month - 1) + k < (MAX_YEAR + 1) * 12,
    ensures
        (r.0 as int, r.1 as int) == month_after(year as int, month as int, k as int),
        1 <= r.1 <= 12,
{
    let mut y = year;
    let mut m = month;
    let mut left = k;
    while left > 0
        invariant
            1 <= m <= 12,
            y * 12 + (m - 1) + left == year * 12 + (month - 1) + k,
            year * 12 + (month - 1) + k < (MAX_YEAR + 1) * 12,
            year <= y,
        decreases left,
    {
        if m == 12 {
            y = y + 1;
            m = 1;
        } else {
            m = m + 1;
        }
        left = left - 1;
    }
    proof {
        lemma_fundamental_div_mod_converse(
            year * 12 + (month - 1) + k,
            12,
            y as int,
            (m - 1) as int,
        );
    }
    (y, m)
}

/// The label `YYYY-MM` of month `inc_month` of a period that starts on
/// `start_date` (`YYYY-MM-DD`); month 1 is the start's own month, and so is any
/// lower number. Errors when the date does not parse, or when the month lies
/// beyond the years that dates cover.
pub fn inc_month_to_date(start_date: &str, inc_month: usize) -> (r: Result<String, SegmentError>)
    ensures
        match parsed_date(start_date@) {
            None => r == Err::<String, SegmentError>(SegmentError::UnparsableDate),
            Some(s) => {
                let k = if inc_month > 0 {
                    inc_month - 1
                } else {
                    0
                };
                let ym = month_after(s.year as int, s.month as int, k);
                if ym.0 > MAX_YEAR {
                    r == Err::<String, SegmentError>(SegmentError::MonthOutOfRange)
                } else {
                    r matches Ok(t) && t@ == int_text(ym.0) + seq!['-'] + month_digits(ym.1)
                }
            },
        },
{
    let s = match parse_period(start_date, start_date) {
        Ok(p) => p.0,
        Err(e) => {
            return Err(e);
        },
    };
    let k: usize = if inc_month > 0 {
        inc_month - 1
    } else {
        0
    };
    let room: u64 = ((MAX_YEAR - s.year) as u64) * 12 + (12 - s.month) as u64;
    if k as u64 > room {
        proof {
            let idx = s.year * 12 + (s.month - 1) + k;
            assert(idx >= (MAX_YEAR + 1) * 12);
            vstd::arithmetic::div_mod::lemma_div_is_ordered((MAX_YEAR + 1) * 12, idx, 12);
            assert(((MAX_YEAR + 1) * 12) / 12 == MAX_YEAR + 1);
        }
        return Err(SegmentError::MonthOutOfRange);
    }
    let (y, m) = step_months(s.year, s.month, k);
    let mut out: Vec<char> = Vec::new();
    push_year(&mut out, y);
    out.push('-');
    push_month(&mut out, m);
    proof {
        assert(out@ =~= int_text(y as int) + seq!['-'] + month_digits(m as int));
    }
    Ok(text_from_chars(&out))
}

/// The index and `YYYYMM` label of every calendar month from the month of
/// `s` to the month of `e`, starting at 1.
pub fn month_labels(s: Date, e: Date) -> (r: Vec<(usize, String)>)
    requires
        s.wf(),
        e.wf(),
        s.key() <= e.key(),
    ensures
        r.len() == (e.year * 12 + e.month) - (s.year * 12 + s.month) + 1,
        forall|i: int|
            0 <= i < r.len() ==> {
                let ym = month_after(s.year as int, s.month as int, i);
                &&& (#[trigger] r[i]).0 == i + 1
                &&& r[i].1@ == int_text(ym.0) + month_digits(ym.1)
            },
{
    proof {
        crate::calendar::lemma_key_order(s, e);
    }
    let n: usize = ((e.year as i64 * 12 + e.month as i64) - (s.year as i64 * 12 + s.month as i64)
        + 1) as usize;
    let mut out: Vec<(usize, String)> = Vec::new();
    let mut y = s.year;
    let mut m = s.month;
    let mut i: usize = 0;
    while i < n
        invariant
            s.wf(),
            e.wf(),
            n == (e.year * 12 + e.month) - (s.year * 12 + s.month) + 1,
            i <= n,
            1 <= m <= 12,
            i < n ==> y * 12 + (m - 1) == s.year * 12 + (s.month - 1) + i,
            out.len() == i,
            forall|j: int|
                0 <= j < i ==> {
                    let ym = month_after(s.year as int, s.month as int, j);
                    &&& (#[trigger] out[j]).0 == j + 1
                    &&& out[j].1@ == int_text(ym.0) + month_digits(ym.1)
                },
        decreases n - i,
    {
        proof {
            lemma_fundamental_div_mod_converse(
                s.year * 12 + (s.month - 1) + i,
                12,
                y as int,
                (m - 1) as int,
            );
        }
        let mut label: Vec<char> = Vec::new();
        push_year(&mut label, y);
        push_month(&mut label, m);
        proof {
            assert(label@ =~= int_text(y as int) + month_digits(m as int));
        }
        out.push((i + 1, text_from_chars(&label)));
        if i + 1 < n {
            if m == 12 {
                y = y + 1;
                m = 1;
            } else {
                m = m + 1;
            }
        }
        i = i + 1;
    }
    out
}

/// The index and `YYYYMM` label of every calendar month that the period from
/// `start_date` to `end_date` touches, starting at 1.
pub fn dates_to_months(start_date: &str, end_date: &str) -> (r: Result<
    Vec<(usize, String)>,
    SegmentError,
>)
    ensures
        match (parsed_date(start_date@), parsed_date(end_date@)) {
            (Some(s), Some(e)) => if e.key() < s.key() {
                r == Err::<Vec<(usize, String)>, SegmentError>(SegmentError::InvalidDateRange)
            } else {
                r matches Ok(v) && v.len() == (e.year * 12 + e.month) - (s.year * 12 + s.month) + 1
                    && forall|i: int|
                    0 <= i < v.len() ==> {
                        let ym = month_after(s.year as int, s.month as int, i);
                        &&& (#[trigger] v[i]).0 == i + 1
                        &&& v[i].1@ == int_text(ym.0) + month_digits(ym.1)
                    }
            },
            _ => r == Err::<Vec<(usize, String)>, SegmentError>(SegmentError::UnparsableDate),
        },
{
    match parse_period(start_date, end_date) {
        Ok((s, e)) => Ok(month_labels(s, e)),
        Err(err) => Err(err),
    }
}

} // verus!
