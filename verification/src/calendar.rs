//! Calendar dates: validity in the proleptic Gregorian calendar, parsing
//! through `chrono`, and the compact `YYYYMMDD` transport form.

use vstd::prelude::*;
use crate::decimal::{all_digit_chars, digits_value};
use crate::numeral::{lemma_padded_text, nat_text, padded_chars, padded_text};
use crate::fields::tab_free;
use chrono::Datelike;

verus! {

/// Whether `year` is a leap year of the proleptic Gregorian calendar.
pub open spec fn is_leap_year(year: int) -> bool {
    (year % 4 == 0 && year % 100 != 0) || year % 400 == 0
}

/// The number of days of `month` (1 to 12) in `year`.
pub open spec fn days_in_month(year: int, month: int) -> int {
    if month == 2 {
        if is_leap_year(year) { 29 } else { 28 }
    } else if month == 4 || month == 6 || month == 9 || month == 11 {
        30
    } else {
        31
    }
}

/// Whether year, month and day name a day of the calendar.
pub open spec fn valid_ymd(year: int, month: int, day: int) -> bool {
    1 <= month <= 12 && 1 <= day <= days_in_month(year, month)
}

/// Text of the form `DDDD-DD-DD` where each `D` is an ASCII digit.
pub open spec fn iso_date_shape(s: Seq<char>) -> bool {
    &&& s.len() == 10
    &&& s[4] == '-'
    &&& s[7] == '-'
    &&& all_digit_chars(s.take(4))
    &&& all_digit_chars(s.subrange(5, 7))
    &&& all_digit_chars(s.subrange(8, 10))
}

/// Year, month and day written by text of the form `DDDD-DD-DD`.
pub open spec fn iso_ymd(s: Seq<char>) -> (int, int, int) {
    (
        digits_value(s.take(4)) as int,
        digits_value(s.subrange(5, 7)) as int,
        digits_value(s.subrange(8, 10)) as int,
    )
}

/// Text of eight ASCII digits, `YYYYMMDD`.
pub open spec fn compact_date_shape(s: Seq<char>) -> bool {
    s.len() == 8 && all_digit_chars(s)
}

/// Year, month and day written by eight digits `YYYYMMDD`.
pub open spec fn compact_ymd(s: Seq<char>) -> (int, int, int) {
    (
        digits_value(s.take(4)) as int,
        digits_value(s.subrange(4, 6)) as int,
        digits_value(s.subrange(6, 8)) as int,
    )
}

/// The year, month and day that `chrono::NaiveDate::parse_from_str` reads from
/// `text` under the strftime `format`, or `None` where it reports an error.
pub uninterp spec fn chrono_parsed_date(text: Seq<char>, format: Seq<char>) -> Option<(int, int, int)>;

/// `chrono::NaiveDate::parse_from_str`, read back through `year`, `month` and
/// `day`.
///
/// Claimed: the result is the named parse of `text` under `format`; a parsed
/// date is a day of the calendar (chrono builds it with `from_ymd_opt`); and,
/// from chrono's parser, which reads `%Y` as at most four unsigned digits and
/// `%m`, `%d` as at most two: under `%Y-%m-%d` on `DDDD-DD-DD` text, and under
/// `%Y%m%d` on eight digits, the parse succeeds exactly for valid dates and
/// gives the written numbers. Other inputs (signs, spaces, short fields) are
/// left to the name.
#[verifier::external_body]
pub(crate) fn parse_date(text: &str, format: &str) -> (res: Option<(i32, u32, u32)>)
    ensures
        res matches Some((y, m, d)) ==> chrono_parsed_date(text@, format@) == Some(
            (y as int, m as int, d as int),
        ),
        res is None ==> chrono_parsed_date(text@, format@) is None,
        res matches Some((y, m, d)) ==> valid_ymd(y as int, m as int, d as int),
        format@ == "%Y-%m-%d"@ && iso_date_shape(text@) ==> (res is Some <==> valid_ymd(
            iso_ymd(text@).0,
            iso_ymd(text@).1,
            iso_ymd(text@).2,
        )),
        format@ == "%Y-%m-%d"@ && iso_date_shape(text@) ==> (res matches Some((y, m, d)) ==> (
        y as int, m as int, d as int) == iso_ymd(text@)),
        format@ == "%Y%m%d"@ && compact_date_shape(text@) ==> (res is Some <==> valid_ymd(
            compact_ymd(text@).0,
            compact_ymd(text@).1,
            compact_ymd(text@).2,
        )),
        format@ == "%Y%m%d"@ && compact_date_shape(text@) ==> (res matches Some((y, m, d)) ==> (
        y as int, m as int, d as int) == compact_ymd(text@)),
{
    match chrono::NaiveDate::parse_from_str(text, format) {
        Ok(date) => Some((date.year(), date.month(), date.day())),
        Err(_) => None,
    }
}

/// The year as chrono writes `%Y`: four zero-padded digits from 0 to 9999,
/// otherwise a sign followed by at least four digits.
pub open spec fn year_text(y: int) -> Seq<char> {
    if 0 <= y <= 9999 {
        padded_text(y as nat, 4)
    } else if y < 0 {
        seq!['-'] + padded_text((-y) as nat, 4)
    } else {
        seq!['+'] + padded_text(y as nat, 4)
    }
}

/// A date as chrono writes it under `%Y%m%d`.
pub open spec fn compact_text(y: int, m: int, d: int) -> Seq<char> {
    year_text(y) + padded_text(m as nat, 2) + padded_text(d as nat, 2)
}

/// A date written `%Y%m%d`, as `chrono`'s formatter documents it.
pub fn compact_date_text(y: i32, m: u32, d: u32) -> (r: String)
    ensures
        r@ == compact_text(y as int, m as int, d as int),
{
    let mut out: Vec<char> = Vec::new();
    if 0 <= y && y <= 9999 {
        out = padded_chars(y as u64, 4);
    } else {
        let magnitude: u64 = if y < 0 { (0i64 - (y as i64)) as u64 } else { y as u64 };
        out.push(if y < 0 { '-' } else { '+' });
        let digits = padded_chars(magnitude, 4);
        let mut i: usize = 0;
        while i < digits.len()
            invariant
                i <= digits@.len(),
                out@ == seq![if y < 0 { '-' } else { '+' }] + digits@.take(i as int),
            decreases digits.len() - i,
        {
            out.push(digits[i]);
            assert(digits@.take(i + 1) =~= digits@.take(i as int).push(digits@[i as int]));
            i = i + 1;
        }
        assert(digits@.take(digits@.len() as int) =~= digits@);
    }
    assert(out@ == year_text(y as int));
    let month = padded_chars(m as u64, 2);
    let day = padded_chars(d as u64, 2);
    let mut j: usize = 0;
    let ghost year = out@;
    while j < month.len()
        invariant
            j <= month@.len(),
            out@ == year + month@.take(j as int),
        decreases month.len() - j,
    {
        out.push(month[j]);
        assert(month@.take(j + 1) =~= month@.take(j as int).push(month@[j as int]));
        j = j + 1;
    }
    assert(month@.take(month@.len() as int) =~= month@);
    let ghost with_month = out@;
    let mut k: usize = 0;
    while k < day.len()
        invariant
            k <= day@.len(),
            out@ == with_month + day@.take(k as int),
        decreases day.len() - k,
    {
        out.push(day[k]);
        assert(day@.take(k + 1) =~= day@.take(k as int).push(day@[k as int]));
        k = k + 1;
    }
    assert(day@.take(day@.len() as int) =~= day@);
    crate::text::string_from_chars(out.as_slice())
}

/// A date as chrono writes it under `%Y-%m-%d`.
pub open spec fn iso_text(y: int, m: int, d: int) -> Seq<char> {
    year_text(y) + seq!['-'] + padded_text(m as nat, 2) + seq!['-'] + padded_text(d as nat, 2)
}

/// The year as chrono writes `%Y`.
fn year_chars(y: i32) -> (r: Vec<char>)
    ensures
        r@ == year_text(y as int),
{
    if 0 <= y && y <= 9999 {
        padded_chars(y as u64, 4)
    } else {
        let magnitude: u64 = if y < 0 { (0i64 - (y as i64)) as u64 } else { y as u64 };
        let mut out: Vec<char> = Vec::new();
        out.push(if y < 0 { '-' } else { '+' });
        let digits = padded_chars(magnitude, 4);
        crate::decimal::extend_chars(&mut out, &digits);
        out
    }
}

/// A date written `%Y-%m-%d`, as `chrono`'s formatter documents it.
pub fn iso_date_text(y: i32, m: u32, d: u32) -> (r: String)
    ensures
        r@ == iso_text(y as int, m as int, d as int),
{
    let mut out = year_chars(y);
    out.push('-');
    let month = padded_chars(m as u64, 2);
    crate::decimal::extend_chars(&mut out, &month);
    out.push('-');
    let day = padded_chars(d as u64, 2);
    crate::decimal::extend_chars(&mut out, &day);
    crate::text::string_from_chars(out.as_slice())
}

/// A number below a hundred has at most two digits, one below ten thousand
/// at most four.
proof fn lemma_short_numeral(n: nat)
    ensures
        n < 100 ==> nat_text(n).len() <= 2,
        n < 10000 ==> nat_text(n).len() <= 4,
{
    reveal_with_fuel(nat_text, 5);
}

/// Padding a number below `10^width` gives exactly `width` digits.
proof fn lemma_padded_width(n: nat, width: nat)
    requires
        (width == 2 && n < 100) || (width == 4 && n < 10000),
    ensures
        padded_text(n, width).len() == width,
        crate::numeral::is_numeral(padded_text(n, width)),
        crate::decimal::digits_value(padded_text(n, width)) == n,
{
    lemma_short_numeral(n);
    lemma_padded_text(n, width);
}

/// A date with a year of four digits is written under `%Y%m%d` as eight
/// digits, which read back as that date.
pub proof fn lemma_compact_text(y: int, m: int, d: int)
    requires
        0 <= y <= 9999,
        0 <= m < 100,
        0 <= d < 100,
    ensures
        compact_date_shape(compact_text(y, m, d)),
        compact_ymd(compact_text(y, m, d)) == (y, m, d),
{
    let a = padded_text(y as nat, 4);
    let b = padded_text(m as nat, 2);
    let c = padded_text(d as nat, 2);
    lemma_padded_width(y as nat, 4);
    lemma_padded_width(m as nat, 2);
    lemma_padded_width(d as nat, 2);
    let t = compact_text(y, m, d);
    assert(t == a + b + c);
    assert(t.take(4) =~= a);
    assert(t.subrange(4, 6) =~= b);
    assert(t.subrange(6, 8) =~= c);
    assert forall|i: int| 0 <= i < t.len() implies crate::decimal::is_digit(#[trigger] t[i]) by {
        if i < 4 {
            assert(t[i] == a[i]);
        } else if i < 6 {
            assert(t[i] == b[i - 4]);
        } else {
            assert(t[i] == c[i - 6]);
        }
    }
}

/// A date with a year of four digits is written under `%Y-%m-%d` as text
/// without tabs, at least ten characters long.
pub proof fn lemma_iso_text(y: int, m: int, d: int)
    requires
        0 <= y <= 9999,
    ensures
        tab_free(iso_text(y, m, d)),
        iso_text(y, m, d).len() >= 10,
{
    let a = padded_text(y as nat, 4);
    let b = padded_text(m as nat, 2);
    let c = padded_text(d as nat, 2);
    lemma_padded_width(y as nat, 4);
    lemma_padded_text(m as nat, 2);
    lemma_padded_text(d as nat, 2);
    let t = iso_text(y, m, d);
    assert(t == a + seq!['-'] + b + seq!['-'] + c);
    assert forall|i: int| 0 <= i < t.len() implies t[i] != '\t' by {
        if i < 4 {
            assert(t[i] == a[i]);
            assert(crate::decimal::is_digit(a[i]));
        } else if i == 4 {
        } else if i < 5 + b.len() {
            assert(t[i] == b[i - 5]);
            assert(crate::decimal::is_digit(b[i - 5]));
        } else if i == 5 + b.len() {
        } else {
            assert(t[i] == c[i - 6 - b.len()]);
            assert(crate::decimal::is_digit(c[i - 6 - b.len()]));
        }
    }
}

} // verus!
