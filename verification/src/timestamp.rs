//! The proleptic Gregorian calendar, and the `YYYY-MM-DD HH:MM UTC` text of a
//! number of seconds since the Unix epoch.
use vstd::prelude::*;
use crate::text::{
    decimal, four_digits, lemma_decimal_len, lemma_four_digits_lt, lemma_padded_four,
    lemma_padded_two, lemma_text_lt_within, lemma_two_digits_lt, left_zeros, padded_int,
    push_decimal, text_le, text_lt, two_digits,
};

verus! {

/// A point in wall-clock time.
#[verifier::external_type_specification]
#[verifier::external_body]
pub struct ExSystemTime(std::time::SystemTime);

/// The whole seconds from the Unix epoch to a time, as
/// `SystemTime::duration_since(UNIX_EPOCH)` and `Duration::as_secs` give
/// them; `None` for a time before the epoch.
pub uninterp spec fn since_epoch_secs(t: std::time::SystemTime) -> Option<u64>;

/// `SystemTime::duration_since(UNIX_EPOCH)` in whole seconds, `None` where
/// std reports the time to be before the epoch: the result is named
/// `since_epoch_secs` of the time, which it depends on alone.
#[verifier::external_body]
pub(crate) fn seconds_since_epoch(t: &std::time::SystemTime) -> (res: Option<u64>)
    ensures
        res == since_epoch_secs(*t),
{
    match t.duration_since(std::time::UNIX_EPOCH) {
        Ok(d) => Some(d.as_secs()),
        Err(_) => None,
    }
}

/// The seconds from the epoch by which a time is shown: a time before the
/// epoch is shown as the epoch itself.
pub open spec fn shown_secs(t: std::time::SystemTime) -> u64 {
    match since_epoch_secs(t) {
        Some(s) => s,
        None => 0,
    }
}

pub open spec fn is_leap_year(y: int) -> bool {
    y % 4 == 0 && (y % 100 != 0 || y % 400 == 0)
}

pub open spec fn days_in_year(y: int) -> nat {
    if is_leap_year(y) {
        366
    } else {
        365
    }
}

/// The number of days in month `m` (0 for January) of year `y`.
pub open spec fn days_in_month(y: int, m: nat) -> nat {
    if m == 1 {
        if is_leap_year(y) {
            29
        } else {
            28
        }
    } else if m == 3 || m == 5 || m == 8 || m == 10 {
        30
    } else {
        31
    }
}

/// Walks whole years forward from year `y`, day `d` of that year (0 for the
/// first day): the year that the day falls in and its day within that year.
pub open spec fn year_and_day(y: int, d: nat) -> (int, nat)
    decreases d,
{
    if d < days_in_year(y) {
        (y, d)
    } else {
        year_and_day(y + 1, (d - days_in_year(y)) as nat)
    }
}

/// Walks whole months forward from month `m` (0 for January), day `d` of
/// that month: the month that the day falls in and its day within the month.
/// December takes whatever remains.
pub open spec fn month_and_day(y: int, m: nat, d: nat) -> (nat, nat)
    decreases 12 - m,
{
    if m >= 11 || d < days_in_month(y, m) {
        (m, d)
    } else {
        month_and_day(y, m + 1, (d - days_in_month(y, m)) as nat)
    }
}

/// The value of a `u64` read as an `i64` (two's complement).
pub open spec fn as_signed(secs: u64) -> int {
    if secs <= i64::MAX {
        secs as int
    } else {
        secs - 0x1_0000_0000_0000_0000
    }
}

/// Division rounding toward zero, as Rust's `/` on signed integers.
pub open spec fn trunc_div(a: int, b: int) -> int {
    if a >= 0 {
        a / b
    } else {
        -((-a) / b)
    }
}

/// The remainder that goes with `trunc_div`, as Rust's `%` on signed integers.
pub open spec fn trunc_rem(a: int, b: int) -> int {
    a - b * trunc_div(a, b)
}

/// Calendar date `(year, month, day)` of a day count since 1970-01-01, with
/// month and day counted from 0.  A negative day count stays in January 1970.
pub open spec fn civil_date(days: int) -> (int, int, int) {
    if days >= 0 {
        let (y, d) = year_and_day(1970, days as nat);
        let (m, dd) = month_and_day(y, 0, d);
        (y, m as int, dd as int)
    } else {
        (1970, 0, days)
    }
}

/// The text `YYYY-MM-DD HH:MM UTC` for `secs` seconds since the Unix epoch,
/// computed on the seconds taken as an `i64`.
pub open spec fn epoch_text(secs: u64) -> Seq<char> {
    let s = as_signed(secs);
    let days = trunc_div(s, 86400);
    let rem = trunc_rem(s, 86400);
    let hours = trunc_div(rem, 3600);
    let minutes = trunc_div(trunc_rem(rem, 3600), 60);
    let (y, m, d) = civil_date(days);
    padded_int(y, 4) + seq!['-'] + padded_int(m + 1, 2) + seq!['-'] + padded_int(d + 1, 2)
        + seq![' '] + padded_int(hours, 2) + seq![':'] + padded_int(minutes, 2) + " UTC"@
}

fn leap(y: u64) -> (res: bool)
    ensures
        res == is_leap_year(y as int),
{
    y % 4 == 0 && (y % 100 != 0 || y % 400 == 0)
}

fn year_length(y: u64) -> (res: u64)
    ensures
        res == days_in_year(y as int),
{
    if leap(y) {
        366
    } else {
        365
    }
}

fn month_length(y: u64, m: u64) -> (res: u64)
    ensures
        res == days_in_month(y as int, m as nat),
{
    if m == 1 {
        if leap(y) {
            29
        } else {
            28
        }
    } else if m == 3 || m == 5 || m == 8 || m == 10 {
        30
    } else {
        31
    }
}

/// The number of digits of `n`.
fn decimal_len(n: u64) -> (res: usize)
    ensures
        res == decimal(n as nat).len(),
    decreases n,
{
    proof {
        crate::text::lemma_decimal_len_u64(n);
    }
    if n < 10 {
        1
    } else {
        let k = decimal_len(n / 10);
        proof {
            assert(decimal(n as nat) == decimal((n / 10) as nat).push(crate::text::digit_char((n % 10) as nat)));
        }
        k + 1
    }
}

/// Appends `v` as `{:0width$}` writes it, where `v` is `-mag` when
/// `negative` holds and `mag` otherwise.
pub fn push_padded(out: &mut String, negative: bool, mag: u64, width: usize)
    ensures
        final(out)@ == old(out)@ + padded_int(
            if negative { -(mag as int) } else { mag as int },
            width as nat,
        ),
{
    let ghost start = out@;
    let neg = negative && mag > 0;
    let mut w = width;
    if neg {
        out.push('-');
        w = if width >= 1 { width - 1 } else { 0 };
    }
    let ghost signed = out@;
    let len = decimal_len(mag);
    let mut k: usize = 0;
    let fill: usize = if w > len { w - len } else { 0 };
    while k < fill
        invariant
            k <= fill,
            out@ == signed + Seq::new(k as nat, |i: int| '0'),
        decreases fill - k,
    {
        out.push('0');
        k = k + 1;
        assert(out@ =~= signed + Seq::new(k as nat, |i: int| '0'));
    }
    push_decimal(out, mag);
    proof {
        let v = if negative { -(mag as int) } else { mag as int };
        if neg {
            assert(v < 0);
            assert((-v) as nat == mag as nat);
            assert(out@ =~= start + padded_int(v, width as nat));
        } else {
            assert(v >= 0 && v as nat == mag as nat);
            assert(out@ =~= start + padded_int(v, width as nat));
        }
    }
}

/// The `YYYY-MM-DD HH:MM UTC` text of `secs` seconds since the Unix epoch.
#[verifier::rlimit(40)]
pub fn format_epoch_seconds(secs: u64) -> (res: String)
    ensures
        res@ == epoch_text(secs),
{
    let mut out = String::new();
    if secs <= 0x7fff_ffff_ffff_ffff {
        let days = secs / 86400;
        let rem = secs % 86400;
        let hours = rem / 3600;
        let minutes = (rem % 3600) / 60;
        let mut y: u64 = 1970;
        let mut d: u64 = days;
        while d >= year_length(y)
            invariant
                days == secs / 86400,
                secs <= 0x7fff_ffff_ffff_ffff,
                d <= days,
                y <= 1970 + (days - d),
                year_and_day(1970, days as nat) == year_and_day(y as int, d as nat),
            decreases d,
        {
            let yl = year_length(y);
            d = d - yl;
            y = y + 1;
        }
        let ghost d_year = d;
        let mut m: u64 = 0;
        while m < 11 && d >= month_length(y, m)
            invariant
                m <= 11,
                d <= days,
                days == secs / 86400,
                month_and_day(y as int, 0, d_year as nat) == month_and_day(y as int, m as nat, d as nat),
            decreases 11 - m,
        {
            let ml = month_length(y, m);
            d = d - ml;
            m = m + 1;
        }
        push_padded(&mut out, false, y, 4);
        out.push('-');
        push_padded(&mut out, false, m + 1, 2);
        out.push('-');
        push_padded(&mut out, false, d + 1, 2);
        out.push(' ');
        push_padded(&mut out, false, hours, 2);
        out.push(':');
        push_padded(&mut out, false, minutes, 2);
        out.push_str(" UTC");
        proof {
            let s = as_signed(secs);
            assert(s == secs as int);
            assert(trunc_div(s, 86400) == days as int);
            assert(trunc_rem(s, 86400) == rem as int);
            assert(trunc_div(rem as int, 3600) == hours as int);
            assert(trunc_rem(rem as int, 3600) == (rem % 3600) as int);
            assert(trunc_div((rem % 3600) as int, 60) == minutes as int);
            assert(civil_date(days as int) == (y as int, m as int, d as int));
            assert(out@ =~= epoch_text(secs));
        }
    } else {
        let a: u64 = (0xffff_ffff_ffff_ffff - secs) + 1;
        let q = a / 86400;
        let r = a % 86400;
        out.push_str("1970");
        out.push('-');
        push_padded(&mut out, false, 1, 2);
        out.push('-');
        if q == 0 {
            push_padded(&mut out, false, 1, 2);
        } else {
            push_padded(&mut out, true, q - 1, 2);
        }
        out.push(' ');
        push_padded(&mut out, true, r / 3600, 2);
        out.push(':');
        push_padded(&mut out, true, (r % 3600) / 60, 2);
        out.push_str(" UTC");
        proof {
            let s = as_signed(secs);
            assert(s == -(a as int));
            assert(trunc_div(s, 86400) == -(q as int));
            assert(trunc_rem(s, 86400) == -(r as int));
            assert(trunc_div(-(r as int), 3600) == -((r / 3600) as int));
            assert(trunc_rem(-(r as int), 3600) == -((r % 3600) as int));
            assert(trunc_div(-((r % 3600) as int), 60) == -(((r % 3600) / 60) as int));
            reveal_strlit("1970");
            lemma_decimal_len(1970);
            assert(decimal(1970) =~= "1970"@) by {
                assert(decimal(197) == decimal(19).push('7'));
            }
            assert(padded_int(1970, 4) =~= "1970"@);
            assert(out@ =~= epoch_text(secs));
        }
    }
    out
}


/// The number of days from the start of month `m` to the end of the year.
pub open spec fn days_from_month(y: int, m: nat) -> nat
    decreases 12 - m,
{
    if m >= 12 {
        0
    } else {
        days_in_month(y, m) + days_from_month(y, m + 1)
    }
}

proof fn lemma_year_is_its_months(y: int)
    ensures
        days_from_month(y, 0) == days_in_year(y),
{
    reveal_with_fuel(days_from_month, 13);
}

proof fn lemma_month_walk(y: int, m: nat, d: nat)
    requires
        m <= 11,
        d < days_from_month(y, m),
    ensures
        m <= month_and_day(y, m, d).0 <= 11,
        month_and_day(y, m, d).1 < days_in_month(y, month_and_day(y, m, d).0),
    decreases 12 - m,
{
    if m == 11 {
        assert(days_from_month(y, 12) == 0);
    } else if d >= days_in_month(y, m) {
        lemma_month_walk(y, m + 1, (d - days_in_month(y, m)) as nat);
    }
}

proof fn lemma_year_walk(y: int, d: nat)
    ensures
        year_and_day(y, d).0 >= y,
        year_and_day(y, d).1 < days_in_year(year_and_day(y, d).0),
    decreases d,
{
    if d >= days_in_year(y) {
        lemma_year_walk(y + 1, (d - days_in_year(y)) as nat);
    }
}

/// A day count from 1970 falls on a real date: a year from 1970 on, a month
/// of the twelve, and a day within that month.
pub proof fn lemma_civil_date_valid(days: nat)
    ensures
        civil_date(days as int).0 >= 1970,
        0 <= civil_date(days as int).1 <= 11,
        0 <= civil_date(days as int).2 < days_in_month(
            civil_date(days as int).0,
            civil_date(days as int).1 as nat,
        ),
{
    let (y, d) = year_and_day(1970, days);
    lemma_year_walk(1970, days);
    lemma_year_is_its_months(y);
    lemma_month_walk(y, 0, d);
}

/// For a time not before the epoch (and within `i64`), the text shows a real
/// date, an hour below 24 and a minute below 60.
pub proof fn lemma_epoch_text_fields(secs: u64)
    requires
        secs <= i64::MAX,
    ensures
        ({
            let s = as_signed(secs);
            let rem = trunc_rem(s, 86400);
            let (y, m, d) = civil_date(trunc_div(s, 86400));
            &&& y >= 1970
            &&& 1 <= m + 1 <= 12
            &&& 1 <= d + 1 <= days_in_month(y, m as nat)
            &&& 0 <= trunc_div(rem, 3600) < 24
            &&& 0 <= trunc_div(trunc_rem(rem, 3600), 60) < 60
        }),
{
    let s = as_signed(secs);
    assert(s == secs as int);
    lemma_civil_date_valid((s / 86400) as nat);
}


/// For a time from the epoch, the day, hour and minute shown depend on the
/// whole minutes since the epoch alone.
proof fn lemma_fields_by_minute(s: int)
    requires
        s >= 0,
    ensures
        s / 86400 == (s / 60) / 1440,
        (s % 86400) / 3600 == ((s / 60) % 1440) / 60,
        ((s % 86400) % 3600) / 60 == (s / 60) % 60,
{
    assert(s / 86400 == (s / 60) / 1440) by (nonlinear_arith)
        requires
            s >= 0,
    {
        vstd::arithmetic::div_mod::lemma_div_denominator(s, 60, 1440);
    }
    assert((s % 86400) / 3600 == ((s / 60) % 1440) / 60) by (nonlinear_arith)
        requires
            s >= 0,
    {
        vstd::arithmetic::div_mod::lemma_breakdown(s, 60, 1440);
        vstd::arithmetic::div_mod::lemma_div_denominator(s % 86400, 60, 60);
    }
    assert(((s % 86400) % 3600) / 60 == (s / 60) % 60) by (nonlinear_arith)
        requires
            s >= 0,
    {
        vstd::arithmetic::div_mod::lemma_breakdown(s, 60, 1440);
    }
}

/// Two times from the epoch in the same UTC minute show the same text.
pub proof fn lemma_same_minute_same_text(s1: u64, s2: u64)
    requires
        s1 <= i64::MAX,
        s2 <= i64::MAX,
        s1 / 60 == s2 / 60,
    ensures
        epoch_text(s1) == epoch_text(s2),
{
    lemma_fields_by_minute(s1 as int);
    lemma_fields_by_minute(s2 as int);
    assert(as_signed(s1) == s1 as int);
    assert(as_signed(s2) == s2 as int);
}


/// The days from 1970-01-01 to the first day of year `y`.
pub open spec fn days_before_year(y: int) -> int
    decreases y - 1970,
{
    if y <= 1970 {
        0
    } else {
        days_before_year(y - 1) + days_in_year(y - 1)
    }
}

/// The days from the first of the year to the first day of month `m`.
pub open spec fn days_before_month(y: int, m: nat) -> int
    decreases m,
{
    if m == 0 {
        0
    } else {
        days_before_month(y, (m - 1) as nat) + days_in_month(y, (m - 1) as nat)
    }
}

proof fn lemma_year_walk_count(y0: int, d: nat)
    requires
        y0 >= 1970,
    ensures
        year_and_day(y0, d).0 >= y0,
        days_before_year(y0) + d == days_before_year(year_and_day(y0, d).0) + year_and_day(y0, d).1,
    decreases d,
{
    if d >= days_in_year(y0) {
        lemma_year_walk_count(y0 + 1, (d - days_in_year(y0)) as nat);
    }
}

proof fn lemma_month_walk_count(y: int, m0: nat, d: nat)
    requires
        m0 <= 11,
    ensures
        m0 <= month_and_day(y, m0, d).0 <= 11,
        days_before_month(y, m0) + d == days_before_month(y, month_and_day(y, m0, d).0) + month_and_day(
            y,
            m0,
            d,
        ).1,
    decreases 12 - m0,
{
    if !(m0 >= 11 || d < days_in_month(y, m0)) {
        lemma_month_walk_count(y, m0 + 1, (d - days_in_month(y, m0)) as nat);
    }
}

proof fn lemma_days_before_year_grows(a: int, b: int)
    requires
        1970 <= a <= b,
    ensures
        days_before_year(a) + (b - a) * 365 <= days_before_year(b),
    decreases b - a,
{
    if a < b {
        lemma_days_before_year_grows(a, b - 1);
    }
}

proof fn lemma_days_before_month_grows(y: int, a: nat, b: nat)
    requires
        a <= b,
    ensures
        days_before_month(y, a) + (b - a) * 28 <= days_before_month(y, b),
    decreases b - a,
{
    if a < b {
        lemma_days_before_month_grows(y, a, (b - 1) as nat);
    }
}

/// The date of a day count, its year's and month's offsets, and its bounds.
proof fn lemma_civil_date_count(days: nat)
    ensures
        ({
            let (y, m, d) = civil_date(days as int);
            &&& y >= 1970
            &&& 0 <= m <= 11
            &&& 0 <= d
            &&& days == days_before_year(y) + days_before_month(y, m as nat) + d
            &&& days_before_month(y, m as nat) + d < days_in_year(y)
            &&& d < days_in_month(y, m as nat)
        }),
{
    let (y, r) = year_and_day(1970, days);
    lemma_year_walk_count(1970, days);
    lemma_year_walk(1970, days);
    lemma_month_walk_count(y, 0, r);
    lemma_civil_date_valid(days);
}

/// Lexicographic order of dates.
pub open spec fn date_lt(a: (int, int, int), b: (int, int, int)) -> bool {
    a.0 < b.0 || (a.0 == b.0 && (a.1 < b.1 || (a.1 == b.1 && a.2 < b.2)))
}

/// A later day count falls on a later date.
#[verifier::rlimit(40)]
pub proof fn lemma_civil_date_grows(d1: nat, d2: nat)
    requires
        d1 < d2,
    ensures
        date_lt(civil_date(d1 as int), civil_date(d2 as int)),
{
    lemma_civil_date_count(d1);
    lemma_civil_date_count(d2);
    let (y1, m1, e1) = civil_date(d1 as int);
    let (y2, m2, e2) = civil_date(d2 as int);
    if y1 > y2 {
        lemma_days_before_year_grows(y2 + 1, y1);
        assert(days_before_year(y2 + 1) == days_before_year(y2) + days_in_year(y2));
        lemma_days_before_month_grows(y1, 0, m1 as nat);
        assert(d2 < days_before_year(y2 + 1));
        assert(days_before_year(y1) <= d1);
        assert(false);
    } else if y1 == y2 && m1 > m2 {
        lemma_days_before_month_grows(y1, (m2 + 1) as nat, m1 as nat);
        assert(days_before_month(y1, (m2 + 1) as nat) == days_before_month(y1, m2 as nat)
            + days_in_month(y1, m2 as nat));
        assert(false);
    } else if y1 == y2 && m1 == m2 {
        assert(e1 < e2);
    }
}


/// The leap years in `1..=x`, counted by the Gregorian rule.
pub open spec fn leaps_through(x: int) -> int {
    x / 4 - x / 100 + x / 400
}

proof fn lemma_leap_step(y: int)
    requires
        y >= 1,
    ensures
        leaps_through(y) - leaps_through(y - 1) == if is_leap_year(y) { 1int } else { 0int },
{
    assert(y / 4 - (y - 1) / 4 == if y % 4 == 0 { 1int } else { 0int }) by (nonlinear_arith)
        requires
            y >= 1,
    ;
    assert(y / 100 - (y - 1) / 100 == if y % 100 == 0 { 1int } else { 0int }) by (nonlinear_arith)
        requires
            y >= 1,
    ;
    assert(y / 400 - (y - 1) / 400 == if y % 400 == 0 { 1int } else { 0int }) by (nonlinear_arith)
        requires
            y >= 1,
    ;
    assert(y % 100 == 0 ==> y % 4 == 0) by (nonlinear_arith);
    assert(y % 400 == 0 ==> y % 100 == 0) by (nonlinear_arith);
}

/// The days before a year, in closed form.
proof fn lemma_days_before_year_closed(y: int)
    requires
        y >= 1970,
    ensures
        days_before_year(y) == 365 * (y - 1970) + leaps_through(y - 1) - leaps_through(1969),
    decreases y - 1970,
{
    if y > 1970 {
        lemma_days_before_year_closed(y - 1);
        lemma_leap_step(y - 1);
    }
}

/// Day 2932897 after the epoch is the first day of year 10000, so every
/// earlier day falls in a year of four digits.
proof fn lemma_four_digit_years(days: nat)
    requires
        days < 2932897,
    ensures
        1970 <= civil_date(days as int).0 <= 9999,
{
    lemma_days_before_year_closed(10000);
    assert(days_before_year(10000) == 2932897);
    lemma_civil_date_count(days);
    let y = civil_date(days as int).0;
    if y >= 10000 {
        lemma_days_before_year_grows(10000, y);
        lemma_days_before_month_grows(y, 0, civil_date(days as int).1 as nat);
    }
}


/// The text of a time whose fields all have fixed widths.
pub open spec fn stamp(y: nat, mo: nat, d: nat, h: nat, mi: nat) -> Seq<char> {
    four_digits(y) + seq!['-'] + two_digits(mo) + seq!['-'] + two_digits(d) + seq![' '] + two_digits(
        h,
    ) + seq![':'] + two_digits(mi) + " UTC"@
}

/// Lexicographic order of (year, month, day, hour, minute).
pub open spec fn fields_lt(a: (nat, nat, nat, nat, nat), b: (nat, nat, nat, nat, nat)) -> bool {
    a.0 < b.0 || (a.0 == b.0 && (a.1 < b.1 || (a.1 == b.1 && (a.2 < b.2 || (a.2 == b.2 && (a.3
        < b.3 || (a.3 == b.3 && a.4 < b.4)))))))
}

pub open spec fn fields_in_range(a: (nat, nat, nat, nat, nat)) -> bool {
    1000 <= a.0 < 10000 && a.1 < 100 && a.2 < 100 && a.3 < 100 && a.4 < 100
}

#[verifier::rlimit(40)]
proof fn lemma_stamp_lt_year(a: (nat, nat, nat, nat, nat), b: (nat, nat, nat, nat, nat))
    requires
        fields_in_range(a),
        fields_in_range(b),
        a.0 < b.0,
    ensures
        text_lt(stamp(a.0, a.1, a.2, a.3, a.4), stamp(b.0, b.1, b.2, b.3, b.4)),
{
    let u = " UTC"@;
    let e: Seq<char> = Seq::empty();
    lemma_four_digits_lt(a.0, b.0);
    let pa = seq!['-'] + two_digits(a.1) + seq!['-'] + two_digits(a.2) + seq![' '] + two_digits(a.3) + seq![':'] + two_digits(a.4) + u;
    let pb = seq!['-'] + two_digits(b.1) + seq!['-'] + two_digits(b.2) + seq![' '] + two_digits(b.3) + seq![':'] + two_digits(b.4) + u;
    lemma_text_lt_within(e, four_digits(a.0), four_digits(b.0), pa, pb);
    assert(stamp(a.0, a.1, a.2, a.3, a.4) =~= e + four_digits(a.0) + pa);
    assert(stamp(b.0, b.1, b.2, b.3, b.4) =~= e + four_digits(b.0) + pb);
}

#[verifier::rlimit(40)]
proof fn lemma_stamp_lt_month(a: (nat, nat, nat, nat, nat), b: (nat, nat, nat, nat, nat))
    requires
        fields_in_range(a),
        fields_in_range(b),
        a.0 == b.0,
        a.1 < b.1,
    ensures
        text_lt(stamp(a.0, a.1, a.2, a.3, a.4), stamp(b.0, b.1, b.2, b.3, b.4)),
{
    let u = " UTC"@;
    lemma_two_digits_lt(a.1, b.1);
    let pre = four_digits(a.0) + seq!['-'];
    let pa = seq!['-'] + two_digits(a.2) + seq![' '] + two_digits(a.3) + seq![':'] + two_digits(a.4) + u;
    let pb = seq!['-'] + two_digits(b.2) + seq![' '] + two_digits(b.3) + seq![':'] + two_digits(b.4) + u;
    lemma_text_lt_within(pre, two_digits(a.1), two_digits(b.1), pa, pb);
    assert(stamp(a.0, a.1, a.2, a.3, a.4) =~= pre + two_digits(a.1) + pa);
    assert(stamp(b.0, b.1, b.2, b.3, b.4) =~= pre + two_digits(b.1) + pb);
}

#[verifier::rlimit(40)]
proof fn lemma_stamp_lt_day(a: (nat, nat, nat, nat, nat), b: (nat, nat, nat, nat, nat))
    requires
        fields_in_range(a),
        fields_in_range(b),
        a.0 == b.0,
        a.1 == b.1,
        a.2 < b.2,
    ensures
        text_lt(stamp(a.0, a.1, a.2, a.3, a.4), stamp(b.0, b.1, b.2, b.3, b.4)),
{
    let u = " UTC"@;
    lemma_two_digits_lt(a.2, b.2);
    let pre = four_digits(a.0) + seq!['-'] + two_digits(a.1) + seq!['-'];
    let pa = seq![' '] + two_digits(a.3) + seq![':'] + two_digits(a.4) + u;
    let pb = seq![' '] + two_digits(b.3) + seq![':'] + two_digits(b.4) + u;
    lemma_text_lt_within(pre, two_digits(a.2), two_digits(b.2), pa, pb);
    assert(stamp(a.0, a.1, a.2, a.3, a.4) =~= pre + two_digits(a.2) + pa);
    assert(stamp(b.0, b.1, b.2, b.3, b.4) =~= pre + two_digits(b.2) + pb);
}

#[verifier::rlimit(40)]
proof fn lemma_stamp_lt_hour(a: (nat, nat, nat, nat, nat), b: (nat, nat, nat, nat, nat))
    requires
        fields_in_range(a),
        fields_in_range(b),
        a.0 == b.0,
        a.1 == b.1,
        a.2 == b.2,
        a.3 < b.3,
    ensures
        text_lt(stamp(a.0, a.1, a.2, a.3, a.4), stamp(b.0, b.1, b.2, b.3, b.4)),
{
    let u = " UTC"@;
    lemma_two_digits_lt(a.3, b.3);
    let pre = four_digits(a.0) + seq!['-'] + two_digits(a.1) + seq!['-'] + two_digits(a.2) + seq![' '];
    let pa = seq![':'] + two_digits(a.4) + u;
    let pb = seq![':'] + two_digits(b.4) + u;
    lemma_text_lt_within(pre, two_digits(a.3), two_digits(b.3), pa, pb);
    assert(stamp(a.0, a.1, a.2, a.3, a.4) =~= pre + two_digits(a.3) + pa);
    assert(stamp(b.0, b.1, b.2, b.3, b.4) =~= pre + two_digits(b.3) + pb);
}

#[verifier::rlimit(40)]
proof fn lemma_stamp_lt_minute(a: (nat, nat, nat, nat, nat), b: (nat, nat, nat, nat, nat))
    requires
        fields_in_range(a),
        fields_in_range(b),
        a.0 == b.0,
        a.1 == b.1,
        a.2 == b.2,
        a.3 == b.3,
        a.4 < b.4,
    ensures
        text_lt(stamp(a.0, a.1, a.2, a.3, a.4), stamp(b.0, b.1, b.2, b.3, b.4)),
{
    let u = " UTC"@;
    lemma_two_digits_lt(a.4, b.4);
    let pre = four_digits(a.0) + seq!['-'] + two_digits(a.1) + seq!['-'] + two_digits(a.2) + seq![' '] + two_digits(a.3) + seq![':'];
    lemma_text_lt_within(pre, two_digits(a.4), two_digits(b.4), u, u);
    assert(stamp(a.0, a.1, a.2, a.3, a.4) =~= pre + two_digits(a.4) + u);
    assert(stamp(b.0, b.1, b.2, b.3, b.4) =~= pre + two_digits(b.4) + u);
}

/// Fields in lexicographic order give texts in the order of strings.
proof fn lemma_stamp_lt(a: (nat, nat, nat, nat, nat), b: (nat, nat, nat, nat, nat))
    requires
        fields_in_range(a),
        fields_in_range(b),
        fields_lt(a, b),
    ensures
        text_lt(stamp(a.0, a.1, a.2, a.3, a.4), stamp(b.0, b.1, b.2, b.3, b.4)),
{
    if a.0 < b.0 {
        lemma_stamp_lt_year(a, b);
    } else if a.1 < b.1 {
        lemma_stamp_lt_month(a, b);
    } else if a.2 < b.2 {
        lemma_stamp_lt_day(a, b);
    } else if a.3 < b.3 {
        lemma_stamp_lt_hour(a, b);
    } else {
        lemma_stamp_lt_minute(a, b);
    }
}

/// The fields shown for a time before year 10000.
pub open spec fn shown_fields(secs: u64) -> (nat, nat, nat, nat, nat) {
    let (y, m, d) = civil_date((secs / 86400) as int);
    (y as nat, (m + 1) as nat, (d + 1) as nat, ((secs % 86400) / 3600) as nat, (((secs % 86400)
        % 3600) / 60) as nat)
}

#[verifier::rlimit(40)]
proof fn lemma_epoch_text_is_stamp(secs: u64)
    requires
        secs < 253402300800,
    ensures
        fields_in_range(shown_fields(secs)),
        ({
            let f = shown_fields(secs);
            epoch_text(secs) == stamp(f.0, f.1, f.2, f.3, f.4)
        }),
{
    let days = secs / 86400;
    lemma_four_digit_years(days as nat);
    lemma_civil_date_count(days as nat);
    let (y, m, d) = civil_date(days as int);
    let f = shown_fields(secs);
    assert(as_signed(secs) == secs as int);
    assert(days_in_month(y, m as nat) <= 31);
    lemma_padded_four(f.0);
    lemma_padded_two(f.1);
    lemma_padded_two(f.2);
    lemma_padded_two(f.3);
    lemma_padded_two(f.4);
    assert(epoch_text(secs) =~= stamp(f.0, f.1, f.2, f.3, f.4));
}

/// Before year 10000, the text of a time never comes before the text of an
/// earlier time in the order of strings; two times in the same minute show
/// the same text, and times in different minutes different texts.
#[verifier::rlimit(40)]
pub proof fn lemma_text_follows_time(s1: u64, s2: u64)
    requires
        s1 <= s2 < 253402300800,
    ensures
        text_le(epoch_text(s1), epoch_text(s2)),
        s1 / 60 == s2 / 60 ==> epoch_text(s1) == epoch_text(s2),
        s1 / 60 != s2 / 60 ==> text_lt(epoch_text(s1), epoch_text(s2)),
{
    if s1 / 60 == s2 / 60 {
        lemma_same_minute_same_text(s1, s2);
    } else {
        lemma_fields_by_minute(s1 as int);
        lemma_fields_by_minute(s2 as int);
        lemma_epoch_text_is_stamp(s1);
        lemma_epoch_text_is_stamp(s2);
        let m1 = s1 / 60;
        let m2 = s2 / 60;
        assert(m1 < m2);
        let f1 = shown_fields(s1);
        let f2 = shown_fields(s2);
        lemma_civil_date_count((s1 / 86400) as nat);
        lemma_civil_date_count((s2 / 86400) as nat);
        if m1 / 1440 < m2 / 1440 {
            assert(s1 / 86400 < s2 / 86400);
            lemma_civil_date_grows((s1 / 86400) as nat, (s2 / 86400) as nat);
            let c1 = civil_date((s1 / 86400) as int);
            let c2 = civil_date((s2 / 86400) as int);
            assert(date_lt(c1, c2));
            assert(f1.0 == c1.0 && f2.0 == c2.0);
            assert(f1.1 == c1.1 + 1 && f2.1 == c2.1 + 1);
            assert(f1.2 == c1.2 + 1 && f2.2 == c2.2 + 1);
        } else {
            assert(s1 / 86400 == s2 / 86400);
            assert(m1 / 1440 == m2 / 1440);
            assert(m1 % 1440 < m2 % 1440);
            let r1 = m1 % 1440;
            let r2 = m2 % 1440;
            assert(r1 / 60 < r2 / 60 || (r1 / 60 == r2 / 60 && r1 % 60 < r2 % 60)) by (nonlinear_arith)
                requires
                    r1 < r2,
            ;
        }
        assert(fields_lt(f1, f2));
        lemma_stamp_lt(f1, f2);
    }
}


/// The days from 1970-01-01 to the Gregorian date `y`-`m`-`d` (month and
/// day counted from 1), in closed form: the year is counted from 1 March,
/// so that a leap day ends it, and `(153 * mp + 2) / 5` is the number of
/// days in the `mp` months from March on that come before the date's month.
pub open spec fn days_from_civil(y: int, m: int, d: int) -> int {
    let ym = if m <= 2 {
        y - 1
    } else {
        y
    };
    let mp = if m > 2 {
        m - 3
    } else {
        m + 9
    };
    365 * ym + ym / 4 - ym / 100 + ym / 400 + (153 * mp + 2) / 5 + d - 1 - 719468
}

/// The number of days in month `m` (from 1) of year `y` on the Gregorian
/// calendar.
pub open spec fn gregorian_month_days(y: int, m: int) -> int {
    if m == 2 {
        if is_leap_year(y) {
            29
        } else {
            28
        }
    } else if m == 4 || m == 6 || m == 9 || m == 11 {
        30
    } else {
        31
    }
}

/// The closed form counts the days of the years and months before a date.
proof fn lemma_days_from_civil_counts(y: int, m: int, d: int)
    requires
        y >= 1970,
        1 <= m <= 12,
    ensures
        days_from_civil(y, m, d) == days_before_year(y) + days_before_month(y, (m - 1) as nat) + d - 1,
{
    lemma_days_before_year_closed(y);
    lemma_leap_step(y);
    assert(leaps_through(1969) == 477);
    reveal_with_fuel(days_before_month, 13);
    let leap: int = if is_leap_year(y) { 1 } else { 0 };
    assert(days_in_month(y, 1) == 28 + leap);
    if m == 1 {
        assert(days_before_month(y, 0) == 0);
    } else if m == 2 {
        assert(days_before_month(y, 1) == 31);
    } else if m == 3 {
        assert(days_before_month(y, 2) == 59 + leap);
    } else if m == 4 {
        assert(days_before_month(y, 3) == 90 + leap);
    } else if m == 5 {
        assert(days_before_month(y, 4) == 120 + leap);
    } else if m == 6 {
        assert(days_before_month(y, 5) == 151 + leap);
    } else if m == 7 {
        assert(days_before_month(y, 6) == 181 + leap);
    } else if m == 8 {
        assert(days_before_month(y, 7) == 212 + leap);
    } else if m == 9 {
        assert(days_before_month(y, 8) == 243 + leap);
    } else if m == 10 {
        assert(days_before_month(y, 9) == 273 + leap);
    } else if m == 11 {
        assert(days_before_month(y, 10) == 304 + leap);
    } else {
        assert(days_before_month(y, 11) == 334 + leap);
    }
}

/// Every time from the epoch is shown on its Gregorian date.  The text is
/// year, month, day, hour and minute; the month is one of the twelve and
/// the day is from 1; the closed-form day count of that date is the whole
/// days since the epoch, and it comes before the first of the next month,
/// so the day never passes the length of its month (31; 28, or 29 in a leap
/// year; 31, 30, 31, 30, 31, 31, 30, 31, 30, 31); the hour and minute are
/// those of the seconds left over.
pub proof fn lemma_shown_date_is_gregorian(secs: u64)
    requires
        secs <= i64::MAX,
    ensures
        ({
            let days = (secs / 86400) as int;
            let (y, m0, d0) = civil_date(days);
            let mo = m0 + 1;
            let d = d0 + 1;
            let h = ((secs % 86400) / 3600) as int;
            let mi = ((secs % 3600) / 60) as int;
            &&& epoch_text(secs) == padded_int(y, 4) + seq!['-'] + padded_int(mo, 2) + seq!['-']
                + padded_int(d, 2) + seq![' '] + padded_int(h, 2) + seq![':'] + padded_int(mi, 2)
                + " UTC"@
            &&& 1 <= mo <= 12
            &&& 1 <= d <= gregorian_month_days(y, mo)
            &&& days_from_civil(y, mo, d) == days
            &&& days < if mo == 12 {
                days_from_civil(y + 1, 1, 1)
            } else {
                days_from_civil(y, mo + 1, 1)
            }
        }),
{
    let days = (secs / 86400) as int;
    let s = as_signed(secs);
    assert(s == secs as int);
    assert((secs % 86400) % 3600 == secs % 3600) by (nonlinear_arith)
        requires
            secs >= 0,
    {
        vstd::arithmetic::div_mod::lemma_mod_mod(secs as int, 3600, 24);
    }
    lemma_civil_date_count(days as nat);
    let (y, m0, d0) = civil_date(days);
    let mo = m0 + 1;
    lemma_days_from_civil_counts(y, mo, d0 + 1);
    assert(days_in_month(y, m0 as nat) == gregorian_month_days(y, mo));
    if mo == 12 {
        lemma_days_from_civil_counts(y + 1, 1, 1);
        assert(days_before_year(y + 1) == days_before_year(y) + days_in_year(y));
    } else {
        lemma_days_from_civil_counts(y, mo + 1, 1);
        assert(days_before_month(y, (m0 + 1) as nat) == days_before_month(y, m0 as nat)
            + days_in_month(y, m0 as nat));
    }
}
} // verus!
