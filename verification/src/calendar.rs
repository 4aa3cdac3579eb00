//! Calendar dates, day numbers and local clock readings.

use vstd::prelude::*;
use vstd::string::*;
use chrono::{Datelike, Local, NaiveDate, TimeZone, Timelike};

use crate::ordered;
use crate::text;

verus! {

/// A calendar date.
#[derive(Debug, Clone, Copy)]
pub struct Date {
    pub year: i32,
    pub month: u32,
    pub day: u32,
}

/// What a wall clock shows, with its offset from UTC in seconds.
#[derive(Debug, Clone, Copy)]
pub struct LocalTime {
    pub date: Date,
    pub hour: u32,
    pub minute: u32,
    pub second: u32,
    pub offset: i32,
}

/// Seconds of a day.
pub const DAY_SECS: i64 = 86400;

/// Day number of 1970-01-01.
pub const EPOCH_DAY: i64 = 719163;

/// The years that dates are kept for.
pub const MIN_YEAR: i32 = -262143;

pub const MAX_YEAR: i32 = 262142;

/// Leap years of the Gregorian calendar.
pub open spec fn is_leap(year: int) -> bool {
    year % 4 == 0 && (year % 100 != 0 || year % 400 == 0)
}

/// Days of a month.
pub open spec fn month_len(year: int, month: int) -> int {
    if month == 2 {
        if is_leap(year) {
            29
        } else {
            28
        }
    } else if month == 4 || month == 6 || month == 9 || month == 11 {
        30
    } else {
        31
    }
}

/// Days of the year before the first of `month`.
pub open spec fn days_before_month(year: int, month: int) -> int
    decreases month,
{
    if month <= 1 {
        0
    } else {
        days_before_month(year, month - 1) + month_len(year, month - 1)
    }
}

/// The date stands in the calendar.
pub open spec fn is_date(d: Date) -> bool {
    1 <= d.month <= 12 && 1 <= d.day <= month_len(d.year as int, d.month as int)
}

/// Days since the day before 0001-01-01, in the Gregorian calendar.
pub open spec fn day_number(d: Date) -> int {
    let y = d.year - 1;
    365 * y + y / 4 - y / 100 + y / 400 + days_before_month(d.year as int, d.month as int) + d.day
}

/// A date of the calendar whose year is kept.
pub open spec fn is_kept(d: Date) -> bool {
    is_date(d) && MIN_YEAR <= d.year <= MAX_YEAR
}

/// The first and the last kept day.
pub open spec fn first_day() -> int {
    day_number(Date { year: MIN_YEAR, month: 1, day: 1 })
}

pub open spec fn last_day() -> int {
    day_number(Date { year: MAX_YEAR, month: 12, day: 31 })
}

/// Seconds since the epoch that a clock shows.
pub open spec fn shown_secs(t: LocalTime) -> int {
    (day_number(t.date) - EPOCH_DAY) * DAY_SECS + t.hour * 3600 + t.minute * 60 + t.second
}

/// `t` is a possible local reading of the instant `secs`.
pub open spec fn reads(secs: int, t: LocalTime) -> bool {
    &&& is_date(t.date)
    &&& t.hour < 24
    &&& t.minute < 60
    &&& t.second < 60
    &&& -DAY_SECS < t.offset < DAY_SECS
    &&& shown_secs(t) == secs + t.offset
}

/// The instant falls on a kept day of the UTC calendar.
pub open spec fn is_readable(secs: int) -> bool {
    first_day() <= secs / (DAY_SECS as int) + EPOCH_DAY <= last_day()
}

/// `t` is what a local clock may give for `secs`: a reading where there is one.
pub open spec fn clock_gives(secs: int, t: Option<LocalTime>) -> bool {
    match t {
        Some(r) => is_readable(secs) && reads(secs, r),
        None => !is_readable(secs),
    }
}

/// Reads the local clock at a Unix time.
///
/// Trusted: chrono's `Local.timestamp_opt(secs, 0)` and the accessors of the `DateTime` that it
/// gives. There is a reading exactly when the UTC day of `secs` is one that chrono keeps; it shows
/// `secs` shifted by the offset of the machine's time zone, which is less than a day. Which offset
/// that is depends on the machine, and nothing is said of it. A machine with a zone that is a day or
/// more off, which chrono does not accept, is left out.
#[verifier::external_body]
pub fn local_dt(secs: i64) -> (t: Option<LocalTime>)
    ensures
        clock_gives(secs as int, t),
{
    let reading = Local.timestamp_opt(secs, 0).single();
    reading.map(
        |dt|
            LocalTime {
                date: Date { year: dt.year(), month: dt.month(), day: dt.day() },
                hour: dt.hour(),
                minute: dt.minute(),
                second: dt.second(),
                offset: dt.offset().local_minus_utc(),
            },
    )
}

/// The number of today's local date.
///
/// Trusted: chrono's `Local::now().date_naive().num_days_from_ce()`, the number of a day that
/// chrono keeps. Which day it is depends on the clock.
#[verifier::external_body]
pub(crate) fn today_ordinal() -> (n: i64)
    ensures
        first_day() <= n <= last_day(),
{
    Local::now().date_naive().num_days_from_ce() as i64
}

/// The number of a date.
///
/// Trusted: chrono's `NaiveDate::from_ymd_opt` with `num_days_from_ce`: the day number of a date
/// that stands in the calendar and whose year is kept, and nothing for any other triple.
#[verifier::external_body]
pub(crate) fn number_of(year: i32, month: u32, day: u32) -> (n: Option<i64>)
    ensures
        match n {
            Some(k) => is_kept(Date { year, month, day }) && k == day_number(Date { year, month, day })
                && first_day() <= k <= last_day(),
            None => !is_kept(Date { year, month, day }),
        },
{
    NaiveDate::from_ymd_opt(year, month, day).map(|d| d.num_days_from_ce() as i64)
}

/// The date with a given number.
///
/// Trusted: chrono's `NaiveDate::from_num_days_from_ce_opt`: the date of the calendar with this
/// day number, where its year is kept.
#[verifier::external_body]
fn date_of_kept(n: i32) -> (d: Option<Date>)
    ensures
        match d {
            Some(d) => is_kept(d) && day_number(d) == n && first_day() <= n <= last_day(),
            None => !(first_day() <= n <= last_day()),
        },
{
    let found = NaiveDate::from_num_days_from_ce_opt(n);
    found.map(|d| Date { year: d.year(), month: d.month(), day: d.day() })
}

/// Numbers of kept days fit in 32 bits.
pub proof fn kept_days_fit()
    ensures
        i32::MIN <= first_day(),
        last_day() <= i32::MAX,
{
    reveal_with_fuel(days_before_month, 13);
}

/// The date with a given number, where its year is kept.
pub fn date_of_number(n: i64) -> (d: Option<Date>)
    ensures
        match d {
            Some(d) => is_kept(d) && day_number(d) == n && d == date_on(n as int) && first_day() <= n <= last_day(),
            None => !(first_day() <= n <= last_day()),
        },
{
    proof {
        kept_days_fit();
    }
    if n < -2147483648 || n > 2147483647 {
        return None;
    }
    let d = date_of_kept(n as i32);
    proof {
        if let Some(d) = d {
            date_on_number(d);
        }
    }
    d
}

/// Days since Monday of the day with number `n`.
pub open spec fn weekday_of(n: int) -> int {
    (n - 1) % 7
}

/// A date as `YYYY-MM-DD`.
pub open spec fn date_key(d: Date) -> Seq<char> {
    text::zero_padded(d.year as int, 4) + "-"@ + text::zero_padded(d.month as int, 2) + "-"@
        + text::zero_padded(d.day as int, 2)
}

/// The key of a date.
pub fn date_key_of(d: &Date) -> (key: String)
    ensures
        key@ == date_key(*d),
{
    let mut key = text::zero_padded_of(d.year as i64, 4);
    key.append("-");
    key.append(text::zero_padded_of(d.month as i64, 2).as_str());
    key.append("-");
    key.append(text::zero_padded_of(d.day as i64, 2).as_str());
    key
}

/// The day number that a text of year, month and day between dashes stands for.
pub open spec fn parsed_date(key: Seq<char>) -> Option<int> {
    let f = text::fields(key, '-');
    if f.len() < 3 {
        None
    } else {
        match (
            text::parsed(f[0], i32::MIN as int, i32::MAX as int),
            text::parsed(f[1], 0, u32::MAX as int),
            text::parsed(f[2], 0, u32::MAX as int),
        ) {
            (Some(y), Some(m), Some(d)) => {
                let date = Date { year: y as i32, month: m as u32, day: d as u32 };
                if is_kept(date) {
                    Some(day_number(date))
                } else {
                    None
                }
            },
            _ => None,
        }
    }
}

/// Reads a date key back as a day number.
pub fn parse_date(key: &str) -> (n: Option<i64>)
    ensures
        match n {
            Some(k) => parsed_date(key@) == Some(k as int) && first_day() <= k <= last_day(),
            None => parsed_date(key@) is None,
        },
{
    let parts = text::split(key, '-');
    let ghost f = text::fields(key@, '-');
    if parts.len() < 3 {
        return None;
    }
    assert(f[0] == parts@[0]@ && f[1] == parts@[1]@ && f[2] == parts@[2]@);
    let y = text::parse_number(parts[0].as_str(), -2147483648, 2147483647);
    let m = text::parse_number(parts[1].as_str(), 0, 4294967295);
    let d = text::parse_number(parts[2].as_str(), 0, 4294967295);
    match (y, m, d) {
        (Some(y), Some(m), Some(d)) => number_of(y as i32, m as u32, d as u32),
        _ => None,
    }
}

/// Reading the key of a kept date back gives the number of the date; years before year 0 have a
/// minus sign, which is read as a separator.
pub proof fn date_key_reads_back(d: Date)
    requires
        is_kept(d),
        d.year >= 0,
    ensures
        parsed_date(date_key(d)) == Some(day_number(d)),
{
    reveal_strlit("-");
    let y = text::zero_padded(d.year as int, 4);
    let m = text::zero_padded(d.month as int, 2);
    let a = text::zero_padded(d.day as int, 2);
    text::zero_padded_reads_back(d.year as int, 4, i32::MIN as int, i32::MAX as int);
    text::zero_padded_reads_back(d.month as int, 2, 0, u32::MAX as int);
    text::zero_padded_reads_back(d.day as int, 2, 0, u32::MAX as int);
    digits_have_no_dash(y);
    digits_have_no_dash(m);
    digits_have_no_dash(a);
    text::fields_single('-', y);
    text::fields_append(y, '-', m);
    let ym = y.push('-') + m;
    text::fields_append(ym, '-', a);
    assert(date_key(d) =~= ym.push('-') + a);
}

proof fn digits_have_no_dash(t: Seq<char>)
    requires
        text::all_digits(t),
    ensures
        !t.contains('-'),
{
    if t.contains('-') {
        let i = t.index_of('-');
        assert(text::is_digit(t[i]));
    }
}

/// A year as text: four digits, or a sign and at least four.
pub open spec fn year_text(year: int) -> Seq<char> {
    if 0 <= year <= 9999 {
        text::zero_padded(year, 4)
    } else if year < 0 {
        "-"@ + text::pad_left(text::digits((-year) as nat), '0', 4)
    } else {
        "+"@ + text::pad_left(text::digits(year as nat), '0', 4)
    }
}

/// A date as year, month and day between dashes.
pub open spec fn date_text(d: Date) -> Seq<char> {
    year_text(d.year as int) + "-"@ + text::zero_padded(d.month as int, 2) + "-"@ + text::zero_padded(
        d.day as int,
        2,
    )
}

/// Writes out a year.
pub fn year_text_of(year: i64) -> (r: String)
    ensures
        r@ == year_text(year as int),
{
    if 0 <= year && year <= 9999 {
        return text::zero_padded_of(year, 4);
    }
    let size = text::magnitude(year);
    let number = text::padded_left(text::text_of(&text::digits_of(size)).as_str(), '0', 4);
    let mut signed = if year < 0 {
        "-".to_string()
    } else {
        "+".to_string()
    };
    signed.append(number.as_str());
    signed
}

/// Writes out a date.
pub fn date_text_of(d: &Date) -> (r: String)
    ensures
        r@ == date_text(*d),
{
    let mut r = year_text_of(d.year as i64);
    r.append("-");
    r.append(text::zero_padded_of(d.month as i64, 2).as_str());
    r.append("-");
    r.append(text::zero_padded_of(d.day as i64, 2).as_str());
    r
}

/// The time of day as hours, minutes and seconds between colons.
pub open spec fn clock_text(t: LocalTime) -> Seq<char> {
    text::zero_padded(t.hour as int, 2) + ":"@ + text::zero_padded(t.minute as int, 2) + ":"@
        + text::zero_padded(t.second as int, 2)
}

/// Writes out the time of day.
pub fn clock_text_of(t: &LocalTime) -> (r: String)
    ensures
        r@ == clock_text(*t),
{
    let mut r = text::zero_padded_of(t.hour as i64, 2);
    r.append(":");
    r.append(text::zero_padded_of(t.minute as i64, 2).as_str());
    r.append(":");
    r.append(text::zero_padded_of(t.second as i64, 2).as_str());
    r
}

/// What a clock set to UTC shows at `secs`.
pub open spec fn utc_reads(secs: int, t: Option<LocalTime>) -> bool {
    match t {
        Some(r) => is_readable(secs) && reads(secs, r) && r.offset == 0 && is_kept(r.date),
        None => !is_readable(secs),
    }
}

/// Reads a clock set to UTC.
pub fn utc_dt(secs: i64) -> (t: Option<LocalTime>)
    ensures
        utc_reads(secs as int, t),
{
    let low: i64 = secs % DAY_SECS;
    let rest: i64 = if low < 0 {
        low + DAY_SECS
    } else {
        low
    };
    let day: i64 = if low < 0 {
        secs / DAY_SECS - 1
    } else {
        secs / DAY_SECS
    };
    assert(day == secs as int / (DAY_SECS as int));
    assert(rest == (rest / 3600) * 3600 + (rest % 3600 / 60) * 60 + rest % 60);
    match date_of_number(day + EPOCH_DAY) {
        None => None,
        Some(date) => Some(
            LocalTime {
                date,
                hour: (rest / 3600) as u32,
                minute: (rest % 3600 / 60) as u32,
                second: (rest % 60) as u32,
                offset: 0,
            },
        ),
    }
}

/// `a` is an earlier date than `b`.
pub open spec fn is_earlier(a: Date, b: Date) -> bool {
    a.year < b.year || (a.year == b.year && (a.month < b.month || (a.month == b.month && a.day < b.day)))
}

spec fn days_before_year(y: int) -> int {
    365 * (y - 1) + (y - 1) / 4 - (y - 1) / 100 + (y - 1) / 400
}

spec fn year_len(y: int) -> int {
    if is_leap(y) {
        366
    } else {
        365
    }
}

proof fn year_adds_its_days(y: int)
    ensures
        days_before_year(y + 1) == days_before_year(y) + year_len(y),
{
}

proof fn later_years_start_later(a: int, b: int)
    requires
        a < b,
    ensures
        days_before_year(b) >= days_before_year(a) + year_len(a),
    decreases b - a,
{
    if b == a + 1 {
        year_adds_its_days(a);
    } else {
        later_years_start_later(a, b - 1);
        year_adds_its_days(b - 1);
    }
}

proof fn later_months_start_later(y: int, a: int, b: int)
    requires
        1 <= a < b,
    ensures
        days_before_month(y, b) >= days_before_month(y, a) + month_len(y, a),
    decreases b - a,
{
    if b > a + 1 {
        later_months_start_later(y, a, b - 1);
    }
}

proof fn months_fill_the_year(y: int)
    ensures
        days_before_month(y, 13) == year_len(y),
{
    reveal_with_fuel(days_before_month, 14);
}

proof fn day_of_year_bounds(d: Date)
    requires
        is_date(d),
    ensures
        1 <= days_before_month(d.year as int, d.month as int) + d.day <= year_len(d.year as int),
{
    let y = d.year as int;
    months_fill_the_year(y);
    later_months_start_later(y, d.month as int, 13);
    if d.month > 1 {
        later_months_start_later(y, 1, d.month as int);
    }
}

proof fn earlier_is_less(a: Date, b: Date)
    requires
        is_date(a),
        is_date(b),
        is_earlier(a, b),
    ensures
        day_number(a) < day_number(b),
{
    day_of_year_bounds(a);
    day_of_year_bounds(b);
    if a.year < b.year {
        later_years_start_later(a.year as int, b.year as int);
    } else if a.month < b.month {
        later_months_start_later(a.year as int, a.month as int, b.month as int);
    }
}

/// Day numbers order dates as the calendar does, so no two dates share a number.
pub proof fn day_numbers_order_dates(a: Date, b: Date)
    requires
        is_date(a),
        is_date(b),
    ensures
        day_number(a) < day_number(b) <==> is_earlier(a, b),
        day_number(a) == day_number(b) <==> a == b,
{
    if is_earlier(a, b) {
        earlier_is_less(a, b);
    } else if is_earlier(b, a) {
        earlier_is_less(b, a);
    } else {
        assert(a == b);
    }
}

proof fn padded_numerals(n: int, width: int)
    requires
        0 <= n,
        width == 2 && n <= 99 || width == 4 && n <= 9999,
    ensures
        text::zero_padded(n, width).len() == width,
        text::all_digits(text::zero_padded(n, width)),
        text::digits_value(text::zero_padded(n, width)) == n,
{
    let t = text::zero_padded(n, width);
    text::zero_padded_reads_back(n, width, 0, 9999);
    assert(text::is_digit(t[0]));
    reveal_with_fuel(text::digits, 5);
}

/// The keys of dates order them as the calendar does, for years of up to four digits.
pub proof fn date_keys_order_dates(a: Date, b: Date)
    requires
        is_date(a),
        is_date(b),
        0 <= a.year <= 9999,
        0 <= b.year <= 9999,
    ensures
        ordered::text_before(date_key(a), date_key(b)) <==> is_earlier(a, b),
        date_key(a) == date_key(b) <==> a == b,
{
    reveal_strlit("-");
    let dash = "-"@;
    let (ya, yb) = (text::zero_padded(a.year as int, 4), text::zero_padded(b.year as int, 4));
    let (ma, mb) = (text::zero_padded(a.month as int, 2), text::zero_padded(b.month as int, 2));
    let (da, db) = (text::zero_padded(a.day as int, 2), text::zero_padded(b.day as int, 2));
    padded_numerals(a.year as int, 4);
    padded_numerals(b.year as int, 4);
    padded_numerals(a.month as int, 2);
    padded_numerals(b.month as int, 2);
    padded_numerals(a.day as int, 2);
    padded_numerals(b.day as int, 2);
    ordered::numerals_order_as_numbers(ya, yb);
    ordered::numerals_order_as_numbers(ma, mb);
    ordered::numerals_order_as_numbers(da, db);
    ordered::text_before_append(ya, yb, dash + ma + dash + da, dash + mb + dash + db);
    assert(date_key(a) =~= ya + (dash + ma + dash + da));
    assert(date_key(b) =~= yb + (dash + mb + dash + db));
    ordered::text_before_append(dash, dash, ma + dash + da, mb + dash + db);
    assert(dash + ma + dash + da =~= dash + (ma + dash + da));
    assert(dash + mb + dash + db =~= dash + (mb + dash + db));
    ordered::text_before_append(ma, mb, dash + da, dash + db);
    assert(ma + dash + da =~= ma + (dash + da));
    assert(mb + dash + db =~= mb + (dash + db));
    ordered::text_before_append(dash, dash, da, db);
    ordered::text_before_irreflexive(dash);
    if date_key(a) == date_key(b) {
        ordered::text_before_irreflexive(date_key(a));
        assert(!is_earlier(a, b));
        assert(ordered::text_before(date_key(b), date_key(a)) == false);
        assert(date_key(a).take(4) =~= ya && date_key(b).take(4) =~= yb);
        assert(date_key(a).subrange(5, 7) =~= ma && date_key(b).subrange(5, 7) =~= mb);
        assert(date_key(a).subrange(8, 10) =~= da && date_key(b).subrange(8, 10) =~= db);
    }
}

/// The kept date with the number `n`.
pub open spec fn date_on(n: int) -> Date {
    choose|d: Date| is_kept(d) && day_number(d) == n
}

/// A kept date is the one with its number.
pub proof fn date_on_number(d: Date)
    requires
        is_kept(d),
    ensures
        date_on(day_number(d)) == d,
{
    let e = date_on(day_number(d));
    assert(is_kept(e) && day_number(e) == day_number(d));
    day_numbers_order_dates(d, e);
}

/// The numbers of kept dates lie between the first and the last.
pub proof fn kept_in_range(d: Date)
    requires
        is_kept(d),
    ensures
        first_day() <= day_number(d) <= last_day(),
{
    let first = Date { year: MIN_YEAR, month: 1, day: 1 };
    let last = Date { year: MAX_YEAR, month: 12, day: 31 };
    day_numbers_order_dates(d, first);
    day_numbers_order_dates(last, d);
}

}
