//! What the numbers of days say of the calendar.

use vstd::prelude::*;

use crate::calendar;
use crate::calendar::{Date, LocalTime};

verus! {

/// The months have 31 and 30 days in their known order, and February has 28: 29 in every fourth year but
/// the hundredth, and in every four hundredth.
pub proof fn months_have_their_days(year: int)
    ensures
        forall|m: int|
            m == 1 || m == 3 || m == 5 || m == 7 || m == 8 || m == 10 || m == 12 ==> #[trigger] calendar::month_len(
                year,
                m,
            ) == 31,
        forall|m: int| m == 4 || m == 6 || m == 9 || m == 11 ==> #[trigger] calendar::month_len(year, m) == 30,
        calendar::month_len(year, 2) == if year % 400 == 0 {
            29int
        } else if year % 100 == 0 {
            28
        } else if year % 4 == 0 {
            29
        } else {
            28
        },
{
    assert(year % 400 == 0 ==> year % 4 == 0);
}

/// Days are numbered one after the other: within a month, from the last of a month to the first of the
/// next, and from the last of a year to the first of the next. The first of January 1970 has number
/// 719163.
pub proof fn days_follow_each_other(d: Date)
    requires
        calendar::is_date(d),
        d.year < i32::MAX,
    ensures
        d.day < calendar::month_len(d.year as int, d.month as int) ==> calendar::day_number(
            Date { year: d.year, month: d.month, day: (d.day + 1) as u32 },
        ) == calendar::day_number(d) + 1,
        d.day == calendar::month_len(d.year as int, d.month as int) && d.month < 12 ==> calendar::day_number(
            Date { year: d.year, month: (d.month + 1) as u32, day: 1 },
        ) == calendar::day_number(d) + 1,
        d.day == 31 && d.month == 12 ==> calendar::day_number(Date { year: (d.year + 1) as i32, month: 1, day: 1 })
            == calendar::day_number(d) + 1,
        calendar::day_number(Date { year: 1970, month: 1, day: 1 }) == 719163,
{
    let y = d.year as int;
    if d.day == 31 && d.month == 12 {
        reveal_with_fuel(calendar::days_before_month, 13);
        let z = y - 1;
        assert(y / 4 == z / 4 + if y % 4 == 0 {
            1int
        } else {
            0int
        });
        assert(y / 100 == z / 100 + if y % 100 == 0 {
            1int
        } else {
            0int
        });
        assert(y / 400 == z / 400 + if y % 400 == 0 {
            1int
        } else {
            0int
        });
        assert(y % 400 == 0 ==> y % 100 == 0);
        assert(y % 100 == 0 ==> y % 4 == 0);
    }
}

/// The days of the week follow each other, Monday to Sunday, and the first of January 1970 is a Thursday.
pub proof fn weekdays_follow_each_other(n: int)
    ensures
        0 <= calendar::weekday_of(n) < 7,
        calendar::weekday_of(n + 1) == if calendar::weekday_of(n) == 6 {
            0
        } else {
            calendar::weekday_of(n) + 1
        },
        calendar::weekday_of(719163) == 3,
{
}

/// A clock shows the time of day: within a day every second counts one, every minute sixty and every hour
/// 3600, and a day later the same time is shown 86400 seconds later.
pub proof fn clocks_count_seconds(a: LocalTime, b: LocalTime)
    ensures
        a.date == b.date ==> calendar::shown_secs(b) - calendar::shown_secs(a) == 3600 * (b.hour - a.hour) + 60 * (
        b.minute - a.minute) + (b.second - a.second),
        a.hour == b.hour && a.minute == b.minute && a.second == b.second ==> calendar::shown_secs(b)
            - calendar::shown_secs(a) == 86400 * (calendar::day_number(b.date) - calendar::day_number(a.date)),
        calendar::shown_secs(
            LocalTime { date: Date { year: 1970, month: 1, day: 1 }, hour: 0, minute: 0, second: 0, offset: 0 },
        ) == 0,
{
}

}
