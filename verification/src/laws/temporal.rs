//! Messages by time: each row of a table adds its messages to one hour, one day of the week and one
//! month.

use vstd::prelude::*;

use crate::stats::temporal;
use crate::stats::temporal::TemporalRow;

verus! {

/// The seven days of the week go to seven places in calendar order: Monday to the first, each day from
/// Monday to Friday one before the next day, and Sunday, which is counted as day zero, to the last. What
/// is no day goes where Sunday goes.
pub proof fn weekdays_in_calendar_order(v: int, w: int)
    ensures
        temporal::weekday_index(1) == 0,
        1 <= w <= 5 ==> temporal::weekday_index(w + 1) == temporal::weekday_index(w) + 1,
        temporal::weekday_index(0) == 6,
        !(0 <= w <= 6) ==> temporal::weekday_index(w) == temporal::weekday_index(0),
        0 <= v <= 6 && 0 <= w <= 6 && temporal::weekday_index(v) == temporal::weekday_index(w) ==> v == w,
        0 <= temporal::weekday_index(w) < 7,
{
}

/// Without rows there is no message at any time.
pub proof fn no_rows_no_messages(h: int, d: int, m: Seq<char>)
    ensures
        temporal::hour_sum(Seq::empty(), h) == 0,
        temporal::weekday_sum(Seq::empty(), d) == 0,
        temporal::month_sum(Seq::empty(), m) == 0,
        !temporal::has_month(Seq::empty(), m),
        temporal::row_total(Seq::empty()) == 0,
{
}

/// One more row adds its messages to its own hour, to its own day of the week and to its own month, and
/// to no other. Its day is counted from Sunday as zero and told from Monday as the first.
pub proof fn a_row_adds_to_its_own_time(rows: Seq<TemporalRow>, r: TemporalRow, h: int, d: int, m: Seq<char>)
    ensures
        temporal::hour_sum(rows.push(r), h) == temporal::hour_sum(rows, h) + if r.hour == h {
            r.count as int
        } else {
            0
        },
        0 <= d < 6 ==> temporal::weekday_sum(rows.push(r), d) == temporal::weekday_sum(rows, d) + if r.weekday == d + 1 {
            r.count as int
        } else {
            0
        },
        temporal::weekday_sum(rows.push(r), 6) == temporal::weekday_sum(rows, 6) + if r.weekday < 1 || r.weekday > 6 {
            r.count as int
        } else {
            0
        },
        temporal::month_sum(rows.push(r), m) == temporal::month_sum(rows, m) + if r.month@ == m {
            r.count as int
        } else {
            0
        },
        temporal::has_month(rows.push(r), m) <==> temporal::has_month(rows, m) || r.month@ == m,
        temporal::row_total(rows.push(r)) == temporal::row_total(rows) + r.count,
{
    let more = rows.push(r);
    assert(more.drop_last() =~= rows);
    if temporal::has_month(rows, m) {
        let i = choose|i: int| 0 <= i < rows.len() && (#[trigger] rows[i]).month@ == m;
        assert(more[i].month@ == m);
    }
    if temporal::has_month(more, m) {
        let i = choose|i: int| 0 <= i < more.len() && (#[trigger] more[i]).month@ == m;
        if i < rows.len() {
            assert(rows[i].month@ == m);
        }
    }
    if r.month@ == m {
        assert(more[rows.len() as int].month@ == m);
    }
}

}
