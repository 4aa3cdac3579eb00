//! What the course of a conversation says of its messages.

use vstd::prelude::*;
use vstd::string::*;

use crate::calendar;
use crate::calendar::{Date, LocalTime};
use crate::double;
use crate::laws::counting;
use crate::model::MessageFact;
use crate::ordered;
use crate::seqs;
use crate::text;
use crate::trend;
use crate::trend::{Bucket, Heatmap, TrendSeries};

verus! {

/// The counts from place `from` up to place `to` together.
pub open spec fn added(c: Seq<i64>, from: int, to: int) -> int
    decreases to - from,
{
    if from >= to {
        0
    } else {
        added(c, from, to - 1) + c[to - 1]
    }
}

/// The sum of a part of a sequence.
pub proof fn part_added(c: Seq<i64>, from: int, to: int)
    requires
        0 <= from <= to <= c.len(),
    ensures
        seqs::sum(c.subrange(from, to)) == added(c, from, to),
    decreases to - from,
{
    if from < to {
        part_added(c, from, to - 1);
        assert(c.subrange(from, to).drop_last() =~= c.subrange(from, to - 1));
    }
}

proof fn halves_added(c: Seq<i64>)
    ensures
        seqs::sum(c.take(c.len() as int / 2)) == added(c, 0, c.len() as int / 2),
        seqs::sum(c.skip(c.len() as int / 2)) == added(c, c.len() as int / 2, c.len() as int),
{
    let half = c.len() as int / 2;
    part_added(c, 0, half);
    part_added(c, half, c.len() as int);
    assert(c.take(half) =~= c.subrange(0, half));
    assert(c.skip(half) =~= c.subrange(half, c.len() as int));
}

/// The tag looks at nothing but how many counts there are and what either half of them adds up to.
pub proof fn tag_looks_at_halves(a: Seq<i64>, b: Seq<i64>)
    requires
        a.len() == b.len(),
        added(a, 0, a.len() as int / 2) == added(b, 0, b.len() as int / 2),
        added(a, a.len() as int / 2, a.len() as int) == added(b, b.len() as int / 2, b.len() as int),
    ensures
        trend::tag_of(a) == trend::tag_of(b),
{
    halves_added(a);
    halves_added(b);
}

/// The four tags are different texts.
proof fn tags_differ()
    ensures
        "未知"@ != "升温"@,
        "未知"@ != "降温"@,
        "未知"@ != "平稳"@,
        "升温"@ != "降温"@,
        "升温"@ != "平稳"@,
        "降温"@ != "平稳"@,
{
    reveal_strlit("未知");
    reveal_strlit("升温");
    reveal_strlit("降温");
    reveal_strlit("平稳");
    assert("未知"@[0] != "升温"@[0] && "未知"@[0] != "降温"@[0] && "未知"@[0] != "平稳"@[0]);
    assert("升温"@[0] != "降温"@[0] && "升温"@[0] != "平稳"@[0] && "降温"@[0] != "平稳"@[0]);
}

/// With fewer than four counts nothing can be told, nor where both halves are empty. From nothing to
/// something it warms up. Otherwise it cools down where the later half adds up to less than three fifths
/// of the earlier one, it warms up above seven fifths, and in between it is level. For sums of up to two
/// to the 46th, which double precision tells apart from both limits.
pub proof fn tag_compares_halves(c: Seq<i64>)
    requires
        0 <= added(c, 0, c.len() as int / 2) <= 0x4000_0000_0000,
        0 <= added(c, c.len() as int / 2, c.len() as int) <= 0x4000_0000_0000,
    ensures
        ({
            let first = added(c, 0, c.len() as int / 2);
            let second = added(c, c.len() as int / 2, c.len() as int);
            let tag = trend::tag_of(c);
            &&& tag == "未知"@ <==> c.len() < 4 || (first == 0 && second == 0)
            &&& tag == "升温"@ <==> c.len() >= 4 && 5 * second > 7 * first
            &&& tag == "降温"@ <==> c.len() >= 4 && 5 * second < 3 * first
            &&& tag == "平稳"@ <==> c.len() >= 4 && first > 0 && 3 * first <= 5 * second <= 7 * first
        }),
{
    halves_added(c);
    tags_differ();
    let first = added(c, 0, c.len() as int / 2);
    let second = added(c, c.len() as int / 2, c.len() as int);
    if first > 0 {
        double::nearest_is_number(3, 5);
        double::nearest_is_number(7, 5);
        if second > 0 {
            double::quotient_against_fraction(second, first, 3, 5);
            double::quotient_against_fraction(second, first, 7, 5);
        }
    }
}

/// However large the sums are: half of what was before or less is cooling down, and twice as much or more
/// is warming up.
pub proof fn tag_by_far(c: Seq<i64>)
    requires
        c.len() >= 4,
        0 < added(c, 0, c.len() as int / 2),
        0 <= added(c, c.len() as int / 2, c.len() as int),
    ensures
        2 * added(c, c.len() as int / 2, c.len() as int) <= added(c, 0, c.len() as int / 2) ==> trend::tag_of(c)
            == "降温"@,
        added(c, c.len() as int / 2, c.len() as int) >= 2 * added(c, 0, c.len() as int / 2) ==> trend::tag_of(c)
            == "升温"@,
{
    halves_added(c);
    let first = added(c, 0, c.len() as int / 2);
    let second = added(c, c.len() as int / 2, c.len() as int);
    double::nearest_is_number(3, 5);
    double::nearest_is_number(7, 5);
    if second > 0 {
        double::quotient_by_far(second, first);
        double::nearest_grows(3, 7, 5);
        double::nearest_is_number(second, 1);
        double::nearest_is_number(first, 1);
        double::quotients_grow(double::of(second), double::of(second), double::of(first));
        half_and_twice();
    }
}

proof fn half_and_twice()
    ensures
        double::less((double::LOW as int, -53int), double::nearest(3, 5)),
        double::less(double::nearest(7, 5), (double::LOW as int, -51int)),
{
    double::one_is_one();
    double::nearest_doubles(1, 1);
    double::nearest_reduces(1, 1, 2);
    double::nearest_doubles(1, 2);
    double::quotient_of_counts(1, 2);
    double::quotient_of_counts(2, 1);
    double::quotient_against_fraction(1, 2, 3, 5);
    double::quotient_against_fraction(2, 1, 7, 5);
}

/// The message at `i` carries a time and falls on a day of the calendar that is kept.
pub open spec fn is_placed(facts: Seq<MessageFact>, times: Seq<Option<LocalTime>>, i: int) -> bool {
    facts[i].create_time > 0 && times[i] is Some && calendar::is_kept(times[i]->0.date)
}

/// Days, weeks from Monday to Sunday, and months, each numbered one after the other.
pub open spec fn place_of(d: Date, b: Bucket) -> int {
    match b {
        Bucket::Day => calendar::day_number(d),
        Bucket::Week => (calendar::day_number(d) - 1) / 7,
        Bucket::Month => 12 * d.year + d.month - 1,
    }
}

/// The number of messages that fall in the day, week or month with number `n`.
pub open spec fn messages_at(facts: Seq<MessageFact>, times: Seq<Option<LocalTime>>, b: Bucket, n: int) -> int {
    counting::how_many(
        facts.len() as int,
        |i: int| is_placed(facts, times, i) && place_of(times[i]->0.date, b) == n,
    )
}

proof fn places_fit(d: Date, b: Bucket)
    requires
        calendar::is_kept(d),
    ensures
        trend::index_of(d, b) == place_of(d, b),
        i64::MIN <= place_of(d, b) <= i64::MAX,
{
    calendar::kept_in_range(d);
    calendar::kept_days_fit();
}

proof fn buckets_counted(facts: Seq<MessageFact>, times: Seq<Option<LocalTime>>, b: Bucket, n: i64)
    ensures
        counting::how_many(
            trend::buckets(facts, times, b).len() as int,
            |i: int| trend::buckets(facts, times, b)[i] == n,
        ) == messages_at(facts, times, b, n as int),
        trend::buckets(facts, times, b).len() == counting::how_many(
            facts.len() as int,
            |i: int| is_placed(facts, times, i),
        ),
        trend::buckets(facts, times, b).contains(n) <==> exists|i: int|
            0 <= i < facts.len() && #[trigger] is_placed(facts, times, i) && place_of(times[i]->0.date, b) == n,
    decreases facts.len(),
{
    let ks = trend::buckets(facts, times, b);
    let here = |i: int| is_placed(facts, times, i) && place_of(times[i]->0.date, b) == n as int;
    let all = |i: int| is_placed(facts, times, i);
    let at = |i: int| ks[i] == n;
    counting::one_place_more(0, here);
    counting::one_place_more(0, all);
    counting::one_place_more(0, at);
    if facts.len() > 0 {
        let e = facts.len() - 1;
        let less = facts.drop_last();
        let before = trend::buckets(less, times, b);
        buckets_counted(less, times, b, n);
        let there = |i: int| is_placed(less, times, i) && place_of(times[i]->0.date, b) == n as int;
        let some = |i: int| is_placed(less, times, i);
        assert forall|i: int| 0 <= i < e implies is_placed(less, times, i) == #[trigger] is_placed(facts, times, i) by {
            assert(less[i] == facts[i]);
        }
        assert forall|i: int| 0 <= i < e implies #[trigger] there(i) == here(i) by {
            assert(is_placed(less, times, i) == is_placed(facts, times, i));
        }
        assert forall|i: int| 0 <= i < e implies #[trigger] some(i) == all(i) by {
            assert(is_placed(less, times, i) == is_placed(facts, times, i));
        }
        counting::same_places(e, there, here);
        counting::same_places(e, some, all);
        counting::one_place_more(e, here);
        counting::one_place_more(e, all);
        let then = |i: int| before[i] == n;
        assert forall|i: int| 0 <= i < before.len() implies #[trigger] then(i) == at(i) by {
            assert(before[i] == ks[i]);
        }
        counting::same_places(before.len() as int, then, at);
        counting::same_places(before.len() as int, |i: int| trend::buckets(less, times, b)[i] == n, then);
        counting::one_place_more(before.len() as int, at);
        if is_placed(facts, times, e) {
            places_fit(times[e]->0.date, b);
        }
        assert(ks.contains(n) <==> before.contains(n) || here(e)) by {
            if before.contains(n) {
                assert(ks[before.index_of(n)] == n);
            }
            if ks.contains(n) {
                let k = ks.index_of(n);
                if k < before.len() {
                    assert(before[k] == n);
                }
            }
            if here(e) {
                assert(ks[before.len() as int] == n);
            }
        }
        if exists|i: int| 0 <= i < less.len() && #[trigger] is_placed(less, times, i) && place_of(times[i]->0.date, b) == n {
            let i = choose|i: int|
                0 <= i < less.len() && #[trigger] is_placed(less, times, i) && place_of(times[i]->0.date, b) == n;
            assert(is_placed(facts, times, i));
        }
        if exists|i: int| 0 <= i < facts.len() && #[trigger] is_placed(facts, times, i) && place_of(times[i]->0.date, b) == n {
            let i = choose|i: int|
                0 <= i < facts.len() && #[trigger] is_placed(facts, times, i) && place_of(times[i]->0.date, b) == n;
            if i < e {
                assert(is_placed(less, times, i));
            }
        }
    }
    counting::same_places(ks.len() as int, |i: int| trend::buckets(facts, times, b)[i] == n, at);
}

proof fn occurrences_counted(facts: Seq<MessageFact>, times: Seq<Option<LocalTime>>, b: Bucket, n: int)
    requires
        facts.len() <= i64::MAX,
        i64::MIN <= n <= i64::MAX,
    ensures
        trend::occurrences(trend::buckets(facts, times, b), n) == messages_at(facts, times, b, n),
        messages_at(facts, times, b, n) <= facts.len(),
{
    let k = n as i64;
    let ks = trend::buckets(facts, times, b);
    buckets_counted(facts, times, b, k);
    let at = |i: int| ks[i] == k;
    counting::one_place_more(facts.len() as int, |i: int| is_placed(facts, times, i));
    counting::tally_counts(ks, k, at);
    counting::same_places(ks.len() as int, |i: int| trend::buckets(facts, times, b)[i] == k, at);
    counting::one_place_more(
        facts.len() as int,
        |i: int| is_placed(facts, times, i) && place_of(times[i]->0.date, b) == n,
    );
}

/// The points of a series stand for the days, weeks or months from number `lo` on, one after the other,
/// each with its label and the messages that fall in it; none falls outside, and the first and the last
/// hold one.
pub open spec fn holds_messages(
    s: TrendSeries,
    facts: Seq<MessageFact>,
    times: Seq<Option<LocalTime>>,
    b: Bucket,
    lo: int,
) -> bool {
    &&& forall|k: int|
        0 <= k < s.points@.len() ==> (#[trigger] s.points@[k]).count == messages_at(facts, times, b, lo + k)
            && s.points@[k].label@ == trend::label_of(lo + k, b)
    &&& forall|i: int|
        0 <= i < facts.len() && #[trigger] is_placed(facts, times, i) ==> lo <= place_of(times[i]->0.date, b) < lo
            + s.points@.len()
    &&& s.points@.len() > 0 ==> s.points@[0].count > 0 && s.points@.last().count > 0
    &&& s.peak is Some <==> s.points@.len() > 0
    &&& s.peak matches Some(p) ==> exists|k: int|
        0 <= k < s.points@.len() && (#[trigger] s.points@[k]).count == p.count && s.points@[k].label@ == p.label@ && (
        forall|l: int|
            0 <= l < s.points@.len() ==> (#[trigger] s.points@[l]).count <= p.count && (l > k ==> s.points@[l].count
                < p.count))
}

/// A series counts every message once, in its own week or month: its points are the weeks or months from
/// the first to the last with a message, without a gap, and its peak is the last of the busiest. The tag
/// is that of its counts.
#[verifier::rlimit(30)]
pub proof fn points_hold_messages(
    s: TrendSeries,
    facts: Seq<MessageFact>,
    times: Seq<Option<LocalTime>>,
    b: Bucket,
) -> (lo: int)
    requires
        trend::is_series(s, facts, times, b),
        facts.len() <= i64::MAX,
    ensures
        s.total == counting::how_many(facts.len() as int, |i: int| is_placed(facts, times, i)),
        holds_messages(s, facts, times, b, lo),
        s.points@.len() > 0 ==> s.tag@ == trend::tag_of(trend::counts(s.points@)),
{
    let ks = trend::buckets(facts, times, b);
    buckets_counted(facts, times, b, 0);
    if ks.len() == 0 {
        assert forall|i: int| 0 <= i < facts.len() implies !#[trigger] is_placed(facts, times, i) by {
            if is_placed(facts, times, i) {
                places_fit(times[i]->0.date, b);
                buckets_counted(facts, times, b, place_of(times[i]->0.date, b) as i64);
            }
        }
        0
    } else {
        let (lo, hi) = choose|lo: i64, hi: i64| trend::covers(s, ks, b, lo, hi);
        let points = trend::points_between(ks, b, lo as int, hi as int);
        assert(lo <= hi) by {
            let k = ks.index_of(hi);
            assert(lo <= ks[k]);
        }
        assert forall|k: int| 0 <= k < s.points@.len() implies (#[trigger] s.points@[k]).count == messages_at(
            facts,
            times,
            b,
            lo + k,
        ) && s.points@[k].label@ == trend::label_of(lo + k, b) by {
            assert(trend::point_views(s.points@)[k] == (s.points@[k].label@, s.points@[k].count));
            occurrences_counted(facts, times, b, lo + k);
        }
        assert(s.points@.len() == points.len());
        assert forall|i: int| 0 <= i < facts.len() && #[trigger] is_placed(facts, times, i) implies lo <= place_of(
            times[i]->0.date,
            b,
        ) <= hi by {
            places_fit(times[i]->0.date, b);
            let n = place_of(times[i]->0.date, b) as i64;
            buckets_counted(facts, times, b, n);
            let k = ks.index_of(n);
            assert(lo <= ks[k] <= hi);
        }
        occurrences_counted(facts, times, b, lo as int);
        occurrences_counted(facts, times, b, hi as int);
        ordered::tally_holds(ks, lo);
        ordered::tally_holds(ks, hi);
        assert(s.points@[0].count == messages_at(facts, times, b, lo + 0));
        assert(s.points@[hi - lo].count == messages_at(facts, times, b, lo + (hi - lo)));
        let p = s.peak->0;
        let k = choose|k: int| #[trigger] trend::peaks_at(points, k) && points[k] == (p.label@, p.count);
        assert(trend::point_views(s.points@)[k] == (s.points@[k].label@, s.points@[k].count));
        assert forall|l: int| 0 <= l < s.points@.len() implies (#[trigger] s.points@[l]).count <= p.count && (l > k
            ==> s.points@[l].count < p.count) by {
            assert(trend::point_views(s.points@)[l] == (s.points@[l].label@, s.points@[l].count));
        }
        assert(s.points@[k].count == p.count);
        assert(trend::counts(s.points@) =~= trend::counts_between(ks, lo as int, hi as int)) by {
            assert forall|l: int| 0 <= l < s.points@.len() implies trend::counts(s.points@)[l]
                == #[trigger] trend::counts_between(ks, lo as int, hi as int)[l] by {
                assert(trend::point_views(s.points@)[l] == (s.points@[l].label@, s.points@[l].count));
            }
        }
        lo as int
    }
}

/// What a label says: a month is written as year and month of every date in it, and a week as month and
/// day of its Monday, which is no more than six days before any date in it.
pub proof fn labels_name_their_dates(d: Date)
    requires
        calendar::is_kept(d),
    ensures
        trend::label_of(place_of(d, Bucket::Month), Bucket::Month) == calendar::year_text(d.year as int) + "-"@
            + text::zero_padded(d.month as int, 2),
        trend::label_of(place_of(d, Bucket::Day), Bucket::Day) == calendar::date_text(d),
        forall|m: Date|
            calendar::is_kept(m) && 0 <= calendar::day_number(d) - #[trigger] calendar::day_number(m) <= 6
                && calendar::weekday_of(calendar::day_number(m)) == 0 ==> trend::label_of(
                place_of(d, Bucket::Week),
                Bucket::Week,
            ) == text::zero_padded(m.month as int, 2) + "-"@ + text::zero_padded(m.day as int, 2),
{
    calendar::kept_in_range(d);
    calendar::date_on_number(d);
    let y = d.year as int;
    let k = 12 * y + d.month - 1;
    assert(k / 12 == y && k % 12 == d.month - 1);
    assert forall|m: Date|
        calendar::is_kept(m) && 0 <= calendar::day_number(d) - #[trigger] calendar::day_number(m) <= 6
            && calendar::weekday_of(calendar::day_number(m)) == 0 implies trend::label_of(
        place_of(d, Bucket::Week),
        Bucket::Week,
    ) == text::zero_padded(m.month as int, 2) + "-"@ + text::zero_padded(m.day as int, 2) by {
        calendar::kept_in_range(m);
        calendar::date_on_number(m);
        let n = calendar::day_number(m);
        assert(7 * ((calendar::day_number(d) - 1) / 7) + 1 == n);
    }
}

/// Every day from `start` on has one cell, with its date and the messages that fall on it.
pub open spec fn cells_hold_messages(
    h: Heatmap,
    facts: Seq<MessageFact>,
    times: Seq<Option<LocalTime>>,
    start: int,
) -> bool {
    &&& h.cells@.len() == 7 * h.weeks
    &&& forall|c: int|
        0 <= c < h.cells@.len() ==> (#[trigger] h.cells@[c]).1 == messages_at(facts, times, Bucket::Day, start + c)
            && h.cells@[c].0@ == trend::label_of(start + c, Bucket::Day)
    &&& forall|i: int|
        0 <= i < facts.len() && #[trigger] is_placed(facts, times, i) ==> start <= calendar::day_number(
            times[i]->0.date,
        ) < start + h.cells@.len()
}

/// The first and the last day with a message, which bound the grid.
pub open spec fn bounds_grid(
    h: Heatmap,
    facts: Seq<MessageFact>,
    times: Seq<Option<LocalTime>>,
    start: int,
    i: int,
    j: int,
) -> bool {
    let (a, b) = (calendar::day_number(times[i]->0.date), calendar::day_number(times[j]->0.date));
    &&& 0 <= i < facts.len() && is_placed(facts, times, i)
    &&& 0 <= j < facts.len() && is_placed(facts, times, j)
    &&& a - start <= 6
    &&& start + h.cells@.len() - b <= 7
    &&& h.span_days == b - a + 1
    &&& forall|k: int|
        0 <= k < facts.len() && #[trigger] is_placed(facts, times, k) ==> a <= calendar::day_number(times[k]->0.date)
            <= b
}

/// A grid of days begins with the Monday of the week of the first message and ends with the Sunday of the
/// week of the last; each cell holds the messages of its day, and the largest is the largest of them.
pub proof fn grid_holds_days(h: Heatmap, facts: Seq<MessageFact>, times: Seq<Option<LocalTime>>) -> (start: int)
    requires
        trend::is_heatmap(h, facts, times),
        facts.len() <= i64::MAX,
    ensures
        cells_hold_messages(h, facts, times, start),
        h.weeks > 0 ==> calendar::weekday_of(start) == 0 && exists|i: int, j: int| #[trigger]
            bounds_grid(h, facts, times, start, i, j),
        forall|c: int| 0 <= c < h.cells@.len() ==> (#[trigger] h.cells@[c]).1 <= h.max,
        h.weeks > 0 ==> exists|c: int| 0 <= c < h.cells@.len() && (#[trigger] h.cells@[c]).1 == h.max,
        h.weeks == 0 ==> h.max == 0 && h.active_days == 0 && h.span_days == 0 && h.month_labels@.len() == 0,
{
    let ks = trend::buckets(facts, times, Bucket::Day);
    if ks.len() == 0 {
        assert forall|i: int| 0 <= i < facts.len() implies !#[trigger] is_placed(facts, times, i) by {
            if is_placed(facts, times, i) {
                places_fit(times[i]->0.date, Bucket::Day);
                buckets_counted(facts, times, Bucket::Day, place_of(times[i]->0.date, Bucket::Day) as i64);
            }
        }
        0
    } else {
        let (lo, hi) = choose|lo: i64, hi: i64| trend::grids(h, ks, lo, hi);
        let start = lo - calendar::weekday_of(lo as int);
        let weeks = (hi - start) / 7 + 1;
        let end = start + 7 * weeks - 1;
        let at = days_at(facts, times, lo, hi);
        assert(trend::cell_views(h.cells@).len() == h.cells@.len());
        assert(end <= hi + 6);
        assert(lo <= hi) by {
            let k = ks.index_of(hi);
            assert(lo <= ks[k]);
        }
        assert forall|c: int| 0 <= c < h.cells@.len() implies (#[trigger] h.cells@[c]).1 == messages_at(
            facts,
            times,
            Bucket::Day,
            start + c,
        ) && h.cells@[c].0@ == trend::label_of(start + c, Bucket::Day) by {
            assert(trend::cell_views(h.cells@)[c] == (h.cells@[c].0@, h.cells@[c].1));
            occurrences_counted(facts, times, Bucket::Day, start + c);
        }
        assert(bounds_grid(h, facts, times, start, at.0, at.1));
        let counts = trend::counts_between(ks, start, end);
        seqs::max_of_bounds(counts);
        assert(h.cells@.len() == counts.len());
        assert forall|c: int| 0 <= c < h.cells@.len() implies (#[trigger] h.cells@[c]).1 == counts[c] by {
            assert(trend::cell_views(h.cells@)[c] == (h.cells@[c].0@, h.cells@[c].1));
        }
        assert(counts.contains(h.max));
        let m = counts.index_of(h.max);
        assert(h.cells@[m].1 == h.max);
        start
    }
}

/// Messages on the first and the last day.
proof fn days_at(facts: Seq<MessageFact>, times: Seq<Option<LocalTime>>, lo: i64, hi: i64) -> (at: (int, int))
    requires
        trend::is_lowest(trend::buckets(facts, times, Bucket::Day), lo),
        trend::is_highest(trend::buckets(facts, times, Bucket::Day), hi),
    ensures
        0 <= at.0 < facts.len() && is_placed(facts, times, at.0) && calendar::day_number(times[at.0]->0.date) == lo,
        0 <= at.1 < facts.len() && is_placed(facts, times, at.1) && calendar::day_number(times[at.1]->0.date) == hi,
        forall|k: int|
            0 <= k < facts.len() && #[trigger] is_placed(facts, times, k) ==> lo <= calendar::day_number(
                times[k]->0.date,
            ) <= hi,
        i32::MIN <= lo <= i32::MAX,
        i32::MIN <= hi <= i32::MAX,
{
    let ks = trend::buckets(facts, times, Bucket::Day);
    buckets_counted(facts, times, Bucket::Day, lo);
    buckets_counted(facts, times, Bucket::Day, hi);
    let i = choose|i: int|
        0 <= i < facts.len() && #[trigger] is_placed(facts, times, i) && place_of(times[i]->0.date, Bucket::Day) == lo;
    let j = choose|j: int|
        0 <= j < facts.len() && #[trigger] is_placed(facts, times, j) && place_of(times[j]->0.date, Bucket::Day) == hi;
    assert forall|k: int| 0 <= k < facts.len() && #[trigger] is_placed(facts, times, k) implies lo
        <= calendar::day_number(times[k]->0.date) <= hi by {
        places_fit(times[k]->0.date, Bucket::Day);
        let n = place_of(times[k]->0.date, Bucket::Day) as i64;
        buckets_counted(facts, times, Bucket::Day, n);
        let m = ks.index_of(n);
        assert(lo <= ks[m] <= hi);
    }
    calendar::kept_days_fit();
    calendar::kept_in_range(times[i]->0.date);
    calendar::kept_in_range(times[j]->0.date);
    (i, j)
}

/// The active days of a grid are those on which a message falls.
pub proof fn active_days_hold_messages(h: Heatmap, facts: Seq<MessageFact>, times: Seq<Option<LocalTime>>)
    requires
        trend::is_heatmap(h, facts, times),
    ensures
        h.active_days == Set::new(
            |n: int|
                exists|i: int|
                    0 <= i < facts.len() && #[trigger] is_placed(facts, times, i) && calendar::day_number(
                        times[i]->0.date,
                    ) == n,
        ).len(),
{
    let ks = trend::buckets(facts, times, Bucket::Day);
    let days = Set::new(
        |n: int|
            exists|i: int|
                0 <= i < facts.len() && #[trigger] is_placed(facts, times, i) && calendar::day_number(times[i]->0.date)
                    == n,
    );
    let dom = ordered::tally(ks).dom();
    ordered::tally_size(ks);
    if ks.len() == 0 {
        assert(dom =~= Set::empty());
    }
    let f = |k: i64| k as int;
    assert forall|n: int| days.contains(n) implies dom.map(f).contains(n) by {
        let i = choose|i: int|
            0 <= i < facts.len() && #[trigger] is_placed(facts, times, i) && calendar::day_number(times[i]->0.date) == n;
        places_fit(times[i]->0.date, Bucket::Day);
        buckets_counted(facts, times, Bucket::Day, n as i64);
        assert(dom.contains(n as i64) && f(n as i64) == n);
    }
    assert forall|n: int| dom.map(f).contains(n) implies days.contains(n) by {
        let k = choose|k: i64| dom.contains(k) && f(k) == n;
        buckets_counted(facts, times, Bucket::Day, k);
    }
    assert(days =~= dom.map(f));
    vstd::set_lib::lemma_map_size(dom, dom.map(f), f);
}

/// A column is marked where a month begins in it: some day of its seven is the first of a month, and the
/// last such day gives the name. The marks come in the order of the columns.
pub proof fn months_are_marked(start: int, weeks: nat)
    requires
        weeks <= usize::MAX,
    ensures
        forall|k: int|
            0 <= k < trend::month_marks(start, weeks).len() ==> (#[trigger] trend::month_marks(start, weeks)[k]).0 < weeks
                && names_month(trend::month_marks(start, weeks)[k], start),
        forall|k: int, l: int|
            0 <= k < l < trend::month_marks(start, weeks).len() ==> (#[trigger] trend::month_marks(start, weeks)[k]).0 < (
            #[trigger] trend::month_marks(start, weeks)[l]).0,
        forall|w: int, n: int|
            0 <= w < weeks && #[trigger] begins_month(n, start + 7 * w) ==> exists|k: int|
                0 <= k < trend::month_marks(start, weeks).len() && (#[trigger] trend::month_marks(start, weeks)[k]).0
                    == w,
    decreases weeks,
{
    if weeks > 0 {
        let e = (weeks - 1) as nat;
        months_are_marked(start, e);
        let before = trend::month_marks(start, e);
        let now = trend::month_marks(start, weeks);
        month_found(start + 7 * e, 7);
        assert forall|k: int| 0 <= k < before.len() implies #[trigger] now[k] == before[k] by {}
        assert forall|k: int| 0 <= k < now.len() implies (#[trigger] now[k]).0 < weeks && names_month(now[k], start) by {
            if k < before.len() {
                assert(now[k] == before[k]);
            } else {
                let n = choose|n: int|
                    start + 7 * e <= n < start + 7 * e + 7 && #[trigger] is_first(n) && trend::month_begun(
                        start + 7 * e,
                        7,
                    ) == Some(calendar::date_on(n).month as int) && forall|x: int|
                        n < x < start + 7 * e + 7 ==> !#[trigger] is_first(x);
                assert(begins_month(n, start + 7 * now[k].0));
            }
        }
        assert forall|w: int, n: int| 0 <= w < weeks && #[trigger] begins_month(n, start + 7 * w) implies exists|k: int|
            0 <= k < now.len() && (#[trigger] now[k]).0 == w by {
            if w < e {
                let k = choose|k: int| 0 <= k < before.len() && (#[trigger] before[k]).0 == w;
                assert(now[k].0 == w);
            } else {
                assert(now[before.len() as int].0 == w);
            }
        }
    }
}

/// A mark names the month that begins in its column; the first column begins with the day `start`.
pub open spec fn names_month(mark: (usize, Seq<char>), start: int) -> bool {
    exists|n: int| #[trigger]
        begins_month(n, start + 7 * mark.0) && mark.1 == text::numeral(calendar::date_on(n).month as int) + "月"@
}

/// The day with number `n` is one of the seven from `from` on, and the last of them that begins a month.
pub open spec fn begins_month(n: int, from: int) -> bool {
    &&& from <= n < from + 7
    &&& is_first(n)
    &&& forall|m: int| n < m < from + 7 ==> !#[trigger] is_first(m)
}

/// The day with number `n` is kept and is the first of a month.
pub open spec fn is_first(n: int) -> bool {
    calendar::first_day() <= n <= calendar::last_day() && calendar::date_on(n).day == 1
}

proof fn month_found(from: int, k: nat)
    ensures
        match trend::month_begun(from, k) {
            Some(m) => exists|n: int|
                from <= n < from + k && #[trigger] is_first(n) && m == calendar::date_on(n).month && forall|x: int|
                    n < x < from + k ==> !#[trigger] is_first(x),
            None => forall|n: int| from <= n < from + k ==> !#[trigger] is_first(n),
        },
    decreases k,
{
    if k > 0 {
        month_found(from, (k - 1) as nat);
        let day = from + k - 1;
        if is_first(day) {
            assert(trend::month_begun(from, k) == Some(calendar::date_on(day).month as int));
        }
    }
}

/// The largest count is drawn as a full block and zero as a dot; of two counts the larger is drawn no
/// lower.
pub proof fn larger_counts_are_drawn_higher(c: int, d: int, max: int)
    requires
        0 <= c <= d <= max,
        max > 0,
    ensures
        trend::spark(0, max) == '·',
        trend::spark(max, max) == '█',
        c > 0 ==> exists|i: int, j: int|
            0 <= i <= j <= 7 && trend::spark(c, max) == #[trigger] block(i) && trend::spark(d, max)
                == #[trigger] block(j),
        trend::spark(0, 0) == '·',
{
    let w = double::of(max);
    let n = double::of(7);
    double::counts_are_exact(7);
    double::nearest_is_number(max, 1);
    double::quotient_of_equals(w);
    double::one_times(n);
    if c > 0 {
        double::nearest_is_number(c, 1);
        double::nearest_is_number(d, 1);
        double::nearest_grows(c, d, 1);
        let (x, y) = (double::of(c), double::of(d));
        double::quotients_grow(x, y, w);
        double::quotients_grow(y, y, w);
        let (p, q) = (double::quotient(x, w), double::quotient(y, w));
        double::products_grow(p, q, n);
        double::products_grow(q, q, n);
        double::rounding_keeps_order(double::product(p, n), double::product(q, n));
        let i = double::up_to(double::rounded(double::product(p, n)), 7);
        let j = double::up_to(double::rounded(double::product(q, n)), 7);
        assert(trend::spark(c, max) == block(i));
        assert(trend::spark(d, max) == block(j));
    }
}

/// A count is drawn as the block that is nearest to its share of seven steps. For counts of up to two to
/// the 32nd.
pub proof fn counts_are_drawn_to_scale(c: int, max: int, i: int)
    requires
        0 < c <= max <= 0x1_0000_0000,
        0 <= i <= 7,
        (2 * i - 1) * max < 14 * c < (2 * i + 1) * max,
    ensures
        trend::spark(c, max) == block(i),
{
    larger_counts_are_drawn_higher(c, c, max);
    assert(2 * (7 * c) == 14 * c);
    if i > 0 {
        double::share_rounds_to_nearest(c, max, 7, i);
    }
    if i < 7 {
        double::share_rounds_to_nearest(c, max, 7, i + 1);
        assert(2 * (i + 1) - 1 == 2 * i + 1);
    }
    let x = double::rounded(
        double::product(double::quotient(double::of(c), double::of(max)), double::of(7)),
    );
    assert(x >= 0) by {
        double::nearest_is_number(c, 1);
        double::nearest_is_number(max, 1);
        double::counts_are_exact(7);
        double::quotients_grow(double::of(c), double::of(c), double::of(max));
        let p = double::quotient(double::of(c), double::of(max));
        double::products_grow(p, p, double::of(7));
        double::rounding_keeps_order(double::product(p, double::of(7)), double::product(p, double::of(7)));
    }
    assert(double::up_to(x, 7) == i);
}

/// The eight blocks, from the lowest to the full one.
pub open spec fn block(i: int) -> char {
    if i == 0 {
        '▁'
    } else if i == 1 {
        '▂'
    } else if i == 2 {
        '▃'
    } else if i == 3 {
        '▄'
    } else if i == 4 {
        '▅'
    } else if i == 5 {
        '▆'
    } else if i == 6 {
        '▇'
    } else {
        '█'
    }
}

}
