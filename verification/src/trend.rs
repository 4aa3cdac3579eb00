//! How busy a conversation is over time: by week, by month and day by day.

use vstd::prelude::*;
use vstd::string::*;

use crate::calendar;
use crate::calendar::LocalTime;
use crate::double;
use crate::double::Double;
use crate::model::MessageFact;
use crate::ordered;
use crate::ordered::SortedMap;
use crate::seqs;
use crate::text;
use crate::timeline;

verus! {

/// The messages of one week or month.
pub struct TrendPoint {
    /// Month and day of the Monday, or year and month.
    pub label: String,
    pub count: i64,
}

/// The weeks or months from the first to the last that holds a message.
pub struct TrendSeries {
    pub kind: &'static str,
    pub points: Vec<TrendPoint>,
    pub total: i64,
    pub peak: Option<TrendPoint>,
    /// Whether the conversation warms up, stays level, cools down, or cannot be told.
    pub tag: &'static str,
}

/// What a series is cut into.
#[derive(Clone, Copy, PartialEq, Eq, Structural)]
pub enum Bucket {
    Day,
    Week,
    Month,
}

/// The index of the day, week or month of a date: weeks begin on Monday.
pub open spec fn index_of(d: calendar::Date, b: Bucket) -> int {
    match b {
        Bucket::Day => calendar::day_number(d),
        Bucket::Week => (calendar::day_number(d) - 1) / 7,
        Bucket::Month => d.year * 12 + d.month - 1,
    }
}

/// The index of the day, week or month of a message with a time on a kept day.
pub open spec fn bucket_of(f: MessageFact, t: Option<LocalTime>, b: Bucket) -> Option<int> {
    if timeline::is_dated(f) && t is Some && calendar::is_kept(t->0.date) {
        Some(index_of(t->0.date, b))
    } else {
        None
    }
}

/// The indexes of the messages that have one, in the order of the messages.
pub open spec fn buckets(facts: Seq<MessageFact>, times: Seq<Option<LocalTime>>, b: Bucket) -> Seq<i64>
    decreases facts.len(),
{
    if facts.len() == 0 {
        Seq::empty()
    } else {
        let before = buckets(facts.drop_last(), times, b);
        match bucket_of(facts.last(), times[facts.len() - 1], b) {
            Some(k) => before.push(k as i64),
            None => before,
        }
    }
}

proof fn buckets_at_most(facts: Seq<MessageFact>, times: Seq<Option<LocalTime>>, b: Bucket)
    ensures
        buckets(facts, times, b).len() <= facts.len(),
    decreases facts.len(),
{
    if facts.len() > 0 {
        buckets_at_most(facts.drop_last(), times, b);
    }
}

/// How often `k` stands in `ks`.
pub open spec fn occurrences(ks: Seq<i64>, k: int) -> int {
    if ordered::tally(ks).contains_key(k as i64) {
        ordered::tally(ks)[k as i64] as int
    } else {
        0
    }
}

/// The label of a day, week or month: the date, month and day of the Monday, or year and month.
/// Days that are not kept have none.
pub open spec fn label_of(k: int, b: Bucket) -> Seq<char> {
    match b {
        Bucket::Day => if calendar::first_day() <= k <= calendar::last_day() {
            calendar::date_text(calendar::date_on(k))
        } else {
            Seq::empty()
        },
        Bucket::Week => if calendar::first_day() <= 7 * k + 1 <= calendar::last_day() {
            let d = calendar::date_on(7 * k + 1);
            text::zero_padded(d.month as int, 2) + "-"@ + text::zero_padded(d.day as int, 2)
        } else {
            Seq::empty()
        },
        Bucket::Month => calendar::year_text(k / 12) + "-"@ + text::zero_padded(k % 12 + 1, 2),
    }
}

/// The points as label and count.
pub open spec fn point_views(points: Seq<TrendPoint>) -> Seq<(Seq<char>, i64)> {
    points.map_values(|p: TrendPoint| (p.label@, p.count))
}

/// The counts of the points.
pub open spec fn counts(points: Seq<TrendPoint>) -> Seq<i64> {
    points.map_values(|p: TrendPoint| p.count)
}

/// `lo` is the smallest number of `ks`.
pub open spec fn is_lowest(ks: Seq<i64>, lo: i64) -> bool {
    ks.contains(lo) && forall|i: int| 0 <= i < ks.len() ==> lo <= #[trigger] ks[i]
}

/// `hi` is the largest number of `ks`.
pub open spec fn is_highest(ks: Seq<i64>, hi: i64) -> bool {
    ks.contains(hi) && forall|i: int| 0 <= i < ks.len() ==> #[trigger] ks[i] <= hi
}

/// One point for every index from `lo` to `hi`, also where no message falls.
pub open spec fn points_between(ks: Seq<i64>, b: Bucket, lo: int, hi: int) -> Seq<(Seq<char>, i64)> {
    Seq::new((hi - lo + 1) as nat, |i: int| (label_of(lo + i, b), occurrences(ks, lo + i) as i64))
}

/// The point at `i` is the last of those with the largest count.
pub open spec fn peaks_at(points: Seq<(Seq<char>, i64)>, i: int) -> bool {
    &&& 0 <= i < points.len()
    &&& forall|j: int| 0 <= j < points.len() ==> (#[trigger] points[j]).1 <= points[i].1
    &&& forall|j: int| i < j < points.len() ==> (#[trigger] points[j]).1 < points[i].1
}

/// The tag of a course of counts: the later half against the earlier one, in double precision. Less
/// than three fifths is cooling down, more than seven fifths is warming up.
pub open spec fn tag_of(c: Seq<i64>) -> Seq<char> {
    let half = c.len() as int / 2;
    let first = seqs::sum(c.take(half));
    let second = seqs::sum(c.skip(half));
    let share = double::quotient(double::of(double::magnitude(second)), double::of(double::magnitude(first)));
    if c.len() < 4 {
        "未知"@
    } else if first == 0 {
        if second > 0 {
            "升温"@
        } else {
            "未知"@
        }
    } else if (first < 0) != (second < 0) && second != 0 {
        "降温"@
    } else if double::less(share, double::nearest(3, 5)) {
        "降温"@
    } else if double::less(double::nearest(7, 5), share) {
        "升温"@
    } else {
        "平稳"@
    }
}

/// Adds up the counts of the points `from..to`.
fn sum_between(points: &Vec<TrendPoint>, from: usize, to: usize) -> (r: i128)
    requires
        from <= to <= points@.len(),
        points@.len() <= i64::MAX,
    ensures
        r == seqs::sum(counts(points@).subrange(from as int, to as int)),
{
    let ghost part = counts(points@).subrange(from as int, to as int);
    let mut r: i128 = 0;
    let mut i: usize = from;
    while i < to
        invariant
            from <= i <= to <= points@.len(),
            points@.len() <= i64::MAX,
            part == counts(points@).subrange(from as int, to as int),
            r == seqs::sum(part.take(i - from)),
            i64::MIN * (i - from) <= r <= i64::MAX * (i - from),
        decreases to - i,
    {
        proof {
            seqs::sum_step(part, i - from);
            assert(part[i - from] == points@[i as int].count);
            let k = i - from;
            assert(i64::MIN * (k + 1) == i64::MIN * k + i64::MIN) by (nonlinear_arith);
            assert(i64::MAX * (k + 1) == i64::MAX * k + i64::MAX) by (nonlinear_arith);
            assert(i64::MIN * k >= i64::MIN * i64::MAX) by (nonlinear_arith)
                requires
                    0 <= k <= i64::MAX,
            ;
            assert(i64::MAX * k <= i64::MAX * i64::MAX) by (nonlinear_arith)
                requires
                    0 <= k <= i64::MAX,
            ;
        }
        r = r + points[i].count as i128;
        i = i + 1;
    }
    assert(part.take(to - from) =~= part);
    r
}

/// The course of the points: the later half against the earlier one.
pub fn trajectory(points: &Vec<TrendPoint>) -> (tag: &'static str)
    requires
        points@.len() <= i64::MAX,
        i64::MIN <= seqs::sum(counts(points@).take(points@.len() as int / 2)) <= i64::MAX,
        i64::MIN <= seqs::sum(counts(points@).skip(points@.len() as int / 2)) <= i64::MAX,
    ensures
        tag@ == tag_of(counts(points@)),
{
    let n = points.len();
    if n < 4 {
        return "未知";
    }
    let half: usize = n / 2;
    proof {
        let c = counts(points@);
        assert(c.take(half as int) =~= c.subrange(0, half as int));
        assert(c.skip(half as int) =~= c.subrange(half as int, n as int));
    }
    let first: i128 = sum_between(points, 0, half);
    let second: i128 = sum_between(points, half, n);
    if first == 0 {
        return if second > 0 {
            "升温"
        } else {
            "未知"
        };
    }
    if (first < 0) != (second < 0) && second != 0 {
        return "降温";
    }
    proof {
        double::nearest_is_number(double::magnitude(first as int), 1);
    }
    let share = Double::count(double::magnitude_of(second as i64)).over(Double::count(double::magnitude_of(first as i64)));
    if share.is_less(Double::fraction(3, 5)) {
        "降温"
    } else if Double::fraction(7, 5).is_less(share) {
        "升温"
    } else {
        "平稳"
    }
}

/// The index of the week or month of a date, where it is kept.
fn bucket_index(d: &calendar::Date, b: Bucket) -> (k: Option<i64>)
    ensures
        match k {
            Some(k) => calendar::is_kept(*d) && k == index_of(*d, b) && -0x8000_0000 <= k <= 0x8000_0000,
            None => !calendar::is_kept(*d),
        },
{
    proof {
        calendar::kept_days_fit();
    }
    match calendar::number_of(d.year, d.month, d.day) {
        Some(n) => match b {
            Bucket::Day => Some(n),
            Bucket::Week => {
                let m: i64 = n - 1;
                Some(
                    if m >= 0 {
                        m / 7
                    } else {
                        -((-m + 6) / 7)
                    },
                )
            },
            Bucket::Month => Some(d.year as i64 * 12 + d.month as i64 - 1),
        },
        None => None,
    }
}

/// The numbers all lie in the range of indexes.
spec fn in_index_range(ks: Seq<i64>) -> bool {
    forall|i: int| 0 <= i < ks.len() ==> -0x8000_0000 <= #[trigger] ks[i] <= 0x8000_0000
}

/// Counts the messages of every week or month.
fn count_buckets(facts: &[MessageFact], times: &Vec<Option<LocalTime>>, b: Bucket) -> (r: (
    SortedMap<i64, i64>,
    i64,
))
    requires
        facts@.len() <= i64::MAX,
        times@.len() == facts@.len(),
    ensures
        r.0.wf(),
        r.0.map() == ordered::tally(buckets(facts@, times@, b)),
        r.1 == buckets(facts@, times@, b).len(),
        in_index_range(buckets(facts@, times@, b)),
{
    let mut tallied: SortedMap<i64, i64> = SortedMap::new();
    let mut total: i64 = 0;
    let mut i: usize = 0;
    assert(tallied.map() =~= ordered::tally(buckets(facts@.take(0), times@, b)));
    while i < facts.len()
        invariant
            i <= facts@.len() <= i64::MAX,
            times@.len() == facts@.len(),
            tallied.wf(),
            tallied.map() == ordered::tally(buckets(facts@.take(i as int), times@, b)),
            total == buckets(facts@.take(i as int), times@, b).len(),
            total <= i,
            in_index_range(buckets(facts@.take(i as int), times@, b)),
        decreases facts@.len() - i,
    {
        let ghost before = buckets(facts@.take(i as int), times@, b);
        assert(facts@.take(i + 1).drop_last() =~= facts@.take(i as int));
        if facts[i].create_time > 0 {
            if let Some(t) = times[i] {
                if let Some(k) = bucket_index(&t.date, b) {
                    tallied.count(k, Ghost(before));
                    total = total + 1;
                    assert(buckets(facts@.take(i + 1), times@, b) == before.push(k));
                }
            }
        }
        i = i + 1;
    }
    assert(facts@.take(i as int) =~= facts@);
    (tallied, total)
}

/// The label of the week or month with index `k`.
fn label_for(k: i64, b: Bucket) -> (label: String)
    requires
        -0x1_0000_0000 <= k <= 0x1_0000_0000,
    ensures
        label@ == label_of(k as int, b),
{
    match b {
        Bucket::Day => match calendar::date_of_number(k) {
            Some(d) => calendar::date_text_of(&d),
            None => {
                let label = String::new();
                assert(label@ =~= Seq::empty());
                label
            },
        },
        Bucket::Week => match calendar::date_of_number(7 * k + 1) {
            Some(d) => {
                let mut label = text::zero_padded_of(d.month as i64, 2);
                label.append("-");
                label.append(text::zero_padded_of(d.day as i64, 2).as_str());
                label
            },
            None => {
                let label = String::new();
                assert(label@ =~= Seq::empty());
                label
            },
        },
        Bucket::Month => {
            let low: i64 = k % 12;
            let month: i64 = if low < 0 {
                low + 13
            } else {
                low + 1
            };
            let year: i64 = if low < 0 {
                k / 12 - 1
            } else {
                k / 12
            };
            let mut label = calendar::year_text_of(year);
            label.append("-");
            label.append(text::zero_padded_of(month, 2).as_str());
            label
        },
    }
}

/// The counts from `lo` to `hi`.
pub open spec fn counts_between(ks: Seq<i64>, lo: int, hi: int) -> Seq<i64> {
    Seq::new((hi - lo + 1) as nat, |i: int| occurrences(ks, lo + i) as i64)
}

/// The counts between the lowest and the highest index add up to all messages that are counted.
pub proof fn counts_add_up(ks: Seq<i64>, lo: int, hi: int)
    requires
        ks.len() <= i64::MAX,
        i64::MIN <= lo,
        hi <= i64::MAX,
        forall|i: int| 0 <= i < ks.len() ==> lo <= #[trigger] ks[i] <= hi,
    ensures
        seqs::sum(counts_between(ks, lo, hi)) == ks.len(),
        forall|k: int| lo <= k <= hi ==> 0 <= #[trigger] occurrences(ks, k) <= ks.len(),
    decreases ks.len(),
{
    let now = counts_between(ks, lo, hi);
    if ks.len() == 0 {
        assert forall|i: int| 0 <= i < now.len() implies #[trigger] now[i] == 0 by {
            assert(!ks.contains((lo + i) as i64));
        }
        seqs::sum_zeros(now);
    } else {
        let less = ks.drop_last();
        let x = ks.last();
        assert forall|i: int| 0 <= i < less.len() implies lo <= #[trigger] less[i] <= hi by {
            assert(less[i] == ks[i]);
        }
        counts_add_up(less, lo, hi);
        assert(lo <= ks[ks.len() - 1] <= hi);
        assert(ks =~= less.push(x));
        ordered::tally_push(less, x);
        let before = counts_between(less, lo, hi);
        assert(occurrences(ks, x as int) == occurrences(less, x as int) + 1);
        assert forall|k: int| lo <= k <= hi && k != x implies #[trigger] occurrences(ks, k) == occurrences(less, k) by {
            assert(k as i64 != x);
        }
        assert(now =~= before.update(x - lo, (before[x - lo] + 1) as i64));
        seqs::sum_update(before, x - lo, (before[x - lo] + 1) as i64);
    }
}

/// `out` is `points` without the zeros at either end.
pub open spec fn trimmed(points: Seq<TrendPoint>, out: Seq<TrendPoint>) -> bool {
    exists|a: int, b: int|
        0 <= a <= b <= points.len() && out == #[trigger] points.subrange(a, b) && (forall|i: int|
            0 <= i < a ==> (#[trigger] points[i]).count == 0) && (forall|i: int|
            b <= i < points.len() ==> (#[trigger] points[i]).count == 0) && (a < b ==> points[a].count != 0
            && points[b - 1].count != 0)
}

/// Drops the points without messages at either end.
pub fn trim_zero_ends(points: Vec<TrendPoint>) -> (out: Vec<TrendPoint>)
    ensures
        trimmed(points@, out@),
{
    let ghost all = points@;
    let mut out = points;
    let ghost mut a: int = 0;
    assert(all.subrange(0, all.len() as int) =~= all);
    while out.len() > 0 && out[0].count == 0
        invariant
            0 <= a <= all.len(),
            out@ == all.subrange(a, all.len() as int),
            forall|i: int| 0 <= i < a ==> (#[trigger] all[i]).count == 0,
        decreases out@.len(),
    {
        let _first = out.remove(0);
        proof {
            a = a + 1;
            assert(out@ =~= all.subrange(a, all.len() as int));
        }
    }
    let ghost mut b: int = all.len() as int;
    while out.len() > 0 && out[out.len() - 1].count == 0
        invariant
            0 <= a <= b <= all.len(),
            out@ == all.subrange(a, b),
            forall|i: int| 0 <= i < a ==> (#[trigger] all[i]).count == 0,
            forall|i: int| b <= i < all.len() ==> (#[trigger] all[i]).count == 0,
            a < b ==> all[a].count != 0,
        decreases out@.len(),
    {
        let _last = out.pop();
        proof {
            b = b - 1;
            assert(out@ =~= all.subrange(a, b));
        }
    }
    out
}

/// The name of what a series is cut into.
pub open spec fn kind_of(b: Bucket) -> Seq<char> {
    match b {
        Bucket::Day => "日"@,
        Bucket::Week => "周"@,
        Bucket::Month => "月"@,
    }
}

/// The series of messages with indexes between `lo` and `hi`.
pub open spec fn covers(s: TrendSeries, ks: Seq<i64>, b: Bucket, lo: i64, hi: i64) -> bool {
    let points = points_between(ks, b, lo as int, hi as int);
    &&& is_lowest(ks, lo)
    &&& is_highest(ks, hi)
    &&& point_views(s.points@) == points
    &&& s.peak is Some
    &&& exists|i: int| #[trigger] peaks_at(points, i) && points[i] == (s.peak->0.label@, s.peak->0.count)
    &&& s.tag@ == tag_of(counts_between(ks, lo as int, hi as int))
}

/// `s` is the series of the messages, given the local time of each.
pub open spec fn is_series(
    s: TrendSeries,
    facts: Seq<MessageFact>,
    times: Seq<Option<LocalTime>>,
    b: Bucket,
) -> bool {
    let ks = buckets(facts, times, b);
    &&& s.kind@ == kind_of(b)
    &&& s.total == ks.len()
    &&& if ks.len() == 0 {
        s.points@.len() == 0 && s.peak is None && s.tag@ == "未知"@
    } else {
        exists|lo: i64, hi: i64| covers(s, ks, b, lo, hi)
    }
}

/// The last of the points with the largest count.
fn peak_position(points: &Vec<TrendPoint>) -> (at: usize)
    requires
        points@.len() > 0,
    ensures
        peaks_at(point_views(points@), at as int),
{
    let ghost views = point_views(points@);
    let mut at: usize = 0;
    let mut i: usize = 1;
    while i < points.len()
        invariant
            1 <= i <= points@.len(),
            at < i,
            views == point_views(points@),
            forall|j: int| 0 <= j < i ==> (#[trigger] views[j]).1 <= views[at as int].1,
            forall|j: int| at < j < i ==> (#[trigger] views[j]).1 < views[at as int].1,
        decreases points@.len() - i,
    {
        assert(views[i as int].1 == points@[i as int].count);
        assert(views[at as int].1 == points@[at as int].count);
        if points[i].count >= points[at].count {
            at = i;
        }
        i = i + 1;
    }
    at
}

/// The lowest and the highest key of a tally.
fn key_range(tallied: &SortedMap<i64, i64>, Ghost(ks): Ghost<Seq<i64>>) -> (r: (i64, i64))
    requires
        tallied.wf(),
        tallied.map() == ordered::tally(ks),
        ks.len() > 0,
    ensures
        is_lowest(ks, r.0),
        is_highest(ks, r.1),
{
    let entries = tallied.pairs();
    let ghost rows = ordered::keyed(entries@);
    proof {
        assert(ks.contains(ks[0]));
        assert(ordered::tally(ks).contains_key(ks[0]));
        assert(entries@.len() > 0);
        let n = rows.len() as int;
        assert(rows[0].0 == entries@[0].0);
        assert(rows[n - 1].0 == entries@[n - 1].0);
        assert forall|i: int| 0 <= i < ks.len() implies rows[0].0 <= #[trigger] ks[i] <= rows[n - 1].0 by {
            assert(ks.contains(ks[i]));
            assert(ordered::tally(ks).contains_key(ks[i]));
            let j = choose|j: int| 0 <= j < rows.len() && rows[j].0 == ks[i];
            if j > 0 {
                assert(<i64 as ordered::Key>::before(rows[0].0, rows[j].0));
            }
            if j < n - 1 {
                assert(<i64 as ordered::Key>::before(rows[j].0, rows[n - 1].0));
            }
        }
        assert(ordered::tally(ks).contains_pair(rows[0].0, rows[0].1));
        assert(ordered::tally(ks).contains_pair(rows[n - 1].0, rows[n - 1].1));
    }
    let n = entries.len();
    (entries[0].0, entries[n - 1].0)
}

/// One point for every index from `lo` to `hi`.
fn fill_points(tallied: &SortedMap<i64, i64>, b: Bucket, lo: i64, hi: i64, Ghost(ks): Ghost<Seq<i64>>) -> (points: Vec<
    TrendPoint,
>)
    requires
        tallied.wf(),
        tallied.map() == ordered::tally(ks),
        -0x1_0000_0000 <= lo <= hi <= 0x1_0000_0000,
    ensures
        point_views(points@) == points_between(ks, b, lo as int, hi as int),
{
    let mut points: Vec<TrendPoint> = Vec::new();
    let mut k: i64 = lo;
    while k <= hi
        invariant
            tallied.wf(),
            tallied.map() == ordered::tally(ks),
            -0x1_0000_0000 <= lo <= k <= hi + 1,
            hi <= 0x1_0000_0000,
            point_views(points@) == points_between(ks, b, lo as int, k - 1),
        decreases hi - k + 1,
    {
        let count: i64 = match tallied.get(&k) {
            Some(c) => *c,
            None => 0,
        };
        let ghost before = points@;
        let label = label_for(k, b);
        let ghost shown = label@;
        points.push(TrendPoint { label, count });
        proof {
            assert(occurrences(ks, k as int) == count);
            assert(point_views(points@) =~= point_views(before).push((shown, count)));
            assert(points_between(ks, b, lo as int, k as int) =~= points_between(ks, b, lo as int, k - 1).push(
                (label_of(k as int, b), count),
            ));
        }
        k = k + 1;
    }
    points
}

/// The points from the first index to the last hold the counts, and each half adds up to no more than
/// all messages.
proof fn halves_fit(points: Seq<TrendPoint>, ks: Seq<i64>, b: Bucket, lo: i64, hi: i64)
    requires
        ks.len() <= i64::MAX,
        lo <= hi,
        is_lowest(ks, lo),
        is_highest(ks, hi),
        point_views(points) == points_between(ks, b, lo as int, hi as int),
    ensures
        counts(points) == counts_between(ks, lo as int, hi as int),
        0 <= seqs::sum(counts(points).take(points.len() as int / 2)) <= ks.len(),
        0 <= seqs::sum(counts(points).skip(points.len() as int / 2)) <= ks.len(),
{
    counts_add_up(ks, lo as int, hi as int);
    let views = points_between(ks, b, lo as int, hi as int);
    let c = counts_between(ks, lo as int, hi as int);
    assert(point_views(points).len() == points.len());
    assert forall|i: int| 0 <= i < c.len() implies #[trigger] counts(points)[i] == c[i] by {
        assert(point_views(points)[i] == (points[i].label@, points[i].count));
        assert(views[i] == (label_of(lo + i, b), occurrences(ks, lo + i) as i64));
    }
    assert(counts(points) =~= c);
    assert forall|i: int| 0 <= i < c.len() implies #[trigger] c[i] >= 0 by {
        assert(occurrences(ks, lo + i) >= 0);
    }
    let half = points.len() as int / 2;
    seqs::sum_grows(c, half);
    seqs::sum_of_parts(c.take(half), c.skip(half));
    assert(c.take(half) + c.skip(half) =~= c);
}

/// The first and the last point hold a message, so nothing is cut off their ends.
proof fn nothing_is_cut(all: Seq<TrendPoint>, kept: Seq<TrendPoint>, ks: Seq<i64>, b: Bucket, lo: i64, hi: i64)
    requires
        ks.len() <= i64::MAX,
        lo <= hi,
        is_lowest(ks, lo),
        is_highest(ks, hi),
        point_views(all) == points_between(ks, b, lo as int, hi as int),
        trimmed(all, kept),
    ensures
        kept == all,
{
    let views = points_between(ks, b, lo as int, hi as int);
    let n = all.len() as int;
    assert(point_views(all).len() == n);
    assert(point_views(all)[0] == views[0]);
    assert(point_views(all)[n - 1] == views[n - 1]);
    ordered::tally_holds(ks, lo);
    ordered::tally_holds(ks, hi);
    let (x, y) = choose|x: int, y: int|
        0 <= x <= y <= all.len() && kept == #[trigger] all.subrange(x, y) && (forall|i: int|
            0 <= i < x ==> (#[trigger] all[i]).count == 0) && (forall|i: int|
            y <= i < all.len() ==> (#[trigger] all[i]).count == 0) && (x < y ==> all[x].count != 0
            && all[y - 1].count != 0);
    assert(all[0].count != 0);
    assert(all[n - 1].count != 0);
    assert(x == 0 && y == n);
    assert(kept =~= all);
}

/// The series of the messages, given the local time of each.
pub fn series_at(facts: &[MessageFact], times: &Vec<Option<LocalTime>>, b: Bucket) -> (s: TrendSeries)
    requires
        facts@.len() <= i64::MAX,
        times@.len() == facts@.len(),
    ensures
        is_series(s, facts@, times@, b),
{
    let kind = match b {
        Bucket::Day => "日",
        Bucket::Week => "周",
        Bucket::Month => "月",
    };
    let ghost ks = buckets(facts@, times@, b);
    let (tallied, total) = count_buckets(facts, times, b);
    if total == 0 {
        return TrendSeries { kind, points: Vec::new(), total: 0, peak: None, tag: "未知" };
    }
    proof {
        buckets_at_most(facts@, times@, b);
    }
    let (lo, hi) = key_range(&tallied, Ghost(ks));
    proof {
        let a = ks.index_of(lo);
        let z = ks.index_of(hi);
        assert(-0x8000_0000 <= ks[a] <= 0x8000_0000);
        assert(-0x8000_0000 <= ks[z] <= 0x8000_0000);
        assert(lo <= ks[z]);
    }
    let points = fill_points(&tallied, b, lo, hi, Ghost(ks));
    proof {
        halves_fit(points@, ks, b, lo, hi);
        assert(point_views(points@).len() == points@.len());
    }
    let tag = trajectory(&points);
    let at = peak_position(&points);
    let peak = TrendPoint { label: points[at].label.clone(), count: points[at].count };
    let ghost all = points@;
    assert(point_views(all)[at as int] == (peak.label@, peak.count));
    let points = trim_zero_ends(points);
    proof {
        nothing_is_cut(all, points@, ks, b, lo, hi);
    }
    let s = TrendSeries { kind, points, total, peak: Some(peak), tag };
    assert(covers(s, ks, b, lo, hi));
    s
}

/// The weeks of a conversation, from Monday to Sunday; weeks without messages count zero.
pub fn weekly(facts: &[MessageFact]) -> (s: TrendSeries)
    requires
        facts@.len() <= i64::MAX,
    ensures
        exists|times: Seq<Option<LocalTime>>| #[trigger]
            timeline::clock_readings(facts@, times) && is_series(s, facts@, times, Bucket::Week),
{
    let times = timeline::read_clock(facts);
    series_at(facts, &times, Bucket::Week)
}

/// The months of a conversation; months without messages count zero.
pub fn monthly(facts: &[MessageFact]) -> (s: TrendSeries)
    requires
        facts@.len() <= i64::MAX,
    ensures
        exists|times: Seq<Option<LocalTime>>| #[trigger]
            timeline::clock_readings(facts@, times) && is_series(s, facts@, times, Bucket::Month),
{
    let times = timeline::read_clock(facts);
    series_at(facts, &times, Bucket::Month)
}

/// The blocks of a spark line, from the lowest to the highest.
pub open spec fn spark_blocks() -> Seq<char> {
    seq!['▁', '▂', '▃', '▄', '▅', '▆', '▇', '█']
}

/// The character for a count: a dot for zero, else the block for its share of `max` in double
/// precision, rounded to the nearest of seven steps.
pub open spec fn spark(c: int, max: int) -> char {
    if c == 0 || max == 0 {
        '·'
    } else if (c < 0) != (max < 0) {
        spark_blocks()[0]
    } else {
        spark_blocks()[double::up_to(
            double::rounded(
                double::product(
                    double::quotient(double::of(double::magnitude(c)), double::of(double::magnitude(max))),
                    double::of(7),
                ),
            ),
            7,
        )]
    }
}

/// Draws counts as a line of blocks.
pub fn sparkline(counts: &[i64]) -> (line: String)
    ensures
        line@ == counts@.map_values(|c: i64| spark(c as int, seqs::max_of(counts@) as int)),
{
    let blocks: [char; 8] = ['▁', '▂', '▃', '▄', '▅', '▆', '▇', '█'];
    let max = seqs::largest(counts);
    let mut line = String::new();
    let mut i: usize = 0;
    while i < counts.len()
        invariant
            i <= counts@.len(),
            max == seqs::max_of(counts@),
            blocks@ == spark_blocks(),
            line@ == counts@.take(i as int).map_values(|c: i64| spark(c as int, max as int)),
        decreases counts@.len() - i,
    {
        let c: i64 = counts[i];
        let block: char = if c == 0 || max == 0 {
            '·'
        } else if (c < 0) != (max < 0) {
            blocks[0]
        } else {
            proof {
                double::nearest_is_number(double::magnitude(max as int), 1);
            }
            let share = Double::count(double::magnitude_of(c)).over(Double::count(double::magnitude_of(max)));
            blocks[share.times(Double::count(7)).rounded_up_to(7) as usize]
        };
        line.push(block);
        assert(counts@.take(i + 1).map_values(|c: i64| spark(c as int, max as int)) =~= counts@.take(
            i as int,
        ).map_values(|c: i64| spark(c as int, max as int)).push(block));
        i = i + 1;
    }
    assert(counts@.take(i as int) =~= counts@);
    line
}

/// Every day of a conversation in a grid of weeks.
pub struct Heatmap {
    /// The number of columns.
    pub weeks: usize,
    /// Date and count of every cell, week by week from Monday to Sunday.
    pub cells: Vec<(String, i64)>,
    pub max: i64,
    /// The columns in which a month begins, and its name.
    pub month_labels: Vec<(usize, String)>,
    pub active_days: i64,
    pub span_days: i64,
}

/// The month that begins on one of the `k` days from `n` on.
pub open spec fn month_begun(n: int, k: nat) -> Option<int>
    decreases k,
{
    if k == 0 {
        None
    } else {
        let day = n + k - 1;
        if calendar::first_day() <= day <= calendar::last_day() && calendar::date_on(day).day == 1 {
            Some(calendar::date_on(day).month as int)
        } else {
            month_begun(n, (k - 1) as nat)
        }
    }
}

/// The first `weeks` weeks from `start` on in which a month begins, each with its name.
pub open spec fn month_marks(start: int, weeks: nat) -> Seq<(usize, Seq<char>)>
    decreases weeks,
{
    if weeks == 0 {
        Seq::empty()
    } else {
        let before = month_marks(start, (weeks - 1) as nat);
        match month_begun(start + 7 * (weeks - 1), 7) {
            Some(m) => before.push(((weeks - 1) as usize, text::numeral(m) + "月"@)),
            None => before,
        }
    }
}

/// The cells as date and count.
pub open spec fn cell_views(cells: Seq<(String, i64)>) -> Seq<(Seq<char>, i64)> {
    ordered::keyed(cells)
}

/// The labels as column and name.
pub open spec fn mark_views(marks: Seq<(usize, String)>) -> Seq<(usize, Seq<char>)> {
    marks.map_values(|m: (usize, String)| (m.0, m.1@))
}

/// The grid over the days from `lo` to `hi`.
pub open spec fn grids(h: Heatmap, ks: Seq<i64>, lo: i64, hi: i64) -> bool {
    let start = lo - calendar::weekday_of(lo as int);
    let weeks = (hi - start) / 7 + 1;
    let end = start + 7 * weeks - 1;
    &&& is_lowest(ks, lo)
    &&& is_highest(ks, hi)
    &&& h.weeks == weeks
    &&& cell_views(h.cells@) == points_between(ks, Bucket::Day, start, end)
    &&& h.max == seqs::max_of(counts_between(ks, start, end))
    &&& mark_views(h.month_labels@) == month_marks(start, weeks as nat)
    &&& h.active_days == ordered::tally(ks).dom().len()
    &&& h.span_days == hi - lo + 1
}

/// `h` is the grid of the messages, given the local time of each.
pub open spec fn is_heatmap(h: Heatmap, facts: Seq<MessageFact>, times: Seq<Option<LocalTime>>) -> bool {
    let ks = buckets(facts, times, Bucket::Day);
    if ks.len() == 0 {
        &&& h.weeks == 0
        &&& h.cells@.len() == 0
        &&& h.max == 0
        &&& h.month_labels@.len() == 0
        &&& h.active_days == 0
        &&& h.span_days == 0
    } else {
        exists|lo: i64, hi: i64| grids(h, ks, lo, hi)
    }
}

/// The month that begins in the seven days from `n` on.
fn month_beginning(n: i64) -> (m: Option<u32>)
    requires
        -0x1_0000_0000 <= n <= 0x1_0000_0000,
    ensures
        match m {
            Some(m) => month_begun(n as int, 7) == Some(m as int),
            None => month_begun(n as int, 7) is None,
        },
{
    let mut found: Option<u32> = None;
    let mut k: i64 = 0;
    while k < 7
        invariant
            0 <= k <= 7,
            -0x1_0000_0000 <= n <= 0x1_0000_0000,
            match found {
                Some(m) => month_begun(n as int, k as nat) == Some(m as int),
                None => month_begun(n as int, k as nat) is None,
            },
        decreases 7 - k,
    {
        if let Some(d) = calendar::date_of_number(n + k) {
            if d.day == 1 {
                found = Some(d.month);
            }
        }
        k = k + 1;
    }
    found
}

/// The weeks in which a month begins.
fn mark_months(start: i64, weeks: usize) -> (marks: Vec<(usize, String)>)
    requires
        -0x1_0000_0000 <= start,
        start + 7 * weeks <= 0x1_0000_0000,
    ensures
        mark_views(marks@) == month_marks(start as int, weeks as nat),
{
    let mut marks: Vec<(usize, String)> = Vec::new();
    let mut w: usize = 0;
    while w < weeks
        invariant
            w <= weeks,
            -0x1_0000_0000 <= start,
            start + 7 * weeks <= 0x1_0000_0000,
            mark_views(marks@) == month_marks(start as int, w as nat),
        decreases weeks - w,
    {
        if let Some(m) = month_beginning(start + 7 * (w as i64)) {
            let mut name = text::numeral_of(m as i64);
            name.append("月");
            let ghost before = marks@;
            let ghost shown = name@;
            marks.push((w, name));
            assert(mark_views(marks@) =~= mark_views(before).push((w, shown)));
        }
        w = w + 1;
    }
    marks
}

/// The points as pairs of label and count.
fn point_pairs(points: Vec<TrendPoint>) -> (r: (Vec<(String, i64)>, Vec<i64>))
    ensures
        cell_views(r.0@) == point_views(points@),
        r.1@ == counts(points@),
{
    let mut pairs: Vec<(String, i64)> = Vec::new();
    let mut numbers: Vec<i64> = Vec::new();
    let mut i: usize = 0;
    while i < points.len()
        invariant
            i <= points@.len(),
            cell_views(pairs@) == point_views(points@.take(i as int)),
            numbers@ == counts(points@.take(i as int)),
        decreases points@.len() - i,
    {
        let ghost before = pairs@;
        pairs.push((points[i].label.clone(), points[i].count));
        numbers.push(points[i].count);
        proof {
            let p = points@[i as int];
            assert(cell_views(pairs@) =~= cell_views(before).push((p.label@, p.count)));
            assert(points@.take(i + 1) =~= points@.take(i as int).push(p));
            assert(point_views(points@.take(i + 1)) =~= point_views(points@.take(i as int)).push((p.label@, p.count)));
            assert(counts(points@.take(i + 1)) =~= counts(points@.take(i as int)).push(p.count));
        }
        i = i + 1;
    }
    assert(points@.take(i as int) =~= points@);
    (pairs, numbers)
}

/// Every day of the messages in a grid of weeks, given the local time of each message.
pub fn heatmap_at(facts: &[MessageFact], times: &Vec<Option<LocalTime>>) -> (h: Heatmap)
    requires
        facts@.len() <= i64::MAX,
        times@.len() == facts@.len(),
    ensures
        is_heatmap(h, facts@, times@),
{
    let ghost ks = buckets(facts@, times@, Bucket::Day);
    let (tallied, total) = count_buckets(facts, times, Bucket::Day);
    if total == 0 {
        return Heatmap {
            weeks: 0,
            cells: Vec::new(),
            max: 0,
            month_labels: Vec::new(),
            active_days: 0,
            span_days: 0,
        };
    }
    let (lo, hi) = key_range(&tallied, Ghost(ks));
    proof {
        let a = ks.index_of(lo);
        let z = ks.index_of(hi);
        assert(-0x8000_0000 <= ks[a] <= 0x8000_0000);
        assert(-0x8000_0000 <= ks[z] <= 0x8000_0000);
        assert(lo <= ks[z]);
        buckets_at_most(facts@, times@, Bucket::Day);
    }
    let low: i64 = (lo - 1) % 7;
    let off: i64 = if low < 0 {
        low + 7
    } else {
        low
    };
    assert(off == calendar::weekday_of(lo as int));
    let start: i64 = lo - off;
    let weeks: i64 = (hi - start) / 7 + 1;
    let end: i64 = start + 7 * weeks - 1;
    let points = fill_points(&tallied, Bucket::Day, start, end, Ghost(ks));
    let ghost views = points_between(ks, Bucket::Day, start as int, end as int);
    let ghost filled = points@;
    let (cells, numbers) = point_pairs(points);
    let max = seqs::largest(numbers.as_slice());
    let entries = tallied.pairs();
    let active = entries.len();
    proof {
        assert(point_views(filled).len() == filled.len());
        let c = counts_between(ks, start as int, end as int);
        assert(counts(filled) =~= c) by {
            assert forall|i: int| 0 <= i < c.len() implies counts(filled)[i] == c[i] by {
                assert(point_views(filled)[i] == (filled[i].label@, filled[i].count));
                assert(views[i] == (label_of(start + i, Bucket::Day), occurrences(ks, start + i) as i64));
            }
        }
        ordered::listing_size::<i64, i64>(ordered::keyed(entries@), ordered::tally(ks));
        ordered::tally_size(ks);
    }
    let month_labels = mark_months(start, weeks as usize);
    let h = Heatmap {
        weeks: weeks as usize,
        cells,
        max,
        month_labels,
        active_days: active as i64,
        span_days: hi - lo + 1,
    };
    assert(grids(h, ks, lo, hi));
    h
}

/// Every day of a conversation in a grid of weeks.
pub fn heatmap(facts: &[MessageFact]) -> (h: Heatmap)
    requires
        facts@.len() <= i64::MAX,
    ensures
        exists|times: Seq<Option<LocalTime>>| #[trigger]
            timeline::clock_readings(facts@, times) && is_heatmap(h, facts@, times),
{
    let times = timeline::read_clock(facts);
    heatmap_at(facts, &times)
}

proof fn buckets_are_as_many(facts: Seq<MessageFact>, times: Seq<Option<LocalTime>>, a: Bucket, b: Bucket)
    ensures
        buckets(facts, times, a).len() == buckets(facts, times, b).len(),
    decreases facts.len(),
{
    if facts.len() > 0 {
        buckets_are_as_many(facts.drop_last(), times, a, b);
    }
}

/// Weeks and months count the same messages.
pub proof fn weeks_and_months_agree(
    w: TrendSeries,
    m: TrendSeries,
    facts: Seq<MessageFact>,
    times: Seq<Option<LocalTime>>,
)
    requires
        is_series(w, facts, times, Bucket::Week),
        is_series(m, facts, times, Bucket::Month),
    ensures
        w.total == m.total,
{
    buckets_are_as_many(facts, times, Bucket::Week, Bucket::Month);
}

/// The points of a series add up to its total, and none is higher than the peak.
pub proof fn points_add_up(s: TrendSeries, facts: Seq<MessageFact>, times: Seq<Option<LocalTime>>, b: Bucket)
    requires
        is_series(s, facts, times, b),
    ensures
        seqs::sum(counts(s.points@)) == s.total,
        s.points@.len() > 0 ==> s.peak is Some && forall|i: int|
            0 <= i < s.points@.len() ==> (#[trigger] s.points@[i]).count <= s.peak->0.count,
{
    let ks = buckets(facts, times, b);
    if ks.len() > 0 {
        let (lo, hi) = choose|lo: i64, hi: i64| covers(s, ks, b, lo, hi);
        let points = points_between(ks, b, lo as int, hi as int);
        counts_add_up(ks, lo as int, hi as int);
        assert(counts(s.points@) =~= counts_between(ks, lo as int, hi as int)) by {
            assert forall|i: int| 0 <= i < points.len() implies counts(s.points@)[i] == points[i].1 by {
                assert(point_views(s.points@)[i] == points[i]);
            }
            assert(point_views(s.points@).len() == s.points@.len());
        }
        let top = choose|i: int| #[trigger]
            peaks_at(points, i) && points[i] == (s.peak->0.label@, s.peak->0.count);
        assert forall|i: int| 0 <= i < s.points@.len() implies (#[trigger] s.points@[i]).count <= s.peak->0.count by {
            assert(point_views(s.points@)[i] == points[i]);
            assert(points[i].1 <= points[top].1);
        }
    } else {
        assert(counts(s.points@) =~= Seq::empty());
    }
}

proof fn day_buckets_are_small(facts: Seq<MessageFact>, times: Seq<Option<LocalTime>>)
    ensures
        forall|k: i64|
            buckets(facts, times, Bucket::Day).contains(k) ==> calendar::first_day() <= k <= calendar::last_day(),
    decreases facts.len(),
{
    let now = buckets(facts, times, Bucket::Day);
    if facts.len() > 0 {
        let before = buckets(facts.drop_last(), times, Bucket::Day);
        day_buckets_are_small(facts.drop_last(), times);
        let t = times[facts.len() - 1];
        if bucket_of(facts.last(), t, Bucket::Day) is Some {
            calendar::kept_in_range(t->0.date);
            calendar::kept_days_fit();
        }
        assert forall|k: i64| now.contains(k) implies calendar::first_day() <= k <= calendar::last_day() by {
            let i = now.index_of(k);
            if i < before.len() {
                assert(before[i] == k);
                assert(before.contains(k));
            }
        }
    }
}

proof fn keys_spread(pairs: Seq<(i64, i64)>, i: int, j: int)
    requires
        ordered::in_key_order::<i64, i64>(pairs),
        0 <= i <= j < pairs.len(),
    ensures
        pairs[j].0 - pairs[i].0 >= j - i,
    decreases j - i,
{
    if i < j {
        keys_spread(pairs, i, j - 1);
        assert(<i64 as ordered::Key>::before(pairs[j - 1].0, pairs[j].0));
    }
}

/// A grid holds whole weeks, all messages of the series stand in it, and the days with a message fit
/// between the first and the last.
pub proof fn grid_holds_all_messages(
    h: Heatmap,
    w: TrendSeries,
    facts: Seq<MessageFact>,
    times: Seq<Option<LocalTime>>,
)
    requires
        is_heatmap(h, facts, times),
        is_series(w, facts, times, Bucket::Week),
    ensures
        h.cells@.len() == 7 * h.weeks,
        seqs::sum(h.cells@.map_values(|c: (String, i64)| c.1)) == w.total,
        h.active_days <= h.span_days <= h.cells@.len(),
{
    let ks = buckets(facts, times, Bucket::Day);
    let cell_counts = h.cells@.map_values(|c: (String, i64)| c.1);
    buckets_are_as_many(facts, times, Bucket::Week, Bucket::Day);
    if ks.len() > 0 {
        let (lo, hi) = choose|lo: i64, hi: i64| grids(h, ks, lo, hi);
        let start = lo - calendar::weekday_of(lo as int);
        let end = start + 7 * h.weeks - 1;
        let points = points_between(ks, Bucket::Day, start, end);
        assert(cell_views(h.cells@).len() == h.cells@.len());
        assert(start <= lo);
        assert(hi <= end);
        assert(cell_counts =~= counts_between(ks, start, end)) by {
            assert forall|i: int| 0 <= i < points.len() implies cell_counts[i] == points[i].1 by {
                assert(cell_views(h.cells@)[i] == points[i]);
            }
        }
        assert forall|i: int| 0 <= i < ks.len() implies start <= #[trigger] ks[i] <= end by {
        }
        day_buckets_are_small(facts, times);
        calendar::kept_days_fit();
        assert(ks.contains(lo) && ks.contains(hi));
        counts_add_up(ks, start, end);
        ordered::tally_size(ks);
        ordered::listing_lists::<i64, i64>(ordered::tally(ks));
        let seen = ordered::listing::<i64, i64>(ordered::tally(ks));
        ordered::listing_size::<i64, i64>(seen, ordered::tally(ks));
        let n = seen.len() as int;
        assert(ordered::tally(ks).contains_key(lo));
        keys_spread(seen, 0, n - 1);
        assert(ordered::tally(ks).contains_pair(seen[0].0, seen[0].1));
        assert(ordered::tally(ks).contains_pair(seen[n - 1].0, seen[n - 1].1));
    } else {
        assert(cell_counts =~= Seq::empty());
    }
}

}
