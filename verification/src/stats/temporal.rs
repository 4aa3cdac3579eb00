//! When messages are written: by hour, by day of the week and by month.

use vstd::prelude::*;
use vstd::string::*;

use crate::ordered;
use crate::ordered::SortedMap;
use crate::schema;
use crate::seqs;

verus! {

/// Messages by hour, by day of the week from Monday on, and by month.
pub struct TemporalStats {
    pub hour: [i64; 24],
    pub weekday: [i64; 7],
    /// Year and month with the messages, in order.
    pub month: Vec<(String, i64)>,
}

/// What one table holds: messages of one hour, one day of the week and one month.
pub struct TemporalRow {
    pub hour: i64,
    /// Days since Sunday.
    pub weekday: i64,
    /// Year and month.
    pub month: String,
    pub count: i64,
}

/// Gathers messages by time.
pub struct TemporalAccum {
    hour: [i64; 24],
    weekday: [i64; 7],
    month: SortedMap<String, i64>,
    total: i64,
}

/// The sum of the counts of the rows that have the property `p`.
pub open spec fn sum_if(rows: Seq<TemporalRow>, p: spec_fn(TemporalRow) -> bool) -> int
    decreases rows.len(),
{
    if rows.len() == 0 {
        0
    } else {
        sum_if(rows.drop_last(), p) + if p(rows.last()) {
            rows.last().count as int
        } else {
            0
        }
    }
}

/// The sum of all counts.
pub open spec fn row_total(rows: Seq<TemporalRow>) -> int
    decreases rows.len(),
{
    if rows.len() == 0 {
        0
    } else {
        row_total(rows.drop_last()) + rows.last().count
    }
}

/// No count is negative.
pub open spec fn counts_rows(rows: Seq<TemporalRow>) -> bool {
    forall|i: int| 0 <= i < rows.len() ==> (#[trigger] rows[i]).count >= 0
}

/// The messages of an hour.
pub open spec fn hour_sum(rows: Seq<TemporalRow>, h: int) -> int {
    sum_if(rows, |r: TemporalRow| r.hour == h)
}

/// The index of a day of the week, from Monday on. What is no day counts as Sunday.
pub open spec fn weekday_index(w: int) -> int {
    if 1 <= w <= 6 {
        w - 1
    } else {
        6
    }
}

/// The messages of a day of the week.
pub open spec fn weekday_sum(rows: Seq<TemporalRow>, d: int) -> int {
    sum_if(rows, |r: TemporalRow| weekday_index(r.weekday as int) == d)
}

/// The messages of a month.
pub open spec fn month_sum(rows: Seq<TemporalRow>, m: Seq<char>) -> int {
    sum_if(rows, |r: TemporalRow| r.month@ == m)
}

/// A row is of the month.
pub open spec fn has_month(rows: Seq<TemporalRow>, m: Seq<char>) -> bool {
    exists|i: int| 0 <= i < rows.len() && (#[trigger] rows[i]).month@ == m
}

/// The index of a day of the week that is counted from Sunday.
pub fn weekday_sql_to_idx(w: i64) -> (d: usize)
    ensures
        d == weekday_index(w as int),
        1 <= w <= 6 ==> d == w - 1,
        !(1 <= w <= 6) ==> d == 6,
        d < 7,
{
    if 1 <= w && w <= 6 {
        (w - 1) as usize
    } else {
        6
    }
}

proof fn parts_within_total(rows: Seq<TemporalRow>, p: spec_fn(TemporalRow) -> bool)
    requires
        counts_rows(rows),
    ensures
        0 <= sum_if(rows, p) <= row_total(rows),
    decreases rows.len(),
{
    if rows.len() > 0 {
        let less = rows.drop_last();
        assert forall|i: int| 0 <= i < less.len() implies (#[trigger] less[i]).count >= 0 by {
            assert(less[i] == rows[i]);
        }
        parts_within_total(less, p);
        assert(rows[rows.len() - 1].count >= 0);
    }
}

proof fn totals_grow(rows: Seq<TemporalRow>, i: int)
    requires
        counts_rows(rows),
        0 <= i <= rows.len(),
    ensures
        0 <= row_total(rows.take(i)) <= row_total(rows),
    decreases rows.len(),
{
    if i < rows.len() {
        let less = rows.drop_last();
        assert forall|k: int| 0 <= k < less.len() implies (#[trigger] less[k]).count >= 0 by {
            assert(less[k] == rows[k]);
        }
        totals_grow(less, i);
        assert(less.take(i) =~= rows.take(i));
        assert(rows[rows.len() - 1].count >= 0);
    } else {
        assert(rows.take(i) =~= rows);
        parts_within_total(rows, |r: TemporalRow| false);
    }
}

/// The counts of the months.
pub open spec fn month_counts(months: Seq<(String, i64)>) -> Seq<i64> {
    months.map_values(|m: (String, i64)| m.1)
}

impl TemporalAccum {
    /// The messages by day of the week add up to all of them, and so do those by month; no part holds
    /// more than the whole.
    pub closed spec fn wf(&self) -> bool {
        &&& self.month.wf()
        &&& 0 <= self.total
        &&& seqs::sum(self.hour@) <= self.total
        &&& seqs::sum(self.weekday@) == self.total
        &&& self.month.map().dom().finite()
        &&& ordered::map_sum(self.month.map()) == self.total
        &&& forall|h: int| 0 <= h < 24 ==> 0 <= #[trigger] self.hour@[h] <= self.total
        &&& forall|d: int| 0 <= d < 7 ==> 0 <= #[trigger] self.weekday@[d] <= self.total
        &&& forall|m: Seq<char>| #[trigger]
            self.month.map().contains_key(m) ==> 0 <= self.month.map()[m] <= self.total
    }

    /// All messages that were gathered.
    pub closed spec fn gathered(&self) -> int {
        self.total as int
    }

    /// The messages by hour.
    pub closed spec fn hours(&self) -> Seq<i64> {
        self.hour@
    }

    /// The messages by day of the week.
    pub closed spec fn weekdays(&self) -> Seq<i64> {
        self.weekday@
    }

    /// The messages by month.
    pub closed spec fn months(&self) -> Map<Seq<char>, i64> {
        self.month.map()
    }

    /// Nothing gathered.
    pub fn new() -> (a: Self)
        ensures
            a.wf(),
            a.gathered() == 0,
            a.hours() == Seq::new(24, |h: int| 0i64),
            a.weekdays() == Seq::new(7, |d: int| 0i64),
            a.months() == Map::<Seq<char>, i64>::empty(),
    {
        let a = TemporalAccum { hour: [0; 24], weekday: [0; 7], month: SortedMap::new(), total: 0 };
        assert(a.hour@ =~= Seq::new(24, |h: int| 0i64));
        assert(a.weekday@ =~= Seq::new(7, |d: int| 0i64));
        proof {
            seqs::sum_zeros(a.hour@);
            seqs::sum_zeros(a.weekday@);
        }
        a
    }

    /// Gathers what a table holds.
    pub fn observe_table(&mut self, rows: &Vec<TemporalRow>)
        requires
            old(self).wf(),
            counts_rows(rows@),
            old(self).gathered() + row_total(rows@) <= i64::MAX,
        ensures
            final(self).wf(),
            final(self).gathered() == old(self).gathered() + row_total(rows@),
            final(self).hours().len() == 24,
            forall|h: int|
                0 <= h < 24 ==> #[trigger] final(self).hours()[h] == old(self).hours()[h] + hour_sum(rows@, h),
            final(self).weekdays().len() == 7,
            forall|d: int|
                0 <= d < 7 ==> #[trigger] final(self).weekdays()[d] == old(self).weekdays()[d] + weekday_sum(rows@, d),
            forall|m: Seq<char>| #[trigger]
                final(self).months().contains_key(m) <==> old(self).months().contains_key(m) || has_month(rows@, m),
            forall|m: Seq<char>| #[trigger]
                ordered::count_in(final(self).months(), m) == ordered::count_in(old(self).months(), m) + month_sum(rows@, m),
    {
        let ghost before = *self;
        let mut i: usize = 0;
        while i < rows.len()
            invariant
                i <= rows@.len(),
                self.wf(),
                counts_rows(rows@),
                before.wf(),
                before.gathered() + row_total(rows@) <= i64::MAX,
                self.gathered() == before.gathered() + row_total(rows@.take(i as int)),
                forall|h: int|
                    0 <= h < 24 ==> #[trigger] self.hour@[h] == before.hour@[h] + hour_sum(rows@.take(i as int), h),
                forall|d: int|
                    0 <= d < 7 ==> #[trigger] self.weekday@[d] == before.weekday@[d] + weekday_sum(
                        rows@.take(i as int),
                        d,
                    ),
                forall|m: Seq<char>| #[trigger]
                    self.month.map().contains_key(m) <==> before.month.map().contains_key(m) || has_month(
                        rows@.take(i as int),
                        m,
                    ),
                forall|m: Seq<char>| #[trigger]
                    ordered::count_in(self.month.map(), m) == ordered::count_in(before.month.map(), m) + month_sum(
                        rows@.take(i as int),
                        m,
                    ),
            decreases rows@.len() - i,
        {
            let ghost done = rows@.take(i as int);
            let ghost now = rows@.take(i + 1);
            let ghost start = *self;
            let ghost r = rows@[i as int];
            proof {
                assert(now.drop_last() =~= done);
                totals_grow(rows@, i + 1);
                assert(rows@[i as int].count >= 0);
                assert forall|m: Seq<char>| #[trigger] has_month(now, m) <==> has_month(done, m) || r.month@ == m by {
                    if has_month(done, m) {
                        let k = choose|k: int| 0 <= k < done.len() && (#[trigger] done[k]).month@ == m;
                        assert(now[k].month@ == m);
                    }
                    assert(now[i as int] == r);
                    if has_month(now, m) {
                        let k = choose|k: int| 0 <= k < now.len() && (#[trigger] now[k]).month@ == m;
                        if k < i {
                            assert(done[k].month@ == m);
                        }
                    }
                }
            }
            let n: i64 = rows[i].count;
            let h: i64 = rows[i].hour;
            let d: usize = weekday_sql_to_idx(rows[i].weekday);
            self.total = self.total + n;
            if 0 <= h && h < 24 {
                let at: usize = h as usize;
                assert(start.hour@[at as int] <= start.total);
                self.hour[at] = self.hour[at] + n;
            }
            assert(start.weekday@[d as int] <= start.total);
            self.weekday[d] = self.weekday[d] + n;
            let kept: i64 = match self.month.get(&rows[i].month) {
                Some(c) => *c,
                None => 0,
            };
            let key = rows[i].month.clone();
            self.month.set(key, kept + n);
            proof {
                ordered::map_sum_with(start.month.map(), r.month@, (kept + n) as i64);
                seqs::sum_update(start.weekday@, d as int, (start.weekday@[d as int] + n) as i64);
                assert(self.weekday@ =~= start.weekday@.update(d as int, (start.weekday@[d as int] + n) as i64));
                if 0 <= h && h < 24 {
                    seqs::sum_update(start.hour@, h as int, (start.hour@[h as int] + n) as i64);
                    assert(self.hour@ =~= start.hour@.update(h as int, (start.hour@[h as int] + n) as i64));
                }
                assert forall|m: Seq<char>| #[trigger]
                    ordered::count_in(self.month.map(), m) == ordered::count_in(before.month.map(), m) + month_sum(now, m) by {
                    assert(ordered::count_in(start.month.map(), m) == ordered::count_in(before.month.map(), m) + month_sum(done, m));
                }
                assert forall|m: Seq<char>| #[trigger] self.month.map().contains_key(m) implies 0 <= self.month.map()[m]
                    <= self.total by {
                    if m != r.month@ {
                        assert(start.month.map().contains_key(m));
                    }
                }
                assert forall|k: int| 0 <= k < 24 implies 0 <= #[trigger] self.hour@[k] <= self.total by {
                    assert(0 <= start.hour@[k] <= start.total);
                }
                assert forall|k: int| 0 <= k < 7 implies 0 <= #[trigger] self.weekday@[k] <= self.total by {
                    assert(0 <= start.weekday@[k] <= start.total);
                }
            }
            i = i + 1;
        }
        assert(rows@.take(i as int) =~= rows@);
    }

    /// What was gathered.
    pub fn finalize(self) -> (s: TemporalStats)
        requires
            self.wf(),
        ensures
            s.hour@ == self.hours(),
            s.weekday@ == self.weekdays(),
            ordered::keyed(s.month@) == ordered::listing::<String, i64>(self.months()),
            ordered::lists::<String, i64>(ordered::keyed(s.month@), self.months()),
            seqs::sum(s.weekday@) == self.gathered(),
            seqs::sum(month_counts(s.month@)) == self.gathered(),
            seqs::sum(s.hour@) <= self.gathered(),
    {
        let ghost months = self.month.map();
        let month = self.month.into_pairs();
        proof {
            let pairs = ordered::keyed(month@);
            ordered::listing_sum::<String>(pairs, months);
            assert(pairs.map_values(|p: (Seq<char>, i64)| p.1) =~= month_counts(month@));
        }
        TemporalStats { hour: self.hour, weekday: self.weekday, month }
    }
}

/// The query for what a table holds: local hour, day of the week and month of all messages that
/// carry a time.
pub open spec fn temporal_sql(table: Seq<char>) -> Seq<char> {
    "SELECT cast(strftime('%H', create_time, 'unixepoch', 'localtime') AS integer), cast(strftime('%w', create_time, 'unixepoch', 'localtime') AS integer), strftime('%Y%m', create_time, 'unixepoch', 'localtime'), count(*) FROM "@
        + schema::quoted(table) + " WHERE create_time > 0 GROUP BY 1, 2, 3"@
}

/// The query for what a table holds.
pub fn temporal_query(table: &str) -> (q: String)
    ensures
        q@ == temporal_sql(table@),
{
    let mut q =
        "SELECT cast(strftime('%H', create_time, 'unixepoch', 'localtime') AS integer), cast(strftime('%w', create_time, 'unixepoch', 'localtime') AS integer), strftime('%Y%m', create_time, 'unixepoch', 'localtime'), count(*) FROM ".to_string();
    q.append(schema::quote_ident(table).as_str());
    q.append(" WHERE create_time > 0 GROUP BY 1, 2, 3");
    q
}

/// The days of the week hold every message once.
pub proof fn weekdays_add_up(rows: Seq<TemporalRow>)
    ensures
        weekday_sum(rows, 0) + weekday_sum(rows, 1) + weekday_sum(rows, 2) + weekday_sum(rows, 3) + weekday_sum(rows, 4)
            + weekday_sum(rows, 5) + weekday_sum(rows, 6) == row_total(rows),
    decreases rows.len(),
{
    if rows.len() > 0 {
        weekdays_add_up(rows.drop_last());
    }
}

/// The hours as a sequence.
pub open spec fn hour_sums(rows: Seq<TemporalRow>) -> Seq<int> {
    Seq::new(24, |h: int| hour_sum(rows, h))
}

/// The sum of integers.
pub open spec fn int_sum(s: Seq<int>) -> int
    decreases s.len(),
{
    if s.len() == 0 {
        0
    } else {
        int_sum(s.drop_last()) + s.last()
    }
}

proof fn int_sum_update(s: Seq<int>, i: int, x: int)
    requires
        0 <= i < s.len(),
    ensures
        int_sum(s.update(i, x)) == int_sum(s) - s[i] + x,
    decreases s.len(),
{
    let t = s.update(i, x);
    if i == s.len() - 1 {
        assert(t.drop_last() =~= s.drop_last());
    } else {
        int_sum_update(s.drop_last(), i, x);
        assert(t.drop_last() =~= s.drop_last().update(i, x));
    }
}

proof fn int_sum_zeros(s: Seq<int>)
    requires
        forall|i: int| 0 <= i < s.len() ==> #[trigger] s[i] == 0,
    ensures
        int_sum(s) == 0,
    decreases s.len(),
{
    if s.len() > 0 {
        assert(s[s.len() - 1] == 0);
        assert forall|i: int| 0 <= i < s.drop_last().len() implies #[trigger] s.drop_last()[i] == 0 by {
            assert(s[i] == 0);
        }
        int_sum_zeros(s.drop_last());
    }
}

/// The hours hold every message once whose hour is one of the day.
pub proof fn hours_add_up(rows: Seq<TemporalRow>)
    ensures
        int_sum(hour_sums(rows)) == sum_if(rows, |r: TemporalRow| 0 <= r.hour < 24),
    decreases rows.len(),
{
    let now = hour_sums(rows);
    if rows.len() == 0 {
        int_sum_zeros(now);
    } else {
        let less = rows.drop_last();
        hours_add_up(less);
        let before = hour_sums(less);
        let r = rows.last();
        if 0 <= r.hour < 24 {
            assert(now =~= before.update(r.hour as int, before[r.hour as int] + r.count));
            int_sum_update(before, r.hour as int, before[r.hour as int] + r.count);
        } else {
            assert(now =~= before);
        }
    }
}

proof fn months_of_keys_add_up(rows: Seq<TemporalRow>, keys: Seq<Seq<char>>)
    requires
        keys.no_duplicates(),
        forall|i: int| 0 <= i < rows.len() ==> keys.contains((#[trigger] rows[i]).month@),
    ensures
        int_sum(keys.map_values(|m: Seq<char>| month_sum(rows, m))) == row_total(rows),
    decreases rows.len(),
{
    let now = keys.map_values(|m: Seq<char>| month_sum(rows, m));
    if rows.len() == 0 {
        int_sum_zeros(now);
    } else {
        let less = rows.drop_last();
        assert forall|i: int| 0 <= i < less.len() implies keys.contains((#[trigger] less[i]).month@) by {
            assert(less[i] == rows[i]);
        }
        months_of_keys_add_up(less, keys);
        let before = keys.map_values(|m: Seq<char>| month_sum(less, m));
        let r = rows[rows.len() - 1];
        let at = keys.index_of(r.month@);
        assert(now =~= before.update(at, before[at] + r.count));
        int_sum_update(before, at, before[at] + r.count);
    }
}

/// The months hold every message once: `pairs` lists the months of all rows with their messages.
pub proof fn months_add_up(rows: Seq<TemporalRow>, months: Map<Seq<char>, i64>, pairs: Seq<(Seq<char>, i64)>)
    requires
        ordered::lists::<String, i64>(pairs, months),
        forall|m: Seq<char>| #[trigger] months.contains_key(m) <==> has_month(rows, m),
        forall|m: Seq<char>| #[trigger] ordered::count_in(months, m) == month_sum(rows, m),
    ensures
        int_sum(pairs.map_values(|p: (Seq<char>, i64)| p.1 as int)) == row_total(rows),
{
    let keys = pairs.map_values(|p: (Seq<char>, i64)| p.0);
    assert forall|i: int, j: int| 0 <= i < keys.len() && 0 <= j < keys.len() && i != j implies keys[i] != keys[j] by {
        <String as ordered::Key>::before_irreflexive(keys[i]);
        assert(keys[i] == pairs[i].0);
        assert(keys[j] == pairs[j].0);
        if i < j {
            assert(<String as ordered::Key>::before(pairs[i].0, pairs[j].0));
        } else {
            assert(<String as ordered::Key>::before(pairs[j].0, pairs[i].0));
        }
    }
    assert forall|i: int| 0 <= i < rows.len() implies keys.contains((#[trigger] rows[i]).month@) by {
        let m = rows[i].month@;
        assert(has_month(rows, m));
        assert(months.contains_key(m));
        let k = choose|k: int| 0 <= k < pairs.len() && pairs[k].0 == m;
        assert(keys[k] == m);
    }
    months_of_keys_add_up(rows, keys);
    let values = pairs.map_values(|p: (Seq<char>, i64)| p.1 as int);
    assert(values =~= keys.map_values(|m: Seq<char>| month_sum(rows, m))) by {
        assert forall|i: int| 0 <= i < values.len() implies values[i] == month_sum(rows, keys[i]) by {
            assert(months.contains_pair(pairs[i].0, pairs[i].1));
            assert(ordered::count_in(months, keys[i]) == month_sum(rows, keys[i]));
        }
    }
}

}
