//! One conversation in depth: who writes how much of what, how fast replies come and who opens
//! the day.

use vstd::prelude::*;
use vstd::string::*;

use crate::calendar;
use crate::calendar::LocalTime;
use crate::model;
use crate::model::MessageFact;
use crate::ordered;
use crate::ordered::SortedMap;
use crate::seqs;
use crate::timeline;

verus! {

/// How many of the latest days are listed with their opener.
pub const RECENT_OPENER_DAYS: usize = 14;

/// What a conversation shows.
pub struct ConversationDetail {
    pub is_group: bool,
    pub total: i64,
    pub time_min: Option<i64>,
    pub time_max: Option<i64>,
    pub my_count: i64,
    pub other_count: i64,
    /// Type codes with their counts, the most frequent first.
    pub my_type_dist: Vec<(i64, i64)>,
    pub other_type_dist: Vec<(i64, i64)>,
    /// Reply latencies in seconds.
    pub my_reply: LatencyStats,
    pub other_reply: LatencyStats,
    /// Replies that came too late to count.
    pub capped_replies: i64,
    /// Days that oneself, or someone else, opened.
    pub days_self_open: i64,
    pub days_other_open: i64,
    /// The latest days: date, whether oneself opened it, and when. In order of the date.
    pub recent_openers: Vec<(String, bool, i64)>,
}

/// How many samples there are, the middle one and the mean.
pub struct LatencyStats {
    pub samples: i64,
    pub median_sec: Option<i64>,
    pub mean_sec: Option<i64>,
}

impl Default for LatencyStats {
    fn default() -> (s: Self)
        ensures
            s.samples == 0,
            s.median_sec is None,
            s.mean_sec is None,
    {
        LatencyStats { samples: 0, median_sec: None, mean_sec: None }
    }
}

/// `m` is the smallest of the times.
pub open spec fn is_first_time(d: Seq<MessageFact>, m: i64) -> bool {
    &&& exists|i: int| 0 <= i < d.len() && (#[trigger] d[i]).create_time == m
    &&& forall|i: int| 0 <= i < d.len() ==> m <= (#[trigger] d[i]).create_time
}

/// `m` is the largest of the times.
pub open spec fn is_last_time(d: Seq<MessageFact>, m: i64) -> bool {
    &&& exists|i: int| 0 <= i < d.len() && (#[trigger] d[i]).create_time == m
    &&& forall|i: int| 0 <= i < d.len() ==> (#[trigger] d[i]).create_time <= m
}

/// The first and the last time of the dated messages, where there are any.
pub open spec fn spans(facts: Seq<MessageFact>, first: Option<i64>, last: Option<i64>) -> bool {
    let d = timeline::dated(facts);
    if d.len() == 0 {
        first is None && last is None
    } else {
        first is Some && last is Some && is_first_time(d, first->0) && is_last_time(d, last->0)
    }
}

/// The first and the last time of the messages that carry one.
pub fn time_span(facts: &[MessageFact]) -> (r: (Option<i64>, Option<i64>))
    ensures
        spans(facts@, r.0, r.1),
{
    let mut first: Option<i64> = None;
    let mut last: Option<i64> = None;
    let mut i: usize = 0;
    while i < facts.len()
        invariant
            i <= facts@.len(),
            spans(facts@.take(i as int), first, last),
        decreases facts@.len() - i,
    {
        let t: i64 = facts[i].create_time;
        let ghost before = timeline::dated(facts@.take(i as int));
        let ghost after = timeline::dated(facts@.take(i + 1));
        assert(facts@.take(i + 1).drop_last() =~= facts@.take(i as int));
        if t > 0 {
            assert(after == before.push(facts@[i as int]));
            assert(after[before.len() as int].create_time == t);
            assert(forall|k: int| 0 <= k < before.len() ==> #[trigger] after[k] == before[k]);
            proof {
                if before.len() > 0 {
                    let a = choose|k: int| 0 <= k < before.len() && (#[trigger] before[k]).create_time == first->0;
                    let b = choose|k: int| 0 <= k < before.len() && (#[trigger] before[k]).create_time == last->0;
                    assert(after[a].create_time == first->0);
                    assert(after[b].create_time == last->0);
                    assert(first->0 <= before[b].create_time);
                }
            }
            first = match first {
                Some(a) => Some(
                    if t < a {
                        t
                    } else {
                        a
                    },
                ),
                None => Some(t),
            };
            last = match last {
                Some(b) => Some(
                    if t > b {
                        t
                    } else {
                        b
                    },
                ),
                None => Some(t),
            };
        }
        i = i + 1;
    }
    assert(facts@.take(i as int) =~= facts@);
    (first, last)
}

/// The type codes of the messages by oneself, or by the others.
pub open spec fn side_types(facts: Seq<MessageFact>, self_id: i64, mine: bool) -> Seq<i64>
    decreases facts.len(),
{
    if facts.len() == 0 {
        Seq::empty()
    } else {
        let before = side_types(facts.drop_last(), self_id, mine);
        if (facts.last().sender_id == self_id) == mine {
            before.push(facts.last().base_type)
        } else {
            before
        }
    }
}

proof fn side_types_at_most(facts: Seq<MessageFact>, self_id: i64, mine: bool)
    ensures
        side_types(facts, self_id, mine).len() <= facts.len(),
    decreases facts.len(),
{
    if facts.len() > 0 {
        side_types_at_most(facts.drop_last(), self_id, mine);
    }
}

/// How often each type code comes from oneself, or from the others: the most frequent first,
/// equal counts by code.
pub fn type_dist(facts: &[MessageFact], self_id: i64, mine: bool) -> (r: Vec<(i64, i64)>)
    requires
        facts@.len() <= i64::MAX,
    ensures
        ordered::keyed(r@) == ordered::ranking::<i64>(ordered::tally(side_types(facts@, self_id, mine))),
{
    let mut counts: SortedMap<i64, i64> = SortedMap::new();
    let mut i: usize = 0;
    assert(counts.map() =~= ordered::tally(side_types(facts@.take(0), self_id, mine)));
    while i < facts.len()
        invariant
            i <= facts@.len() <= i64::MAX,
            counts.wf(),
            counts.map() == ordered::tally(side_types(facts@.take(i as int), self_id, mine)),
        decreases facts@.len() - i,
    {
        let ghost before = side_types(facts@.take(i as int), self_id, mine);
        proof {
            side_types_at_most(facts@.take(i as int), self_id, mine);
            assert(facts@.take(i + 1).drop_last() =~= facts@.take(i as int));
        }
        if (facts[i].sender_id == self_id) == mine {
            counts.count(facts[i].base_type, Ghost(before));
        }
        i = i + 1;
    }
    assert(facts@.take(i as int) =~= facts@);
    ordered::ranked(counts)
}

/// The gaps of one's own replies, of the others' replies, and how many replies came too late.
pub fn reply_latencies(facts: &[MessageFact], self_id: i64) -> (r: (Vec<i64>, Vec<i64>, i64))
    requires
        facts@.len() <= i64::MAX,
    ensures
        ({
            let replies = timeline::replies(timeline::dated(facts@));
            &&& r.0@ == timeline::latencies(replies, Some(self_id), true)
            &&& r.1@ == timeline::latencies(replies, Some(self_id), false)
            &&& r.2 == timeline::late_replies(replies)
        }),
{
    timeline::reply_gaps(facts, Some(self_id))
}

/// For each local day, whether oneself wrote its first message, and when.
pub open spec fn openers(
    facts: Seq<MessageFact>,
    times: Seq<Option<LocalTime>>,
    self_id: Option<i64>,
) -> Map<Seq<char>, (bool, i64)>
    decreases facts.len(),
{
    if facts.len() == 0 {
        Map::empty()
    } else {
        let before = openers(facts.drop_last(), times, self_id);
        let f = facts.last();
        match timeline::day_of(f, times[facts.len() - 1]) {
            Some(key) => if before.contains_key(key) {
                before
            } else {
                before.insert(key, (model::from_self(self_id, f.sender_id), f.create_time))
            },
            None => before,
        }
    }
}

proof fn openers_at_most(facts: Seq<MessageFact>, times: Seq<Option<LocalTime>>, self_id: Option<i64>)
    ensures
        openers(facts, times, self_id).dom().finite(),
        openers(facts, times, self_id).dom().len() <= facts.len(),
    decreases facts.len(),
{
    if facts.len() > 0 {
        openers_at_most(facts.drop_last(), times, self_id);
    }
}

/// The days with their openers, in order of the date.
pub open spec fn opener_list(
    facts: Seq<MessageFact>,
    times: Seq<Option<LocalTime>>,
    self_id: Option<i64>,
) -> Seq<(Seq<char>, (bool, i64))> {
    ordered::listing::<String, (bool, i64)>(openers(facts, times, self_id))
}

/// How many of the days oneself opened.
pub open spec fn days_opened(days: Seq<(Seq<char>, (bool, i64))>) -> nat {
    seqs::count_if(days, |p: (Seq<char>, (bool, i64))| p.1.0)
}

/// The rows as day, opener and time.
pub open spec fn opener_rows(rows: Seq<(String, bool, i64)>) -> Seq<(Seq<char>, (bool, i64))> {
    rows.map_values(|r: (String, bool, i64)| (r.0@, (r.1, r.2)))
}

/// The last days of the list, up to the number that is listed.
pub open spec fn recent_days(days: Seq<(Seq<char>, (bool, i64))>) -> Seq<(Seq<char>, (bool, i64))> {
    if days.len() <= RECENT_OPENER_DAYS {
        days
    } else {
        days.skip(days.len() - RECENT_OPENER_DAYS)
    }
}

/// How many days oneself opened, how many others did, and the latest days, the latest first; the
/// local times of the messages are given.
pub fn daily_openers_at(
    facts: &[MessageFact],
    times: &Vec<Option<LocalTime>>,
    self_id: Option<i64>,
) -> (r: (i64, i64, Vec<(String, bool, i64)>))
    requires
        facts@.len() <= i64::MAX,
        times@.len() == facts@.len(),
    ensures
        ({
            let days = opener_list(facts@, times@, self_id);
            &&& r.0 == days_opened(days)
            &&& r.1 == days.len() - days_opened(days)
            &&& opener_rows(r.2@) == recent_days(days).reverse()
        }),
{
    let mut by_day: SortedMap<String, (bool, i64)> = SortedMap::new();
    let mut i: usize = 0;
    while i < facts.len()
        invariant
            i <= facts@.len() <= i64::MAX,
            times@.len() == facts@.len(),
            by_day.wf(),
            by_day.map() == openers(facts@.take(i as int), times@, self_id),
        decreases facts@.len() - i,
    {
        let f = facts[i];
        proof {
            assert(facts@.take(i + 1).drop_last() =~= facts@.take(i as int));
        }
        if f.create_time > 0 {
            if let Some(t) = times[i] {
                let key = calendar::date_key_of(&t.date);
                if by_day.get(&key).is_none() {
                    by_day.set(key, (model::is_self(self_id, f.sender_id), f.create_time));
                }
            }
        }
        i = i + 1;
    }
    let ghost days = opener_list(facts@, times@, self_id);
    let entries = by_day.into_pairs();
    let n = entries.len();
    proof {
        assert(facts@.take(i as int) =~= facts@);
        openers_at_most(facts@, times@, self_id);
        ordered::listing_size::<String, (bool, i64)>(ordered::keyed(entries@), openers(facts@, times@, self_id));
        assert(days == ordered::keyed(entries@));
    }
    let mut mine: i64 = 0;
    let mut theirs: i64 = 0;
    let mut k: usize = 0;
    while k < n
        invariant
            k <= n,
            n == entries@.len(),
            n == days.len(),
            n <= i64::MAX,
            days == ordered::keyed(entries@),
            mine == days_opened(days.take(k as int)),
            theirs == k - mine,
            0 <= mine <= k,
        decreases n - k,
    {
        proof {
            seqs::count_step(days, k as int, |p: (Seq<char>, (bool, i64))| p.1.0);
            assert(days[k as int].1 == entries@[k as int].1);
        }
        if entries[k].1.0 {
            mine = mine + 1;
        } else {
            theirs = theirs + 1;
        }
        k = k + 1;
    }
    assert(days.take(k as int) =~= days);
    let stop: usize = if n <= RECENT_OPENER_DAYS {
        0
    } else {
        n - RECENT_OPENER_DAYS
    };
    let mut recent: Vec<(String, bool, i64)> = Vec::new();
    let mut j: usize = n;
    while j > stop
        invariant
            stop <= j <= n,
            n == entries@.len(),
            n == days.len(),
            days == ordered::keyed(entries@),
            opener_rows(recent@) == days.skip(j as int).reverse(),
        decreases j,
    {
        j = j - 1;
        let ghost rows = recent@;
        let ghost old = days.skip(j + 1);
        recent.push((entries[j].0.clone(), entries[j].1.0, entries[j].1.1));
        proof {
            let row = (days[j as int].0, days[j as int].1);
            assert(days[j as int] == (entries@[j as int].0@, entries@[j as int].1));
            assert(opener_rows(recent@) =~= opener_rows(rows).push(row));
            assert(days.skip(j as int).reverse() =~= old.reverse().push(row));
        }
    }
    assert(recent_days(days) =~= days.skip(stop as int));
    (mine, theirs, recent)
}

/// How many days oneself opened, how many others did, and the latest days, the latest first.
pub fn daily_openers(facts: &[MessageFact], self_id: Option<i64>) -> (r: (i64, i64, Vec<(String, bool, i64)>))
    requires
        facts@.len() <= i64::MAX,
    ensures
        exists|times: Seq<Option<LocalTime>>| #[trigger]
            timeline::clock_readings(facts@, times) && {
                let days = opener_list(facts@, times, self_id);
                &&& r.0 == days_opened(days)
                &&& r.1 == days.len() - days_opened(days)
                &&& opener_rows(r.2@) == recent_days(days).reverse()
            },
{
    let times = timeline::read_clock(facts);
    daily_openers_at(facts, &times, self_id)
}

/// The samples in rising order.
pub open spec fn in_order(v: Seq<i64>) -> Seq<i64> {
    v.sort_by(|a: i64, b: i64| a <= b)
}

/// The quotient without its fraction.
pub open spec fn quotient(a: int, b: int) -> int {
    if a >= 0 {
        a / b
    } else {
        -((-a) / b)
    }
}

/// The count, the sample in the middle and the mean of the samples.
pub open spec fn summarises(s: LatencyStats, v: Seq<i64>) -> bool {
    &&& s.samples == v.len()
    &&& if v.len() == 0 {
        s.median_sec is None && s.mean_sec is None
    } else {
        &&& s.median_sec == Some(in_order(v)[v.len() as int / 2])
        &&& s.mean_sec is Some
        &&& s.mean_sec->0 == quotient(seqs::sum(v), v.len() as int)
    }
}

proof fn sum_bounds(v: Seq<i64>)
    ensures
        i64::MIN * v.len() <= seqs::sum(v) <= i64::MAX * v.len(),
    decreases v.len(),
{
    if v.len() > 0 {
        sum_bounds(v.drop_last());
        let n = v.len() as int;
        assert(i64::MIN * n == i64::MIN * (n - 1) + i64::MIN) by (nonlinear_arith);
        assert(i64::MAX * n == i64::MAX * (n - 1) + i64::MAX) by (nonlinear_arith);
    }
}

proof fn quotient_bounds(a: int, n: int)
    requires
        n > 0,
        i64::MIN * n <= a <= i64::MAX * n,
    ensures
        i64::MIN <= quotient(a, n) <= i64::MAX,
{
    if a >= 0 {
        assert(0 <= a / n <= i64::MAX) by (nonlinear_arith)
            requires
                n > 0,
                0 <= a <= i64::MAX * n,
        ;
    } else {
        let b = -a;
        assert(0 <= b / n <= -(i64::MIN)) by (nonlinear_arith)
            requires
                n > 0,
                0 <= b <= -(i64::MIN) * n,
        ;
    }
}

/// Summarises latency samples.
pub fn latency_stats(v: Vec<i64>) -> (s: LatencyStats)
    requires
        v@.len() <= i64::MAX,
    ensures
        summarises(s, v@),
{
    let n = v.len();
    if n == 0 {
        return LatencyStats::default();
    }
    let ghost samples = v@;
    let mut total: i128 = 0;
    let mut i: usize = 0;
    while i < n
        invariant
            i <= n,
            n == v@.len(),
            n <= i64::MAX,
            total == seqs::sum(v@.take(i as int)),
        decreases n - i,
    {
        proof {
            seqs::sum_step(v@, i as int);
            sum_bounds(v@.take(i as int));
            assert(i64::MIN * (i as int) >= i64::MIN * i64::MAX) by (nonlinear_arith)
                requires
                    0 <= i <= i64::MAX,
            ;
            assert(i64::MAX * (i as int) <= i64::MAX * i64::MAX) by (nonlinear_arith)
                requires
                    0 <= i <= i64::MAX,
            ;
        }
        total = total + v[i] as i128;
        i = i + 1;
    }
    let sorted = ordered::rising(v);
    proof {
        assert(samples.take(n as int) =~= samples);
        let leq = |a: i64, b: i64| a <= b;
        samples.lemma_sort_by_ensures(leq);
        assert(vstd::relations::sorted_by(sorted@, leq));
        vstd::seq_lib::lemma_sorted_unique(sorted@, in_order(samples), leq);
        sum_bounds(samples);
        quotient_bounds(seqs::sum(samples), n as int);
    }
    let median: i64 = sorted[n / 2];
    let mean: i128 = if total >= 0 {
        total / (n as i128)
    } else {
        -((-total) / (n as i128))
    };
    LatencyStats { samples: n as i64, median_sec: Some(median), mean_sec: Some(mean as i64) }
}

/// How many messages are one's own.
pub open spec fn own_messages(facts: Seq<MessageFact>, self_id: i64) -> nat {
    seqs::count_if(facts, |f: MessageFact| f.sender_id == self_id)
}

/// How often `facts` holds a message of one's own.
fn count_own(facts: &[MessageFact], self_id: i64) -> (n: i64)
    requires
        facts@.len() <= i64::MAX,
    ensures
        n == own_messages(facts@, self_id),
        n <= facts@.len(),
{
    let mut n: i64 = 0;
    let mut i: usize = 0;
    while i < facts.len()
        invariant
            i <= facts@.len() <= i64::MAX,
            n == own_messages(facts@.take(i as int), self_id),
            n <= i,
        decreases facts@.len() - i,
    {
        proof {
            seqs::count_step(facts@, i as int, |f: MessageFact| f.sender_id == self_id);
        }
        if facts[i].sender_id == self_id {
            n = n + 1;
        }
        i = i + 1;
    }
    assert(facts@.take(i as int) =~= facts@);
    n
}

/// The days and their openers as a report holds them.
pub open spec fn shows_openers(
    d: ConversationDetail,
    facts: Seq<MessageFact>,
    times: Seq<Option<LocalTime>>,
    self_id: Option<i64>,
) -> bool {
    let days = opener_list(facts, times, self_id);
    &&& d.days_self_open == days_opened(days)
    &&& d.days_other_open == days.len() - days_opened(days)
    &&& opener_rows(d.recent_openers@) == recent_days(days)
}

/// `d` is what the messages show, given the local time of each.
pub open spec fn details(
    d: ConversationDetail,
    facts: Seq<MessageFact>,
    times: Seq<Option<LocalTime>>,
    self_id: i64,
    is_group: bool,
) -> bool {
    let replies = timeline::replies(timeline::dated(facts));
    &&& d.is_group == is_group
    &&& d.total == facts.len()
    &&& spans(facts, d.time_min, d.time_max)
    &&& d.my_count == own_messages(facts, self_id)
    &&& d.other_count == facts.len() - own_messages(facts, self_id)
    &&& ordered::keyed(d.my_type_dist@) == ordered::ranking::<i64>(
        ordered::tally(side_types(facts, self_id, true)),
    )
    &&& ordered::keyed(d.other_type_dist@) == ordered::ranking::<i64>(
        ordered::tally(side_types(facts, self_id, false)),
    )
    &&& summarises(d.my_reply, timeline::latencies(replies, Some(self_id), true))
    &&& summarises(d.other_reply, timeline::latencies(replies, Some(self_id), false))
    &&& d.capped_replies == timeline::late_replies(replies)
    &&& shows_openers(d, facts, times, Some(self_id))
}

/// `d` is what the messages show when it is not known which are one's own: counts, times and the
/// days, all on the side of the others.
pub open spec fn details_without_self(
    d: ConversationDetail,
    facts: Seq<MessageFact>,
    times: Seq<Option<LocalTime>>,
) -> bool {
    &&& !d.is_group
    &&& d.total == facts.len()
    &&& spans(facts, d.time_min, d.time_max)
    &&& d.my_count == 0
    &&& d.other_count == facts.len()
    &&& d.my_type_dist@.len() == 0
    &&& d.other_type_dist@.len() == 0
    &&& summarises(d.my_reply, Seq::empty())
    &&& summarises(d.other_reply, Seq::empty())
    &&& d.capped_replies == 0
    &&& shows_openers(d, facts, times, None)
}

/// The rows in reverse order.
fn reversed_rows(rows: Vec<(String, bool, i64)>) -> (r: Vec<(String, bool, i64)>)
    ensures
        r@ == rows@.reverse(),
{
    let ghost all = rows@;
    let mut rest = rows;
    let mut out: Vec<(String, bool, i64)> = Vec::new();
    while rest.len() > 0
        invariant
            rest@ == all.take(rest@.len() as int),
            rest@.len() <= all.len(),
            out@ == all.skip(rest@.len() as int).reverse(),
        decreases rest@.len(),
    {
        let ghost n = rest@.len();
        let row = rest.pop();
        if let Some(row) = row {
            assert(all.skip(n - 1).reverse() =~= all.skip(n as int).reverse().push(all[n - 1]));
            out.push(row);
        }
    }
    assert(all.skip(0) =~= all);
    out
}

proof fn reversed_rows_view(rows: Seq<(String, bool, i64)>)
    ensures
        opener_rows(rows.reverse()) == opener_rows(rows).reverse(),
        opener_rows(rows).reverse().reverse() == opener_rows(rows),
{
    assert(opener_rows(rows.reverse()) =~= opener_rows(rows).reverse());
    assert(opener_rows(rows).reverse().reverse() =~= opener_rows(rows));
}

impl ConversationDetail {
    /// What the messages show when one's own id is not known, given the local time of each.
    pub fn without_self_at(facts: &[MessageFact], times: &Vec<Option<LocalTime>>) -> (d: Self)
        requires
            facts@.len() <= i64::MAX,
            times@.len() == facts@.len(),
        ensures
            details_without_self(d, facts@, times@),
    {
        let (time_min, time_max) = time_span(facts);
        let (days_self_open, days_other_open, recent) = daily_openers_at(facts, times, None);
        proof {
            reversed_rows_view(recent@);
            let days = recent_days(opener_list(facts@, times@, None));
            assert(days.reverse().reverse() =~= days);
        }
        ConversationDetail {
            is_group: false,
            total: facts.len() as i64,
            time_min,
            time_max,
            my_count: 0,
            other_count: facts.len() as i64,
            my_type_dist: Vec::new(),
            other_type_dist: Vec::new(),
            my_reply: LatencyStats::default(),
            other_reply: LatencyStats::default(),
            capped_replies: 0,
            days_self_open,
            days_other_open,
            recent_openers: reversed_rows(recent),
        }
    }

    /// What the messages show when one's own id is not known.
    pub fn without_self(facts: &[MessageFact]) -> (d: Self)
        requires
            facts@.len() <= i64::MAX,
        ensures
            exists|times: Seq<Option<LocalTime>>| #[trigger]
                timeline::clock_readings(facts@, times) && details_without_self(d, facts@, times),
    {
        let times = timeline::read_clock(facts);
        Self::without_self_at(facts, &times)
    }
}

/// What the messages show, given the local time of each.
pub fn compute_at(
    facts: &[MessageFact],
    times: &Vec<Option<LocalTime>>,
    self_id: i64,
    is_group: bool,
) -> (d: ConversationDetail)
    requires
        facts@.len() <= i64::MAX,
        times@.len() == facts@.len(),
    ensures
        details(d, facts@, times@, self_id, is_group),
{
    let total: i64 = facts.len() as i64;
    let (time_min, time_max) = time_span(facts);
    let my_count = count_own(facts, self_id);
    let (mine, theirs, capped_replies) = reply_latencies(facts, self_id);
    let (days_self_open, days_other_open, recent) = daily_openers_at(facts, times, Some(self_id));
    proof {
        let d = timeline::dated(facts@);
        timeline::dated_messages(facts@);
        timeline::replies_are_fewer(d);
        timeline::replies_split(timeline::replies(d), Some(self_id));
        reversed_rows_view(recent@);
        let days = recent_days(opener_list(facts@, times@, Some(self_id)));
        assert(days.reverse().reverse() =~= days);
    }
    ConversationDetail {
        is_group,
        total,
        time_min,
        time_max,
        my_count,
        other_count: total - my_count,
        my_type_dist: type_dist(facts, self_id, true),
        other_type_dist: type_dist(facts, self_id, false),
        my_reply: latency_stats(mine),
        other_reply: latency_stats(theirs),
        capped_replies,
        days_self_open,
        days_other_open,
        recent_openers: reversed_rows(recent),
    }
}

/// What the messages, in their order in time, show of a conversation.
pub fn compute(facts: &[MessageFact], self_id: i64, is_group: bool) -> (d: ConversationDetail)
    requires
        facts@.len() <= i64::MAX,
    ensures
        exists|times: Seq<Option<LocalTime>>| #[trigger]
            timeline::clock_readings(facts@, times) && details(d, facts@, times, self_id, is_group),
{
    let times = timeline::read_clock(facts);
    compute_at(facts, &times, self_id, is_group)
}

/// A day has an opener exactly when a message falls on it.
pub proof fn opened_days_are_active_days(
    facts: Seq<MessageFact>,
    times: Seq<Option<LocalTime>>,
    self_id: Option<i64>,
)
    ensures
        openers(facts, times, self_id).dom() == ordered::tally(timeline::day_keys(facts, times)).dom(),
    decreases facts.len(),
{
    let now = openers(facts, times, self_id).dom();
    let keys = timeline::day_keys(facts, times);
    if facts.len() > 0 {
        let less = facts.drop_last();
        opened_days_are_active_days(less, times, self_id);
        let before = timeline::day_keys(less, times);
        if let Some(key) = timeline::day_of(facts.last(), times[facts.len() - 1]) {
            assert forall|k: Seq<char>| keys.contains(k) <==> before.contains(k) || k == key by {
                if before.contains(k) {
                    assert(keys[before.index_of(k)] == k);
                }
                assert(keys[before.len() as int] == key);
            }
            assert(now =~= ordered::tally(before).dom().insert(key));
            assert(now =~= ordered::tally(keys).dom());
        }
    } else {
        assert(now =~= ordered::tally(keys).dom());
    }
}

/// What is counted apart adds up: one's own messages and the others', the types of either side,
/// and the replies of either side with those that came too late.
pub proof fn details_add_up(
    d: ConversationDetail,
    facts: Seq<MessageFact>,
    times: Seq<Option<LocalTime>>,
    self_id: i64,
    is_group: bool,
)
    requires
        details(d, facts, times, self_id, is_group),
    ensures
        d.my_count + d.other_count == d.total,
        side_types(facts, self_id, true).len() == d.my_count,
        side_types(facts, self_id, false).len() == d.other_count,
        d.my_reply.samples + d.other_reply.samples + d.capped_replies == timeline::replies(
            timeline::dated(facts),
        ).len(),
        d.days_self_open + d.days_other_open == opener_list(facts, times, Some(self_id)).len(),
{
    timeline::replies_split(timeline::replies(timeline::dated(facts)), Some(self_id));
    side_types_count(facts, self_id);
}

proof fn side_types_count(facts: Seq<MessageFact>, self_id: i64)
    ensures
        side_types(facts, self_id, true).len() == own_messages(facts, self_id),
        side_types(facts, self_id, false).len() == facts.len() - own_messages(facts, self_id),
    decreases facts.len(),
{
    if facts.len() > 0 {
        side_types_count(facts.drop_last(), self_id);
    }
}

}
