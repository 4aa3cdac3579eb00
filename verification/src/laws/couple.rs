//! What the story of two people says of their messages.

use vstd::prelude::*;

use crate::calendar;
use crate::calendar::LocalTime;
use crate::couple;
use crate::couple::{CoupleReport, TextMetrics};
use crate::laws::counting;
use crate::model::{MessageFact, TextMessage};
use crate::ordered;
use crate::seqs;
use crate::text;
use crate::timeline;
use crate::trend;

verus! {

/// Messages with a time are one's own or not, and each is counted once; calls are those of type 50. A
/// message that carries a time and was read at 0, 1, 2, 3 or 4 o'clock is one late at night, and no
/// other is.
pub proof fn messages_are_counted(
    r: CoupleReport,
    facts: Seq<MessageFact>,
    times: Seq<Option<LocalTime>>,
    today: int,
    self_id: Option<i64>,
    texts: Option<Seq<TextMessage>>,
)
    requires
        couple::tells(r, facts, times, today, self_id, texts),
        times.len() == facts.len(),
    ensures
        r.total == facts.len(),
        r.my_count == counting::how_many(
            facts.len() as int,
            |i: int| facts[i].create_time > 0 && self_id == Some(facts[i].sender_id),
        ),
        r.other_count == counting::how_many(
            facts.len() as int,
            |i: int| facts[i].create_time > 0 && self_id != Some(facts[i].sender_id),
        ),
        r.call_count == counting::how_many(
            facts.len() as int,
            |i: int| facts[i].create_time > 0 && facts[i].base_type == 50,
        ),
        r.late_night_count == counting::how_many(
            facts.len() as int,
            |i: int| facts[i].create_time > 0 && times[i] is Some && times[i]->0.hour <= 4,
        ),
{
    let n = facts.len() as int;
    let p = |f: MessageFact| crate::model::from_self(self_id, f.sender_id);
    let q = |f: MessageFact| self_id != Some(f.sender_id);
    let c = |f: MessageFact| f.base_type == couple::CALL_TYPE;
    let d = timeline::dated(facts);
    counting::dated_counted(facts, p);
    counting::same_places(
        n,
        |i: int| facts[i].create_time > 0 && p(facts[i]),
        |i: int| facts[i].create_time > 0 && self_id == Some(facts[i].sender_id),
    );
    counting::dated_counted(facts, q);
    counting::same_places(
        n,
        |i: int| facts[i].create_time > 0 && q(facts[i]),
        |i: int| facts[i].create_time > 0 && self_id != Some(facts[i].sender_id),
    );
    seqs::counts_split(d, p, q);
    counting::dated_counted(facts, c);
    counting::same_places(
        n,
        |i: int| facts[i].create_time > 0 && c(facts[i]),
        |i: int| facts[i].create_time > 0 && facts[i].base_type == 50,
    );
    late_hours_counted(facts, times);
}

proof fn late_hours_counted(facts: Seq<MessageFact>, times: Seq<Option<LocalTime>>)
    requires
        facts.len() <= times.len(),
    ensures
        couple::late_hours(couple::hours(facts, times)) == counting::how_many(
            facts.len() as int,
            |i: int| facts[i].create_time > 0 && times[i] is Some && times[i]->0.hour <= 4,
        ),
    decreases facts.len(),
{
    let here = |i: int| facts[i].create_time > 0 && times[i] is Some && times[i]->0.hour <= 4;
    counting::one_place_more(0, here);
    if facts.len() > 0 {
        let n = facts.len() - 1;
        let less = facts.drop_last();
        late_hours_counted(less, times);
        let there = |i: int| less[i].create_time > 0 && times[i] is Some && times[i]->0.hour <= 4;
        assert forall|i: int| 0 <= i < n implies #[trigger] there(i) == here(i) by {}
        counting::same_places(n, there, here);
        counting::one_place_more(n, here);
        let before = couple::hours(less, times);
        if facts.last().create_time > 0 && times[n] is Some {
            assert(couple::hours(facts, times).drop_last() =~= before);
        }
    }
}

/// Replies are counted by who answers and how soon: within six hours, a minute and half a minute of the
/// last message before, which came from another sender.
pub proof fn replies_are_counted(
    r: CoupleReport,
    facts: Seq<MessageFact>,
    times: Seq<Option<LocalTime>>,
    today: int,
    self_id: Option<i64>,
    texts: Option<Seq<TextMessage>>,
)
    requires
        couple::tells(r, facts, times, today, self_id, texts),
    ensures
        ({
            let answers = |mine: bool, limit: int|
                counting::how_many(
                    facts.len() as int,
                    |i: int| counting::replies_in_time(facts, i, self_id, mine, |g: int| g <= limit),
                );
            &&& r.my_reply_count == answers(true, 21600)
            &&& r.other_reply_count == answers(false, 21600)
            &&& r.my_fast_replies == answers(true, 60)
            &&& r.other_fast_replies == answers(false, 60)
            &&& r.my_quick_replies == answers(true, 30)
            &&& r.other_quick_replies == answers(false, 30)
        }),
{
    within_counted(facts, self_id, true, 30);
    within_counted(facts, self_id, false, 30);
    within_counted(facts, self_id, true, 60);
    within_counted(facts, self_id, false, 60);
    within_counted(facts, self_id, true, 21600);
    within_counted(facts, self_id, false, 21600);
    all_within_cap(facts, self_id, true);
    all_within_cap(facts, self_id, false);
}

/// Gaps up to a limit are those of the answers that came as soon.
pub proof fn within_counted(facts: Seq<MessageFact>, self_id: Option<i64>, mine: bool, limit: i64)
    ensures
        couple::within(timeline::latencies(timeline::replies(timeline::dated(facts)), self_id, mine), limit)
            == counting::how_many(
            facts.len() as int,
            |i: int| counting::replies_in_time(facts, i, self_id, mine, |g: int| g <= limit),
        ),
{
    let p = |g: int| g <= limit;
    counting::latencies_counted(facts, self_id, mine, p);
    let v = timeline::latencies(timeline::replies(timeline::dated(facts)), self_id, mine);
    same_count(v, |g: i64| p(g as int), |g: i64| g <= limit);
    counting::same_places(
        facts.len() as int,
        |i: int| counting::replies_in_time(facts, i, self_id, mine, p),
        |i: int| counting::replies_in_time(facts, i, self_id, mine, |g: int| g <= limit),
    );
}

/// Two ways to say the same count the same.
pub proof fn same_count<A>(s: Seq<A>, p: spec_fn(A) -> bool, q: spec_fn(A) -> bool)
    requires
        forall|x: A| #[trigger] p(x) == q(x),
    ensures
        seqs::count_if(s, p) == seqs::count_if(s, q),
    decreases s.len(),
{
    if s.len() > 0 {
        same_count(s.drop_last(), p, q);
        assert(p(s.last()) == q(s.last()));
    }
}

/// Every gap that is kept is of six hours at most.
pub proof fn all_within_cap(facts: Seq<MessageFact>, self_id: Option<i64>, mine: bool)
    ensures
        ({
            let v = timeline::latencies(timeline::replies(timeline::dated(facts)), self_id, mine);
            couple::within(v, 21600) == v.len()
        }),
{
    let d = timeline::dated(facts);
    timeline::dated_messages(facts);
    timeline::replies_are_fewer(d);
    let v = timeline::latencies(timeline::replies(d), self_id, mine);
    timeline::latencies_within_cap(timeline::replies(d), self_id, mine);
    seqs::counts_split(v, |g: i64| g <= 21600, |g: i64| g > 21600);
    none_counted(v, |g: i64| g > 21600);
}

/// What none has is counted as none.
pub proof fn none_counted<A>(s: Seq<A>, p: spec_fn(A) -> bool)
    requires
        forall|i: int| 0 <= i < s.len() ==> !p(#[trigger] s[i]),
    ensures
        seqs::count_if(s, p) == 0,
    decreases s.len(),
{
    if s.len() > 0 {
        let less = s.drop_last();
        assert forall|i: int| 0 <= i < less.len() implies !p(#[trigger] less[i]) by {
            assert(less[i] == s[i]);
        }
        none_counted(less, p);
        assert(!p(s[s.len() - 1]));
    }
}

/// The message at `i` carries a time and falls on the local day with number `n`.
pub open spec fn is_on(facts: Seq<MessageFact>, times: Seq<Option<LocalTime>>, i: int, n: int) -> bool {
    0 <= i < facts.len() && facts[i].create_time > 0 && times[i] is Some && calendar::day_number(times[i]->0.date) == n
}

/// Some message falls on the local day with number `n`.
pub open spec fn written_on(facts: Seq<MessageFact>, times: Seq<Option<LocalTime>>, n: int) -> bool {
    exists|i: int| is_on(facts, times, i, n)
}

/// `key` writes out the local day with number `n`, on which some message falls.
pub open spec fn names_day(facts: Seq<MessageFact>, times: Seq<Option<LocalTime>>, n: int, key: Seq<char>) -> bool {
    exists|i: int| #[trigger] is_on(facts, times, i, n) && calendar::date_key(times[i]->0.date) == key
}

/// The days with a message, in order, as they are numbered.
proof fn days_match(facts: Seq<MessageFact>, times: Seq<Option<LocalTime>>)
    requires
        timeline::clock_readings(facts, times),
        couple::years_are_short(times),
    ensures
        ({
            let days = couple::day_list(facts, times);
            let p = couple::numbered(days);
            &&& p.len() == days.len()
            &&& forall|i: int, j: int| 0 <= i < j < p.len() ==> (#[trigger] p[i]).1 < (#[trigger] p[j]).1
            &&& forall|i: int|
                0 <= i < p.len() ==> (#[trigger] p[i]).0 == days[i].0 && calendar::parsed_date(days[i].0) == Some(p[i].1)
                    && names_day(facts, times, p[i].1, p[i].0) && written_on(facts, times, p[i].1)
            &&& forall|n: int| #[trigger]
                written_on(facts, times, n) ==> exists|i: int| 0 <= i < p.len() && (#[trigger] p[i]).1 == n
        }),
{
    let keys = timeline::day_keys(facts, times);
    let days = couple::day_list(facts, times);
    couple::days_come_in_order(facts, times);
    couple::numbered_in_full(days);
    ordered::tally_size(keys);
    ordered::listing_lists::<String, i64>(ordered::tally(keys));
    let p = couple::numbered(days);
    assert forall|i: int| 0 <= i < p.len() implies (#[trigger] p[i]).0 == days[i].0 && calendar::parsed_date(days[i].0)
        == Some(p[i].1) && names_day(facts, times, p[i].1, p[i].0) && written_on(facts, times, p[i].1) by {
        let key = days[i].0;
        assert(p[i] == (days[i].0, calendar::parsed_date(days[i].0)->0));
        assert(ordered::tally(keys).contains_pair(days[i].0, days[i].1));
        counting::days_counted(facts, times, key);
        let k = choose|k: int| 0 <= k < facts.len() && #[trigger] counting::falls_on(facts, times, k, key);
        assert(calendar::clock_gives(facts[k].create_time as int, times[k]));
        calendar::date_key_reads_back(times[k]->0.date);
        assert(is_on(facts, times, k, p[i].1));
    }
    assert forall|n: int| #[trigger] written_on(facts, times, n) implies exists|i: int|
        0 <= i < p.len() && (#[trigger] p[i]).1 == n by {
        let k = choose|k: int| is_on(facts, times, k, n);
        let key = calendar::date_key(times[k]->0.date);
        assert(calendar::clock_gives(facts[k].create_time as int, times[k]));
        calendar::date_key_reads_back(times[k]->0.date);
        counting::days_counted(facts, times, key);
        assert(counting::falls_on(facts, times, k, key));
        assert(ordered::tally(keys).contains_key(key));
        let i = choose|i: int| 0 <= i < days.len() && days[i].0 == key;
        assert(p[i] == (days[i].0, calendar::parsed_date(days[i].0)->0));
    }
}

/// How a row of days looks that ends with the day at `i`.
proof fn run_shape(p: Seq<(Seq<char>, int)>, i: int)
    requires
        0 <= i < p.len(),
        forall|i: int, j: int| 0 <= i < j < p.len() ==> (#[trigger] p[i]).1 < (#[trigger] p[j]).1,
    ensures
        1 <= couple::run_to(p, i) <= i + 1,
        forall|k: int|
            0 <= k < couple::run_to(p, i) ==> (#[trigger] p[i - k]).1 == p[i].1 - k,
        forall|k: int| 0 <= k < p.len() ==> (#[trigger] p[k]).1 != p[i].1 - couple::run_to(p, i),
    decreases i,
{
    let r = couple::run_to(p, i);
    if i > 0 && p[i].1 - p[i - 1].1 == 1 {
        run_shape(p, i - 1);
        assert forall|k: int| 0 <= k < r implies (#[trigger] p[i - k]).1 == p[i].1 - k by {
            if k > 0 {
                assert(p[i - 1 - (k - 1)].1 == p[i - 1].1 - (k - 1));
            }
        }
    } else {
        assert forall|k: int| 0 <= k < p.len() implies (#[trigger] p[k]).1 != p[i].1 - 1 by {
            if i > 0 {
                assert(p[i - 1].1 < p[i].1);
                if k < i - 1 {
                    assert(p[k].1 < p[i - 1].1);
                }
            }
            if k > i {
                assert(p[i].1 < p[k].1);
            }
            if k < i {
                assert(p[k].1 < p[i].1);
            }
        }
    }
}

/// On each of the `len` days from the one with number `a` on some message falls.
pub open spec fn is_row(facts: Seq<MessageFact>, times: Seq<Option<LocalTime>>, a: int, len: int) -> bool {
    forall|n: int| a <= n < a + len ==> #[trigger] written_on(facts, times, n)
}

/// `p` numbers the days that have a property, in their order.
spec fn numbers_all(p: Seq<(Seq<char>, int)>, on: spec_fn(int) -> bool) -> bool {
    &&& forall|i: int, j: int| 0 <= i < j < p.len() ==> (#[trigger] p[i]).1 < (#[trigger] p[j]).1
    &&& forall|i: int| 0 <= i < p.len() ==> on((#[trigger] p[i]).1)
    &&& forall|n: int| #[trigger] on(n) ==> exists|i: int| 0 <= i < p.len() && (#[trigger] p[i]).1 == n
}

/// The days with a message are numbered.
proof fn days_are_numbered(facts: Seq<MessageFact>, times: Seq<Option<LocalTime>>) -> (on: spec_fn(int) -> bool)
    requires
        timeline::clock_readings(facts, times),
        couple::years_are_short(times),
    ensures
        numbers_all(couple::numbered(couple::day_list(facts, times)), on),
        forall|n: int| #[trigger] on(n) == written_on(facts, times, n),
{
    days_match(facts, times);
    let on = |n: int| written_on(facts, times, n);
    on
}

/// A row of as many days as the longest run.
proof fn some_row(p: Seq<(Seq<char>, int)>, on: spec_fn(int) -> bool, best: int) -> (a: int)
    requires
        numbers_all(p, on),
        couple::is_longest_run(p, best),
    ensures
        best >= 0,
        forall|n: int| a <= n < a + best ==> #[trigger] on(n),
{
    if p.len() == 0 {
        0
    } else {
        let i = choose|i: int| 0 <= i < p.len() && #[trigger] couple::run_to(p, i) == best;
        run_shape(p, i);
        let a = p[i].1 - best + 1;
        assert forall|n: int| a <= n < a + best implies #[trigger] on(n) by {
            let k = p[i].1 - n;
            assert(p[i - k].1 == n);
        }
        a
    }
}

/// No row of days is longer than the longest run.
proof fn no_longer_row(p: Seq<(Seq<char>, int)>, on: spec_fn(int) -> bool, best: int, a: int, len: int)
    requires
        numbers_all(p, on),
        couple::is_longest_run(p, best),
        len > 0,
        forall|n: int| a <= n < a + len ==> #[trigger] on(n),
    ensures
        len <= best,
{
    assert(on(a + len - 1));
    let i = choose|i: int| 0 <= i < p.len() && (#[trigger] p[i]).1 == a + len - 1;
    run_shape(p, i);
    let k = couple::run_to(p, i);
    if k < len {
        assert(on(p[i].1 - k));
        let j = choose|j: int| 0 <= j < p.len() && (#[trigger] p[j]).1 == p[i].1 - k;
        assert(false);
    }
}

/// The longest run is that of the longest row of days.
proof fn longest_row(facts: Seq<MessageFact>, times: Seq<Option<LocalTime>>, best: int)
    requires
        timeline::clock_readings(facts, times),
        couple::years_are_short(times),
        couple::is_longest_run(couple::numbered(couple::day_list(facts, times)), best),
    ensures
        exists|a: int| #[trigger] is_row(facts, times, a, best),
        forall|a: int, len: int| 0 <= len && #[trigger] is_row(facts, times, a, len) ==> len <= best,
        best >= 0,
{
    let p = couple::numbered(couple::day_list(facts, times));
    let on = days_are_numbered(facts, times);
    let a = some_row(p, on, best);
    assert forall|n: int| a <= n < a + best implies #[trigger] written_on(facts, times, n) by {
        assert(on(n));
    }
    assert(is_row(facts, times, a, best));
    assert forall|a: int, len: int| 0 <= len && #[trigger] is_row(facts, times, a, len) implies len <= best by {
        if len > 0 {
            assert forall|n: int| a <= n < a + len implies #[trigger] on(n) by {
                assert(written_on(facts, times, n));
            }
            no_longer_row(p, on, best, a, len);
        }
    }
}

/// The run up to the last day, which is `last`.
proof fn last_run(p: Seq<(Seq<char>, int)>, on: spec_fn(int) -> bool, last: int)
    requires
        numbers_all(p, on),
        on(last),
        forall|n: int| n > last ==> !#[trigger] on(n),
    ensures
        p.len() > 0,
        p.last().1 == last,
        couple::run_to(p, p.len() - 1) > 0,
        forall|n: int| last - couple::run_to(p, p.len() - 1) < n <= last ==> #[trigger] on(n),
        !on(last - couple::run_to(p, p.len() - 1)),
{
    let i = choose|i: int| 0 <= i < p.len() && (#[trigger] p[i]).1 == last;
    let e = p.len() - 1;
    assert(on(p[e].1));
    if i < e {
        assert(p[i].1 < p[e].1);
    }
    run_shape(p, e);
    let c = couple::run_to(p, e);
    assert forall|n: int| last - c < n <= last implies #[trigger] on(n) by {
        let k = last - n;
        assert(p[e - k].1 == n);
    }
    if on(last - c) {
        let j = choose|j: int| 0 <= j < p.len() && (#[trigger] p[j]).1 == last - c;
        assert(false);
    }
}

/// The current run is that of the row of days that ends with `last`.
proof fn current_row(facts: Seq<MessageFact>, times: Seq<Option<LocalTime>>, today: int, last: int)
    requires
        timeline::clock_readings(facts, times),
        couple::years_are_short(times),
        written_on(facts, times, last),
        forall|n: int| n > last ==> !#[trigger] written_on(facts, times, n),
    ensures
        ({
            let c = couple::current_run(couple::numbered(couple::day_list(facts, times)), today);
            if last < today - 1 {
                c == 0
            } else {
                c > 0 && is_row(facts, times, last - c + 1, c) && !written_on(facts, times, last - c)
            }
        }),
{
    let p = couple::numbered(couple::day_list(facts, times));
    let on = days_are_numbered(facts, times);
    assert(on(last));
    last_run(p, on, last);
    let c = couple::current_run(p, today);
    if last >= today - 1 {
        assert forall|n: int| last - c + 1 <= n < last - c + 1 + c implies #[trigger] written_on(facts, times, n) by {
            assert(on(n));
        }
        assert(!on(last - c));
    }
}

/// The longest row of days: there is a row of so many days with a message on each, and no longer one.
/// The current row ends with the last day with a message, unless that is before yesterday: there are so
/// many days in a row up to it, and the day before them has no message. For years of up to four digits.
pub proof fn rows_are_of_days(
    r: CoupleReport,
    facts: Seq<MessageFact>,
    times: Seq<Option<LocalTime>>,
    today: int,
    self_id: Option<i64>,
    texts: Option<Seq<TextMessage>>,
)
    requires
        couple::tells(r, facts, times, today, self_id, texts),
        timeline::clock_readings(facts, times),
        couple::years_are_short(times),
    ensures
        exists|a: int| #[trigger] is_row(facts, times, a, r.longest_streak as int),
        forall|a: int, len: int| 0 <= len && #[trigger] is_row(facts, times, a, len) ==> len <= r.longest_streak,
        r.longest_streak >= 0,
        forall|last: int| #[trigger]
            written_on(facts, times, last) && (forall|n: int| n > last ==> !#[trigger] written_on(facts, times, n))
                ==> if last < today - 1 {
                r.current_streak == 0
            } else {
                &&& r.current_streak > 0
                &&& is_row(facts, times, last - r.current_streak + 1, r.current_streak as int)
                &&& !written_on(facts, times, last - r.current_streak)
            },
        (forall|n: int| !#[trigger] written_on(facts, times, n)) ==> r.current_streak == 0,
{
    let days = couple::day_list(facts, times);
    assert(couple::tells_days(r, days, today));
    longest_row(facts, times, r.longest_streak as int);
    let c = couple::current_run(couple::numbered(days), today);
    assert(r.current_streak == c);
    assert forall|last: int| #[trigger]
        written_on(facts, times, last) && (forall|n: int|
            n > last ==> !#[trigger] written_on(facts, times, n)) implies if last < today - 1 {
        c == 0
    } else {
        &&& c > 0
        &&& is_row(facts, times, last - c + 1, c)
        &&& !written_on(facts, times, last - c)
    } by {
        current_row(facts, times, today, last);
    }
    if forall|n: int| !#[trigger] written_on(facts, times, n) {
        days_match(facts, times);
        let p = couple::numbered(days);
        if p.len() > 0 {
            assert(written_on(facts, times, p[0].1));
        }
    }
}

/// `a` and `b` are days with a message, `b` after `a`, and no day between them has one.
pub open spec fn is_silence(facts: Seq<MessageFact>, times: Seq<Option<LocalTime>>, a: int, b: int) -> bool {
    &&& a < b
    &&& written_on(facts, times, a)
    &&& written_on(facts, times, b)
    &&& forall|n: int| a < n < b ==> !#[trigger] written_on(facts, times, n)
}

proof fn silences_between(p: Seq<(Seq<char>, int)>, on: spec_fn(int) -> bool, a: int, b: int)
    requires
        numbers_all(p, on),
    ensures
        forall|i: int|
            #![trigger p[i + 1]]
            0 <= i < p.len() - 1 ==> p[i].1 < p[i + 1].1 && on(p[i].1) && on(p[i + 1].1) && forall|n: int|
                p[i].1 < n < p[i + 1].1 ==> !#[trigger] on(n),
        a < b && on(a) && on(b) && (forall|n: int| a < n < b ==> !#[trigger] on(n)) ==> exists|i: int|
            0 <= i < p.len() - 1 && (#[trigger] p[i]).1 == a && p[i + 1].1 == b,
{
    assert forall|i: int| #![trigger p[i + 1]] 0 <= i < p.len() - 1 implies p[i].1 < p[i + 1].1 && on(p[i].1) && on(
        p[i + 1].1,
    ) && forall|n: int| p[i].1 < n < p[i + 1].1 ==> !#[trigger] on(n) by {
        assert(p[i].1 < p[i + 1].1);
        assert forall|n: int| p[i].1 < n < p[i + 1].1 implies !#[trigger] on(n) by {
            if on(n) {
                let k = choose|k: int| 0 <= k < p.len() && (#[trigger] p[k]).1 == n;
                if k < i {
                    assert(p[k].1 < p[i].1);
                }
                if k > i + 1 {
                    assert(p[i + 1].1 < p[k].1);
                }
            }
        }
    }
    if a < b && on(a) && on(b) && (forall|n: int| a < n < b ==> !#[trigger] on(n)) {
        let i = choose|i: int| 0 <= i < p.len() && (#[trigger] p[i]).1 == a;
        let j = choose|j: int| 0 <= j < p.len() && (#[trigger] p[j]).1 == b;
        if j < i {
            assert(p[j].1 < p[i].1);
        }
        if j > i + 1 {
            assert(p[i].1 < p[i + 1].1 && p[i + 1].1 < p[j].1);
            assert(on(p[i + 1].1));
        }
        assert(p[i].1 == a && p[i + 1].1 == b);
    }
}

proof fn silences_match(facts: Seq<MessageFact>, times: Seq<Option<LocalTime>>)
    requires
        timeline::clock_readings(facts, times),
        couple::years_are_short(times),
    ensures
        ({
            let p = couple::numbered(couple::day_list(facts, times));
            &&& forall|i: int| #![trigger p[i + 1]] 0 <= i < p.len() - 1 ==> is_silence(facts, times, p[i].1, p[i + 1].1)
            &&& forall|a: int, b: int| #[trigger]
                is_silence(facts, times, a, b) ==> exists|i: int|
                    0 <= i < p.len() - 1 && (#[trigger] p[i]).1 == a && p[i + 1].1 == b
        }),
{
    let p = couple::numbered(couple::day_list(facts, times));
    let on = days_are_numbered(facts, times);
    silences_between(p, on, 0, 0);
    assert forall|i: int| #![trigger p[i + 1]] 0 <= i < p.len() - 1 implies is_silence(
        facts,
        times,
        p[i].1,
        p[i + 1].1,
    ) by {
        assert(on(p[i].1) && on(p[i + 1].1));
        assert forall|n: int| p[i].1 < n < p[i + 1].1 implies !#[trigger] written_on(facts, times, n) by {
            assert(!on(n));
        }
    }
    assert forall|a: int, b: int| #[trigger] is_silence(facts, times, a, b) implies exists|i: int|
        0 <= i < p.len() - 1 && (#[trigger] p[i]).1 == a && p[i + 1].1 == b by {
        assert(on(a) && on(b));
        assert forall|n: int| a < n < b implies !#[trigger] on(n) by {
            assert(!written_on(facts, times, n));
        }
        silences_between(p, on, a, b);
    }
}

/// The longest silence: no days without a message between two days with one are more, and where there
/// are any, the range names the day before and the day after the first silence of that length. For
/// years of up to four digits.
pub proof fn silence_is_between_days(
    r: CoupleReport,
    facts: Seq<MessageFact>,
    times: Seq<Option<LocalTime>>,
    today: int,
    self_id: Option<i64>,
    texts: Option<Seq<TextMessage>>,
)
    requires
        couple::tells(r, facts, times, today, self_id, texts),
        timeline::clock_readings(facts, times),
        couple::years_are_short(times),
    ensures
        forall|a: int, b: int| #[trigger]
            is_silence(facts, times, a, b) ==> b - a - 1 <= r.longest_silence_days,
        r.longest_silence_days >= 0,
        r.longest_silence_days == 0 <==> r.longest_silence_range is None,
        r.longest_silence_range matches Some((x, y)) ==> exists|a: int, b: int| #[trigger]
            is_silence(facts, times, a, b) && b - a - 1 == r.longest_silence_days && names_day(facts, times, a, x@)
                && names_day(facts, times, b, y@) && forall|c: int, d: int|
                c < a && #[trigger] is_silence(facts, times, c, d) ==> d - c - 1 < r.longest_silence_days,
{
    days_match(facts, times);
    silences_match(facts, times);
    let p = couple::numbered(couple::day_list(facts, times));
    let days = r.longest_silence_days as int;
    assert forall|a: int, b: int| #[trigger] is_silence(facts, times, a, b) implies b - a - 1 <= days by {
        let j = choose|j: int| 0 <= j < p.len() - 1 && (#[trigger] p[j]).1 == a && p[j + 1].1 == b;
        assert(couple::silence(p, j) == b - a - 1);
    }
    if let Some((x, y)) = r.longest_silence_range {
        let i = choose|i: int| #[trigger]
            couple::silent_at(p, i) && days == couple::silence(p, i) && days > 0 && x@ == p[i].0 && y@ == p[i + 1].0;
        let (a, b) = (p[i].1, p[i + 1].1);
        assert(is_silence(facts, times, a, b));
        assert forall|c: int, d: int| c < a && #[trigger] is_silence(facts, times, c, d) implies d - c - 1 < days by {
            let j = choose|j: int| 0 <= j < p.len() - 1 && (#[trigger] p[j]).1 == c && p[j + 1].1 == d;
            if j > i {
                assert(p[i].1 < p[j].1);
            }
            assert(couple::silence(p, j) == d - c - 1);
        }
    }
}

/// The days with a message are counted once each, from the first, on which no earlier message falls, to
/// the last; the span is that of both days and all between, and today is counted from the first day.
/// For years of up to four digits.
pub proof fn days_are_told(
    r: CoupleReport,
    facts: Seq<MessageFact>,
    times: Seq<Option<LocalTime>>,
    today: int,
    self_id: Option<i64>,
    texts: Option<Seq<TextMessage>>,
)
    requires
        couple::tells(r, facts, times, today, self_id, texts),
        timeline::clock_readings(facts, times),
        couple::years_are_short(times),
    ensures
        Set::new(|n: int| written_on(facts, times, n)).finite(),
        r.active_days == Set::new(|n: int| written_on(facts, times, n)).len(),
        r.first_day is None <==> r.active_days == 0,
        r.last_day is None <==> r.active_days == 0,
        r.active_days == 0 ==> r.span_days == 0 && r.nth_day_today == 0,
        forall|a: int, b: int|
            #![trigger written_on(facts, times, a), written_on(facts, times, b)]
            written_on(facts, times, a) && written_on(facts, times, b) && (forall|n: int| #[trigger]
                written_on(facts, times, n) ==> a <= n <= b) ==> {
                &&& r.first_day is Some && names_day(facts, times, a, r.first_day->0@)
                &&& r.last_day is Some && names_day(facts, times, b, r.last_day->0@)
                &&& r.span_days == b - a + 1
                &&& r.nth_day_today == if today >= a {
                    today - a + 1
                } else {
                    1
                }
            },
{
    let days = couple::day_list(facts, times);
    let p = couple::numbered(days);
    let on = days_are_numbered(facts, times);
    assert(couple::tells_days(r, days, today));
    as_many_days(p, on);
    assert(Set::new(|n: int| written_on(facts, times, n)) =~= Set::new(|n: int| on(n)));
    assert(p.len() == days.len() && (p.len() > 0 ==> p[0].0 == days[0].0 && p.last().0 == days.last().0)) by {
        days_match(facts, times);
        if p.len() > 0 {
            let e = p.len() - 1;
            assert(p[0].0 == days[0].0 && p[e].0 == days[e].0);
        }
    }
    assert forall|a: int, b: int|
        #![trigger written_on(facts, times, a), written_on(facts, times, b)]
        written_on(facts, times, a) && written_on(facts, times, b) && (forall|n: int| #[trigger]
            written_on(facts, times, n) ==> a <= n <= b) implies {
        &&& r.first_day is Some && names_day(facts, times, a, r.first_day->0@)
        &&& r.last_day is Some && names_day(facts, times, b, r.last_day->0@)
        &&& r.span_days == b - a + 1
        &&& r.nth_day_today == if today >= a {
            today - a + 1
        } else {
            1
        }
    } by {
        assert(on(a) && on(b));
        assert forall|n: int| #[trigger] on(n) implies a <= n <= b by {
            assert(written_on(facts, times, n));
        }
        ends_of_days(p, on, a, b);
        assert(names_day(facts, times, a, p[0].0) && names_day(facts, times, b, p.last().0)
            && calendar::parsed_date(days[0].0) == Some(a) && calendar::parsed_date(days.last().0) == Some(b)) by {
            days_match(facts, times);
            let e = p.len() - 1;
            assert(p[0].1 == a && p[e].1 == b);
        }
        assert(text::text_view(r.first_day) == Some(days[0].0));
    }
}

proof fn as_many_days(p: Seq<(Seq<char>, int)>, on: spec_fn(int) -> bool)
    requires
        numbers_all(p, on),
    ensures
        Set::new(|n: int| on(n)).finite(),
        Set::new(|n: int| on(n)).len() == p.len(),
{
    let all = Set::new(|n: int| on(n));
    let ns = p.map_values(|x: (Seq<char>, int)| x.1);
    assert forall|i: int, j: int| 0 <= i < ns.len() && 0 <= j < ns.len() && i != j implies ns[i] != ns[j] by {
        if i < j {
            assert(p[i].1 < p[j].1);
        } else {
            assert(p[j].1 < p[i].1);
        }
    }
    ns.unique_seq_to_set();
    assert forall|n: int| all.contains(n) implies ns.to_set().contains(n) by {
        assert(on(n));
        let i = choose|i: int| 0 <= i < p.len() && (#[trigger] p[i]).1 == n;
        assert(ns[i] == n);
    }
    assert forall|n: int| ns.to_set().contains(n) implies all.contains(n) by {
        let i = ns.index_of(n);
        assert(p[i].1 == n);
    }
    assert(ns.to_set() =~= all);
}

proof fn ends_of_days(p: Seq<(Seq<char>, int)>, on: spec_fn(int) -> bool, a: int, b: int)
    requires
        numbers_all(p, on),
        on(a),
        on(b),
        forall|n: int| #[trigger] on(n) ==> a <= n <= b,
    ensures
        p.len() > 0,
        p[0].1 == a,
        p.last().1 == b,
{
    let e = p.len() - 1;
    let i = choose|i: int| 0 <= i < p.len() && (#[trigger] p[i]).1 == a;
    let j = choose|j: int| 0 <= j < p.len() && (#[trigger] p[j]).1 == b;
    assert(on(p[0].1) && on(p[e].1));
    if i > 0 {
        assert(p[0].1 < p[i].1);
    }
    if j < e {
        assert(p[j].1 < p[e].1);
    }
}

/// The number of messages that fall on the local day with the key.
spec fn messages_of(facts: Seq<MessageFact>, times: Seq<Option<LocalTime>>, key: Seq<char>) -> int {
    counting::how_many(facts.len() as int, |k: int| counting::falls_on(facts, times, k, key))
}

/// The message at `w` shares its day, by key, with those that share its day number.
proof fn same_day(facts: Seq<MessageFact>, times: Seq<Option<LocalTime>>, w: int)
    requires
        timeline::clock_readings(facts, times),
        couple::years_are_short(times),
        0 <= w < facts.len(),
        facts[w].create_time > 0,
        times[w] is Some,
    ensures
        messages_of(facts, times, calendar::date_key(times[w]->0.date)) == messages_on(
            facts,
            times,
            calendar::day_number(times[w]->0.date),
        ),
{
    let key = calendar::date_key(times[w]->0.date);
    let a = |k: int| counting::falls_on(facts, times, k, key);
    let n = calendar::day_number(times[w]->0.date);
    let b = |k: int| is_on(facts, times, k, n);
    assert(calendar::clock_gives(facts[w].create_time as int, times[w]));
    assert forall|k: int| 0 <= k < facts.len() implies #[trigger] a(k) == b(k) by {
        if facts[k].create_time > 0 && times[k] is Some {
            assert(calendar::clock_gives(facts[k].create_time as int, times[k]));
            calendar::day_numbers_order_dates(times[k]->0.date, times[w]->0.date);
            calendar::day_numbers_order_dates(times[w]->0.date, times[k]->0.date);
            calendar::date_keys_order_dates(times[k]->0.date, times[w]->0.date);
            calendar::date_keys_order_dates(times[w]->0.date, times[k]->0.date);
        }
    }
    counting::same_places(facts.len() as int, a, b);
}

/// The count beside a listed day is that of the messages whose key it is.
proof fn listed_count(facts: Seq<MessageFact>, times: Seq<Option<LocalTime>>, i: int)
    requires
        facts.len() <= times.len(),
        facts.len() <= i64::MAX,
        0 <= i < couple::day_list(facts, times).len(),
    ensures
        couple::day_list(facts, times)[i].1 == messages_of(facts, times, couple::day_list(facts, times)[i].0),
{
    let keys = timeline::day_keys(facts, times);
    let days = couple::day_list(facts, times);
    ordered::tally_size(keys);
    ordered::listing_lists::<String, i64>(ordered::tally(keys));
    timeline::day_keys_at_most(facts, times);
    let key = days[i].0;
    assert(ordered::tally(keys).contains_pair(key, days[i].1));
    let a = |k: int| keys[k] == key;
    counting::tally_counts(keys, key, a);
    counting::days_counted(facts, times, key);
    let b = |k: int| counting::falls_on(facts, times, k, key);
    assert(days[i].1 == counting::how_many(keys.len() as int, a));
    assert(messages_of(facts, times, key) == counting::how_many(facts.len() as int, b));
    counting::same_places(keys.len() as int, |k: int| timeline::day_keys(facts, times)[k] == key, a);
}

/// The messages of each day are those that fall on it.
proof fn day_counts(facts: Seq<MessageFact>, times: Seq<Option<LocalTime>>, i: int)
    requires
        timeline::clock_readings(facts, times),
        couple::years_are_short(times),
        facts.len() <= i64::MAX,
        0 <= i < couple::day_list(facts, times).len(),
    ensures
        ({
            let days = couple::day_list(facts, times);
            days[i].1 == messages_on(facts, times, couple::numbered(days)[i].1)
        }),
{
    let days = couple::day_list(facts, times);
    let p = couple::numbered(days);
    assert(p[i].0 == days[i].0 && names_day(facts, times, p[i].1, p[i].0)) by {
        days_match(facts, times);
    }
    let n = p[i].1;
    let key = days[i].0;
    let w = choose|w: int| #[trigger] is_on(facts, times, w, n) && calendar::date_key(times[w]->0.date) == key;
    same_day(facts, times, w);
    listed_count(facts, times, i);
}

/// The number of messages that fall on the local day with number `n`.
pub open spec fn messages_on(facts: Seq<MessageFact>, times: Seq<Option<LocalTime>>, n: int) -> int {
    counting::how_many(facts.len() as int, |i: int| is_on(facts, times, i, n))
}

/// The day at `at` of the list is the latest of the busiest.
proof fn busiest_day(facts: Seq<MessageFact>, times: Seq<Option<LocalTime>>, at: int, m: int)
    requires
        timeline::clock_readings(facts, times),
        couple::years_are_short(times),
        facts.len() <= i64::MAX,
        trend::peaks_at(couple::day_list(facts, times), at),
        written_on(facts, times, m),
    ensures
        ({
            let days = couple::day_list(facts, times);
            &&& messages_on(facts, times, m) <= days[at].1
            &&& m > couple::numbered(days)[at].1 ==> messages_on(facts, times, m) < days[at].1
        }),
{
    days_match(facts, times);
    let days = couple::day_list(facts, times);
    let p = couple::numbered(days);
    let j = choose|j: int| 0 <= j < p.len() && (#[trigger] p[j]).1 == m;
    day_counts(facts, times, j);
    assert(days[j].1 <= days[at].1);
    if j < at {
        assert(p[j].1 < p[at].1);
    }
}

/// The peak is the day on which most messages fall, counted as that many; of several it is the latest.
/// For years of up to four digits.
pub proof fn peak_day_is_busiest(
    r: CoupleReport,
    facts: Seq<MessageFact>,
    times: Seq<Option<LocalTime>>,
    today: int,
    self_id: Option<i64>,
    texts: Option<Seq<TextMessage>>,
)
    requires
        couple::tells(r, facts, times, today, self_id, texts),
        timeline::clock_readings(facts, times),
        couple::years_are_short(times),
        facts.len() <= i64::MAX,
    ensures
        r.peak_day is None <==> forall|n: int| !#[trigger] written_on(facts, times, n),
        r.peak_day matches Some((day, count)) ==> exists|n: int|
            #![trigger names_day(facts, times, n, day@)]
            names_day(facts, times, n, day@) && count == messages_on(facts, times, n) && forall|m: int| #[trigger]
                written_on(facts, times, m) ==> messages_on(facts, times, m) <= count && (m > n ==> messages_on(
                    facts,
                    times,
                    m,
                ) < count),
{
    let days = couple::day_list(facts, times);
    let p = couple::numbered(days);
    assert(couple::tells_days(r, days, today));
    assert(p.len() == days.len() && (p.len() == 0 <==> forall|n: int| !#[trigger] written_on(facts, times, n))) by {
        days_match(facts, times);
        if p.len() > 0 {
            assert(written_on(facts, times, p[0].1));
        }
    }
    if let Some((day, count)) = r.peak_day {
        let i = choose|i: int| #[trigger] trend::peaks_at(days, i) && days[i] == (day@, count);
        let n = p[i].1;
        assert(names_day(facts, times, n, day@)) by {
            days_match(facts, times);
            assert(p[i].0 == days[i].0);
        }
        day_counts(facts, times, i);
        assert forall|m: int| #[trigger] written_on(facts, times, m) implies messages_on(facts, times, m) <= count && (m
            > n ==> messages_on(facts, times, m) < count) by {
            busiest_day(facts, times, i, m);
        }
    }
}

/// One more text adds its characters to those of its side, and a message without text adds none.
pub proof fn characters_are_counted(texts: Seq<TextMessage>, m: TextMessage, self_id: Option<i64>, mine: bool)
    ensures
        couple::side_chars(Seq::empty(), self_id, mine) == 0,
        couple::side_chars(texts.push(m), self_id, mine) == couple::side_chars(texts, self_id, mine) + if m.text is Some
            && (self_id == Some(m.sender_id)) == mine {
            m.text->0@.len()
        } else {
            0
        },
{
    assert(texts.push(m).drop_last() =~= texts);
}

/// The longest text that is told of: its characters, its side and its time are those of one message, no
/// text is longer, and every earlier one is shorter.
pub proof fn longest_text_is_longest(m: TextMetrics, texts: Seq<TextMessage>, self_id: Option<i64>)
    requires
        couple::measures(m, texts, self_id),
    ensures
        m.longest is None <==> forall|i: int| 0 <= i < texts.len() ==> (#[trigger] texts[i]).text is None,
        m.longest matches Some((chars, own, time)) ==> exists|i: int|
            0 <= i < texts.len() && (#[trigger] texts[i]).text is Some && chars == texts[i].text->0@.len() && own == (
            self_id == Some(texts[i].sender_id)) && time == texts[i].create_time && forall|j: int|
                0 <= j < texts.len() && (#[trigger] texts[j]).text is Some ==> texts[j].text->0@.len() <= chars && (j < i
                    ==> texts[j].text->0@.len() < chars),
{
    if m.longest is Some {
        let (chars, own, time) = m.longest->0;
        let i = choose|i: int| #[trigger]
            couple::longest_at(texts, i) && chars == couple::text_len(texts[i]) && own == crate::model::from_self(
                self_id,
                texts[i].sender_id,
            ) && time == texts[i].create_time;
        assert(texts[i].text is Some);
        assert forall|j: int| 0 <= j < texts.len() && (#[trigger] texts[j]).text is Some implies texts[
            j
        ].text->0@.len() <= chars && (j < i ==> texts[j].text->0@.len() < chars) by {
            assert(couple::text_len(texts[j]) == texts[j].text->0@.len());
        }
    }
}

/// The message at `i` is of the side and its text holds the word.
pub open spec fn writes(texts: Seq<TextMessage>, i: int, self_id: Option<i64>, mine: bool, word: Seq<char>) -> bool {
    texts[i].text is Some && text::has_text(texts[i].text->0@, word) && (self_id == Some(texts[i].sender_id)) == mine
}

/// The messages of a side whose text holds the word.
pub open spec fn times_written(texts: Seq<TextMessage>, self_id: Option<i64>, mine: bool, word: Seq<char>) -> int {
    counting::how_many(texts.len() as int, |i: int| writes(texts, i, self_id, mine, word))
}

proof fn written_counted(texts: Seq<TextMessage>, self_id: Option<i64>, mine: bool, word: Seq<char>)
    ensures
        couple::says_count(texts, self_id, mine, word) == times_written(texts, self_id, mine, word),
        times_written(texts, self_id, mine, word) <= texts.len(),
{
    let p = |m: TextMessage| couple::says(m, word) && crate::model::from_self(self_id, m.sender_id) == mine;
    counting::items_counted(texts, p);
    let a = |i: int| p(texts[i]);
    let b = |i: int| writes(texts, i, self_id, mine, word);
    counting::same_places(texts.len() as int, a, b);
    counting::one_place_more(texts.len() as int, b);
}

/// The keywords in their order.
pub open spec fn keyword(n: int) -> Seq<char> {
    seq![
        "早安"@,
        "晚安"@,
        "想你"@,
        "爱你"@,
        "喜欢你"@,
        "老婆"@,
        "老公"@,
        "宝宝"@,
        "宝贝"@,
        "亲爱的"@,
        "么么"@,
        "抱抱"@,
        "亲亲"@,
        "哈哈"@,
        "嗯嗯"@,
        "在吗"@,
        "到家"@,
        "加油"@,
        "生日快乐"@,
    ][n]
}

/// A row counts the keyword with number `n`: the messages of either side that hold it, of which there are
/// some.
pub open spec fn row_counts(
    row: (Seq<char>, i64, i64),
    texts: Seq<TextMessage>,
    self_id: Option<i64>,
    n: int,
) -> bool {
    &&& 0 <= n < 19
    &&& row.0 == keyword(n)
    &&& row.1 == times_written(texts, self_id, true, keyword(n))
    &&& row.2 == times_written(texts, self_id, false, keyword(n))
    &&& row.1 + row.2 > 0
}

/// Which keywords the rows are of, in the order of the keywords: each that occurs at all has one row.
proof fn keyword_places(texts: Seq<TextMessage>, self_id: Option<i64>, n: nat) -> (at: Seq<int>)
    requires
        n <= 19,
        texts.len() <= i64::MAX,
    ensures
        at.len() == couple::keyword_rows(texts, self_id, n).len(),
        forall|k: int|
            0 <= k < at.len() ==> 0 <= #[trigger] at[k] < n && row_counts(
                couple::keyword_rows(texts, self_id, n)[k],
                texts,
                self_id,
                at[k],
            ),
        forall|k: int, l: int| 0 <= k < l < at.len() ==> #[trigger] at[k] < #[trigger] at[l],
        forall|w: int|
            0 <= w < n && times_written(texts, self_id, true, #[trigger] keyword(w)) + times_written(
                texts,
                self_id,
                false,
                keyword(w),
            ) > 0 ==> exists|k: int| 0 <= k < at.len() && #[trigger] at[k] == w,
    decreases n,
{
    if n == 0 {
        Seq::empty()
    } else {
        let e = (n - 1) as nat;
        let before = keyword_places(texts, self_id, e);
        let word = keyword(n - 1);
        assert(word == couple::keyword_list()[n - 1]);
        written_counted(texts, self_id, true, word);
        written_counted(texts, self_id, false, word);
        let rows = couple::keyword_rows(texts, self_id, n);
        let old_rows = couple::keyword_rows(texts, self_id, e);
        both_sides(texts, self_id, word);
        let found = times_written(texts, self_id, true, word) + times_written(texts, self_id, false, word) > 0;
        let at = if found {
            before.push(n - 1)
        } else {
            before
        };
        assert forall|k: int| 0 <= k < at.len() implies 0 <= #[trigger] at[k] < n && row_counts(
            rows[k],
            texts,
            self_id,
            at[k],
        ) by {
            if k < before.len() {
                assert(at[k] == before[k] && rows[k] == old_rows[k]);
            }
        }
        assert forall|w: int|
            0 <= w < n && times_written(texts, self_id, true, #[trigger] keyword(w)) + times_written(
                texts,
                self_id,
                false,
                keyword(w),
            ) > 0 implies exists|k: int| 0 <= k < at.len() && #[trigger] at[k] == w by {
            if w < e {
                let k = choose|k: int| 0 <= k < before.len() && #[trigger] before[k] == w;
                assert(at[k] == w);
            } else {
                assert(at[before.len() as int] == w);
            }
        }
        at
    }
}

proof fn both_sides(texts: Seq<TextMessage>, self_id: Option<i64>, word: Seq<char>)
    ensures
        times_written(texts, self_id, true, word) + times_written(texts, self_id, false, word) <= texts.len(),
{
    let n = texts.len() as int;
    let a = |i: int| writes(texts, i, self_id, true, word);
    let b = |i: int| writes(texts, i, self_id, false, word);
    let c = |i: int| a(i) || b(i);
    counting::places_split(n, c, a, b);
    counting::one_place_more(n, c);
}

/// `rows` are the keywords that occur, each with its messages of either side: the most frequent first, and
/// equally frequent ones in the order of the keywords.
pub open spec fn ranks_keywords(
    rows: Seq<(Seq<char>, i64, i64)>,
    texts: Seq<TextMessage>,
    self_id: Option<i64>,
    at: Seq<int>,
) -> bool {
    &&& at.len() == rows.len()
    &&& forall|k: int| 0 <= k < rows.len() ==> row_counts(#[trigger] rows[k], texts, self_id, at[k])
    &&& forall|k: int, l: int|
        0 <= k < l < rows.len() ==> (#[trigger] rows[k]).1 + rows[k].2 > (#[trigger] rows[l]).1 + rows[l].2 || (rows[k].1
            + rows[k].2 == rows[l].1 + rows[l].2 && at[k] < at[l])
    &&& forall|w: int|
        0 <= w < 19 && times_written(texts, self_id, true, #[trigger] keyword(w)) + times_written(
            texts,
            self_id,
            false,
            keyword(w),
        ) > 0 ==> exists|k: int| 0 <= k < at.len() && #[trigger] at[k] == w
}

/// Keywords are counted by the messages that hold them, and ranked by both sides together.
pub proof fn keywords_are_counted(m: TextMetrics, texts: Seq<TextMessage>, self_id: Option<i64>) -> (at: Seq<int>)
    requires
        couple::measures(m, texts, self_id),
        texts.len() <= i64::MAX,
    ensures
        ranks_keywords(couple::word_rows(m.keywords@), texts, self_id, at),
{
    let rows = couple::keyword_rows(texts, self_id, 19);
    let out = couple::word_rows(m.keywords@);
    assert(couple::keyword_list().len() == 19);
    let before = keyword_places(texts, self_id, 19);
    let order = choose|order: Seq<usize>| #[trigger]
        ordered::falling_order(order, couple::row_totals(rows)) && out == order.map_values(
            |p: usize| rows[p as int],
        );
    let at = order.map_values(|p: usize| before[p as int]);
    let totals = couple::row_totals(rows);
    assert(rows.len() <= 19) by {
        rows_at_most(texts, self_id, 19);
    }
    ordered::falling_order_is_permutation(order, totals);
    assert forall|k: int| 0 <= k < out.len() implies row_counts(#[trigger] out[k], texts, self_id, at[k]) by {
        assert(out[k] == rows[order[k] as int]);
        let x = before[order[k] as int];
    }
    assert forall|k: int| 0 <= k < rows.len() implies #[trigger] totals[k] == rows[k].1 + rows[k].2 by {
        let x = before[k];
        both_sides(texts, self_id, keyword(x));
    }
    assert forall|k: int, l: int| 0 <= k < l < out.len() implies (#[trigger] out[k]).1 + out[k].2 > (
    #[trigger] out[l]).1 + out[l].2 || (out[k].1 + out[k].2 == out[l].1 + out[l].2 && at[k] < at[l]) by {
        assert(out[k] == rows[order[k] as int] && out[l] == rows[order[l] as int]);
        assert(totals[order[k] as int] == out[k].1 + out[k].2);
        assert(totals[order[l] as int] == out[l].1 + out[l].2);
    }
    assert forall|w: int|
        0 <= w < 19 && times_written(texts, self_id, true, #[trigger] keyword(w)) + times_written(
            texts,
            self_id,
            false,
            keyword(w),
        ) > 0 implies exists|k: int| 0 <= k < at.len() && #[trigger] at[k] == w by {
        let x = choose|x: int| 0 <= x < before.len() && #[trigger] before[x] == w;
        assert(order.contains(x as usize));
        let k = order.index_of(x as usize);
        assert(at[k] == w);
    }
    at
}

proof fn rows_at_most(texts: Seq<TextMessage>, self_id: Option<i64>, n: nat)
    ensures
        couple::keyword_rows(texts, self_id, n).len() <= n,
    decreases n,
{
    if n > 0 {
        rows_at_most(texts, self_id, (n - 1) as nat);
    }
}

}
