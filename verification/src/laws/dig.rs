//! What a conversation in depth says of its messages.

use vstd::prelude::*;

use crate::calendar;
use crate::calendar::LocalTime;
use crate::couple as story;
use crate::dig;
use crate::dig::{ConversationDetail, LatencyStats};
use crate::laws::counting;
use crate::laws::couple;
use crate::laws::trend;
use crate::model::MessageFact;
use crate::ordered;
use crate::seqs;
use crate::timeline;

verus! {

/// The message at `i` is the first of all messages that fall on the local day with the key.
pub open spec fn opens(facts: Seq<MessageFact>, times: Seq<Option<LocalTime>>, i: int, key: Seq<char>) -> bool {
    &&& 0 <= i < facts.len()
    &&& counting::falls_on(facts, times, i, key)
    &&& forall|j: int| 0 <= j < i ==> !#[trigger] counting::falls_on(facts, times, j, key)
}

/// A day has an opener exactly where a message falls on it, and its entry holds the side and the time of
/// one and the same message: the first, in the order given, that falls on the day.
pub proof fn openers_are_first(
    facts: Seq<MessageFact>,
    times: Seq<Option<LocalTime>>,
    self_id: Option<i64>,
    key: Seq<char>,
)
    requires
        facts.len() <= times.len(),
    ensures
        dig::openers(facts, times, self_id).contains_key(key) <==> exists|i: int| #[trigger] opens(facts, times, i, key),
        forall|i: int| #[trigger]
            opens(facts, times, i, key) ==> dig::openers(facts, times, self_id)[key] == (
                self_id == Some(facts[i].sender_id),
                facts[i].create_time,
            ),
    decreases facts.len(),
{
    if facts.len() > 0 {
        let n = facts.len() - 1;
        let less = facts.drop_last();
        openers_are_first(less, times, self_id, key);
        let before = dig::openers(less, times, self_id);
        let now = dig::openers(facts, times, self_id);
        assert forall|j: int| 0 <= j < n implies #[trigger] counting::falls_on(facts, times, j, key)
            == counting::falls_on(less, times, j, key) by {
            assert(less[j] == facts[j]);
        }
        assert forall|i: int| 0 <= i < n implies #[trigger] opens(facts, times, i, key) == opens(less, times, i, key) by {
            assert(counting::falls_on(facts, times, i, key) == counting::falls_on(less, times, i, key));
            if opens(facts, times, i, key) {
                assert forall|j: int| 0 <= j < i implies !#[trigger] counting::falls_on(less, times, j, key) by {
                    assert(counting::falls_on(facts, times, j, key) == counting::falls_on(less, times, j, key));
                }
            }
        }
        if before.contains_key(key) {
            let i = choose|i: int| #[trigger] opens(less, times, i, key);
            assert(opens(facts, times, i, key));
            assert forall|k: int| #[trigger] opens(facts, times, k, key) implies k < n by {
                if k == n {
                    assert(counting::falls_on(facts, times, i, key));
                }
            }
        } else {
            assert forall|j: int| 0 <= j < n implies !#[trigger] counting::falls_on(facts, times, j, key) by {
                if counting::falls_on(facts, times, j, key) {
                    let i = first_on(less, times, j, key);
                    assert(opens(less, times, i, key));
                }
            }
            if counting::falls_on(facts, times, n, key) {
                assert(opens(facts, times, n, key));
            }
        }
    }
}

/// Where a message falls on a day, some message opens it.
pub proof fn first_on(facts: Seq<MessageFact>, times: Seq<Option<LocalTime>>, j: int, key: Seq<char>) -> (i: int)
    requires
        0 <= j < facts.len(),
        counting::falls_on(facts, times, j, key),
    ensures
        opens(facts, times, i, key),
        i <= j,
    decreases j,
{
    if exists|k: int| 0 <= k < j && #[trigger] counting::falls_on(facts, times, k, key) {
        let k = choose|k: int| 0 <= k < j && #[trigger] counting::falls_on(facts, times, k, key);
        first_on(facts, times, k, key)
    } else {
        j
    }
}

/// A later message leaves the entry of a day that has one as it was, and every other day too.
pub proof fn openers_stay(
    facts: Seq<MessageFact>,
    f: MessageFact,
    times: Seq<Option<LocalTime>>,
    self_id: Option<i64>,
    key: Seq<char>,
)
    requires
        facts.len() < times.len(),
        dig::openers(facts, times, self_id).contains_key(key),
    ensures
        dig::openers(facts.push(f), times, self_id).contains_key(key),
        dig::openers(facts.push(f), times, self_id)[key] == dig::openers(facts, times, self_id)[key],
{
    assert(facts.push(f).drop_last() =~= facts);
}

/// The message at `i` is the first of its local day.
pub open spec fn opens_its_day(facts: Seq<MessageFact>, times: Seq<Option<LocalTime>>, i: int) -> bool {
    &&& facts[i].create_time > 0
    &&& times[i] is Some
    &&& opens(facts, times, i, calendar::date_key(times[i]->0.date))
}

/// The entries of a map that have a property are counted in its listing.
proof fn listed_entries<V>(pairs: Seq<(Seq<char>, V)>, map: Map<Seq<char>, V>, p: spec_fn(V) -> bool)
    requires
        ordered::lists::<String, V>(pairs, map),
    ensures
        map.dom().finite(),
        seqs::count_if(pairs, |x: (Seq<char>, V)| p(x.1)) == map.dom().filter(|k: Seq<char>| p(map[k])).len(),
    decreases pairs.len(),
{
    ordered::listing_size::<String, V>(pairs, map);
    let all = map.dom().filter(|k: Seq<char>| p(map[k]));
    if pairs.len() == 0 {
        assert(map.dom() =~= Set::empty());
        assert(all =~= Set::empty());
    } else {
        let e = pairs.len() - 1;
        let less = pairs.drop_last();
        let (k, v) = pairs.last();
        let rest = map.remove(k);
        assert(map.contains_pair(pairs[e].0, pairs[e].1));
        assert forall|i: int| 0 <= i < less.len() implies rest.contains_pair(#[trigger] less[i].0, less[i].1) by {
            assert(less[i] == pairs[i]);
            <String as ordered::Key>::before_irreflexive(k);
            assert(<String as ordered::Key>::before(pairs[i].0, pairs[e].0));
        }
        assert forall|x: Seq<char>| #[trigger] rest.contains_key(x) implies exists|i: int|
            0 <= i < less.len() && less[i].0 == x by {
            assert(map.contains_key(x));
            let i = choose|i: int| 0 <= i < pairs.len() && pairs[i].0 == x;
            assert(less[i].0 == x);
        }
        assert forall|i: int, j: int| 0 <= i < j < less.len() implies <String as ordered::Key>::before(
            #[trigger] less[i].0,
            #[trigger] less[j].0,
        ) by {
            assert(<String as ordered::Key>::before(pairs[i].0, pairs[j].0));
        }
        listed_entries(less, rest, p);
        let part = rest.dom().filter(|k: Seq<char>| p(rest[k]));
        if p(v) {
            assert(all =~= part.insert(k));
        } else {
            assert(all =~= part);
        }
    }
}

/// The days that one side opened are as many as the messages by which it opened one.
proof fn opened_counted(facts: Seq<MessageFact>, times: Seq<Option<LocalTime>>, self_id: Option<i64>, mine: bool)
    requires
        facts.len() <= times.len(),
    ensures
        dig::openers(facts, times, self_id).dom().finite(),
        dig::openers(facts, times, self_id).dom().filter(
            |k: Seq<char>| dig::openers(facts, times, self_id)[k].0 == mine,
        ).len() == counting::how_many(
            facts.len() as int,
            |i: int| opens_its_day(facts, times, i) && (self_id == Some(facts[i].sender_id)) == mine,
        ),
    decreases facts.len(),
{
    let now = dig::openers(facts, times, self_id);
    let all = now.dom().filter(|k: Seq<char>| now[k].0 == mine);
    assert(dig::openers(facts, times, self_id).dom().filter(
        |k: Seq<char>| dig::openers(facts, times, self_id)[k].0 == mine,
    ) =~= all);
    let here = |i: int| opens_its_day(facts, times, i) && (self_id == Some(facts[i].sender_id)) == mine;
    counting::one_place_more(0, here);
    if facts.len() == 0 {
        assert(all =~= Set::empty());
        assert(now.dom() =~= Set::empty());
    } else {
        let n = facts.len() - 1;
        let less = facts.drop_last();
        opened_counted(less, times, self_id, mine);
        let before = dig::openers(less, times, self_id);
        let part = before.dom().filter(|k: Seq<char>| before[k].0 == mine);
        assert(dig::openers(less, times, self_id).dom().filter(
            |k: Seq<char>| dig::openers(less, times, self_id)[k].0 == mine,
        ) =~= part);
        let there = |i: int| opens_its_day(less, times, i) && (self_id == Some(less[i].sender_id)) == mine;
        assert forall|i: int| 0 <= i < n implies #[trigger] there(i) == here(i) by {
            if times[i] is Some {
                opens_in_part(facts, times, i, calendar::date_key(times[i]->0.date));
            }
        }
        counting::same_places(n, there, here);
        counting::one_place_more(n, here);
        if facts[n].create_time > 0 && times[n] is Some {
            let key = calendar::date_key(times[n]->0.date);
            openers_are_first(less, times, self_id, key);
            assert(counting::falls_on(facts, times, n, key));
            if before.contains_key(key) {
                let i = choose|i: int| #[trigger] opens(less, times, i, key);
                opens_in_part(facts, times, i, key);
                assert(counting::falls_on(facts, times, i, key));
                assert(!here(n));
            } else {
                assert forall|j: int| 0 <= j < n implies !#[trigger] counting::falls_on(facts, times, j, key) by {
                    if counting::falls_on(facts, times, j, key) {
                        assert(less[j] == facts[j]);
                        assert(counting::falls_on(less, times, j, key));
                        let i = first_on(less, times, j, key);
                        assert(opens(less, times, i, key));
                    }
                }
                assert(opens(facts, times, n, key));
                if (self_id == Some(facts[n].sender_id)) == mine {
                    assert(all =~= part.insert(key));
                } else {
                    assert(all =~= part);
                }
            }
        }
    }
}

proof fn opens_in_part(facts: Seq<MessageFact>, times: Seq<Option<LocalTime>>, i: int, key: Seq<char>)
    requires
        0 <= i < facts.len() - 1,
    ensures
        opens(facts, times, i, key) == opens(facts.drop_last(), times, i, key),
{
    let less = facts.drop_last();
    assert forall|j: int| 0 <= j <= i implies #[trigger] counting::falls_on(facts, times, j, key)
        == counting::falls_on(less, times, j, key) by {
        assert(less[j] == facts[j]);
    }
    assert(counting::falls_on(facts, times, i, key) == counting::falls_on(less, times, i, key));
    if opens(facts, times, i, key) {
        assert forall|j: int| 0 <= j < i implies !#[trigger] counting::falls_on(less, times, j, key) by {
            assert(counting::falls_on(facts, times, j, key) == counting::falls_on(less, times, j, key));
        }
    }
}

/// Of the days with a message, oneself opened those whose first message is one's own, and the others opened
/// the rest.
pub proof fn opened_days_are_counted(facts: Seq<MessageFact>, times: Seq<Option<LocalTime>>, self_id: Option<i64>)
    requires
        facts.len() <= times.len(),
    ensures
        dig::days_opened(dig::opener_list(facts, times, self_id)) == counting::how_many(
            facts.len() as int,
            |i: int| opens_its_day(facts, times, i) && self_id == Some(facts[i].sender_id),
        ),
        dig::opener_list(facts, times, self_id).len() - dig::days_opened(dig::opener_list(facts, times, self_id))
            == counting::how_many(
            facts.len() as int,
            |i: int| opens_its_day(facts, times, i) && self_id != Some(facts[i].sender_id),
        ),
{
    let n = facts.len() as int;
    let map = dig::openers(facts, times, self_id);
    let days = dig::opener_list(facts, times, self_id);
    opened_counted(facts, times, self_id, true);
    opened_counted(facts, times, self_id, false);
    ordered::listing_lists::<String, (bool, i64)>(map);
    let p = |v: (bool, i64)| v.0;
    let q = |v: (bool, i64)| !v.0;
    listed_entries(days, map, p);
    listed_entries(days, map, q);
    let a = |x: (Seq<char>, (bool, i64))| p(x.1);
    let b = |x: (Seq<char>, (bool, i64))| q(x.1);
    couple::same_count(days, a, |x: (Seq<char>, (bool, i64))| x.1.0);
    seqs::counts_split(days, a, b);
    assert(map.dom().filter(|k: Seq<char>| p(map[k])) =~= map.dom().filter(
        |k: Seq<char>| dig::openers(facts, times, self_id)[k].0 == true,
    ));
    assert(map.dom().filter(|k: Seq<char>| q(map[k])) =~= map.dom().filter(
        |k: Seq<char>| dig::openers(facts, times, self_id)[k].0 == false,
    ));
    counting::same_places(
        n,
        |i: int| opens_its_day(facts, times, i) && (self_id == Some(facts[i].sender_id)) == true,
        |i: int| opens_its_day(facts, times, i) && self_id == Some(facts[i].sender_id),
    );
    counting::same_places(
        n,
        |i: int| opens_its_day(facts, times, i) && (self_id == Some(facts[i].sender_id)) == false,
        |i: int| opens_its_day(facts, times, i) && self_id != Some(facts[i].sender_id),
    );
}

/// A row tells of the message at `i`, which opens the day: its day, its side and its time.
pub open spec fn row_tells(
    row: (Seq<char>, (bool, i64)),
    facts: Seq<MessageFact>,
    times: Seq<Option<LocalTime>>,
    self_id: Option<i64>,
    i: int,
) -> bool {
    opens(facts, times, i, row.0) && row.1.0 == (self_id == Some(facts[i].sender_id)) && row.1.1 == facts[i].create_time
}

/// A row tells of the message that opens its day.
pub open spec fn tells_opener(
    row: (Seq<char>, (bool, i64)),
    facts: Seq<MessageFact>,
    times: Seq<Option<LocalTime>>,
    self_id: Option<i64>,
) -> bool {
    exists|i: int| #[trigger] row_tells(row, facts, times, self_id, i)
}

/// The days that are listed: each row tells of the message that opens its day. They are at most fourteen,
/// in the order of the days, and a day that is left out comes before fourteen that are listed. For years
/// of up to four digits.
pub proof fn latest_openers_are_listed(
    rows: Seq<(Seq<char>, (bool, i64))>,
    facts: Seq<MessageFact>,
    times: Seq<Option<LocalTime>>,
    self_id: Option<i64>,
)
    requires
        rows == dig::recent_days(dig::opener_list(facts, times, self_id)),
        timeline::clock_readings(facts, times),
        story::years_are_short(times),
    ensures
        rows.len() <= 14,
        forall|k: int| 0 <= k < rows.len() ==> tells_opener(#[trigger] rows[k], facts, times, self_id),
        forall|k: int, l: int, i: int, j: int|
            0 <= k < l < rows.len() && #[trigger] opens(facts, times, i, rows[k].0) && #[trigger] opens(
                facts,
                times,
                j,
                rows[l].0,
            ) ==> calendar::day_number(times[i]->0.date) < calendar::day_number(times[j]->0.date),
        forall|i: int| #[trigger]
            opens_its_day(facts, times, i) && 0 <= i < facts.len() ==> (exists|k: int|
                0 <= k < rows.len() && #[trigger] row_tells(rows[k], facts, times, self_id, i)) || (rows.len() == 14
                && forall|k: int, j: int|
                0 <= k < rows.len() && #[trigger] opens(facts, times, j, rows[k].0) ==> calendar::day_number(
                    times[i]->0.date,
                ) < calendar::day_number(times[j]->0.date)),
{
    let map = dig::openers(facts, times, self_id);
    let days = dig::opener_list(facts, times, self_id);
    opened_counted(facts, times, self_id, true);
    ordered::listing_lists::<String, (bool, i64)>(map);
    assert forall|k: int| 0 <= k < days.len() implies tells_opener(#[trigger] days[k], facts, times, self_id) by {
        assert(map.contains_pair(days[k].0, days[k].1));
        openers_are_first(facts, times, self_id, days[k].0);
        let i = choose|i: int| #[trigger] opens(facts, times, i, days[k].0);
        assert(row_tells(days[k], facts, times, self_id, i));
    }
    let off = days.len() - rows.len();
    assert forall|k: int| 0 <= k < rows.len() implies #[trigger] rows[k] == days[k + off] by {}
    assert forall|k: int| 0 <= k < rows.len() implies tells_opener(#[trigger] rows[k], facts, times, self_id) by {
        assert(tells_opener(days[k + off], facts, times, self_id));
    }
    assert forall|k: int, l: int, i: int, j: int|
        0 <= k < l < rows.len() && #[trigger] opens(facts, times, i, rows[k].0) && #[trigger] opens(
            facts,
            times,
            j,
            rows[l].0,
        ) implies calendar::day_number(times[i]->0.date) < calendar::day_number(times[j]->0.date) by {
        keys_in_order(facts, times, i, j, days[k + off].0, days[l + off].0);
    }
    assert forall|i: int| #[trigger] opens_its_day(facts, times, i) && 0 <= i < facts.len() implies (exists|k: int|
        0 <= k < rows.len() && #[trigger] row_tells(rows[k], facts, times, self_id, i)) || (rows.len() == 14 && forall|
        k: int,
        j: int,
    |
        0 <= k < rows.len() && #[trigger] opens(facts, times, j, rows[k].0) ==> calendar::day_number(times[i]->0.date)
            < calendar::day_number(times[j]->0.date)) by {
        let key = calendar::date_key(times[i]->0.date);
        openers_are_first(facts, times, self_id, key);
        assert(opens(facts, times, i, key));
        assert(map.contains_key(key));
        let m = choose|m: int| 0 <= m < days.len() && days[m].0 == key;
        assert(map.contains_pair(days[m].0, days[m].1));
        if m >= off {
            assert(rows[m - off] == days[m]);
            assert(row_tells(rows[m - off], facts, times, self_id, i));
        } else {
            assert forall|k: int, j: int|
                0 <= k < rows.len() && #[trigger] opens(facts, times, j, rows[k].0) implies calendar::day_number(
                times[i]->0.date,
            ) < calendar::day_number(times[j]->0.date) by {
                keys_in_order(facts, times, i, j, days[m].0, days[k + off].0);
            }
        }
    }
}

/// Days come in the order of their keys.
proof fn keys_in_order(
    facts: Seq<MessageFact>,
    times: Seq<Option<LocalTime>>,
    i: int,
    j: int,
    a: Seq<char>,
    b: Seq<char>,
)
    requires
        timeline::clock_readings(facts, times),
        story::years_are_short(times),
        opens(facts, times, i, a),
        opens(facts, times, j, b),
        ordered::text_before(a, b),
    ensures
        calendar::day_number(times[i]->0.date) < calendar::day_number(times[j]->0.date),
{
    assert(calendar::clock_gives(facts[i].create_time as int, times[i]));
    assert(calendar::clock_gives(facts[j].create_time as int, times[j]));
    calendar::date_keys_order_dates(times[i]->0.date, times[j]->0.date);
    calendar::day_numbers_order_dates(times[i]->0.date, times[j]->0.date);
}

/// The first and the last time are the smallest and the largest that a message carries, and there is none
/// where no message carries one.
pub proof fn times_span_the_messages(facts: Seq<MessageFact>, first: Option<i64>, last: Option<i64>)
    requires
        dig::spans(facts, first, last),
    ensures
        forall|i: int|
            0 <= i < facts.len() && (#[trigger] facts[i]).create_time > 0 ==> first is Some && last is Some && first->0
                <= facts[i].create_time <= last->0,
        first matches Some(t) ==> exists|i: int|
            0 <= i < facts.len() && (#[trigger] facts[i]).create_time == t && t > 0,
        last matches Some(t) ==> exists|i: int|
            0 <= i < facts.len() && (#[trigger] facts[i]).create_time == t && t > 0,
{
    let d = timeline::dated(facts);
    let at = counting::dated_places(facts, Seq::new(facts.len(), |i: int| None));
    assert forall|i: int| 0 <= i < facts.len() && (#[trigger] facts[i]).create_time > 0 implies first is Some
        && last is Some && first->0 <= facts[i].create_time <= last->0 by {
        let k = choose|k: int| 0 <= k < at.len() && #[trigger] at[k] == i;
        assert(d[k] == facts[i]);
    }
    if first is Some {
        let k = choose|k: int| 0 <= k < d.len() && (#[trigger] d[k]).create_time == first->0;
        assert(facts[at[k]] == d[k]);
        let l = choose|l: int| 0 <= l < d.len() && (#[trigger] d[l]).create_time == last->0;
        assert(facts[at[l]] == d[l]);
    }
}

/// Which items have a property depends on the items, not on their order.
proof fn order_does_not_count(a: Seq<i64>, b: Seq<i64>, p: spec_fn(i64) -> bool)
    requires
        a.to_multiset() == b.to_multiset(),
    ensures
        seqs::count_if(a, p) == seqs::count_if(b, p),
{
    counted_as_multiset(a, p);
    counted_as_multiset(b, p);
}

proof fn counted_as_multiset(s: Seq<i64>, p: spec_fn(i64) -> bool)
    ensures
        seqs::count_if(s, p) == s.to_multiset().filter(p).len(),
    decreases s.len(),
{
    broadcast use vstd::seq_lib::group_to_multiset_ensures;
    broadcast use vstd::multiset::group_multiset_axioms;

    if s.len() == 0 {
        assert(s.to_multiset() =~= vstd::multiset::Multiset::empty());
        assert(s.to_multiset().filter(p) =~= vstd::multiset::Multiset::empty());
    } else {
        let less = s.drop_last();
        counted_as_multiset(less, p);
        assert(s =~= less.push(s.last()));
        assert(s.to_multiset() =~= less.to_multiset().insert(s.last()));
        if p(s.last()) {
            assert(s.to_multiset().filter(p) =~= less.to_multiset().filter(p).insert(s.last()));
        } else {
            assert(s.to_multiset().filter(p) =~= less.to_multiset().filter(p));
        }
    }
}

/// The middle sample: no more than half of the samples are smaller, and more than half are at most as
/// large. The mean is the whole part of the sum of all samples by their number.
pub proof fn samples_are_summed_up(s: LatencyStats, v: Seq<i64>)
    requires
        dig::summarises(s, v),
    ensures
        s.samples == v.len(),
        v.len() == 0 <==> s.median_sec is None,
        v.len() == 0 <==> s.mean_sec is None,
        s.median_sec matches Some(m) ==> v.contains(m) && counting::how_many(v.len() as int, |i: int| v[i] < m)
            <= v.len() as int / 2 < counting::how_many(v.len() as int, |i: int| v[i] <= m),
        s.mean_sec matches Some(m) ==> (trend::added(v, 0, v.len() as int) >= 0 ==> m >= 0 && m * v.len()
            <= trend::added(v, 0, v.len() as int) < m * v.len() + v.len()),
{
    broadcast use vstd::seq_lib::group_to_multiset_ensures;

    let n = v.len() as int;
    if n > 0 {
        let m = s.median_sec->0;
        let w = dig::in_order(v);
        let leq = |a: i64, b: i64| a <= b;
        v.lemma_sort_by_ensures(leq);
        assert(w.to_multiset() =~= v.to_multiset());
        assert(w.len() == v.len()) by {
            assert(w.to_multiset().len() == v.to_multiset().len());
        }
        assert(w[n / 2] == m);
        assert(v.contains(m)) by {
            assert(w.contains(m));
            assert(w.to_multiset().count(m) > 0);
        }
        let p = |x: i64| x < m;
        let q = |x: i64| x <= m;
        order_does_not_count(v, w, p);
        order_does_not_count(v, w, q);
        counting::items_counted(v, p);
        counting::items_counted(w, p);
        counting::items_counted(v, q);
        counting::items_counted(w, q);
        let low = |i: int| p(w[i]);
        let up = |i: int| q(w[i]);
        assert forall|i: int, j: int| 0 <= i < j < n implies #[trigger] w[i] <= #[trigger] w[j] by {
            assert(leq(w[i], w[j]));
        }
        counting::places_below(n, n / 2);
        counting::places_below(n, n / 2 + 1);
        counting::fewer_places(n, low, |i: int| i < n / 2);
        counting::fewer_places(n, |i: int| i < n / 2 + 1, up);
        counting::same_places(n, |i: int| p(v[i]), |i: int| v[i] < m);
        counting::same_places(n, |i: int| q(v[i]), |i: int| v[i] <= m);
        trend::part_added(v, 0, n);
        assert(v.subrange(0, n) =~= v);
        let total = seqs::sum(v);
        if total >= 0 {
            let mean = s.mean_sec->0 as int;
            vstd::arithmetic::div_mod::lemma_fundamental_div_mod(total, n);
            vstd::arithmetic::div_mod::lemma_mod_bound(total, n);
            vstd::arithmetic::div_mod::lemma_div_pos_is_pos(total, n);
            assert(n * mean == mean * n) by (nonlinear_arith);
        }
    }
}

/// The types of one side are counted once for each message.
proof fn types_counted(facts: Seq<MessageFact>, self_id: i64, mine: bool, t: i64)
    ensures
        counting::how_many(
            dig::side_types(facts, self_id, mine).len() as int,
            |i: int| dig::side_types(facts, self_id, mine)[i] == t,
        ) == counting::how_many(
            facts.len() as int,
            |i: int| (facts[i].sender_id == self_id) == mine && facts[i].base_type == t,
        ),
        dig::side_types(facts, self_id, mine).len() <= facts.len(),
        dig::side_types(facts, self_id, mine).contains(t) <==> exists|i: int|
            0 <= i < facts.len() && ((#[trigger] facts[i]).sender_id == self_id) == mine && facts[i].base_type == t,
    decreases facts.len(),
{
    let s = dig::side_types(facts, self_id, mine);
    let here = |i: int| (facts[i].sender_id == self_id) == mine && facts[i].base_type == t;
    let at = |i: int| s[i] == t;
    counting::one_place_more(0, here);
    counting::one_place_more(0, at);
    if facts.len() > 0 {
        let n = facts.len() - 1;
        let less = facts.drop_last();
        let before = dig::side_types(less, self_id, mine);
        types_counted(less, self_id, mine, t);
        let there = |i: int| (less[i].sender_id == self_id) == mine && less[i].base_type == t;
        assert forall|i: int| 0 <= i < n implies #[trigger] there(i) == here(i) by {
            assert(less[i] == facts[i]);
        }
        counting::same_places(n, there, here);
        counting::one_place_more(n, here);
        let then = |i: int| before[i] == t;
        assert forall|i: int| 0 <= i < before.len() implies #[trigger] then(i) == at(i) by {
            assert(before[i] == s[i]);
        }
        counting::same_places(before.len() as int, then, at);
        counting::same_places(
            before.len() as int,
            |i: int| dig::side_types(less, self_id, mine)[i] == t,
            then,
        );
        counting::one_place_more(before.len() as int, at);
        assert(s.contains(t) <==> before.contains(t) || here(n)) by {
            if before.contains(t) {
                assert(s[before.index_of(t)] == t);
            }
            if s.contains(t) {
                let k = s.index_of(t);
                if k < before.len() {
                    assert(before[k] == t);
                }
            }
            if here(n) {
                assert(s[before.len() as int] == t);
            }
        }
        if exists|i: int|
            0 <= i < less.len() && ((#[trigger] less[i]).sender_id == self_id) == mine && less[i].base_type == t {
            let i = choose|i: int|
                0 <= i < less.len() && ((#[trigger] less[i]).sender_id == self_id) == mine && less[i].base_type == t;
            assert(facts[i] == less[i]);
        }
        if exists|i: int|
            0 <= i < facts.len() && ((#[trigger] facts[i]).sender_id == self_id) == mine && facts[i].base_type == t {
            let i = choose|i: int|
                0 <= i < facts.len() && ((#[trigger] facts[i]).sender_id == self_id) == mine && facts[i].base_type == t;
            if i < n {
                assert(less[i] == facts[i]);
            }
        }
    }
    counting::same_places(s.len() as int, |i: int| dig::side_types(facts, self_id, mine)[i] == t, at);
}

/// The rows are the types of one side, each with the number of its messages: the most frequent first,
/// equal ones by type.
pub open spec fn tells_types(rows: Seq<(i64, i64)>, facts: Seq<MessageFact>, self_id: i64, mine: bool) -> bool {
    &&& forall|k: int|
        #![trigger rows[k]]
        0 <= k < rows.len() ==> rows[k].1 > 0 && rows[k].1 == counting::how_many(
            facts.len() as int,
            |i: int| (facts[i].sender_id == self_id) == mine && facts[i].base_type == rows[k].0,
        )
    &&& forall|k: int, l: int|
        0 <= k < l < rows.len() ==> (#[trigger] rows[k]).1 > (#[trigger] rows[l]).1 || (rows[k].1 == rows[l].1
            && rows[k].0 < rows[l].0)
    &&& forall|i: int|
        0 <= i < facts.len() && ((#[trigger] facts[i]).sender_id == self_id) == mine ==> exists|k: int|
            0 <= k < rows.len() && (#[trigger] rows[k]).0 == facts[i].base_type
}

proof fn types_ranked(rows: Seq<(i64, i64)>, facts: Seq<MessageFact>, self_id: i64, mine: bool)
    requires
        facts.len() <= i64::MAX,
        ordered::keyed(rows) == ordered::ranking::<i64>(ordered::tally(dig::side_types(facts, self_id, mine))),
    ensures
        tells_types(rows, facts, self_id, mine),
{
    let s = dig::side_types(facts, self_id, mine);
    let map = ordered::tally(s);
    let pairs = ordered::keyed(rows);
    ordered::tally_size(s);
    ordered::ranking_ranks::<i64>(map);
    assert forall|k: int| 0 <= k < rows.len() implies #[trigger] rows[k] == pairs[k] by {
        assert(pairs[k] == (rows[k].0@, rows[k].1));
    }
    assert forall|k: int|
        #![trigger rows[k]]
        0 <= k < rows.len() implies rows[k].1 > 0 && rows[k].1 == counting::how_many(
        facts.len() as int,
        |i: int| (facts[i].sender_id == self_id) == mine && facts[i].base_type == rows[k].0,
    ) by {
        let t = rows[k].0;
        assert(map.contains_pair(pairs[k].0, pairs[k].1));
        types_counted(facts, self_id, mine, t);
        let at = |i: int| s[i] == t;
        counting::tally_counts(s, t, at);
        ordered::tally_holds(s, t);
        counting::same_places(s.len() as int, |i: int| dig::side_types(facts, self_id, mine)[i] == t, at);
        counting::same_places(
            facts.len() as int,
            |i: int| (facts[i].sender_id == self_id) == mine && facts[i].base_type == t,
            |i: int| (facts[i].sender_id == self_id) == mine && facts[i].base_type == rows[k].0,
        );
    }
    assert forall|k: int, l: int| 0 <= k < l < rows.len() implies (#[trigger] rows[k]).1 > (#[trigger] rows[l]).1 || (
    rows[k].1 == rows[l].1 && rows[k].0 < rows[l].0) by {
        assert(ordered::ranks::<i64, i64>(pairs[k], pairs[l]) && pairs[k].0 != pairs[l].0);
    }
    assert forall|i: int| 0 <= i < facts.len() && ((#[trigger] facts[i]).sender_id == self_id) == mine implies exists|
        k: int,
    | 0 <= k < rows.len() && (#[trigger] rows[k]).0 == facts[i].base_type by {
        types_counted(facts, self_id, mine, facts[i].base_type);
        assert(map.contains_key(facts[i].base_type));
        let k = choose|k: int| 0 <= k < pairs.len() && pairs[k].0 == facts[i].base_type;
        assert(rows[k].0 == facts[i].base_type);
    }
}

/// The message at `i` answers after more than six hours.
pub open spec fn answers_late(facts: Seq<MessageFact>, i: int) -> bool {
    exists|j: int| #[trigger]
        counting::is_answer(facts, j, i) && facts[i].create_time - facts[j].create_time > 21600
}

/// Every figure of a conversation is one of its messages: how many there are of either side and of which
/// type, how many answered within six hours and how many later, and how many opened a day.
pub proof fn details_are_counted(
    d: ConversationDetail,
    facts: Seq<MessageFact>,
    times: Seq<Option<LocalTime>>,
    self_id: i64,
    is_group: bool,
)
    requires
        dig::details(d, facts, times, self_id, is_group),
        facts.len() <= i64::MAX,
        times.len() == facts.len(),
    ensures
        d.total == facts.len(),
        d.my_count == counting::how_many(facts.len() as int, |i: int| facts[i].sender_id == self_id),
        d.other_count == counting::how_many(facts.len() as int, |i: int| facts[i].sender_id != self_id),
        tells_types(d.my_type_dist@, facts, self_id, true),
        tells_types(d.other_type_dist@, facts, self_id, false),
        d.my_reply.samples == counting::how_many(
            facts.len() as int,
            |i: int| counting::replies_in_time(facts, i, Some(self_id), true, |g: int| g <= 21600),
        ),
        d.other_reply.samples == counting::how_many(
            facts.len() as int,
            |i: int| counting::replies_in_time(facts, i, Some(self_id), false, |g: int| g <= 21600),
        ),
        d.capped_replies == counting::how_many(facts.len() as int, |i: int| answers_late(facts, i)),
        d.days_self_open == counting::how_many(
            facts.len() as int,
            |i: int| opens_its_day(facts, times, i) && facts[i].sender_id == self_id,
        ),
        d.days_other_open == counting::how_many(
            facts.len() as int,
            |i: int| opens_its_day(facts, times, i) && facts[i].sender_id != self_id,
        ),
{
    let n = facts.len() as int;
    let me = Some(self_id);
    let p = |f: MessageFact| f.sender_id == self_id;
    let q = |f: MessageFact| f.sender_id != self_id;
    counting::items_counted(facts, p);
    counting::items_counted(facts, q);
    counting::same_places(n, |i: int| p(facts[i]), |i: int| facts[i].sender_id == self_id);
    counting::same_places(n, |i: int| q(facts[i]), |i: int| facts[i].sender_id != self_id);
    seqs::counts_split(facts, p, q);
    types_ranked(d.my_type_dist@, facts, self_id, true);
    types_ranked(d.other_type_dist@, facts, self_id, false);
    samples_counted(facts, self_id, true);
    samples_counted(facts, self_id, false);
    late_counted(facts);
    opened_days_are_counted(facts, times, me);
    counting::same_places(
        n,
        |i: int| opens_its_day(facts, times, i) && me == Some(facts[i].sender_id),
        |i: int| opens_its_day(facts, times, i) && facts[i].sender_id == self_id,
    );
    counting::same_places(
        n,
        |i: int| opens_its_day(facts, times, i) && me != Some(facts[i].sender_id),
        |i: int| opens_its_day(facts, times, i) && facts[i].sender_id != self_id,
    );
}

proof fn samples_counted(facts: Seq<MessageFact>, self_id: i64, mine: bool)
    ensures
        timeline::latencies(timeline::replies(timeline::dated(facts)), Some(self_id), mine).len()
            == counting::how_many(
            facts.len() as int,
            |i: int| counting::replies_in_time(facts, i, Some(self_id), mine, |g: int| g <= 21600),
        ),
{
    couple::within_counted(facts, Some(self_id), mine, 21600);
    couple::all_within_cap(facts, Some(self_id), mine);
    let limit: i64 = 21600;
    let a = |g: int| g <= limit;
    let b = |g: int| g <= 21600;
    assert forall|g: int| #[trigger] a(g) == b(g) by {}
    assert(a =~= b);
    counting::same_places(
        facts.len() as int,
        |i: int| counting::replies_in_time(facts, i, Some(self_id), mine, |g: int| g <= limit),
        |i: int| counting::replies_in_time(facts, i, Some(self_id), mine, |g: int| g <= 21600),
    );
}

proof fn late_counted(facts: Seq<MessageFact>)
    ensures
        timeline::late_replies(timeline::replies(timeline::dated(facts))) == counting::how_many(
            facts.len() as int,
            |i: int| answers_late(facts, i),
        ),
{
    let p = |s: i64, g: int| g > 21600;
    let replies = timeline::replies(timeline::dated(facts));
    counting::replies_counted(facts, p);
    couple::same_count(replies, |r: (i64, i64)| p(r.0, r.1 as int), |r: (i64, i64)| r.1 > timeline::REPLY_CAP_SEC);
    let a = |i: int| counting::answers(facts, i, p);
    let b = |i: int| answers_late(facts, i);
    assert forall|i: int| 0 <= i < facts.len() implies #[trigger] a(i) == b(i) by {
        if a(i) {
            let j = choose|j: int| #[trigger]
                counting::is_answer(facts, j, i) && p(
                    facts[i].sender_id,
                    facts[i].create_time - facts[j].create_time,
                );
            assert(counting::is_answer(facts, j, i));
        }
        if b(i) {
            let j = choose|j: int| #[trigger]
                counting::is_answer(facts, j, i) && facts[i].create_time - facts[j].create_time > 21600;
            assert(counting::is_answer(facts, j, i) && p(
                facts[i].sender_id,
                facts[i].create_time - facts[j].create_time,
            ));
        }
    }
    counting::same_places(facts.len() as int, a, b);
}

}
