//! Counting places.

use vstd::prelude::*;

use crate::calendar::LocalTime;
use crate::model::MessageFact;
use crate::ordered;
use crate::seqs;
use crate::timeline;

verus! {

/// The places below `n` that have the property.
pub open spec fn places(n: int, p: spec_fn(int) -> bool) -> Set<int> {
    Set::new(|i: int| 0 <= i < n && p(i))
}

/// The number of places below `n` that have the property.
pub open spec fn how_many(n: int, p: spec_fn(int) -> bool) -> int {
    places(n, p).len() as int
}

/// There are none below zero, and one place more adds at most itself.
pub proof fn one_place_more(n: int, p: spec_fn(int) -> bool)
    requires
        0 <= n,
    ensures
        how_many(0, p) == 0,
        how_many(n + 1, p) == how_many(n, p) + if p(n) {
            1int
        } else {
            0int
        },
        0 <= how_many(n, p) <= n,
        places(n, p).finite(),
        places(n + 1, p).finite(),
    decreases n,
{
    assert(places(0, p) =~= Set::empty());
    if n > 0 {
        one_place_more(n - 1, p);
        assert(places(n, p).finite());
    }
    if p(n) {
        assert(places(n + 1, p) =~= places(n, p).insert(n));
    } else {
        assert(places(n + 1, p) =~= places(n, p));
    }
}

/// Only what holds below `n` counts.
pub proof fn same_places(n: int, p: spec_fn(int) -> bool, q: spec_fn(int) -> bool)
    requires
        forall|i: int| 0 <= i < n ==> #[trigger] p(i) == q(i),
    ensures
        how_many(n, p) == how_many(n, q),
        places(n, p) == places(n, q),
{
    assert forall|i: int| places(n, p).contains(i) == places(n, q).contains(i) by {
        if 0 <= i < n {
            assert(p(i) == q(i));
        }
    }
    assert(places(n, p) =~= places(n, q));
}

/// Places with either of two properties that none has at once.
pub proof fn places_split(n: int, p: spec_fn(int) -> bool, a: spec_fn(int) -> bool, b: spec_fn(int) -> bool)
    requires
        0 <= n,
        forall|i: int| 0 <= i < n ==> (#[trigger] p(i)) == (a(i) || b(i)) && !(a(i) && b(i)),
    ensures
        how_many(n, p) == how_many(n, a) + how_many(n, b),
    decreases n,
{
    one_place_more(0, p);
    one_place_more(0, a);
    one_place_more(0, b);
    if n > 0 {
        places_split(n - 1, p, a, b);
        one_place_more(n - 1, p);
        one_place_more(n - 1, a);
        one_place_more(n - 1, b);
        assert(p(n - 1) == (a(n - 1) || b(n - 1)));
    }
}

/// Items with a property are counted once each.
pub proof fn items_counted<A>(s: Seq<A>, p: spec_fn(A) -> bool)
    ensures
        seqs::count_if(s, p) == how_many(s.len() as int, |i: int| p(s[i])),
    decreases s.len(),
{
    let here = |i: int| p(s[i]);
    one_place_more(0, here);
    if s.len() > 0 {
        let less = s.drop_last();
        items_counted(less, p);
        let there = |i: int| p(less[i]);
        assert forall|i: int| 0 <= i < less.len() implies #[trigger] there(i) == here(i) by {}
        same_places(less.len() as int, there, here);
        one_place_more(less.len() as int, here);
    }
}

/// Messages that carry a time and have a property are counted once each.
pub proof fn dated_counted(facts: Seq<MessageFact>, p: spec_fn(MessageFact) -> bool)
    ensures
        seqs::count_if(timeline::dated(facts), p) == how_many(
            facts.len() as int,
            |i: int| facts[i].create_time > 0 && p(facts[i]),
        ),
    decreases facts.len(),
{
    let here = |i: int| facts[i].create_time > 0 && p(facts[i]);
    one_place_more(0, here);
    if facts.len() > 0 {
        let less = facts.drop_last();
        dated_counted(less, p);
        let there = |i: int| less[i].create_time > 0 && p(less[i]);
        assert forall|i: int| 0 <= i < less.len() implies #[trigger] there(i) == here(i) by {}
        same_places(less.len() as int, there, here);
        one_place_more(less.len() as int, here);
        let d = timeline::dated(less);
        if facts.last().create_time > 0 {
            assert(timeline::dated(facts).drop_last() =~= d);
        }
    }
}

/// A tally holds how often an item stands in the sequence.
pub proof fn tally_counts<A>(s: Seq<A>, x: A, p: spec_fn(int) -> bool)
    requires
        s.len() <= i64::MAX,
        forall|i: int| 0 <= i < s.len() ==> #[trigger] p(i) == (s[i] == x),
    ensures
        ordered::tally(s).contains_key(x) <==> s.contains(x),
        ordered::count_in(ordered::tally(s), x) == how_many(s.len() as int, p),
{
    broadcast use vstd::seq_lib::group_to_multiset_ensures;

    counted_in_multiset(s, x);
    same_places(s.len() as int, p, |i: int| s[i] == x);
    if s.contains(x) {
        ordered::tally_holds(s, x);
    }
    one_place_more(s.len() as int, |i: int| s[i] == x);
}

proof fn counted_in_multiset<A>(s: Seq<A>, x: A)
    ensures
        s.to_multiset().count(x) == how_many(s.len() as int, |i: int| s[i] == x),
    decreases s.len(),
{
    broadcast use vstd::seq_lib::group_to_multiset_ensures;
    broadcast use vstd::multiset::group_multiset_axioms;

    let here = |i: int| s[i] == x;
    one_place_more(0, here);
    if s.len() > 0 {
        let less = s.drop_last();
        counted_in_multiset(less, x);
        let there = |i: int| less[i] == x;
        assert forall|i: int| 0 <= i < less.len() implies #[trigger] there(i) == here(i) by {}
        same_places(less.len() as int, there, here);
        one_place_more(less.len() as int, here);
        assert(s =~= less.push(s.last()));
    } else {
        assert(s =~= Seq::empty());
    }
}

/// The message at `j` is the last one before `i` that carries a time.
pub open spec fn is_before(facts: Seq<MessageFact>, j: int, i: int) -> bool {
    &&& 0 <= j < i <= facts.len()
    &&& facts[j].create_time > 0
    &&& forall|k: int| j < k < i ==> (#[trigger] facts[k]).create_time <= 0
}

/// The last dated message stands somewhere, with none after it.
pub proof fn last_dated(facts: Seq<MessageFact>) -> (j: int)
    ensures
        timeline::dated(facts).len() > 0 ==> is_before(facts, j, facts.len() as int) && facts[j] == timeline::dated(
            facts,
        ).last(),
        timeline::dated(facts).len() == 0 ==> forall|k: int|
            0 <= k < facts.len() ==> (#[trigger] facts[k]).create_time <= 0,
    decreases facts.len(),
{
    if facts.len() == 0 {
        0
    } else {
        let n = facts.len() - 1;
        let less = facts.drop_last();
        let j = last_dated(less);
        if facts.last().create_time > 0 {
            n
        } else {
            assert forall|k: int| j < k < facts.len() && timeline::dated(less).len() > 0 implies (
            #[trigger] facts[k]).create_time <= 0 by {
                if k < n {
                    assert(less[k] == facts[k]);
                }
            }
            assert forall|k: int| 0 <= k < facts.len() && timeline::dated(less).len() == 0 implies (
            #[trigger] facts[k]).create_time <= 0 by {
                if k < n {
                    assert(less[k] == facts[k]);
                }
            }
            j
        }
    }
}

/// Only one message is the last before a place.
pub proof fn only_one_before(facts: Seq<MessageFact>, a: int, b: int, i: int)
    requires
        is_before(facts, a, i),
        is_before(facts, b, i),
    ensures
        a == b,
{
    if a < b {
        assert(facts[b].create_time <= 0);
    }
    if b < a {
        assert(facts[a].create_time <= 0);
    }
}

/// What comes later does not change what is before a place.
pub proof fn before_in_part(facts: Seq<MessageFact>, j: int, i: int)
    requires
        0 <= i < facts.len(),
    ensures
        is_before(facts.drop_last(), j, i) == is_before(facts, j, i),
{
    let less = facts.drop_last();
    if is_before(less, j, i) {
        assert forall|k: int| j < k < i implies (#[trigger] facts[k]).create_time <= 0 by {
            assert(less[k] == facts[k]);
        }
    }
    if is_before(facts, j, i) {
        assert forall|k: int| j < k < i implies (#[trigger] less[k]).create_time <= 0 by {
            assert(less[k] == facts[k]);
        }
    }
}

/// The message at `i` answers another sender, later than it, after at least one second.
pub open spec fn is_answer(facts: Seq<MessageFact>, j: int, i: int) -> bool {
    &&& 0 <= i < facts.len()
    &&& facts[i].create_time > 0
    &&& is_before(facts, j, i)
    &&& facts[j].sender_id != facts[i].sender_id
    &&& facts[i].create_time > facts[j].create_time
}

/// The message at `i` answers, and its sender and the seconds that it took have a property.
pub open spec fn answers(facts: Seq<MessageFact>, i: int, p: spec_fn(i64, int) -> bool) -> bool {
    exists|j: int| #[trigger]
        is_answer(facts, j, i) && p(facts[i].sender_id, facts[i].create_time - facts[j].create_time)
}

/// Answers with a property are counted once each.
pub proof fn replies_counted(facts: Seq<MessageFact>, p: spec_fn(i64, int) -> bool)
    ensures
        seqs::count_if(timeline::replies(timeline::dated(facts)), |r: (i64, i64)| p(r.0, r.1 as int)) == how_many(
            facts.len() as int,
            |i: int| answers(facts, i, p),
        ),
    decreases facts.len(),
{
    let here = |i: int| answers(facts, i, p);
    let q = |r: (i64, i64)| p(r.0, r.1 as int);
    one_place_more(0, here);
    if facts.len() > 0 {
        let n = facts.len() - 1;
        let less = facts.drop_last();
        replies_counted(less, p);
        let there = |i: int| answers(less, i, p);
        assert forall|i: int| 0 <= i < n implies #[trigger] there(i) == here(i) by {
            if there(i) {
                let j = choose|j: int| #[trigger]
                    is_answer(less, j, i) && p(less[i].sender_id, less[i].create_time - less[j].create_time);
                before_in_part(facts, j, i);
                assert(is_answer(facts, j, i));
            }
            if here(i) {
                let j = choose|j: int| #[trigger]
                    is_answer(facts, j, i) && p(facts[i].sender_id, facts[i].create_time - facts[j].create_time);
                before_in_part(facts, j, i);
                assert(is_answer(less, j, i));
            }
        }
        same_places(n, there, here);
        one_place_more(n, here);
        let d0 = timeline::dated(less);
        let d1 = timeline::dated(facts);
        let f = facts.last();
        if f.create_time > 0 {
            assert(d1 =~= d0.push(f));
            assert(d1.drop_last() =~= d0);
            let j = last_dated(less);
            if d0.len() > 0 {
                before_in_part(facts, j, n);
                assert(is_before(facts, j, n));
                assert(d1[d1.len() - 2] == facts[j]);
                timeline::dated_messages(less);
                assert(timeline::is_dated(d0[d0.len() - 1]));
                let r0 = timeline::replies(d0);
                let r1 = timeline::replies(d1);
                if here(n) {
                    let k = choose|k: int| #[trigger]
                        is_answer(facts, k, n) && p(facts[n].sender_id, facts[n].create_time - facts[k].create_time);
                    only_one_before(facts, j, k, n);
                }
                if facts[j].sender_id != f.sender_id && f.create_time > facts[j].create_time {
                    assert(is_answer(facts, j, n));
                    assert(r1.drop_last() =~= r0);
                }
            } else {
                assert(!here(n)) by {
                    if here(n) {
                        let k = choose|k: int| #[trigger]
                            is_answer(facts, k, n) && p(facts[n].sender_id, facts[n].create_time - facts[k].create_time);
                        assert(less[k].create_time <= 0);
                    }
                }
            }
        }
    }
}

/// The message at `i` answers within six hours, it is one's own or not, and the seconds that it took
/// have a property.
pub open spec fn replies_in_time(
    facts: Seq<MessageFact>,
    i: int,
    self_id: Option<i64>,
    mine: bool,
    p: spec_fn(int) -> bool,
) -> bool {
    exists|j: int| #[trigger]
        is_answer(facts, j, i) && facts[i].create_time - facts[j].create_time <= 21600 && (self_id == Some(
            facts[i].sender_id,
        )) == mine && p(facts[i].create_time - facts[j].create_time)
}

/// The gaps of one side with a property are those of its answers.
pub proof fn latencies_counted(facts: Seq<MessageFact>, self_id: Option<i64>, mine: bool, p: spec_fn(int) -> bool)
    ensures
        seqs::count_if(
            timeline::latencies(timeline::replies(timeline::dated(facts)), self_id, mine),
            |g: i64| p(g as int),
        ) == how_many(facts.len() as int, |i: int| replies_in_time(facts, i, self_id, mine, p)),
{
    let q = |s: i64, g: int| g <= 21600 && (self_id == Some(s)) == mine && p(g);
    let replies = timeline::replies(timeline::dated(facts));
    replies_counted(facts, q);
    latencies_filter(replies, self_id, mine, p, q);
    let a = |i: int| answers(facts, i, q);
    let b = |i: int| replies_in_time(facts, i, self_id, mine, p);
    assert forall|i: int| 0 <= i < facts.len() implies #[trigger] a(i) == b(i) by {
        if a(i) {
            let j = choose|j: int| #[trigger]
                is_answer(facts, j, i) && q(facts[i].sender_id, facts[i].create_time - facts[j].create_time);
            assert(is_answer(facts, j, i));
        }
        if b(i) {
            let j = choose|j: int| #[trigger]
                is_answer(facts, j, i) && facts[i].create_time - facts[j].create_time <= 21600 && (self_id == Some(
                    facts[i].sender_id,
                )) == mine && p(facts[i].create_time - facts[j].create_time);
            assert(is_answer(facts, j, i) && q(facts[i].sender_id, facts[i].create_time - facts[j].create_time));
        }
    }
    same_places(facts.len() as int, a, b);
}

proof fn latencies_filter(
    replies: Seq<(i64, i64)>,
    self_id: Option<i64>,
    mine: bool,
    p: spec_fn(int) -> bool,
    q: spec_fn(i64, int) -> bool,
)
    requires
        forall|s: i64, g: int| #[trigger] q(s, g) == (g <= 21600 && (self_id == Some(s)) == mine && p(g)),
    ensures
        seqs::count_if(timeline::latencies(replies, self_id, mine), |g: i64| p(g as int)) == seqs::count_if(
            replies,
            |r: (i64, i64)| q(r.0, r.1 as int),
        ),
    decreases replies.len(),
{
    if replies.len() > 0 {
        latencies_filter(replies.drop_last(), self_id, mine, p, q);
        let before = timeline::latencies(replies.drop_last(), self_id, mine);
        let all = timeline::latencies(replies, self_id, mine);
        let (s, g) = replies.last();
        assert(q(s, g as int) == (g <= 21600 && (self_id == Some(s)) == mine && p(g as int)));
        if g <= 21600 && (self_id == Some(s)) == mine {
            assert(all =~= before.push(g));
            assert(all.drop_last() =~= before);
        }
    }
}

/// The local day of the message at `i`, as its key: only a message with a time and a reading has one.
pub open spec fn falls_on(facts: Seq<MessageFact>, times: Seq<Option<LocalTime>>, i: int, key: Seq<char>) -> bool {
    facts[i].create_time > 0 && times[i] is Some && crate::calendar::date_key(times[i]->0.date) == key
}

/// The days of messages are counted once for each message that falls on them.
pub proof fn days_counted(facts: Seq<MessageFact>, times: Seq<Option<LocalTime>>, key: Seq<char>)
    requires
        facts.len() <= times.len(),
    ensures
        how_many(
            timeline::day_keys(facts, times).len() as int,
            |i: int| timeline::day_keys(facts, times)[i] == key,
        ) == how_many(facts.len() as int, |i: int| falls_on(facts, times, i, key)),
        timeline::day_keys(facts, times).contains(key) <==> exists|i: int|
            0 <= i < facts.len() && #[trigger] falls_on(facts, times, i, key),
    decreases facts.len(),
{
    let here = |i: int| falls_on(facts, times, i, key);
    let keys = timeline::day_keys(facts, times);
    let at = |i: int| keys[i] == key;
    one_place_more(0, here);
    one_place_more(0, at);
    if facts.len() > 0 {
        let n = facts.len() - 1;
        let less = facts.drop_last();
        days_counted(less, times, key);
        let there = |i: int| falls_on(less, times, i, key);
        assert forall|i: int| 0 <= i < n implies #[trigger] there(i) == here(i) by {
            assert(less[i] == facts[i]);
        }
        same_places(n, there, here);
        one_place_more(n, here);
        let before = timeline::day_keys(less, times);
        let then = |i: int| before[i] == key;
        assert forall|i: int| 0 <= i < before.len() implies #[trigger] then(i) == at(i) by {
            assert(before[i] == keys[i]);
        }
        same_places(before.len() as int, then, at);
        one_place_more(before.len() as int, at);
        assert(keys.contains(key) <==> before.contains(key) || falls_on(facts, times, n, key)) by {
            if before.contains(key) {
                assert(keys[before.index_of(key)] == key);
            }
            if keys.contains(key) {
                let k = keys.index_of(key);
                if k < before.len() {
                    assert(before[k] == key);
                }
            }
            if falls_on(facts, times, n, key) {
                assert(keys[before.len() as int] == key);
            }
        }
        if exists|i: int| 0 <= i < facts.len() && #[trigger] falls_on(facts, times, i, key) {
            let i = choose|i: int| 0 <= i < facts.len() && #[trigger] falls_on(facts, times, i, key);
            if i < n {
                assert(falls_on(less, times, i, key));
            }
        }
        if exists|i: int| 0 <= i < less.len() && #[trigger] falls_on(less, times, i, key) {
            let i = choose|i: int| 0 <= i < less.len() && #[trigger] falls_on(less, times, i, key);
            assert(falls_on(facts, times, i, key));
        }
    }
}

/// Where the dated messages stand among all messages: in the same order, each with its local time, and
/// none left out.
pub proof fn dated_places(facts: Seq<MessageFact>, times: Seq<Option<LocalTime>>) -> (at: Seq<int>)
    ensures
        at.len() == timeline::dated(facts).len(),
        at.len() == timeline::dated_times(facts, times).len(),
        forall|k: int|
            0 <= k < at.len() ==> 0 <= #[trigger] at[k] < facts.len() && facts[at[k]].create_time > 0
                && facts[at[k]] == timeline::dated(facts)[k] && times[at[k]] == timeline::dated_times(facts, times)[k],
        forall|k: int, l: int| 0 <= k < l < at.len() ==> #[trigger] at[k] < #[trigger] at[l],
        forall|i: int|
            0 <= i < facts.len() && (#[trigger] facts[i]).create_time > 0 ==> exists|k: int|
                0 <= k < at.len() && #[trigger] at[k] == i,
    decreases facts.len(),
{
    if facts.len() == 0 {
        Seq::empty()
    } else {
        let n = facts.len() - 1;
        let less = facts.drop_last();
        let before = dated_places(less, times);
        assert forall|k: int| 0 <= k < before.len() implies facts[#[trigger] before[k]] == timeline::dated(less)[k] by {
            assert(less[before[k]] == facts[before[k]]);
        }
        let at = if facts.last().create_time > 0 {
            before.push(n)
        } else {
            before
        };
        assert forall|i: int| 0 <= i < facts.len() && (#[trigger] facts[i]).create_time > 0 implies exists|k: int|
            0 <= k < at.len() && #[trigger] at[k] == i by {
            if i < n {
                assert(less[i] == facts[i]);
                let k = choose|k: int| 0 <= k < before.len() && #[trigger] before[k] == i;
                assert(at[k] == i);
            } else {
                assert(at[before.len() as int] == i);
            }
        }
        at
    }
}

/// The message at `i` follows another one in time order, and the sender of that one and the seconds in
/// between have a property.
pub open spec fn follows(facts: Seq<MessageFact>, i: int, p: spec_fn(i64, int) -> bool) -> bool {
    exists|j: int| #[trigger]
        is_before(facts, j, i) && 0 <= i < facts.len() && facts[i].create_time > 0 && p(
            facts[j].sender_id,
            facts[i].create_time - facts[j].create_time,
        )
}

/// A property that says more counts no more.
pub proof fn fewer_places(n: int, p: spec_fn(int) -> bool, q: spec_fn(int) -> bool)
    requires
        0 <= n,
        forall|i: int| 0 <= i < n && #[trigger] p(i) ==> q(i),
    ensures
        how_many(n, p) <= how_many(n, q),
    decreases n,
{
    one_place_more(0, p);
    one_place_more(0, q);
    if n > 0 {
        fewer_places(n - 1, p, q);
        one_place_more(n - 1, p);
        one_place_more(n - 1, q);
        if p(n - 1) {
            assert(q(n - 1));
        }
    }
}

/// The places below `k` are `k`.
pub proof fn places_below(n: int, k: int)
    requires
        0 <= k <= n,
    ensures
        how_many(n, |i: int| i < k) == k,
    decreases n,
{
    let p = |i: int| i < k;
    one_place_more(0, p);
    if n > 0 {
        one_place_more(n - 1, p);
        if k < n {
            places_below(n - 1, k);
        } else {
            places_below(n - 1, k - 1);
            let q = |i: int| i < k - 1;
            same_places(n - 1, p, q);
        }
    }
}

}
