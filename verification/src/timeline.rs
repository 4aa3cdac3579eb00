//! Messages in their order in time: dated messages, their local days and the replies among them.

use vstd::prelude::*;
use vstd::string::*;

use crate::calendar;
use crate::calendar::LocalTime;
use crate::model;
use crate::model::{MessageFact, TextMessage};
use crate::seqs;

verus! {

/// A gap above which a message is no reply any more: six hours.
pub const REPLY_CAP_SEC: i64 = 21600;

/// The message carries a time.
pub open spec fn is_dated(f: MessageFact) -> bool {
    f.create_time > 0
}

/// The messages that carry a time, in their order.
pub open spec fn dated(facts: Seq<MessageFact>) -> Seq<MessageFact>
    decreases facts.len(),
{
    if facts.len() == 0 {
        Seq::empty()
    } else if is_dated(facts.last()) {
        dated(facts.drop_last()).push(facts.last())
    } else {
        dated(facts.drop_last())
    }
}

/// Every dated message is one of the messages and carries a time.
pub proof fn dated_messages(facts: Seq<MessageFact>)
    ensures
        dated(facts).len() <= facts.len(),
        forall|i: int| 0 <= i < dated(facts).len() ==> is_dated(#[trigger] dated(facts)[i]),
    decreases facts.len(),
{
    if facts.len() > 0 {
        dated_messages(facts.drop_last());
    }
}

/// What a local clock may have shown at the time of each message.
pub open spec fn clock_readings(facts: Seq<MessageFact>, times: Seq<Option<LocalTime>>) -> bool {
    &&& times.len() == facts.len()
    &&& forall|i: int|
        0 <= i < facts.len() ==> calendar::clock_gives(facts[i].create_time as int, #[trigger] times[i])
}

/// Reads the local clock at the time of each message.
pub fn read_clock(facts: &[MessageFact]) -> (times: Vec<Option<LocalTime>>)
    ensures
        clock_readings(facts@, times@),
{
    let mut times: Vec<Option<LocalTime>> = Vec::new();
    let mut i: usize = 0;
    while i < facts.len()
        invariant
            i <= facts@.len(),
            clock_readings(facts@.take(i as int), times@),
        decreases facts@.len() - i,
    {
        times.push(calendar::local_dt(facts[i].create_time));
        i = i + 1;
    }
    assert(facts@.take(i as int) =~= facts@);
    times
}

/// What a local clock may have shown at the time of each text message.
pub open spec fn text_readings(texts: Seq<TextMessage>, times: Seq<Option<LocalTime>>) -> bool {
    &&& times.len() == texts.len()
    &&& forall|i: int|
        0 <= i < texts.len() ==> calendar::clock_gives(texts[i].create_time as int, #[trigger] times[i])
}

/// Reads the local clock at the time of each text message.
pub fn read_text_clock(texts: &[TextMessage]) -> (times: Vec<Option<LocalTime>>)
    ensures
        text_readings(texts@, times@),
{
    let mut times: Vec<Option<LocalTime>> = Vec::new();
    let mut i: usize = 0;
    while i < texts.len()
        invariant
            i <= texts@.len(),
            text_readings(texts@.take(i as int), times@),
        decreases texts@.len() - i,
    {
        times.push(calendar::local_dt(texts[i].create_time));
        i = i + 1;
    }
    assert(texts@.take(i as int) =~= texts@);
    times
}

/// The key of the local day of a message that carries a time.
pub open spec fn day_of(f: MessageFact, t: Option<LocalTime>) -> Option<Seq<char>> {
    if is_dated(f) && t is Some {
        Some(calendar::date_key(t->0.date))
    } else {
        None
    }
}

/// The local days of the messages that have one, in the order of the messages.
pub open spec fn day_keys(facts: Seq<MessageFact>, times: Seq<Option<LocalTime>>) -> Seq<Seq<char>>
    decreases facts.len(),
{
    if facts.len() == 0 {
        Seq::empty()
    } else {
        let before = day_keys(facts.drop_last(), times);
        match day_of(facts.last(), times[facts.len() - 1]) {
            Some(key) => before.push(key),
            None => before,
        }
    }
}

/// No more days than messages.
pub proof fn day_keys_at_most(facts: Seq<MessageFact>, times: Seq<Option<LocalTime>>)
    ensures
        day_keys(facts, times).len() <= facts.len(),
    decreases facts.len(),
{
    if facts.len() > 0 {
        day_keys_at_most(facts.drop_last(), times);
    }
}

/// The replies among dated messages: whoever writes later than the message before, which came
/// from another sender, replies after that gap. Each reply is its sender and its gap in seconds.
pub open spec fn replies(d: Seq<MessageFact>) -> Seq<(i64, i64)>
    decreases d.len(),
{
    if d.len() < 2 {
        Seq::empty()
    } else {
        let a = d[d.len() - 2];
        let b = d.last();
        let before = replies(d.drop_last());
        if a.sender_id != b.sender_id && b.create_time > a.create_time {
            before.push((b.sender_id, (b.create_time - a.create_time) as i64))
        } else {
            before
        }
    }
}

/// The gaps within the cap of the replies by oneself, or by the others.
pub open spec fn latencies(replies: Seq<(i64, i64)>, self_id: Option<i64>, mine: bool) -> Seq<i64>
    decreases replies.len(),
{
    if replies.len() == 0 {
        Seq::empty()
    } else {
        let (sender, gap) = replies.last();
        let before = latencies(replies.drop_last(), self_id, mine);
        if gap <= REPLY_CAP_SEC && model::from_self(self_id, sender) == mine {
            before.push(gap)
        } else {
            before
        }
    }
}

/// The replies that came after the cap.
pub open spec fn late_replies(replies: Seq<(i64, i64)>) -> nat {
    seqs::count_if(replies, |r: (i64, i64)| r.1 > REPLY_CAP_SEC)
}

/// There are fewer replies than dated messages, and every gap is positive.
pub proof fn replies_are_fewer(d: Seq<MessageFact>)
    requires
        forall|i: int| 0 <= i < d.len() ==> is_dated(#[trigger] d[i]),
    ensures
        replies(d).len() <= d.len(),
        forall|i: int| 0 <= i < replies(d).len() ==> 0 < (#[trigger] replies(d)[i]).1,
    decreases d.len(),
{
    if d.len() >= 2 {
        let less = d.drop_last();
        assert forall|i: int| 0 <= i < less.len() implies is_dated(#[trigger] less[i]) by {
            assert(less[i] == d[i]);
        }
        replies_are_fewer(less);
        assert(is_dated(d[d.len() - 2]));
        assert(is_dated(d[d.len() - 1]));
    }
}

/// Every reply is by oneself within the cap, by the others within the cap, or late.
pub proof fn replies_split(replies: Seq<(i64, i64)>, self_id: Option<i64>)
    ensures
        latencies(replies, self_id, true).len() + latencies(replies, self_id, false).len() + late_replies(replies)
            == replies.len(),
    decreases replies.len(),
{
    if replies.len() > 0 {
        replies_split(replies.drop_last(), self_id);
    }
}

/// The gaps that are counted lie between one second and the cap.
pub proof fn latencies_within_cap(replies: Seq<(i64, i64)>, self_id: Option<i64>, mine: bool)
    requires
        forall|i: int| 0 <= i < replies.len() ==> 0 < (#[trigger] replies[i]).1,
    ensures
        forall|i: int|
            0 <= i < latencies(replies, self_id, mine).len() ==> 0 < #[trigger] latencies(
                replies,
                self_id,
                mine,
            )[i] <= REPLY_CAP_SEC,
    decreases replies.len(),
{
    if replies.len() > 0 {
        let less = replies.drop_last();
        assert forall|i: int| 0 <= i < less.len() implies 0 < (#[trigger] less[i]).1 by {
            assert(less[i] == replies[i]);
        }
        latencies_within_cap(less, self_id, mine);
        assert(0 < replies[replies.len() - 1].1);
        let all = latencies(replies, self_id, mine);
        let before = latencies(less, self_id, mine);
        assert forall|i: int| 0 <= i < all.len() implies 0 < #[trigger] all[i] <= REPLY_CAP_SEC by {
            if i < before.len() {
                assert(all[i] == before[i]);
            }
        }
    }
}

/// The message before the one at hand, as sender and time.
spec fn is_previous(d: Seq<MessageFact>, prev: Option<(i64, i64)>) -> bool {
    match prev {
        Some((sender, time)) => d.len() > 0 && d.last().sender_id == sender && d.last().create_time == time,
        None => d.len() == 0,
    }
}

/// The gaps of one's own replies, of the others' replies, and how many replies came too late.
pub fn reply_gaps(facts: &[MessageFact], self_id: Option<i64>) -> (r: (Vec<i64>, Vec<i64>, i64))
    requires
        facts@.len() <= i64::MAX,
    ensures
        ({
            let replies = replies(dated(facts@));
            &&& r.0@ == latencies(replies, self_id, true)
            &&& r.1@ == latencies(replies, self_id, false)
            &&& r.2 == late_replies(replies)
        }),
{
    let mut mine: Vec<i64> = Vec::new();
    let mut theirs: Vec<i64> = Vec::new();
    let mut capped: i64 = 0;
    let mut prev: Option<(i64, i64)> = None;
    let mut i: usize = 0;
    while i < facts.len()
        invariant
            i <= facts@.len() <= i64::MAX,
            is_previous(dated(facts@.take(i as int)), prev),
            mine@ == latencies(
                replies(dated(facts@.take(i as int))),
                self_id,
                true,
            ),
            theirs@ == latencies(
                replies(dated(facts@.take(i as int))),
                self_id,
                false,
            ),
            capped == late_replies(replies(dated(facts@.take(i as int)))),
            capped <= i,
        decreases facts@.len() - i,
    {
        let f = facts[i];
        let ghost d0 = dated(facts@.take(i as int));
        let ghost d1 = dated(facts@.take(i + 1));
        let ghost r0 = replies(d0);
        let ghost r1 = replies(d1);
        proof {
            assert(facts@.take(i + 1).drop_last() =~= facts@.take(i as int));
            dated_messages(facts@.take(i as int));
        }
        if f.create_time > 0 {
            proof {
                assert(d1 == d0.push(f));
                assert(d1.drop_last() =~= d0);
            }
            if let Some((prev_sender, prev_time)) = prev {
                proof {
                    assert(is_dated(d0[d0.len() - 1]));
                    assert(d1[d1.len() - 2] == d0.last());
                }
                if f.sender_id != prev_sender {
                    let gap: i64 = f.create_time - prev_time;
                    if gap > 0 {
                        proof {
                            assert(r1 == r0.push((f.sender_id, gap)));
                            assert(r1.drop_last() =~= r0);
                        }
                    }
                    if gap > 0 && gap <= REPLY_CAP_SEC {
                        if model::is_self(self_id, f.sender_id) {
                            mine.push(gap);
                        } else {
                            theirs.push(gap);
                        }
                    } else if gap > REPLY_CAP_SEC {
                        capped = capped + 1;
                    }
                }
            }
            prev = Some((f.sender_id, f.create_time));
        }
        i = i + 1;
    }
    assert(facts@.take(i as int) =~= facts@);
    (mine, theirs, capped)
}

/// The local times of the messages that carry a time.
pub open spec fn dated_times(facts: Seq<MessageFact>, times: Seq<Option<LocalTime>>) -> Seq<Option<LocalTime>>
    decreases facts.len(),
{
    if facts.len() == 0 {
        Seq::empty()
    } else if is_dated(facts.last()) {
        dated_times(facts.drop_last(), times).push(times[facts.len() - 1])
    } else {
        dated_times(facts.drop_last(), times)
    }
}

/// Every dated message has its local time.
pub proof fn dated_times_match(facts: Seq<MessageFact>, times: Seq<Option<LocalTime>>)
    ensures
        dated_times(facts, times).len() == dated(facts).len(),
    decreases facts.len(),
{
    if facts.len() > 0 {
        dated_times_match(facts.drop_last(), times);
    }
}

/// The messages that carry a time, and their local times.
pub fn dated_of(facts: &[MessageFact], times: &Vec<Option<LocalTime>>) -> (r: (Vec<MessageFact>, Vec<Option<LocalTime>>))
    requires
        times@.len() == facts@.len(),
    ensures
        r.0@ == dated(facts@),
        r.1@ == dated_times(facts@, times@),
        r.0@.len() == r.1@.len(),
        r.0@.len() <= facts@.len(),
{
    let mut d: Vec<MessageFact> = Vec::new();
    let mut t: Vec<Option<LocalTime>> = Vec::new();
    let mut i: usize = 0;
    while i < facts.len()
        invariant
            i <= facts@.len(),
            times@.len() == facts@.len(),
            d@ == dated(facts@.take(i as int)),
            t@ == dated_times(facts@.take(i as int), times@),
            d@.len() == t@.len(),
            d@.len() <= i,
        decreases facts@.len() - i,
    {
        assert(facts@.take(i + 1).drop_last() =~= facts@.take(i as int));
        if facts[i].create_time > 0 {
            d.push(facts[i]);
            t.push(times[i]);
        }
        i = i + 1;
    }
    assert(facts@.take(i as int) =~= facts@);
    (d, t)
}

}
