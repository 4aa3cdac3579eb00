//! What the curious facts say of the messages.

use vstd::prelude::*;

use crate::calendar::LocalTime;
use crate::curios;
use crate::couple as story;
use crate::curios::{Biorhythm, Ending, First, Haha, LateEmo, Perfunctory, Rally, RelationScore, ScoreInputs};
use crate::double;
use crate::fmt;
use crate::laws::counting;
use crate::laws::couple;
use crate::model::{MessageFact, TextMessage};
use crate::seqs;
use crate::text;
use crate::timeline;
use crate::unicode;

verus! {

/// Between any two neighbouring messages there is one pause, whoever sent them: it has the sender of the
/// first and lasts until the second.
pub proof fn pauses_lie_between_neighbours(d: Seq<MessageFact>)
    requires
        forall|i: int| 0 <= i < d.len() ==> (#[trigger] d[i]).create_time > 0,
    ensures
        curios::pauses(d).len() == if d.len() == 0 {
            0
        } else {
            d.len() - 1
        },
        forall|k: int|
            0 <= k < d.len() - 1 ==> (#[trigger] curios::pauses(d)[k]).0 == d[k].sender_id && curios::pauses(d)[k].1
                == d[k + 1].create_time - d[k].create_time,
    decreases d.len(),
{
    if d.len() > 0 {
        let less = d.drop_last();
        pauses_lie_between_neighbours(less);
        assert forall|k: int| 0 <= k < d.len() - 1 implies (#[trigger] curios::pauses(d)[k]).0 == d[k].sender_id
            && curios::pauses(d)[k].1 == d[k + 1].create_time - d[k].create_time by {
            if k < less.len() - 1 {
                assert(curios::pauses(d)[k] == curios::pauses(less)[k]);
                assert(less[k] == d[k] && less[k + 1] == d[k + 1]);
            }
        }
    }
}

/// Pauses with a property are counted once each, at the message that ends them.
proof fn pauses_counted(facts: Seq<MessageFact>, p: spec_fn(i64, int) -> bool)
    ensures
        seqs::count_if(curios::pauses(timeline::dated(facts)), |x: (i64, i64)| p(x.0, x.1 as int))
            == counting::how_many(facts.len() as int, |i: int| counting::follows(facts, i, p)),
    decreases facts.len(),
{
    let here = |i: int| counting::follows(facts, i, p);
    let q = |x: (i64, i64)| p(x.0, x.1 as int);
    counting::one_place_more(0, here);
    if facts.len() > 0 {
        let n = facts.len() - 1;
        let less = facts.drop_last();
        pauses_counted(less, p);
        let there = |i: int| counting::follows(less, i, p);
        assert forall|i: int| 0 <= i < n implies #[trigger] there(i) == here(i) by {
            if there(i) {
                let j = choose|j: int| #[trigger]
                    counting::is_before(less, j, i) && 0 <= i < less.len() && less[i].create_time > 0 && p(
                        less[j].sender_id,
                        less[i].create_time - less[j].create_time,
                    );
                counting::before_in_part(facts, j, i);
            }
            if here(i) {
                let j = choose|j: int| #[trigger]
                    counting::is_before(facts, j, i) && 0 <= i < facts.len() && facts[i].create_time > 0 && p(
                        facts[j].sender_id,
                        facts[i].create_time - facts[j].create_time,
                    );
                counting::before_in_part(facts, j, i);
            }
        }
        counting::same_places(n, there, here);
        counting::one_place_more(n, here);
        let d0 = timeline::dated(less);
        let d1 = timeline::dated(facts);
        let f = facts.last();
        if f.create_time > 0 {
            assert(d1 =~= d0.push(f));
            assert(d1.drop_last() =~= d0);
            let j = counting::last_dated(less);
            if d0.len() > 0 {
                counting::before_in_part(facts, j, n);
                assert(counting::is_before(facts, j, n));
                assert(d1[d1.len() - 2] == facts[j]);
                timeline::dated_messages(less);
                assert(timeline::is_dated(d0[d0.len() - 1]));
                assert(curios::pauses(d1).drop_last() =~= curios::pauses(d0));
                if here(n) {
                    let k = choose|k: int| #[trigger]
                        counting::is_before(facts, k, n) && 0 <= n < facts.len() && facts[n].create_time > 0 && p(
                            facts[k].sender_id,
                            facts[n].create_time - facts[k].create_time,
                        );
                    counting::only_one_before(facts, j, k, n);
                }
            } else {
                if here(n) {
                    let k = choose|k: int| #[trigger]
                        counting::is_before(facts, k, n) && 0 <= n < facts.len() && facts[n].create_time > 0 && p(
                            facts[k].sender_id,
                            facts[n].create_time - facts[k].create_time,
                        );
                    assert(less[k].create_time <= 0);
                }
            }
        }
    }
}

/// The message at `i` comes more than `gap` seconds after the one before it, which is one's own or not.
pub open spec fn ends_silence(facts: Seq<MessageFact>, i: int, self_id: Option<i64>, mine: bool, gap: int) -> bool {
    exists|j: int| #[trigger]
        counting::is_before(facts, j, i) && 0 <= i < facts.len() && facts[i].create_time > 0 && facts[i].create_time
            - facts[j].create_time > gap && (self_id == Some(facts[j].sender_id)) == mine
}

/// The last message that carries a time is one's own or not.
pub open spec fn ends_all(facts: Seq<MessageFact>, self_id: Option<i64>, mine: bool) -> bool {
    exists|j: int| #[trigger]
        counting::is_before(facts, j, facts.len() as int) && (self_id == Some(facts[j].sender_id)) == mine
}

proof fn silences_counted(facts: Seq<MessageFact>, self_id: Option<i64>, mine: bool, gap: i64)
    ensures
        curios::long_pauses(curios::pauses(timeline::dated(facts)), gap, self_id, mine) == counting::how_many(
            facts.len() as int,
            |i: int| ends_silence(facts, i, self_id, mine, gap as int),
        ),
{
    let p = |s: i64, g: int| g > gap && (self_id == Some(s)) == mine;
    let pauses = curios::pauses(timeline::dated(facts));
    pauses_counted(facts, p);
    let a = |x: (i64, i64)| p(x.0, x.1 as int);
    let b = |x: (i64, i64)| x.1 > gap && crate::model::from_self(self_id, x.0) == mine;
    counting::items_counted(pauses, a);
    counting::items_counted(pauses, b);
    counting::same_places(pauses.len() as int, |i: int| a(pauses[i]), |i: int| b(pauses[i]));
    let f = |i: int| counting::follows(facts, i, p);
    let g = |i: int| ends_silence(facts, i, self_id, mine, gap as int);
    assert forall|i: int| 0 <= i < facts.len() implies #[trigger] f(i) == g(i) by {
        if f(i) {
            let j = choose|j: int| #[trigger]
                counting::is_before(facts, j, i) && 0 <= i < facts.len() && facts[i].create_time > 0 && p(
                    facts[j].sender_id,
                    facts[i].create_time - facts[j].create_time,
                );
            assert(counting::is_before(facts, j, i));
        }
        if g(i) {
            let j = choose|j: int| #[trigger]
                counting::is_before(facts, j, i) && 0 <= i < facts.len() && facts[i].create_time > 0
                    && facts[i].create_time - facts[j].create_time > gap && (self_id == Some(facts[j].sender_id))
                    == mine;
            assert(counting::is_before(facts, j, i) && p(
                facts[j].sender_id,
                facts[i].create_time - facts[j].create_time,
            ));
        }
    }
    counting::same_places(facts.len() as int, f, g);
}

proof fn end_is_last(facts: Seq<MessageFact>, self_id: Option<i64>, mine: bool)
    ensures
        curios::has_end(timeline::dated(facts), self_id, mine) == if ends_all(facts, self_id, mine) {
            1nat
        } else {
            0nat
        },
{
    let d = timeline::dated(facts);
    let j = counting::last_dated(facts);
    if ends_all(facts, self_id, mine) {
        let k = choose|k: int| #[trigger]
            counting::is_before(facts, k, facts.len() as int) && (self_id == Some(facts[k].sender_id)) == mine;
        if d.len() == 0 {
            assert(facts[k].create_time <= 0);
        } else {
            counting::only_one_before(facts, j, k, facts.len() as int);
        }
    }
}

/// Whoever's message is followed by a silence of more than six hours was left waiting; more than twelve
/// hours, and the very end, make it a last word. Each silence counts, also where the same side breaks it.
pub proof fn silences_are_counted(e: Ending, facts: Seq<MessageFact>, self_id: Option<i64>)
    requires
        curios::is_ending(e, facts, self_id),
    ensures
        e.my_left_on_read == counting::how_many(
            facts.len() as int,
            |i: int| ends_silence(facts, i, self_id, true, 21600),
        ),
        e.other_left_on_read == counting::how_many(
            facts.len() as int,
            |i: int| ends_silence(facts, i, self_id, false, 21600),
        ),
        e.my_last_word == counting::how_many(facts.len() as int, |i: int| ends_silence(facts, i, self_id, true, 43200))
            + if ends_all(facts, self_id, true) {
            1int
        } else {
            0int
        },
        e.other_last_word == counting::how_many(
            facts.len() as int,
            |i: int| ends_silence(facts, i, self_id, false, 43200),
        ) + if ends_all(facts, self_id, false) {
            1int
        } else {
            0int
        },
{
    silences_counted(facts, self_id, true, 21600);
    silences_counted(facts, self_id, false, 21600);
    silences_counted(facts, self_id, true, 43200);
    silences_counted(facts, self_id, false, 43200);
    let n = facts.len() as int;
    let six: i64 = 21600;
    let twelve: i64 = 43200;
    counting::same_places(
        n,
        |i: int| ends_silence(facts, i, self_id, true, six as int),
        |i: int| ends_silence(facts, i, self_id, true, 21600),
    );
    counting::same_places(
        n,
        |i: int| ends_silence(facts, i, self_id, false, six as int),
        |i: int| ends_silence(facts, i, self_id, false, 21600),
    );
    counting::same_places(
        n,
        |i: int| ends_silence(facts, i, self_id, true, twelve as int),
        |i: int| ends_silence(facts, i, self_id, true, 43200),
    );
    counting::same_places(
        n,
        |i: int| ends_silence(facts, i, self_id, false, twelve as int),
        |i: int| ends_silence(facts, i, self_id, false, 43200),
    );
    end_is_last(facts, self_id, true);
    end_is_last(facts, self_id, false);
}

/// The message at `i` is the first one with a time that is of the type, or of any type.
pub open spec fn comes_first(facts: Seq<MessageFact>, i: int, kind: Option<i64>) -> bool {
    &&& 0 <= i < facts.len()
    &&& facts[i].create_time > 0
    &&& kind is Some ==> facts[i].base_type == kind->0
    &&& forall|j: int|
        0 <= j < i && (#[trigger] facts[j]).create_time > 0 ==> kind is Some && facts[j].base_type != kind->0
}

/// `f` tells of the first message of a type: its day and who sent it, and nothing where there is none.
pub open spec fn tells_first(
    f: First,
    facts: Seq<MessageFact>,
    times: Seq<Option<LocalTime>>,
    self_id: Option<i64>,
    kind: Option<i64>,
) -> bool {
    &&& (f.when is Some <==> exists|i: int| #[trigger] comes_first(facts, i, kind))
    &&& f.when is None ==> f.who is None
    &&& f.snippet is None
    &&& forall|i: int| #[trigger]
        comes_first(facts, i, kind) ==> f.when is Some && f.when->0@ == fmt::day_text(times[i]) && match self_id {
            Some(me) => f.who is Some && f.who->0@ == if facts[i].sender_id == me {
                "我"@
            } else {
                "ta"@
            },
            None => f.who is None,
        }
}

proof fn milestone_is_first(
    f: First,
    label: Seq<char>,
    facts: Seq<MessageFact>,
    times: Seq<Option<LocalTime>>,
    self_id: Option<i64>,
    kind: Option<i64>,
)
    requires
        curios::is_milestone(
            f,
            label,
            timeline::dated(facts),
            timeline::dated_times(facts, times),
            self_id,
            kind,
        ),
    ensures
        tells_first(f, facts, times, self_id, kind),
{
    let d = timeline::dated(facts);
    let t = timeline::dated_times(facts, times);
    let at = counting::dated_places(facts, times);
    assert forall|i: int| #[trigger] comes_first(facts, i, kind) implies !curios::no_kind(d, kind) && forall|k: int|
        curios::first_kind(d, kind, k) ==> #[trigger] at[k] == i by {
        let k = choose|k: int| 0 <= k < at.len() && #[trigger] at[k] == i;
        assert(d[k] == facts[i]);
        assert(curios::is_kind(d[k], kind));
        assert forall|l: int| curios::first_kind(d, kind, l) implies #[trigger] at[l] == i by {
            assert(curios::is_kind(d[l], kind));
            assert(facts[at[l]] == d[l]);
            if l < k {
                assert(at[l] < at[k]);
            }
            if k < l {
                assert(!curios::is_kind(d[k], kind));
            }
        }
    }
    if !curios::no_kind(d, kind) {
        let k = choose|k: int| #[trigger]
            curios::first_kind(d, kind, k) && text::text_view(f.when) == Some(fmt::day_text(t[k]))
                && curios::literal_view(f.who) == curios::who_text(self_id, d[k].sender_id);
        assert(facts[at[k]] == d[k] && times[at[k]] == t[k]);
        assert forall|j: int| 0 <= j < at[k] && (#[trigger] facts[j]).create_time > 0 implies kind is Some
            && facts[j].base_type != kind->0 by {
            let l = choose|l: int| 0 <= l < at.len() && #[trigger] at[l] == j;
            if l > k {
                assert(at[k] < at[l]);
            }
            assert(d[l] == facts[j]);
            assert(!curios::is_kind(d[l], kind));
        }
        assert(comes_first(facts, at[k], kind));
        assert forall|i: int| #[trigger] comes_first(facts, i, kind) implies i == at[k] by {
            assert(curios::first_kind(d, kind, k));
            let x = at[k];
        }
    }
}

/// The text holds one of the words of love.
pub open spec fn says_love(t: Seq<char>) -> bool {
    text::has_text(t, "爱你"@) || text::has_text(t, "喜欢你"@) || text::has_text(t, "想你"@) || text::has_text(
        t,
        "想你啦"@,
    ) || text::has_text(t, "我爱你"@)
}

/// The message at `i` is the first that holds a word of love.
pub open spec fn loves_first(texts: Seq<TextMessage>, i: int) -> bool {
    &&& 0 <= i < texts.len()
    &&& texts[i].text is Some
    &&& says_love(texts[i].text->0@)
    &&& forall|j: int| 0 <= j < i && (#[trigger] texts[j]).text is Some ==> !says_love(texts[j].text->0@)
}

proof fn love_is_love(t: Seq<char>)
    ensures
        curios::says_love(t) == says_love(t),
{
    let w = curios::love_words();
    if says_love(t) {
        if text::has_text(t, "爱你"@) {
            assert(text::has_text(t, w[0]));
        } else if text::has_text(t, "喜欢你"@) {
            assert(text::has_text(t, w[1]));
        } else if text::has_text(t, "想你"@) {
            assert(text::has_text(t, w[2]));
        } else if text::has_text(t, "想你啦"@) {
            assert(text::has_text(t, w[3]));
        } else {
            assert(text::has_text(t, w[4]));
        }
    }
}

/// First times are told of the first message with a time, and of the first one that is a picture, a voice
/// message, a sticker and a call: types 3, 34, 47 and 50. The first word of love is that of the first text
/// that holds one, with its first 24 characters.
pub proof fn firsts_come_first(
    v: Seq<First>,
    facts: Seq<MessageFact>,
    times: Seq<Option<LocalTime>>,
    texts: Seq<TextMessage>,
    text_times: Seq<Option<LocalTime>>,
    self_id: Option<i64>,
)
    requires
        curios::are_firsts(v, facts, times, texts, text_times, self_id),
    ensures
        v.len() == 6,
        tells_first(v[0], facts, times, self_id, None),
        tells_first(v[1], facts, times, self_id, Some(3)),
        tells_first(v[2], facts, times, self_id, Some(34)),
        tells_first(v[3], facts, times, self_id, Some(47)),
        tells_first(v[4], facts, times, self_id, Some(50)),
        v[5].when is Some <==> exists|i: int| #[trigger] loves_first(texts, i),
        v[5].when is None ==> v[5].who is None && v[5].snippet is None,
        forall|i: int| #[trigger]
            loves_first(texts, i) ==> v[5].when is Some && v[5].when->0@ == fmt::day_text(text_times[i])
                && v[5].snippet is Some && v[5].snippet->0@ == fmt::shortened(texts[i].text->0@, 24) && match self_id {
                Some(me) => v[5].who is Some && v[5].who->0@ == if texts[i].sender_id == me {
                    "我"@
                } else {
                    "ta"@
                },
                None => v[5].who is None,
            },
{
    milestone_is_first(v[0], "💬 第一条消息"@, facts, times, self_id, None);
    milestone_is_first(v[1], "🖼️ 第一张图片"@, facts, times, self_id, Some(3));
    milestone_is_first(v[2], "🎙️ 第一段语音"@, facts, times, self_id, Some(34));
    milestone_is_first(v[3], "🎴 第一个表情"@, facts, times, self_id, Some(47));
    milestone_is_first(v[4], "📞 第一通通话"@, facts, times, self_id, Some(50));
    assert forall|j: int| 0 <= j < texts.len() implies curios::is_love(#[trigger] texts[j]) == (texts[j].text is Some
        && says_love(texts[j].text->0@)) by {
        if texts[j].text is Some {
            love_is_love(texts[j].text->0@);
        }
    }
    assert forall|i: int| #[trigger] loves_first(texts, i) == curios::first_love(texts, i) by {
        if 0 <= i < texts.len() {
            assert(curios::is_love(texts[i]) == (texts[i].text is Some && says_love(texts[i].text->0@)));
            if loves_first(texts, i) {
                assert forall|j: int| 0 <= j < i implies !curios::is_love(#[trigger] texts[j]) by {}
            }
        }
    }
    assert forall|i: int, k: int| #[trigger]
        loves_first(texts, i) && #[trigger] curios::first_love(texts, k) implies i == k by {
        if i < k {
            assert(!curios::is_love(texts[i]));
        }
        if k < i {
            assert(curios::is_love(texts[k]));
        }
    }
    if v[5].when is Some {
        let k = choose|k: int| #[trigger] curios::first_love(texts, k);
        assert(loves_first(texts, k) == curios::first_love(texts, k));
    }
    if exists|i: int| #[trigger] loves_first(texts, i) {
        let i = choose|i: int| #[trigger] loves_first(texts, i);
        assert(curios::is_love(texts[i]));
    }
}

/// The text at `i` is of 50 characters or more, and was written at 0, 1, 2, 3 or 4 o'clock.
pub open spec fn long_and_late(texts: Seq<TextMessage>, times: Seq<Option<LocalTime>>, i: int) -> bool {
    texts[i].text is Some && times[i] is Some && times[i]->0.hour <= 4 && texts[i].text->0@.len() >= 50
}

proof fn emo_counted(texts: Seq<TextMessage>, times: Seq<Option<LocalTime>>, self_id: Option<i64>, mine: bool)
    ensures
        curios::emo_count(texts, times, self_id, mine) == counting::how_many(
            texts.len() as int,
            |i: int| long_and_late(texts, times, i) && (self_id == Some(texts[i].sender_id)) == mine,
        ),
    decreases texts.len(),
{
    let here = |i: int| long_and_late(texts, times, i) && (self_id == Some(texts[i].sender_id)) == mine;
    counting::one_place_more(0, here);
    if texts.len() > 0 {
        let n = texts.len() - 1;
        let less = texts.drop_last();
        emo_counted(less, times, self_id, mine);
        let there = |i: int| long_and_late(less, times, i) && (self_id == Some(less[i].sender_id)) == mine;
        assert forall|i: int| 0 <= i < n implies #[trigger] there(i) == here(i) by {
            assert(less[i] == texts[i]);
        }
        counting::same_places(n, there, here);
        counting::one_place_more(n, here);
    }
}

/// Long texts late at night are counted by who wrote them. The one that is described is the longest, and
/// the first of several: its length, its side, its day and its first 40 characters.
pub proof fn late_texts_are_counted(
    e: LateEmo,
    texts: Seq<TextMessage>,
    times: Seq<Option<LocalTime>>,
    self_id: Option<i64>,
)
    requires
        curios::is_late_emo(e, texts, times, self_id),
    ensures
        e.my_count == counting::how_many(
            texts.len() as int,
            |i: int| long_and_late(texts, times, i) && self_id == Some(texts[i].sender_id),
        ),
        e.other_count == counting::how_many(
            texts.len() as int,
            |i: int| long_and_late(texts, times, i) && self_id != Some(texts[i].sender_id),
        ),
        e.longest is None <==> forall|i: int| 0 <= i < texts.len() ==> !#[trigger] long_and_late(texts, times, i),
        e.longest matches Some(m) ==> exists|i: int|
            0 <= i < texts.len() && #[trigger] long_and_late(texts, times, i) && m.chars == texts[i].text->0@.len()
                && m.is_self == (self_id == Some(texts[i].sender_id)) && m.when@ == fmt::day_text(times[i])
                && m.snippet@ == fmt::shortened(texts[i].text->0@, 40) && (forall|j: int|
                0 <= j < texts.len() && #[trigger] long_and_late(texts, times, j) ==> texts[j].text->0@.len()
                    <= m.chars && (j < i ==> texts[j].text->0@.len() < m.chars)),
{
    let n = texts.len() as int;
    emo_counted(texts, times, self_id, true);
    emo_counted(texts, times, self_id, false);
    counting::same_places(
        n,
        |i: int| long_and_late(texts, times, i) && (self_id == Some(texts[i].sender_id)) == true,
        |i: int| long_and_late(texts, times, i) && self_id == Some(texts[i].sender_id),
    );
    counting::same_places(
        n,
        |i: int| long_and_late(texts, times, i) && (self_id == Some(texts[i].sender_id)) == false,
        |i: int| long_and_late(texts, times, i) && self_id != Some(texts[i].sender_id),
    );
    assert forall|i: int| 0 <= i < texts.len() implies #[trigger] long_and_late(texts, times, i) == curios::is_emo(
        texts[i],
        times[i],
    ) by {}
    if let Some(m) = e.longest {
        let i = choose|i: int| #[trigger]
            curios::longest_emo_at(texts, times, i) && curios::describes_emo(m, texts, times, self_id, i);
        assert(long_and_late(texts, times, i));
        assert forall|j: int| 0 <= j < texts.len() && #[trigger] long_and_late(texts, times, j) implies texts[
            j
        ].text->0@.len() <= m.chars && (j < i ==> texts[j].text->0@.len() < m.chars) by {
            assert(curios::is_emo(texts[j], times[j]));
        }
    } else {
        assert forall|i: int| 0 <= i < texts.len() implies !#[trigger] long_and_late(texts, times, i) by {
            assert(!curios::is_emo(texts[i], times[i]));
        }
    }
}

/// Each hour counts the messages that were read in it, by who wrote them.
pub proof fn hours_are_counted(
    b: Biorhythm,
    facts: Seq<MessageFact>,
    times: Seq<Option<LocalTime>>,
    self_id: Option<i64>,
    h: int,
)
    requires
        curios::is_biorhythm(b, facts, times, self_id),
        0 <= h < 24,
    ensures
        b.me@[h] == counting::how_many(
            facts.len() as int,
            |i: int| times[i] is Some && times[i]->0.hour == h && self_id == Some(facts[i].sender_id),
        ),
        b.them@[h] == counting::how_many(
            facts.len() as int,
            |i: int| times[i] is Some && times[i]->0.hour == h && self_id != Some(facts[i].sender_id),
        ),
{
    let n = facts.len() as int;
    hour_counted(facts, times, self_id, true, h);
    hour_counted(facts, times, self_id, false, h);
    counting::same_places(
        n,
        |i: int| times[i] is Some && times[i]->0.hour == h && (self_id == Some(facts[i].sender_id)) == true,
        |i: int| times[i] is Some && times[i]->0.hour == h && self_id == Some(facts[i].sender_id),
    );
    counting::same_places(
        n,
        |i: int| times[i] is Some && times[i]->0.hour == h && (self_id == Some(facts[i].sender_id)) == false,
        |i: int| times[i] is Some && times[i]->0.hour == h && self_id != Some(facts[i].sender_id),
    );
}

proof fn hour_counted(
    facts: Seq<MessageFact>,
    times: Seq<Option<LocalTime>>,
    self_id: Option<i64>,
    mine: bool,
    h: int,
)
    ensures
        curios::hour_count(facts, times, self_id, mine, h) == counting::how_many(
            facts.len() as int,
            |i: int| times[i] is Some && times[i]->0.hour == h && (self_id == Some(facts[i].sender_id)) == mine,
        ),
    decreases facts.len(),
{
    let here = |i: int| times[i] is Some && times[i]->0.hour == h && (self_id == Some(facts[i].sender_id)) == mine;
    counting::one_place_more(0, here);
    if facts.len() > 0 {
        let n = facts.len() - 1;
        let less = facts.drop_last();
        hour_counted(less, times, self_id, mine, h);
        let there = |i: int|
            times[i] is Some && times[i]->0.hour == h && (self_id == Some(less[i].sender_id)) == mine;
        assert forall|i: int| 0 <= i < n implies #[trigger] there(i) == here(i) by {
            assert(less[i] == facts[i]);
        }
        counting::same_places(n, there, here);
        counting::one_place_more(n, here);
    }
}

/// From the dated message at `a` to the one at `b` each comes at most ten minutes after the one before.
pub open spec fn is_exchange(d: Seq<MessageFact>, a: int, b: int) -> bool {
    &&& 0 <= a <= b < d.len()
    &&& forall|k: int| a < k <= b ==> (#[trigger] d[k]).create_time - d[k - 1].create_time <= 600
}

proof fn rally_is_exchange(d: Seq<MessageFact>, i: int)
    requires
        0 <= i < d.len(),
    ensures
        1 <= curios::rally_len(d, i) <= i + 1,
        is_exchange(d, i - curios::rally_len(d, i) + 1, i),
        forall|a: int| #[trigger] is_exchange(d, a, i) ==> i - a + 1 <= curios::rally_len(d, i),
    decreases i,
{
    if i > 0 && d[i].create_time - d[i - 1].create_time <= 600 {
        rally_is_exchange(d, i - 1);
        assert forall|a: int| #[trigger] is_exchange(d, a, i) implies i - a + 1 <= curios::rally_len(d, i) by {
            if a < i {
                assert(is_exchange(d, a, i - 1));
            }
        }
    } else {
        assert forall|a: int| #[trigger] is_exchange(d, a, i) implies i - a + 1 <= 1 by {
            if a < i {
                assert(d[i].create_time - d[i - 1].create_time <= 600);
            }
        }
    }
}

/// The longest rally: there is an exchange of so many messages, from the day that is told on, that lasts
/// so many whole minutes, and no longer one; of several it ends first.
pub proof fn rally_is_longest(r: Rally, facts: Seq<MessageFact>, times: Seq<Option<LocalTime>>)
    requires
        curios::is_rally(r, facts, times),
    ensures
        forall|a: int, b: int| #[trigger] is_exchange(timeline::dated(facts), a, b) ==> b - a + 1 <= r.max_len,
        r.max_len == 0 <==> timeline::dated(facts).len() == 0,
        r.max_len == 0 ==> r.when is None && r.duration_min == 0,
        r.max_len > 0 ==> exists|a: int, b: int| #[trigger]
            is_exchange(timeline::dated(facts), a, b) && tells_exchange(r, facts, times, a, b),
{
    let d = timeline::dated(facts);
    if d.len() > 0 {
        let i = choose|i: int| #[trigger]
            curios::best_rally(d, i) && curios::describes_rally(r, d, timeline::dated_times(facts, times), i);
        let start = i - curios::rally_len(d, i) + 1;
        rally_is_exchange(d, i);
        assert forall|a: int, b: int| #[trigger] is_exchange(d, a, b) implies b - a + 1 <= r.max_len && (b < i ==> b - a
            + 1 < r.max_len) by {
            rally_is_exchange(d, b);
        }
        let took = d[i].create_time - d[start].create_time;
        assert(tells_exchange(r, facts, times, start, i));
    }
}

/// `r` tells of the exchange from the dated message at `a` to the one at `b`, and every earlier one is
/// shorter.
pub open spec fn tells_exchange(
    r: Rally,
    facts: Seq<MessageFact>,
    times: Seq<Option<LocalTime>>,
    a: int,
    b: int,
) -> bool {
    let d = timeline::dated(facts);
    let took = d[b].create_time - d[a].create_time;
    &&& r.max_len == b - a + 1
    &&& r.when is Some && r.when->0@ == fmt::day_text(timeline::dated_times(facts, times)[a])
    &&& if took < 0 {
        r.duration_min == 0
    } else {
        60 * r.duration_min <= took < 60 * r.duration_min + 60
    }
    &&& forall|x: int, y: int| #[trigger] is_exchange(d, x, y) && y < b ==> y - x + 1 < r.max_len
}

/// From `a` up to `b` the text laughs, and neither before nor after.
pub open spec fn is_laugh(t: Seq<char>, a: int, b: int) -> bool {
    &&& 0 <= a < b <= t.len()
    &&& forall|i: int| a <= i < b ==> #[trigger] t[i] == '哈'
    &&& a == 0 || t[a - 1] != '哈'
    &&& b == t.len() || t[b] != '哈'
}

/// A laugh ends at `b`, and its length has a property.
pub open spec fn laugh_ends(t: Seq<char>, b: int, p: spec_fn(int) -> bool) -> bool {
    exists|a: int| #[trigger] is_laugh(t, a, b) && p(b - a)
}

proof fn open_laugh_is_last(t: Seq<char>)
    ensures
        0 <= curios::open_laugh(t) <= t.len(),
        forall|i: int| t.len() - curios::open_laugh(t) <= i < t.len() ==> #[trigger] t[i] == '哈',
        curios::open_laugh(t) < t.len() ==> t[t.len() - curios::open_laugh(t) - 1] != '哈',
    decreases t.len(),
{
    if t.len() > 0 {
        let less = t.drop_last();
        open_laugh_is_last(less);
        if t.last() == '哈' {
            assert forall|i: int| t.len() - curios::open_laugh(t) <= i < t.len() implies #[trigger] t[i] == '哈' by {
                if i < less.len() {
                    assert(less[i] == t[i]);
                }
            }
        }
    }
}

proof fn closed_laughs_counted(t: Seq<char>, p: spec_fn(int) -> bool)
    ensures
        seqs::count_if(curios::closed_laughs(t), |n: nat| p(n as int)) == counting::how_many(
            t.len() as int,
            |b: int| laugh_ends(t, b, p),
        ),
    decreases t.len(),
{
    let here = |b: int| laugh_ends(t, b, p);
    counting::one_place_more(0, here);
    if t.len() > 0 {
        let n = t.len() - 1;
        let less = t.drop_last();
        closed_laughs_counted(less, p);
        let there = |b: int| laugh_ends(less, b, p);
        assert forall|b: int| 0 <= b < n implies #[trigger] there(b) == here(b) by {
            if there(b) {
                let a = choose|a: int| #[trigger] is_laugh(less, a, b) && p(b - a);
                assert forall|i: int| a <= i < b implies #[trigger] t[i] == '哈' by {
                    assert(less[i] == t[i]);
                }
                assert(is_laugh(t, a, b));
            }
            if here(b) {
                let a = choose|a: int| #[trigger] is_laugh(t, a, b) && p(b - a);
                assert forall|i: int| a <= i < b implies #[trigger] less[i] == '哈' by {
                    assert(less[i] == t[i]);
                }
                assert(is_laugh(less, a, b));
            }
        }
        counting::same_places(n, there, here);
        counting::one_place_more(n, here);
        open_laugh_is_last(less);
        let k = curios::open_laugh(less);
        let start = n - k;
        if here(n) {
            let a = choose|a: int| #[trigger] is_laugh(t, a, n) && p(n - a);
            laugh_start(t, less, a);
        }
        if t.last() != '哈' && k > 0 {
            assert forall|i: int| start <= i < n implies #[trigger] t[i] == '哈' by {
                assert(less[i] == t[i]);
            }
            if start > 0 {
                assert(less[start - 1] == t[start - 1]);
            }
            assert(is_laugh(t, start, n));
            assert(curios::closed_laughs(t).drop_last() =~= curios::closed_laughs(less));
        }
    }
}

/// A laugh at the end begins where the last row of laughing characters does.
proof fn laugh_start(t: Seq<char>, less: Seq<char>, a: int)
    requires
        less.len() <= t.len(),
        less == t.take(less.len() as int),
        is_laugh(t, a, less.len() as int),
    ensures
        curios::open_laugh(less) == less.len() - a,
{
    open_laugh_is_last(less);
    let n = less.len() as int;
    let start = n - curios::open_laugh(less);
    if start < a {
        assert(less[a - 1] == '哈');
        assert(less[a - 1] == t[a - 1]);
    }
    if a < start {
        assert(t[start - 1] == '哈');
        assert(less[start - 1] == t[start - 1]);
    }
}

/// Each row of laughing characters in a text is counted once, where it ends.
pub proof fn laughs_counted(t: Seq<char>, p: spec_fn(int) -> bool)
    ensures
        seqs::count_if(curios::laughs(t), |n: nat| p(n as int)) == counting::how_many(
            t.len() as int + 1,
            |b: int| laugh_ends(t, b, p),
        ),
{
    let here = |b: int| laugh_ends(t, b, p);
    let n = t.len() as int;
    closed_laughs_counted(t, p);
    counting::one_place_more(n, here);
    open_laugh_is_last(t);
    let k = curios::open_laugh(t);
    if here(n) {
        let a = choose|a: int| #[trigger] is_laugh(t, a, n) && p(n - a);
        assert(t.take(n) =~= t);
        laugh_start(t, t, a);
    }
    if k > 0 {
        assert(is_laugh(t, n - k, n));
        assert(curios::laughs(t).drop_last() =~= curios::closed_laughs(t));
    }
}

/// The laughs of the length that a bucket is for: two to five characters, and six or more in the last.
pub open spec fn laughs_in(t: Seq<char>, k: int) -> int {
    counting::how_many(t.len() as int + 1, |b: int| laugh_ends(t, b, |n: int| n == k + 2 || (k == 4 && n > 6)))
}

/// The laughs of all texts of one side together.
pub open spec fn laughs_of(texts: Seq<TextMessage>, self_id: Option<i64>, mine: bool, k: int) -> int
    decreases texts.len(),
{
    if texts.len() == 0 {
        0
    } else {
        let m = texts.last();
        laughs_of(texts.drop_last(), self_id, mine, k) + if m.text is Some && (self_id == Some(m.sender_id)) == mine {
            laughs_in(m.text->0@, k)
        } else {
            0
        }
    }
}

proof fn text_laughs(t: Seq<char>, k: int)
    requires
        0 <= k < 5,
    ensures
        curios::bucket_laughs(curios::laughs(t), k) == laughs_in(t, k),
{
    let p = |n: int| n == k + 2 || (k == 4 && n > 6);
    laughs_counted(t, p);
    couple::same_count(
        curios::laughs(t),
        |n: nat| p(n as int),
        |n: nat| n >= 2 && curios::laugh_bucket(n) == k,
    );
    counting::same_places(
        t.len() as int + 1,
        |b: int| laugh_ends(t, b, p),
        |b: int| laugh_ends(t, b, |n: int| n == k + 2 || (k == 4 && n > 6)),
    );
}

proof fn rows_joined(a: Seq<nat>, b: Seq<nat>, p: spec_fn(nat) -> bool)
    ensures
        seqs::count_if(a + b, p) == seqs::count_if(a, p) + seqs::count_if(b, p),
    decreases b.len(),
{
    if b.len() == 0 {
        assert(a + b =~= a);
    } else {
        rows_joined(a, b.drop_last(), p);
        assert((a + b).drop_last() =~= a + b.drop_last());
    }
}

proof fn side_laughs_counted(texts: Seq<TextMessage>, self_id: Option<i64>, mine: bool, k: int)
    requires
        0 <= k < 5,
    ensures
        curios::bucket_laughs(curios::side_laughs(texts, self_id, mine), k) == laughs_of(texts, self_id, mine, k),
    decreases texts.len(),
{
    if texts.len() > 0 {
        side_laughs_counted(texts.drop_last(), self_id, mine, k);
        let m = texts.last();
        if m.text is Some && (self_id == Some(m.sender_id)) == mine {
            text_laughs(m.text->0@, k);
            rows_joined(
                curios::side_laughs(texts.drop_last(), self_id, mine),
                curios::laughs(m.text->0@),
                |n: nat| n >= 2 && curios::laugh_bucket(n) == k,
            );
        }
    }
}

/// Laughter is counted by row and length, in the texts of either side, and the total holds every bucket.
pub proof fn laughter_is_counted(h: Haha, texts: Seq<TextMessage>, self_id: Option<i64>)
    requires
        curios::is_haha(h, texts, self_id),
    ensures
        forall|k: int| 0 <= k < 5 ==> #[trigger] h.me@[k] == laughs_of(texts, self_id, true, k),
        forall|k: int| 0 <= k < 5 ==> #[trigger] h.them@[k] == laughs_of(texts, self_id, false, k),
        h.me_total == h.me@[0] + h.me@[1] + h.me@[2] + h.me@[3] + h.me@[4],
        h.them_total == h.them@[0] + h.them@[1] + h.them@[2] + h.them@[3] + h.them@[4],
{
    assert forall|k: int| 0 <= k < 5 implies #[trigger] h.me@[k] == laughs_of(texts, self_id, true, k) by {
        side_laughs_counted(texts, self_id, true, k);
    }
    assert forall|k: int| 0 <= k < 5 implies #[trigger] h.them@[k] == laughs_of(texts, self_id, false, k) by {
        side_laughs_counted(texts, self_id, false, k);
    }
    curios::buckets_hold_all_laughs(curios::side_laughs(texts, self_id, true));
    curios::buckets_hold_all_laughs(curios::side_laughs(texts, self_id, false));
}

/// The text is one of the answers that say nothing.
pub open spec fn is_empty_answer(t: Seq<char>) -> bool {
    t == "嗯"@ || t == "哦"@ || t == "噢"@ || t == "额"@ || t == "呃"@ || t == "嗯嗯"@ || t == "哦哦"@ || t == "好"@ || t
        == "好的"@ || t == "嗯好"@ || t == "嗯."@ || t == "哦."@
}

/// `t` is `all` without the white space around it: it neither begins nor ends with any.
pub open spec fn is_core(t: Seq<char>, all: Seq<char>) -> bool {
    exists|a: int| #[trigger] core_at(t, all, a)
}

/// `t` stands at `a` in `all`, with nothing but white space around it.
pub open spec fn core_at(t: Seq<char>, all: Seq<char>, a: int) -> bool {
    &&& 0 <= a <= a + t.len() <= all.len()
    &&& t == all.subrange(a, a + t.len())
    &&& forall|i: int| 0 <= i < a || a + t.len() <= i < all.len() ==> unicode::white_space(#[trigger] all[i])
    &&& t.len() > 0 ==> !unicode::white_space(t[0]) && !unicode::white_space(t.last())
}

proof fn start_is_cut(t: Seq<char>) -> (a: int)
    ensures
        0 <= a <= t.len(),
        unicode::trim_start(t) == t.skip(a),
        forall|i: int| 0 <= i < a ==> unicode::white_space(#[trigger] t[i]),
        a < t.len() ==> !unicode::white_space(t[a]),
    decreases t.len(),
{
    if t.len() > 0 && unicode::white_space(t[0]) {
        let rest = t.skip(1);
        let a = start_is_cut(rest);
        assert(rest.skip(a) =~= t.skip(a + 1));
        assert forall|i: int| 0 <= i < a + 1 implies unicode::white_space(#[trigger] t[i]) by {
            if i > 0 {
                assert(rest[i - 1] == t[i]);
            }
        }
        a + 1
    } else {
        assert(t.skip(0) =~= t);
        0
    }
}

proof fn end_is_cut(t: Seq<char>) -> (b: int)
    ensures
        0 <= b <= t.len(),
        unicode::trim_end(t) == t.take(b),
        forall|i: int| b <= i < t.len() ==> unicode::white_space(#[trigger] t[i]),
        b > 0 ==> !unicode::white_space(t[b - 1]),
    decreases t.len(),
{
    if t.len() > 0 && unicode::white_space(t.last()) {
        let rest = t.drop_last();
        let b = end_is_cut(rest);
        assert(rest.take(b) =~= t.take(b));
        assert forall|i: int| b <= i < t.len() implies unicode::white_space(#[trigger] t[i]) by {
            if i < rest.len() {
                assert(rest[i] == t[i]);
            }
        }
        b
    } else {
        assert(t.take(t.len() as int) =~= t);
        t.len() as int
    }
}

/// Trimming leaves what stands between white space.
pub proof fn trimming_leaves_the_core(t: Seq<char>)
    ensures
        is_core(unicode::trim(t), t),
        unicode::trim(t).len() == 0 <==> forall|i: int| 0 <= i < t.len() ==> unicode::white_space(#[trigger] t[i]),
{
    let a = start_is_cut(t);
    let u = t.skip(a);
    let b = end_is_cut(u);
    let core = unicode::trim(t);
    assert(core == u.take(b));
    assert(core =~= t.subrange(a, a + core.len()));
    assert forall|i: int| 0 <= i < a || a + core.len() <= i < t.len() implies unicode::white_space(#[trigger] t[i]) by {
        if i >= a {
            assert(u[i - a] == t[i]);
        }
    }
    if b > 0 {
        assert(core[0] == t[a]);
        assert(core.last() == u[b - 1]);
    } else if a < t.len() {
        assert(u[0] == t[a]);
    }
    assert(core_at(core, t, a));
    if core.len() > 0 {
        assert(!unicode::white_space(t[a]));
    }
}

/// Answers that say nothing are counted by who gave them, whatever white space is around them.
pub proof fn empty_answers_are_counted(p: Perfunctory, texts: Seq<TextMessage>, self_id: Option<i64>)
    requires
        p.my_count == curios::short_count(texts, self_id, true),
        p.other_count == curios::short_count(texts, self_id, false),
    ensures
        p.my_count == counting::how_many(
            texts.len() as int,
            |i: int| texts[i].text is Some && is_empty_answer(unicode::trim(texts[i].text->0@)) && self_id == Some(
                texts[i].sender_id,
            ),
        ),
        p.other_count == counting::how_many(
            texts.len() as int,
            |i: int| texts[i].text is Some && is_empty_answer(unicode::trim(texts[i].text->0@)) && self_id != Some(
                texts[i].sender_id,
            ),
        ),
{
    let n = texts.len() as int;
    let p = |m: TextMessage| curios::is_short_answer(m) && crate::model::from_self(self_id, m.sender_id) == true;
    let q = |m: TextMessage| curios::is_short_answer(m) && crate::model::from_self(self_id, m.sender_id) == false;
    counting::items_counted(texts, p);
    counting::items_counted(texts, q);
    couple::same_count(
        texts,
        |m: TextMessage| curios::is_short_answer(m) && crate::model::from_self(self_id, m.sender_id) == true,
        p,
    );
    let a = |i: int| p(texts[i]);
    let b = |i: int| q(texts[i]);
    let c = |i: int|
        texts[i].text is Some && is_empty_answer(unicode::trim(texts[i].text->0@)) && self_id == Some(texts[i].sender_id);
    let d = |i: int|
        texts[i].text is Some && is_empty_answer(unicode::trim(texts[i].text->0@)) && self_id != Some(texts[i].sender_id);
    assert forall|i: int| 0 <= i < n implies #[trigger] a(i) == c(i) by {
        if texts[i].text is Some {
            empty_answer_listed(unicode::trim(texts[i].text->0@));
        }
    }
    assert forall|i: int| 0 <= i < n implies #[trigger] b(i) == d(i) by {
        if texts[i].text is Some {
            empty_answer_listed(unicode::trim(texts[i].text->0@));
        }
    }
    counting::same_places(n, a, c);
    counting::same_places(n, b, d);
}

proof fn empty_answer_listed(t: Seq<char>)
    ensures
        curios::short_answers().contains(t) == is_empty_answer(t),
{
    let w = curios::short_answers();
    assert(w[0] == "嗯"@ && w[1] == "哦"@ && w[2] == "噢"@ && w[3] == "额"@ && w[4] == "呃"@ && w[5] == "嗯嗯"@);
    assert(w[6] == "哦哦"@ && w[7] == "好"@ && w[8] == "好的"@ && w[9] == "嗯好"@ && w[10] == "嗯."@ && w[11] == "哦."@);
    if w.contains(t) {
        let i = w.index_of(t);
        assert(w[i] == t);
    }
}

/// One point for every full two hundred messages, and no more than 25. For up to two to the 40th messages.
pub proof fn messages_score(total: int)
    requires
        0 <= total <= 0x100_0000_0000,
    ensures
        curios::activity_points(total) == if total >= 5000 {
            25
        } else {
            total / 200
        },
{
    if total > 0 {
        let a = double::quotient(double::of(total), double::of(200));
        double::quotient_of_counts(total, 200);
        double::nearest_is_number(total, 200);
        let k = if total >= 5000 {
            25
        } else {
            total / 200
        };
        reaches(total, k);
        reaches(total, k + 1);
        double::whole_is_not_negative(a);
    }
}

proof fn reaches(total: int, k: int)
    requires
        0 < total <= 0x100_0000_0000,
        0 <= k <= 26,
    ensures
        k > 0 ==> (double::whole(double::quotient(double::of(total), double::of(200))) >= k <==> total >= 200 * k),
{
    if k > 0 {
        double::quotient_of_counts(total, 200);
        double::nearest_is_number(total, 200);
        double::quotient_against_fraction(total, 200, k, 1);
        double::whole_against_count(double::quotient(double::of(total), double::of(200)), k);
    }
}

/// A side that writes everything scores nothing for being even, and two sides with as many messages each
/// score all 20 points.
pub proof fn balance_goes_from_none_to_full(n: int)
    requires
        n > 0,
    ensures
        curios::balance_points(n, n) == 20,
        curios::balance_points(n, 0) == 0,
        curios::balance_points(0, n) == 0,
{
    curios::even_sides_score_full(n);
    let one = (double::LOW as int, -52int);
    double::nearest_is_number(n, 1);
    double::quotient_of_equals(double::of(n));
    double::nearest_is_number(100, 1);
    double::nearest_is_number(50, 1);
    double::one_times(double::of(100));
    double::nearest_doubles(50, 1);
    double::one_is_one();
    let fifty = double::of(50);
    assert(double::of(100) == double::shifted(fifty, 1));
    assert(double::gap(double::of(100), fifty) == fifty) by {
        double::gap_of_twice(fifty);
    }
    double::quotient_of_equals(fifty);
    let none = double::signed_sum((false, double::of(1)), (true, one));
    assert(none.1 == (0int, 0int));
    assert(double::rounded((0int, 0int)) == 0) by {
        double::nothing_rounds_to_nothing();
    }
}

/// All replies quick on both sides score all 25 points, and none on either side score nothing.
pub proof fn quick_replies_score(mine: curios::Share, theirs: curios::Share)
    requires
        mine.whole > 0,
        theirs.whole > 0,
    ensures
        mine.part == mine.whole && theirs.part == theirs.whole ==> curios::quick_points(mine, theirs) == 25,
        mine.part == 0 && theirs.part == 0 ==> curios::quick_points(mine, theirs) == 0,
{
    let one = (double::LOW as int, -52int);
    double::nothing_rounds_to_nothing();
    if mine.part == mine.whole && theirs.part == theirs.whole {
        double::nearest_is_number(mine.whole as int, 1);
        double::nearest_is_number(theirs.whole as int, 1);
        double::quotient_of_equals(double::of(mine.whole as int));
        double::quotient_of_equals(double::of(theirs.whole as int));
        double::one_is_one();
        double::one_and_one();
        double::nearest_doubles(1, 1);
        double::quotient_of_equals(double::of(2));
        double::counts_are_exact(25);
        double::one_times(double::of(25));
    }
}

/// Both sides count alike, whichever is one's own; quick replies on one side alone score half of 25, rounded
/// up.
pub proof fn quick_replies_count_alike(a: curios::Share, b: curios::Share)
    requires
        a.whole > 0,
        b.whole > 0,
        a.part >= 0,
        b.part >= 0,
    ensures
        curios::quick_points(a, b) == curios::quick_points(b, a),
        a.part == a.whole && b.part == 0 ==> curios::quick_points(a, b) == 13,
{
    let (x, y) = (curios::share_number(a).1, curios::share_number(b).1);
    if a.part > 0 {
        double::nearest_is_number(a.part as int, 1);
        double::nearest_is_number(a.whole as int, 1);
        double::nearest_is_number(double::of(a.part as int).0, double::of(a.whole as int).0);
    }
    if b.part > 0 {
        double::nearest_is_number(b.part as int, 1);
        double::nearest_is_number(b.whole as int, 1);
        double::nearest_is_number(double::of(b.part as int).0, double::of(b.whole as int).0);
    }
    double::nothing_rounds_to_nothing();
    assert(double::sum(x, y) == double::sum(y, x));
    if a.part == a.whole && b.part == 0 {
        double::nearest_is_number(a.whole as int, 1);
        double::quotient_of_equals(double::of(a.whole as int));
        double::one_is_one();
        double::nearest_doubles(1, 1);
        double::quotient_of_equals(double::of(1));
        let one = (double::LOW as int, -52int);
        assert(double::quotient(one, double::of(2)) == double::shifted(one, -1));
        double::nearest_is_number(25, 1);
        double::one_times(double::of(25));
        assert(double::product(double::shifted(one, -1), double::of(25)) == double::shifted(double::of(25), -1));
        double::half_of_twenty_five();
    }
}

/// A side with a third of the other side's messages scores half of the 20 points for being even.
pub proof fn a_quarter_scores_half(n: int)
    requires
        n > 0,
    ensures
        curios::balance_points(n, 3 * n) == 10,
{
    let one = (double::LOW as int, -52int);
    double::nearest_is_number(n, 1);
    double::nearest_doubles(n, 1);
    double::nearest_doubles(2 * n, 1);
    double::quotient_of_equals(double::of(n));
    let quarter = double::quotient(double::of(n), double::of(n + 3 * n));
    assert(2 * (2 * n) == n + 3 * n);
    assert(quarter == double::shifted(one, -2));
    double::nearest_is_number(100, 1);
    double::nearest_is_number(50, 1);
    double::nearest_is_number(25, 1);
    double::nearest_doubles(25, 1);
    double::nearest_doubles(50, 1);
    double::one_times(double::of(100));
    let percent = double::product(quarter, double::of(100));
    assert(percent == double::of(25));
    double::gap_of_twice(double::of(25));
    assert(double::gap(double::of(25), double::of(50)) == double::of(25)) by {
        double::gap_either_way(double::of(25), double::of(50));
    }
    double::quotient_of_equals(double::of(25));
    let half = double::shifted(one, -1);
    assert(double::quotient(double::of(25), double::of(50)) == half);
    double::one_is_one();
    double::gap_of_twice(half);
    assert(double::gap(one, half) == half);
    double::nearest_is_number(20, 1);
    double::nearest_doubles(10, 1);
    double::one_times(double::of(20));
    assert(double::product(half, double::of(20)) == double::of(10));
    double::counts_are_exact(10);
}

/// A message on every day scores all 15 points and none scores nothing; of as many days, more with a
/// message never score less.
pub proof fn covered_days_score(a: curios::Share, b: curios::Share)
    requires
        a.whole > 0,
        a.whole == b.whole,
        0 <= a.part <= b.part <= b.whole,
    ensures
        curios::cover_points(a) <= curios::cover_points(b),
        a.part == 0 ==> curios::cover_points(a) == 0,
        b.part == b.whole ==> curios::cover_points(b) == 15,
{
    let w = double::of(a.whole as int);
    double::nothing_rounds_to_nothing();
    double::nearest_is_number(a.whole as int, 1);
    double::counts_are_exact(15);
    if a.part > 0 {
        double::nearest_is_number(a.part as int, 1);
    }
    if b.part > 0 {
        double::nearest_is_number(b.part as int, 1);
    }
    double::nearest_grows(a.part as int, b.part as int, 1);
    let (x, y) = (double::of(a.part as int), double::of(b.part as int));
    double::quotients_grow(x, y, w);
    double::quotients_grow(y, y, w);
    let (p, q) = (double::quotient(x, w), double::quotient(y, w));
    let n = double::of(15);
    double::products_grow(p, q, n);
    double::products_grow(q, q, n);
    double::rounding_keeps_order(double::product(p, n), double::product(q, n));
    if b.part == b.whole {
        double::quotient_of_equals(w);
        double::one_times(n);
    }
}

/// The points for covered days are the whole number that is nearest to 15 times their share. For up to two
/// to the 32nd days.
pub proof fn covered_days_score_to_scale(s: curios::Share, t: int)
    requires
        0 < s.part <= s.whole <= 0x1_0000_0000,
        0 <= t <= 15,
        (2 * t - 1) * s.whole < 30 * s.part < (2 * t + 1) * s.whole,
    ensures
        curios::cover_points(s) == t,
{
    let (p, w) = (s.part as int, s.whole as int);
    covered_days_score(s, curios::Share { part: s.whole, whole: s.whole });
    covered_days_score(curios::Share { part: 0, whole: s.whole }, s);
    assert(2 * (15 * p) == 30 * p);
    if t > 0 {
        double::share_rounds_to_nearest(p, w, 15, t);
    }
    if t < 15 {
        double::share_rounds_to_nearest(p, w, 15, t + 1);
        assert(2 * (t + 1) - 1 == 2 * t + 1);
    }
}

/// The score is the sum of five parts, kept between 0 and 100: messages for 25 points, balance for 20,
/// quick replies for 25, the longest row of days for 15, a point each, and covered days for 15. It is
/// called by its height.
pub proof fn score_adds_up(r: RelationScore, sc: ScoreInputs)
    requires
        curios::is_score(r, sc),
        sc.total >= 0,
        sc.my_count >= 0,
        sc.other_count >= 0,
        sc.longest_streak >= 0,
        curios::is_part(sc.active_ratio),
        curios::is_part(sc.my_quick),
        curios::is_part(sc.other_quick),
    ensures
        r.breakdown@.len() == 5,
        r.score == r.breakdown@[0].1 + r.breakdown@[1].1 + r.breakdown@[2].1 + r.breakdown@[3].1 + r.breakdown@[4].1,
        r.breakdown@[0].2 == 25 && r.breakdown@[1].2 == 20 && r.breakdown@[2].2 == 25 && r.breakdown@[3].2 == 15
            && r.breakdown@[4].2 == 15,
        forall|i: int| 0 <= i < 5 ==> 0 <= (#[trigger] r.breakdown@[i]).1 <= r.breakdown@[i].2,
        r.breakdown@[3].1 == if sc.longest_streak > 15 {
            15
        } else {
            sc.longest_streak
        },
        sc.total <= 0x100_0000_0000 ==> r.breakdown@[0].1 == if sc.total >= 5000 {
            25
        } else {
            sc.total as int / 200
        },
        0 <= r.score <= 100,
        r.label@ == if r.score < 30 {
            "需要加温"@
        } else if r.score < 45 {
            "有点冷淡"@
        } else if r.score < 60 {
            "不温不火"@
        } else if r.score < 75 {
            "稳中有甜"@
        } else if r.score < 90 {
            "甜度爆表"@
        } else {
            "如胶似漆"@
        },
{
    curios::points_stay_within_limits(sc);
    if sc.total <= 0x100_0000_0000 {
        messages_score(sc.total as int);
    }
    let rows = r.breakdown@;
    let parts = curios::score_parts(sc);
    assert(story::word_rows(rows) == parts);
    assert(rows.len() == parts.len());
    assert forall|i: int| 0 <= i < 5 implies (#[trigger] rows[i]).1 == parts[i].1 && rows[i].2 == parts[i].2 by {
        assert(story::word_rows(rows)[i] == (rows[i].0@, rows[i].1, rows[i].2));
    }
}

}
