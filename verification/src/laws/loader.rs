//! What is read from the databases of a conversation.

use vstd::prelude::*;
use vstd::string::*;

use crate::content;
use crate::loader;
use crate::loader::{FactShard, SessionRow, ShardStats, TextShard};
use crate::model::{Conversation, MessageFact, TextMessage};
use crate::ordered;
use crate::text;

verus! {

/// An item is kept where it first comes up: the items stay in order, and one that came before adds
/// nothing.
pub proof fn first_ones_are_kept(s: Seq<Seq<char>>, x: Seq<char>)
    ensures
        loader::distinct(Seq::empty()) == Seq::<Seq<char>>::empty(),
        loader::distinct(s.push(x)) == if s.contains(x) {
            loader::distinct(s)
        } else {
            loader::distinct(s).push(x)
        },
{
    assert(s.push(x).drop_last() =~= s);
    loader::distinct_items(s);
    assert(loader::distinct(s).contains(x) <==> s.contains(x));
}

/// The row at `i` is the first of the account name.
pub open spec fn is_first_row(rows: Seq<SessionRow>, i: int, user: Seq<char>) -> bool {
    &&& 0 <= i < rows.len()
    &&& rows[i].username@ == user
    &&& forall|j: int| 0 <= j < i ==> (#[trigger] rows[j]).username@ != user
}

proof fn table_is_of_first_row(rows: Seq<SessionRow>, user: Seq<char>)
    ensures
        loader::table_of(rows, user) is Some <==> exists|i: int| #[trigger] is_first_row(rows, i, user),
        forall|i: int| #[trigger]
            is_first_row(rows, i, user) ==> loader::table_of(rows, user) == Some(rows[i].table_name@),
    decreases rows.len(),
{
    if rows.len() > 0 {
        let n = rows.len() - 1;
        let less = rows.drop_last();
        table_is_of_first_row(less, user);
        assert forall|i: int| 0 <= i < n implies #[trigger] is_first_row(rows, i, user) == is_first_row(less, i, user) by {
            assert(less[i] == rows[i]);
            if is_first_row(rows, i, user) {
                assert forall|j: int| 0 <= j < i implies (#[trigger] less[j]).username@ != user by {
                    assert(less[j] == rows[j]);
                }
            }
            if is_first_row(less, i, user) {
                assert forall|j: int| 0 <= j < i implies (#[trigger] rows[j]).username@ != user by {
                    assert(less[j] == rows[j]);
                }
            }
        }
        if loader::table_of(less, user) is Some {
            let i = choose|i: int| #[trigger] is_first_row(less, i, user);
            assert(is_first_row(rows, i, user));
            assert forall|k: int| #[trigger] is_first_row(rows, k, user) implies k < n by {
                if k == n {
                    assert(rows[i].username@ == user);
                }
            }
        } else {
            if rows[n].username@ == user {
                assert forall|j: int| 0 <= j < n implies (#[trigger] rows[j]).username@ != user by {
                    if rows[j].username@ == user {
                        let k = first_row_of(less, j, user);
                        assert(is_first_row(less, k, user));
                    }
                }
                assert(is_first_row(rows, n, user));
            }
        }
    }
}

proof fn first_row_of(rows: Seq<SessionRow>, j: int, user: Seq<char>) -> (i: int)
    requires
        0 <= j < rows.len(),
        rows[j].username@ == user,
    ensures
        is_first_row(rows, i, user),
    decreases j,
{
    if exists|k: int| 0 <= k < j && (#[trigger] rows[k]).username@ == user {
        let k = choose|k: int| 0 <= k < j && (#[trigger] rows[k]).username@ == user;
        first_row_of(rows, k, user)
    } else {
        j
    }
}

/// There is one conversation for every account name that the rows give, with the table of its first row
/// and every database of its rows once.
pub proof fn rows_make_conversations(convs: Seq<Conversation>, rows: Seq<SessionRow>, user: Seq<char>, stem: Seq<char>)
    requires
        loader::are_conversations(convs, rows),
    ensures
        forall|i: int, j: int|
            0 <= i < j < convs.len() ==> (#[trigger] convs[i]).username@ != (#[trigger] convs[j]).username@,
        (exists|k: int| 0 <= k < convs.len() && (#[trigger] convs[k]).username@ == user) <==> exists|i: int| #[trigger]
            is_first_row(rows, i, user),
        forall|k: int, i: int|
            0 <= k < convs.len() && (#[trigger] convs[k]).username@ == user && #[trigger] is_first_row(rows, i, user)
                ==> convs[k].table_name@ == rows[i].table_name@,
        forall|k: int|
            0 <= k < convs.len() && (#[trigger] convs[k]).username@ == user ==> text::texts(
                convs[k].db_stems@,
            ).no_duplicates() && (text::texts(convs[k].db_stems@).contains(stem) <==> exists|i: int|
                0 <= i < rows.len() && (#[trigger] rows[i]).username@ == user && rows[i].db_stem@ == stem),
{
    let users = loader::users(rows);
    let names = loader::conv_users(convs);
    loader::distinct_items(users);
    table_is_of_first_row(rows, user);
    stems_are_of_rows(rows, user, stem);
    loader::distinct_items(loader::stems_of(rows, user));
    assert forall|i: int, j: int| 0 <= i < j < convs.len() implies (#[trigger] convs[i]).username@ != (
    #[trigger] convs[j]).username@ by {
        assert(names[i] == convs[i].username@ && names[j] == convs[j].username@);
    }
    if exists|k: int| 0 <= k < convs.len() && (#[trigger] convs[k]).username@ == user {
        let k = choose|k: int| 0 <= k < convs.len() && (#[trigger] convs[k]).username@ == user;
        assert(names[k] == user);
        assert(loader::distinct(users).contains(user));
        let i = users.index_of(user);
        assert(rows[i].username@ == user);
        let f = first_row_of(rows, i, user);
        assert(is_first_row(rows, f, user));
    }
    if exists|i: int| #[trigger] is_first_row(rows, i, user) {
        let i = choose|i: int| #[trigger] is_first_row(rows, i, user);
        assert(users[i] == user);
        assert(users.contains(user));
        assert(loader::distinct(users).contains(user));
        let k = names.index_of(user);
        assert(convs[k].username@ == user);
    }
    assert forall|k: int| 0 <= k < convs.len() && (#[trigger] convs[k]).username@ == user implies text::texts(
        convs[k].db_stems@,
    ) == loader::distinct(loader::stems_of(rows, user)) by {
        assert(loader::is_conversation(convs[k], rows));
    }
}

proof fn stems_are_of_rows(rows: Seq<SessionRow>, user: Seq<char>, stem: Seq<char>)
    ensures
        loader::stems_of(rows, user).contains(stem) <==> exists|i: int|
            0 <= i < rows.len() && (#[trigger] rows[i]).username@ == user && rows[i].db_stem@ == stem,
    decreases rows.len(),
{
    let s = loader::stems_of(rows, user);
    if rows.len() > 0 {
        let n = rows.len() - 1;
        let less = rows.drop_last();
        let before = loader::stems_of(less, user);
        stems_are_of_rows(less, user, stem);
        let found = rows[n].username@ == user && rows[n].db_stem@ == stem;
        assert(s.contains(stem) <==> before.contains(stem) || found) by {
            if before.contains(stem) {
                assert(s[before.index_of(stem)] == stem);
            }
            if s.contains(stem) {
                let k = s.index_of(stem);
                if k < before.len() {
                    assert(before[k] == stem);
                }
            }
            if found {
                assert(s[before.len() as int] == stem);
            }
        }
        if exists|i: int| 0 <= i < less.len() && (#[trigger] less[i]).username@ == user && less[i].db_stem@ == stem {
            let i = choose|i: int|
                0 <= i < less.len() && (#[trigger] less[i]).username@ == user && less[i].db_stem@ == stem;
            assert(rows[i] == less[i]);
        }
        if exists|i: int| 0 <= i < rows.len() && (#[trigger] rows[i]).username@ == user && rows[i].db_stem@ == stem {
            let i = choose|i: int|
                0 <= i < rows.len() && (#[trigger] rows[i]).username@ == user && rows[i].db_stem@ == stem;
            if i < n {
                assert(less[i] == rows[i]);
            }
        }
    }
}

/// The messages of one more database come behind those of the databases before. Each keeps its time; its
/// sender is 0 where the row is one's own in that database and 1 otherwise; its type is the low half of
/// the packed code.
pub proof fn rows_become_messages(shards: Seq<FactShard>, s: FactShard)
    ensures
        loader::all_facts(Seq::empty()) == Seq::<MessageFact>::empty(),
        loader::all_facts(shards.push(s)).len() == loader::all_facts(shards).len() + s.rows@.len(),
        forall|k: int|
            0 <= k < loader::all_facts(shards).len() ==> #[trigger] loader::all_facts(shards.push(s))[k]
                == loader::all_facts(shards)[k],
        forall|k: int|
            0 <= k < s.rows@.len() ==> ({
                let f = loader::all_facts(shards.push(s))[loader::all_facts(shards).len() + k];
                let r = #[trigger] s.rows@[k];
                f.create_time == r.create_time && f.base_type == r.local_type as int % 0x1_0000_0000 && f.sender_id
                    == if s.self_rowid is Some && s.self_rowid->0 == r.sender {
                    0int
                } else {
                    1int
                }
            }),
{
    assert(shards.push(s).drop_last() =~= shards);
    let n = loader::all_facts(shards).len() as int;
    assert forall|k: int| 0 <= k < s.rows@.len() implies ({
        let f = loader::all_facts(shards.push(s))[n + k];
        let r = #[trigger] s.rows@[k];
        f.create_time == r.create_time && f.base_type == r.local_type as int % 0x1_0000_0000 && f.sender_id
            == if s.self_rowid is Some && s.self_rowid->0 == r.sender {
            0int
        } else {
            1int
        }
    }) by {
        assert(loader::all_facts(shards.push(s))[n + k] == loader::shard_facts(s)[k]);
    }
}

/// Messages are put in the order of their times: each stands in the result once, and of two with the same
/// time the one that came first still does.
pub proof fn messages_are_put_in_order(out: Seq<MessageFact>, facts: Seq<MessageFact>) -> (at: Seq<int>)
    requires
        loader::in_time_order(out, facts),
        facts.len() <= usize::MAX,
    ensures
        at.len() == out.len(),
        out.len() == facts.len(),
        forall|k: int| 0 <= k < out.len() ==> 0 <= #[trigger] at[k] < facts.len() && out[k] == facts[at[k]],
        forall|i: int| 0 <= i < facts.len() ==> #[trigger] at.contains(i),
        forall|k: int, l: int|
            0 <= k < l < out.len() ==> (#[trigger] out[k]).create_time < (#[trigger] out[l]).create_time || (
            out[k].create_time == out[l].create_time && at[k] < at[l]),
{
    let times = loader::fact_times(facts);
    let order = choose|order: Seq<usize>| #[trigger]
        ordered::rising_order(order, times) && out == order.map_values(|p: usize| facts[p as int]);
    ordered::rising_order_is_permutation(order, times);
    let at = order.map_values(|p: usize| p as int);
    assert forall|i: int| 0 <= i < facts.len() implies #[trigger] at.contains(i) by {
        assert(order.contains(i as usize));
        let k = order.index_of(i as usize);
        assert(at[k] == i);
    }
    assert forall|k: int, l: int| 0 <= k < l < out.len() implies (#[trigger] out[k]).create_time < (
    #[trigger] out[l]).create_time || (out[k].create_time == out[l].create_time && at[k] < at[l]) by {
        assert(out[k] == facts[order[k] as int] && out[l] == facts[order[l] as int]);
        assert(times[order[k] as int] == out[k].create_time && times[order[l] as int] == out[l].create_time);
    }
    at
}

/// The first time of all databases is the smallest that one gives, and the last the largest; a database
/// without one changes nothing.
pub proof fn times_of_all_databases(shards: Seq<ShardStats>)
    ensures
        loader::first_time(shards) is None <==> forall|i: int|
            0 <= i < shards.len() ==> (#[trigger] shards[i]).time_min is None,
        loader::first_time(shards) matches Some(t) ==> (exists|i: int|
            0 <= i < shards.len() && (#[trigger] shards[i]).time_min == Some(t)) && forall|i: int|
            0 <= i < shards.len() && (#[trigger] shards[i]).time_min is Some ==> t <= shards[i].time_min->0,
        loader::last_time(shards) is None <==> forall|i: int|
            0 <= i < shards.len() ==> (#[trigger] shards[i]).time_max is None,
        loader::last_time(shards) matches Some(t) ==> (exists|i: int|
            0 <= i < shards.len() && (#[trigger] shards[i]).time_max == Some(t)) && forall|i: int|
            0 <= i < shards.len() && (#[trigger] shards[i]).time_max is Some ==> shards[i].time_max->0 <= t,
    decreases shards.len(),
{
    if shards.len() > 0 {
        let n = shards.len() - 1;
        let less = shards.drop_last();
        times_of_all_databases(less);
        assert forall|i: int| 0 <= i < n implies #[trigger] shards[i] == less[i] by {}
        if loader::first_time(less) is Some {
            let t = loader::first_time(less)->0;
            let i = choose|i: int| 0 <= i < less.len() && (#[trigger] less[i]).time_min == Some(t);
            assert(shards[i] == less[i]);
        }
        if loader::last_time(less) is Some {
            let t = loader::last_time(less)->0;
            let i = choose|i: int| 0 <= i < less.len() && (#[trigger] less[i]).time_max == Some(t);
            assert(shards[i] == less[i]);
        }
        assert(shards[n] == shards.last());
        assert forall|i: int| 0 <= i < less.len() implies #[trigger] less[i] == shards[i] by {}
    }
}

/// What one more database adds to the messages, the senders and the types of a conversation.
pub proof fn a_database_adds_up(shards: Seq<ShardStats>, s: ShardStats)
    ensures
        loader::total_count(Seq::empty()) == 0,
        loader::total_count(shards.push(s)) == loader::total_count(shards) + s.count,
        loader::all_senders(Seq::empty()) == Seq::<Seq<char>>::empty(),
        loader::all_senders(shards.push(s)) == loader::all_senders(shards) + text::texts(s.senders@),
        loader::all_types(Seq::empty()) == Seq::<(i64, i64)>::empty(),
        loader::all_types(shards.push(s)) == loader::all_types(shards) + s.type_dist@,
{
    assert(shards.push(s).drop_last() =~= shards);
}

/// Rows of the same type add up, and a type stands in the sum exactly where a row has it. For rows whose
/// counts fit together.
pub proof fn types_add_up(rows: Seq<(i64, i64)>, t: i64)
    requires
        loader::rows_fit(rows),
    ensures
        loader::added_up(rows).contains_key(t) <==> crate::stats::volume::has_type(rows, t),
        ordered::count_in(loader::added_up(rows), t) == crate::stats::volume::type_sum(rows, t),
    decreases rows.len(),
{
    if rows.len() > 0 {
        let less = rows.drop_last();
        let r = rows.last();
        assert(rows =~= less.push(r));
        crate::laws::volume::a_row_adds_to_its_type(less, r, t);
        assert forall|i: int| 0 <= i < less.len() implies (#[trigger] less[i]).1 >= 0 by {
            assert(less[i] == rows[i]);
        }
        assert(rows[rows.len() - 1].1 >= 0);
        types_add_up(less, t);
        crate::stats::volume::types_within_total(less, t);
        crate::stats::volume::types_within_total(rows, t);
    }
}

/// A count that is there adds itself, one that is not adds nothing.
pub proof fn given_counts_add_up(parts: Seq<Option<i64>>, part: Option<i64>)
    ensures
        loader::given_sum(Seq::empty()) == 0,
        loader::given_sum(parts.push(part)) == loader::given_sum(parts) + if part is Some {
            part->0 as int
        } else {
            0
        },
{
    assert(parts.push(part).drop_last() =~= parts);
}

/// The position is one of the text messages of the databases: its packed type has the low half 1.
pub open spec fn holds_text(shards: Seq<TextShard>, a: int, b: int) -> bool {
    0 <= a < shards.len() && 0 <= b < shards[a].rows@.len() && shards[a].rows@[b].local_type as int % 0x1_0000_0000 == 1
}

proof fn shard_texts_are_texts(s: TextShard, at: usize, n: nat)
    requires
        n <= s.rows@.len(),
        n <= usize::MAX,
    ensures
        forall|k: int|
            0 <= k < loader::shard_texts(s, at, n).len() ==> (#[trigger] loader::shard_texts(s, at, n)[k]).0 == at
                && loader::shard_texts(s, at, n)[k].1 < n && s.rows@[loader::shard_texts(
                s,
                at,
                n,
            )[k].1 as int].local_type as int % 0x1_0000_0000 == 1,
        forall|k: int, l: int|
            0 <= k < l < loader::shard_texts(s, at, n).len() ==> (#[trigger] loader::shard_texts(s, at, n)[k]).1 < (
            #[trigger] loader::shard_texts(s, at, n)[l]).1,
        forall|b: int|
            0 <= b < n && (#[trigger] s.rows@[b]).local_type as int % 0x1_0000_0000 == 1 ==> loader::shard_texts(
                s,
                at,
                n,
            ).contains((at, b as usize)),
    decreases n,
{
    if n > 0 {
        let e = (n - 1) as nat;
        shard_texts_are_texts(s, at, e);
        let before = loader::shard_texts(s, at, e);
        let now = loader::shard_texts(s, at, n);
        assert forall|k: int| 0 <= k < before.len() implies #[trigger] now[k] == before[k] by {}
        assert forall|b: int| 0 <= b < n && (#[trigger] s.rows@[b]).local_type as int % 0x1_0000_0000
            == 1 implies now.contains((at, b as usize)) by {
            if b < e {
                let k = before.index_of((at, b as usize));
                assert(now[k] == before[k]);
            } else {
                assert(now[before.len() as int] == (at, b as usize));
            }
        }
    }
}

/// One position comes before another: in an earlier database, or earlier in the same.
pub open spec fn is_ahead(p: (usize, usize), q: (usize, usize)) -> bool {
    p.0 < q.0 || (p.0 == q.0 && p.1 < q.1)
}

/// The positions that are found are those of the text messages, in order and each once.
proof fn positions_hold_texts(shards: Seq<TextShard>, n: nat)
    requires
        n <= shards.len(),
        shards.len() <= usize::MAX,
        forall|a: int| 0 <= a < shards.len() ==> (#[trigger] shards[a]).rows@.len() <= usize::MAX,
    ensures
        forall|k: int|
            0 <= k < loader::text_positions(shards, n).len() ==> (#[trigger] loader::text_positions(shards, n)[k]).0 < n
                && holds_text(
                shards,
                loader::text_positions(shards, n)[k].0 as int,
                loader::text_positions(shards, n)[k].1 as int,
            ),
        forall|k: int, l: int|
            0 <= k < l < loader::text_positions(shards, n).len() ==> is_ahead(
                #[trigger] loader::text_positions(shards, n)[k],
                #[trigger] loader::text_positions(shards, n)[l],
            ),
        forall|a: int, b: int|
            a < n && #[trigger] holds_text(shards, a, b) ==> loader::text_positions(shards, n).contains(
                (a as usize, b as usize),
            ),
    decreases n,
{
    if n > 0 {
        let e = (n - 1) as nat;
        positions_hold_texts(shards, e);
        let before = loader::text_positions(shards, e);
        let s = shards[n - 1];
        let added = loader::shard_texts(s, e as usize, s.rows@.len());
        shard_texts_are_texts(s, e as usize, s.rows@.len());
        let now = loader::text_positions(shards, n);
        assert(now == before + added);
        assert forall|k: int| 0 <= k < now.len() implies #[trigger] now[k] == if k < before.len() {
            before[k]
        } else {
            added[k - before.len()]
        } by {}
        assert forall|k: int| 0 <= k < now.len() implies (#[trigger] now[k]).0 < n && holds_text(
            shards,
            now[k].0 as int,
            now[k].1 as int,
        ) by {
            if k >= before.len() {
                let x = added[k - before.len()];
            }
        }
        assert forall|k: int, l: int| 0 <= k < l < now.len() implies is_ahead(#[trigger] now[k], #[trigger] now[l]) by {
            if k >= before.len() {
                let x = added[k - before.len()];
                let y = added[l - before.len()];
            } else if l >= before.len() {
                let x = before[k];
                let y = added[l - before.len()];
            } else {
                let x = before[k];
                let y = before[l];
            }
        }
        assert forall|a: int, b: int| a < n && #[trigger] holds_text(shards, a, b) implies now.contains(
            (a as usize, b as usize),
        ) by {
            if a < e {
                let k = before.index_of((a as usize, b as usize));
                assert(now[k] == before[k]);
            } else {
                assert(s.rows@[b].local_type as int % 0x1_0000_0000 == 1);
                let k = added.index_of((a as usize, b as usize));
                assert(now[before.len() + k] == added[k]);
            }
        }
    }
}

/// The text messages of all databases are read: those with the low half of the packed type 1, each once,
/// with its time, with 0 as its sender where the row is one's own in its database and 1 otherwise, and with
/// the text that its stored bytes give. They come in the order of their times, and of two with the same
/// time the one that came first still does.
pub proof fn texts_are_read(out: Seq<TextMessage>, shards: Seq<TextShard>) -> (at: Seq<(usize, usize)>)
    requires
        loader::are_texts(out, shards),
        shards.len() <= usize::MAX,
        forall|a: int| 0 <= a < shards.len() ==> (#[trigger] shards[a]).rows@.len() <= usize::MAX,
        loader::text_positions(shards, shards.len()).len() <= usize::MAX,
    ensures
        at.len() == out.len(),
        forall|k: int| 0 <= k < out.len() ==> reads_row(#[trigger] out[k], shards, at[k].0 as int, at[k].1 as int),
        forall|k: int, l: int|
            0 <= k < l < out.len() ==> (#[trigger] out[k]).create_time < (#[trigger] out[l]).create_time || (
            out[k].create_time == out[l].create_time && is_ahead(at[k], at[l])),
        forall|a: int, b: int| #[trigger] holds_text(shards, a, b) ==> at.contains((a as usize, b as usize)),
{
    let ps = loader::text_positions(shards, shards.len());
    let times = loader::position_times(shards, ps);
    positions_hold_texts(shards, shards.len());
    let order = choose|order: Seq<usize>| #[trigger]
        ordered::rising_order(order, times) && out.len() == order.len() && forall|k: int|
            0 <= k < out.len() ==> loader::is_message_at(#[trigger] out[k], shards, ps[order[k] as int]);
    ordered::rising_order_is_permutation(order, times);
    let at = order.map_values(|p: usize| ps[p as int]);
    assert forall|k: int| 0 <= k < out.len() implies reads_row(
        #[trigger] out[k],
        shards,
        at[k].0 as int,
        at[k].1 as int,
    ) by {
        assert(loader::is_message_at(out[k], shards, ps[order[k] as int]));
        assert(at[k] == ps[order[k] as int]);
    }
    assert forall|k: int, l: int| 0 <= k < l < out.len() implies (#[trigger] out[k]).create_time < (
    #[trigger] out[l]).create_time || (out[k].create_time == out[l].create_time && is_ahead(at[k], at[l])) by {
        assert(loader::is_message_at(out[k], shards, ps[order[k] as int]));
        assert(loader::is_message_at(out[l], shards, ps[order[l] as int]));
        assert(times[order[k] as int] == out[k].create_time && times[order[l] as int] == out[l].create_time);
    }
    assert forall|a: int, b: int| #[trigger] holds_text(shards, a, b) implies at.contains((a as usize, b as usize)) by {
        let i = ps.index_of((a as usize, b as usize));
        assert(order.contains(i as usize));
        let k = order.index_of(i as usize);
        assert(at[k] == ps[i]);
    }
    at
}

/// `m` is the message in row `b` of database `a`.
pub open spec fn reads_row(m: TextMessage, shards: Seq<TextShard>, a: int, b: int) -> bool {
    let r = shards[a].rows@[b];
    &&& holds_text(shards, a, b)
    &&& m.create_time == r.create_time
    &&& m.sender_id == if shards[a].self_rowid is Some && shards[a].self_rowid->0 == r.sender {
        0int
    } else {
        1int
    }
    &&& content::is_text_of(r.content@, r.compressed@, text::text_view(m.text))
}

}
