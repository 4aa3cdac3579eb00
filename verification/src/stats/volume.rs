//! How many messages there are: by type and by conversation.

use vstd::prelude::*;
use vstd::string::*;

use crate::model::Conversation;
use crate::ordered;
use crate::ordered::SortedMap;
use crate::schema;
use crate::text;

verus! {

/// Messages by type and by conversation.
pub struct VolumeStats {
    pub conversations: usize,
    pub total_messages: i64,
    /// Base types with their messages, the most frequent first.
    pub type_dist: Vec<(i64, i64)>,
    /// The largest conversations: name, all messages, one's own and the others'.
    pub top: Vec<(String, i64, i64, i64)>,
}

/// Gathers messages by type and by conversation.
pub struct VolumeAccum {
    by_base_type: SortedMap<i64, i64>,
    per_conv: SortedMap<String, (i64, i64, i64)>,
    total: i64,
    top_n: usize,
}

/// The sum of the counts of the rows with the type.
pub open spec fn type_sum(rows: Seq<(i64, i64)>, t: i64) -> int
    decreases rows.len(),
{
    if rows.len() == 0 {
        0
    } else {
        type_sum(rows.drop_last(), t) + if rows.last().0 == t {
            rows.last().1 as int
        } else {
            0
        }
    }
}

/// The sum of all counts.
pub open spec fn row_total(rows: Seq<(i64, i64)>) -> int
    decreases rows.len(),
{
    if rows.len() == 0 {
        0
    } else {
        row_total(rows.drop_last()) + rows.last().1
    }
}

/// No count is negative.
pub open spec fn counts_rows(rows: Seq<(i64, i64)>) -> bool {
    forall|i: int| 0 <= i < rows.len() ==> (#[trigger] rows[i]).1 >= 0
}

/// A row is of the type.
pub open spec fn has_type(rows: Seq<(i64, i64)>, t: i64) -> bool {
    exists|i: int| 0 <= i < rows.len() && (#[trigger] rows[i]).0 == t
}

/// One's own messages and the others': as summed up where one's own id is known, else all are the
/// others'. A sum over nothing is zero.
pub open spec fn sides(sums: Option<(Option<i64>, Option<i64>)>, all: int) -> (int, int) {
    match sums {
        Some((mine, theirs)) => (
            match mine {
                Some(n) => n as int,
                None => 0,
            },
            match theirs {
                Some(n) => n as int,
                None => 0,
            },
        ),
        None => (0, all),
    }
}

/// The counts that are kept for a conversation, or zeros.
pub open spec fn conv_counts(map: Map<Seq<char>, (i64, i64, i64)>, u: Seq<char>) -> (i64, i64, i64) {
    if map.contains_key(u) {
        map[u]
    } else {
        (0, 0, 0)
    }
}

/// The first rows count no more than all.
pub proof fn totals_grow(rows: Seq<(i64, i64)>, i: int)
    requires
        counts_rows(rows),
        0 <= i <= rows.len(),
    ensures
        0 <= row_total(rows.take(i)) <= row_total(rows),
    decreases rows.len(),
{
    if rows.len() > 0 {
        let less = rows.drop_last();
        assert forall|k: int| 0 <= k < less.len() implies (#[trigger] less[k]).1 >= 0 by {
            assert(less[k] == rows[k]);
        }
        assert(rows[rows.len() - 1].1 >= 0);
        if i < rows.len() {
            totals_grow(less, i);
            assert(less.take(i) =~= rows.take(i));
        } else {
            totals_grow(less, less.len() as int);
            assert(less.take(less.len() as int) =~= less);
            assert(rows.take(i) =~= rows);
        }
    } else {
        assert(rows.take(i) =~= rows);
    }
}

/// No type holds more messages than there are.
pub proof fn types_within_total(rows: Seq<(i64, i64)>, t: i64)
    requires
        counts_rows(rows),
    ensures
        0 <= type_sum(rows, t) <= row_total(rows),
    decreases rows.len(),
{
    if rows.len() > 0 {
        let less = rows.drop_last();
        assert forall|k: int| 0 <= k < less.len() implies (#[trigger] less[k]).1 >= 0 by {
            assert(less[k] == rows[k]);
        }
        types_within_total(less, t);
        assert(rows[rows.len() - 1].1 >= 0);
    }
}

/// The conversations with all their messages.
pub open spec fn conv_totals(map: Map<Seq<char>, (i64, i64, i64)>) -> Map<Seq<char>, i64> {
    Map::new(|u: Seq<char>| map.contains_key(u), |u: Seq<char>| map[u].0)
}

/// The ranked conversations with their counts.
pub open spec fn top_rows(map: Map<Seq<char>, (i64, i64, i64)>) -> Seq<(Seq<char>, i64, i64, i64)> {
    ordered::ranking::<String>(conv_totals(map)).map_values(
        |p: (Seq<char>, i64)| (p.0, p.1, map[p.0].1, map[p.0].2),
    )
}

/// The rows with their names as text.
pub open spec fn top_views(rows: Seq<(String, i64, i64, i64)>) -> Seq<(Seq<char>, i64, i64, i64)> {
    rows.map_values(|r: (String, i64, i64, i64)| (r.0@, r.1, r.2, r.3))
}

/// At most the first `n` rows.
pub open spec fn first_rows(rows: Seq<(Seq<char>, i64, i64, i64)>, n: int) -> Seq<(Seq<char>, i64, i64, i64)> {
    if rows.len() <= n {
        rows
    } else {
        rows.take(n)
    }
}

/// `rows` are the counts of the types: each type once, the larger counts first and equal counts in
/// the order of their types.
pub open spec fn is_distribution(rows: Seq<(i64, i64)>, types: Map<i64, i64>) -> bool {
    &&& rows.len() == types.dom().len()
    &&& forall|i: int| 0 <= i < rows.len() ==> types.contains_pair(#[trigger] rows[i].0, rows[i].1)
    &&& forall|i: int, j: int|
        0 <= i < j < rows.len() ==> (#[trigger] rows[i]).0 != (#[trigger] rows[j]).0 && (rows[i].1 > rows[j].1 || (
        rows[i].1 == rows[j].1 && rows[i].0 < rows[j].0))
}

/// `rows` are the `n` largest conversations, or all where there are no more: each once with its
/// counts, the larger first, and none that is left out is larger.
pub open spec fn is_top(
    rows: Seq<(Seq<char>, i64, i64, i64)>,
    convs: Map<Seq<char>, (i64, i64, i64)>,
    n: int,
) -> bool {
    &&& rows.len() == if n <= convs.dom().len() {
        n
    } else {
        convs.dom().len() as int
    }
    &&& forall|i: int|
        0 <= i < rows.len() ==> convs.contains_pair((#[trigger] rows[i]).0, (rows[i].1, rows[i].2, rows[i].3))
    &&& forall|i: int, j: int|
        0 <= i < j < rows.len() ==> (#[trigger] rows[i]).0 != (#[trigger] rows[j]).0 && rows[i].1 >= rows[j].1
    &&& forall|u: Seq<char>, i: int|
        #![trigger convs.contains_key(u), rows[i]]
        convs.contains_key(u) && 0 <= i < rows.len() && (forall|k: int|
            0 <= k < rows.len() ==> (#[trigger] rows[k]).0 != u) ==> convs[u].0 <= rows[i].1
}

/// The counts of a ranking add up to those of its map.
proof fn ranked_rows_add_up(rows: Seq<(i64, i64)>, map: Map<i64, i64>)
    requires
        map.dom().finite(),
        ordered::ranks_map::<i64>(rows, map),
    ensures
        row_total(rows) == ordered::map_sum(map),
    decreases rows.len(),
{
    if rows.len() == 0 {
        assert(map.dom() =~= Set::empty()) by {
            assert forall|t: i64| !map.dom().contains(t) by {
                if map.dom().contains(t) {
                    assert(map.contains_key(t));
                }
            }
        }
    } else {
        let n = rows.len() - 1;
        let x = rows[n];
        let less = rows.drop_last();
        let rest = map.remove(x.0);
        assert(map.contains_pair(rows[n].0, rows[n].1));
        assert(rest.dom() =~= map.dom().remove(x.0));
        assert forall|i: int| 0 <= i < less.len() implies rest.contains_pair(#[trigger] less[i].0, less[i].1) by {
            assert(map.contains_pair(rows[i].0, rows[i].1));
            assert(ordered::ranks::<i64, i64>(rows[i], rows[n]));
        }
        assert forall|t: i64| #[trigger] rest.contains_key(t) implies exists|i: int|
            0 <= i < less.len() && less[i].0 == t by {
            assert(map.contains_key(t));
            let i = choose|i: int| 0 <= i < rows.len() && rows[i].0 == t;
            assert(less[i].0 == t);
        }
        ranked_rows_add_up(less, rest);
        ordered::map_sum_without(map, x.0);
    }
}

proof fn ranked_types_are_a_distribution(rows: Seq<(i64, i64)>, map: Map<i64, i64>)
    requires
        map.dom().finite(),
        ordered::ranks_map::<i64>(rows, map),
    ensures
        is_distribution(rows, map),
{
    ordered::ranking_size::<i64>(rows, map);
    assert forall|i: int, j: int| 0 <= i < j < rows.len() implies (#[trigger] rows[i]).0 != (#[trigger] rows[j]).0 && (
    rows[i].1 > rows[j].1 || (rows[i].1 == rows[j].1 && rows[i].0 < rows[j].0)) by {
        assert(ordered::ranks::<i64, i64>(rows[i], rows[j]));
    }
}

proof fn first_rows_are_the_top(map: Map<Seq<char>, (i64, i64, i64)>, n: int)
    requires
        map.dom().finite(),
        n >= 0,
    ensures
        is_top(first_rows(top_rows(map), n), map, n),
{
    let totals = conv_totals(map);
    assert(totals.dom() =~= map.dom());
    ordered::ranking_ranks::<String>(totals);
    let order = ordered::ranking::<String>(totals);
    ordered::ranking_size::<String>(order, totals);
    let all = top_rows(map);
    let rows = first_rows(all, n);
    assert forall|i: int| 0 <= i < all.len() implies map.contains_pair(
        (#[trigger] all[i]).0,
        (all[i].1, all[i].2, all[i].3),
    ) by {
        assert(all[i] == (order[i].0, order[i].1, map[order[i].0].1, map[order[i].0].2));
        assert(totals.contains_pair(order[i].0, order[i].1));
        assert(map[order[i].0] == (all[i].1, all[i].2, all[i].3));
    }
    assert forall|i: int, j: int| 0 <= i < j < all.len() implies (#[trigger] all[i]).0 != (#[trigger] all[j]).0
        && all[i].1 >= all[j].1 by {
        assert(ordered::ranks::<String, i64>(order[i], order[j]));
    }
    assert forall|i: int| 0 <= i < rows.len() implies #[trigger] rows[i] == all[i] by {}
    assert forall|u: Seq<char>, i: int|
        #![trigger map.contains_key(u), rows[i]]
        map.contains_key(u) && 0 <= i < rows.len() && (forall|k: int|
            0 <= k < rows.len() ==> (#[trigger] rows[k]).0 != u) implies map[u].0 <= rows[i].1 by {
        assert(totals.contains_key(u));
        let k = choose|k: int| 0 <= k < order.len() && order[k].0 == u;
        assert(all[k].0 == u);
        if k < rows.len() {
            assert(rows[k].0 == u);
        }
        assert(totals.contains_pair(order[k].0, order[k].1));
        assert(all[i].1 >= all[k].1);
    }
}

/// What a table of a conversation adds: the account name, the messages by type and the sums of the
/// two sides.
pub type TableRow = (Seq<char>, Seq<(i64, i64)>, Option<(Option<i64>, Option<i64>)>);

/// The messages of all tables.
pub open spec fn tables_total(tables: Seq<TableRow>) -> int
    decreases tables.len(),
{
    if tables.len() == 0 {
        0
    } else {
        tables_total(tables.drop_last()) + row_total(tables.last().1)
    }
}

/// The messages of all tables with the type.
pub open spec fn tables_type_sum(tables: Seq<TableRow>, t: i64) -> int
    decreases tables.len(),
{
    if tables.len() == 0 {
        0
    } else {
        tables_type_sum(tables.drop_last(), t) + type_sum(tables.last().1, t)
    }
}

/// The messages of all tables of the conversation: all, one's own and the others'.
pub open spec fn tables_conv_sums(tables: Seq<TableRow>, u: Seq<char>) -> (int, int, int)
    decreases tables.len(),
{
    if tables.len() == 0 {
        (0, 0, 0)
    } else {
        let before = tables_conv_sums(tables.drop_last(), u);
        let (username, rows, sums) = tables.last();
        if username == u {
            let (mine, theirs) = sides(sums, row_total(rows));
            (before.0 + row_total(rows), before.1 + mine, before.2 + theirs)
        } else {
            before
        }
    }
}

impl VolumeAccum {
    /// The messages by type add up to all of them, and so do those by conversation; no part holds more
    /// than the whole.
    pub closed spec fn wf(&self) -> bool {
        &&& self.by_base_type.wf()
        &&& self.per_conv.wf()
        &&& 0 <= self.total
        &&& self.by_base_type.map().dom().finite()
        &&& self.per_conv.map().dom().finite()
        &&& ordered::map_sum(self.by_base_type.map()) == self.total
        &&& ordered::map_sum(conv_totals(self.per_conv.map())) == self.total
        &&& forall|t: i64| #[trigger]
            self.by_base_type.map().contains_key(t) ==> 0 <= self.by_base_type.map()[t] <= self.total
        &&& forall|u: Seq<char>| #[trigger]
            self.per_conv.map().contains_key(u) ==> {
                let c = self.per_conv.map()[u];
                0 <= c.0 <= self.total && 0 <= c.1 <= self.total && 0 <= c.2 <= self.total
            }
    }

    /// All messages that were gathered.
    pub closed spec fn gathered(&self) -> int {
        self.total as int
    }

    /// The messages by base type.
    pub closed spec fn types(&self) -> Map<i64, i64> {
        self.by_base_type.map()
    }

    /// The messages by conversation: all, one's own and the others'.
    pub closed spec fn convs(&self) -> Map<Seq<char>, (i64, i64, i64)> {
        self.per_conv.map()
    }

    /// How many conversations are listed.
    pub closed spec fn listed(&self) -> int {
        self.top_n as int
    }

    /// `after` has gathered the table on top of this: its messages by type and all together are added,
    /// and the counts of its conversation.
    pub open spec fn gathers(self, after: Self, table: TableRow) -> bool {
        let (username, rows, sums) = table;
        &&& after.listed() == self.listed()
        &&& after.gathered() == self.gathered() + row_total(rows)
        &&& forall|t: i64| #[trigger]
            after.types().contains_key(t) <==> self.types().contains_key(t) || has_type(rows, t)
        &&& forall|t: i64| #[trigger]
            ordered::count_in(after.types(), t) == ordered::count_in(self.types(), t) + type_sum(rows, t)
        &&& ({
            let c = conv_counts(self.convs(), username);
            let (mine, theirs) = sides(sums, row_total(rows));
            after.convs() == self.convs().insert(
                username,
                ((c.0 + row_total(rows)) as i64, (c.1 + mine) as i64, (c.2 + theirs) as i64),
            )
        })
    }

    /// `s` sums up what is gathered: the types ranked by their counts, and the largest conversations.
    pub open spec fn sums_up(self, s: VolumeStats) -> bool {
        &&& s.total_messages == self.gathered()
        &&& ordered::keyed(s.type_dist@) == ordered::ranking::<i64>(self.types())
        &&& is_distribution(s.type_dist@, self.types())
        &&& counts_rows(s.type_dist@)
        &&& row_total(s.type_dist@) == s.total_messages
        &&& top_views(s.top@) == first_rows(top_rows(self.convs()), self.listed())
        &&& is_top(top_views(s.top@), self.convs(), self.listed())
    }

    /// What is gathered adds up: by type and by conversation it comes to all messages.
    pub proof fn counts_add_up(self)
        requires
            self.wf(),
        ensures
            self.types().dom().finite(),
            self.convs().dom().finite(),
            ordered::map_sum(self.types()) == self.gathered(),
            ordered::map_sum(conv_totals(self.convs())) == self.gathered(),
    {
    }

    /// Nothing gathered.
    pub fn new(top_n: usize) -> (a: Self)
        ensures
            a.wf(),
            a.gathered() == 0,
            a.types() == Map::<i64, i64>::empty(),
            a.convs() == Map::<Seq<char>, (i64, i64, i64)>::empty(),
            a.listed() == top_n,
    {
        let a = VolumeAccum { by_base_type: SortedMap::new(), per_conv: SortedMap::new(), total: 0, top_n };
        assert(conv_totals(a.per_conv.map()) =~= Map::empty());
        a
    }

    /// Gathers what a table of a conversation holds: its messages by base type and, where one's own
    /// id is known, one's own and the others'. Tables of the same conversation add up.
    pub fn observe_table(
        &mut self,
        conv: &Conversation,
        rows: &Vec<(i64, i64)>,
        sums: Option<(Option<i64>, Option<i64>)>,
    )
        requires
            old(self).wf(),
            counts_rows(rows@),
            old(self).gathered() + row_total(rows@) <= i64::MAX,
            0 <= sides(sums, row_total(rows@)).0 <= row_total(rows@),
            0 <= sides(sums, row_total(rows@)).1 <= row_total(rows@),
        ensures
            final(self).wf(),
            old(self).gathers(*final(self), (conv.username@, rows@, sums)),
    {
        let ghost before = *self;
        let mut conv_total: i64 = 0;
        let mut i: usize = 0;
        while i < rows.len()
            invariant
                i <= rows@.len(),
                counts_rows(rows@),
                before.wf(),
                before.gathered() + row_total(rows@) <= i64::MAX,
                conv_total == row_total(rows@.take(i as int)),
                0 <= conv_total <= row_total(rows@),
                self.by_base_type.wf(),
                self.by_base_type.map().dom().finite(),
                ordered::map_sum(self.by_base_type.map()) == before.total + conv_total,
                self.per_conv == before.per_conv,
                self.total == before.total,
                self.top_n == before.top_n,
                forall|t: i64| #[trigger]
                    self.by_base_type.map().contains_key(t) ==> 0 <= self.by_base_type.map()[t] <= before.total
                        + conv_total,
                forall|t: i64| #[trigger]
                    self.by_base_type.map().contains_key(t) <==> before.by_base_type.map().contains_key(t) || has_type(
                        rows@.take(i as int),
                        t,
                    ),
                forall|t: i64| #[trigger]
                    ordered::count_in(self.by_base_type.map(), t) == ordered::count_in(before.by_base_type.map(), t) + type_sum(
                        rows@.take(i as int),
                        t,
                    ),
            decreases rows@.len() - i,
        {
            let ghost done = rows@.take(i as int);
            let ghost now = rows@.take(i + 1);
            let ghost start = *self;
            let ghost r = rows@[i as int];
            proof {
                assert(now.drop_last() =~= done);
                totals_grow(rows@, i + 1);
                assert(rows@[i as int].1 >= 0);
                assert forall|t: i64| #[trigger] has_type(now, t) <==> has_type(done, t) || r.0 == t by {
                    if has_type(done, t) {
                        let k = choose|k: int| 0 <= k < done.len() && (#[trigger] done[k]).0 == t;
                        assert(now[k].0 == t);
                    }
                    assert(now[i as int] == r);
                    if has_type(now, t) {
                        let k = choose|k: int| 0 <= k < now.len() && (#[trigger] now[k]).0 == t;
                        if k < i {
                            assert(done[k].0 == t);
                        }
                    }
                }
            }
            let base: i64 = rows[i].0;
            let n: i64 = rows[i].1;
            let kept: i64 = match self.by_base_type.get(&base) {
                Some(c) => *c,
                None => 0,
            };
            self.by_base_type.set(base, kept + n);
            conv_total = conv_total + n;
            proof {
                ordered::map_sum_with(start.by_base_type.map(), base, (kept + n) as i64);
                assert forall|t: i64| #[trigger]
                    ordered::count_in(self.by_base_type.map(), t) == ordered::count_in(before.by_base_type.map(), t) + type_sum(
                        now,
                        t,
                    ) by {
                    assert(ordered::count_in(start.by_base_type.map(), t) == ordered::count_in(before.by_base_type.map(), t)
                        + type_sum(done, t));
                }
                assert forall|t: i64| #[trigger] self.by_base_type.map().contains_key(t) implies 0
                    <= self.by_base_type.map()[t] <= before.total + conv_total by {
                    if t != base {
                        assert(start.by_base_type.map().contains_key(t));
                    }
                }
            }
            i = i + 1;
        }
        assert(rows@.take(i as int) =~= rows@);
        let (mine, theirs): (i64, i64) = match sums {
            Some((m, t)) => (
                match m {
                    Some(n) => n,
                    None => 0,
                },
                match t {
                    Some(n) => n,
                    None => 0,
                },
            ),
            None => (0, conv_total),
        };
        let kept: (i64, i64, i64) = match self.per_conv.get(&conv.username) {
            Some(c) => *c,
            None => (0, 0, 0),
        };
        self.total = self.total + conv_total;
        let name = conv.username.clone();
        self.per_conv.set(name, (kept.0 + conv_total, kept.1 + mine, kept.2 + theirs));
        proof {
            let old_totals = conv_totals(before.per_conv.map());
            assert(old_totals.dom() =~= before.per_conv.map().dom());
            ordered::map_sum_with(old_totals, conv.username@, (kept.0 + conv_total) as i64);
            assert(conv_totals(self.per_conv.map()) =~= old_totals.insert(
                conv.username@,
                (kept.0 + conv_total) as i64,
            ));
            assert(self.per_conv.map().dom() =~= before.per_conv.map().dom().insert(conv.username@));
            assert forall|u: Seq<char>| #[trigger] self.per_conv.map().contains_key(u) implies ({
                let c = self.per_conv.map()[u];
                0 <= c.0 <= self.total && 0 <= c.1 <= self.total && 0 <= c.2 <= self.total
            }) by {
                if u != conv.username@ {
                    assert(before.per_conv.map().contains_key(u));
                }
            }
        }
    }

    /// What was gathered: types by falling count, and the largest conversations; equal ones in the
    /// order of their names.
    pub fn finalize(self, conversations: usize) -> (s: VolumeStats)
        requires
            self.wf(),
        ensures
            s.conversations == conversations,
            self.sums_up(s),
    {
        let total_messages = self.total;
        let top_n = self.top_n;
        let ghost types = self.by_base_type.map();
        let ghost convs = self.per_conv.map();
        let type_dist = ordered::ranked(self.by_base_type);
        proof {
            assert(ordered::keyed(type_dist@) =~= type_dist@);
            ranked_rows_add_up(type_dist@, types);
            ranked_types_are_a_distribution(type_dist@, types);
            first_rows_are_the_top(convs, top_n as int);
        }
        let mut top = rank_conversations(&self.per_conv);
        let ghost all = top_views(top@);
        top.truncate(top_n);
        assert(top_views(top@) =~= first_rows(all, top_n as int));
        VolumeStats { conversations, total_messages, type_dist, top }
    }
}

/// The accumulator goes from nothing gathered through the tables, one after the other.
pub open spec fn is_run(states: Seq<VolumeAccum>, tables: Seq<TableRow>) -> bool {
    &&& states.len() == tables.len() + 1
    &&& states[0].gathered() == 0
    &&& states[0].types() == Map::<i64, i64>::empty()
    &&& states[0].convs() == Map::<Seq<char>, (i64, i64, i64)>::empty()
    &&& forall|i: int| 0 <= i < states.len() ==> (#[trigger] states[i]).wf()
    &&& forall|i: int| 0 <= i < tables.len() ==> (#[trigger] states[i]).gathers(states[i + 1], tables[i])
    &&& forall|i: int| 0 <= i < tables.len() ==> is_table(#[trigger] tables[i])
}

/// No count of the table is negative, and neither side has more messages than there are.
pub open spec fn is_table(table: TableRow) -> bool {
    let (mine, theirs) = sides(table.2, row_total(table.1));
    counts_rows(table.1) && 0 <= mine <= row_total(table.1) && 0 <= theirs <= row_total(table.1)
}

/// The account names of the tables.
pub open spec fn usernames(tables: Seq<TableRow>) -> Set<Seq<char>> {
    tables.map_values(|t: TableRow| t.0).to_set()
}

proof fn one_more_username(tables: Seq<TableRow>)
    requires
        tables.len() > 0,
    ensures
        usernames(tables) == usernames(tables.drop_last()).insert(tables.last().0),
{
    let all = tables.map_values(|t: TableRow| t.0);
    let less = tables.drop_last().map_values(|t: TableRow| t.0);
    let n = tables.len() - 1;
    assert forall|u: Seq<char>| all.contains(u) <==> less.contains(u) || u == tables.last().0 by {
        if all.contains(u) {
            let i = all.index_of(u);
            if i < n {
                assert(less[i] == u);
            }
        }
        if less.contains(u) {
            assert(all[less.index_of(u)] == u);
        }
        assert(all[n] == tables.last().0);
    }
    assert(usernames(tables) =~= usernames(tables.drop_last()).insert(tables.last().0));
}

/// Over any row of tables, from nothing gathered on, the messages by type, by conversation and all
/// together are the sums over the tables.
pub proof fn tables_add_up(states: Seq<VolumeAccum>, tables: Seq<TableRow>)
    requires
        is_run(states, tables),
    ensures
        states.last().listed() == states[0].listed(),
        states.last().gathered() == tables_total(tables),
        states.last().convs().dom() == usernames(tables),
        forall|t: i64| #[trigger] ordered::count_in(states.last().types(), t) == tables_type_sum(tables, t),
        forall|u: Seq<char>| ({
            let c = #[trigger] conv_counts(states.last().convs(), u);
            (c.0 as int, c.1 as int, c.2 as int) == tables_conv_sums(tables, u)
        }),
    decreases tables.len(),
{
    if tables.len() == 0 {
        assert(usernames(tables) =~= Set::empty());
    } else {
        let n = tables.len() - 1;
        let less = states.drop_last();
        let fewer = tables.drop_last();
        assert forall|i: int| 0 <= i < less.len() implies (#[trigger] less[i]).wf() by {
            assert(less[i] == states[i]);
        }
        assert forall|i: int| 0 <= i < fewer.len() implies (#[trigger] less[i]).gathers(less[i + 1], fewer[i]) by {
            assert(less[i] == states[i]);
            assert(less[i + 1] == states[i + 1]);
            assert(states[i].gathers(states[i + 1], tables[i]));
        }
        assert forall|i: int| 0 <= i < fewer.len() implies is_table(#[trigger] fewer[i]) by {
            assert(fewer[i] == tables[i]);
        }
        tables_add_up(less, fewer);
        let a = states[n];
        let b = states[n + 1];
        assert(less.last() == a);
        assert(states.last() == b);
        assert(a.gathers(b, tables[n]));
        assert(a.wf() && b.wf());
        assert(is_table(tables[n]));
        let (username, rows, sums) = tables[n];
        totals_grow(rows, 0);
        assert(rows.take(0) =~= Seq::empty());
        let (mine, theirs) = sides(sums, row_total(rows));
        let c = conv_counts(a.convs(), username);
        assert(0 <= c.0 <= a.gathered() && 0 <= c.1 <= a.gathered() && 0 <= c.2 <= a.gathered());
        assert(b.gathered() <= i64::MAX);
        one_more_username(tables);
        assert(b.convs().dom() =~= a.convs().dom().insert(username));
        assert forall|t: i64| #[trigger] ordered::count_in(b.types(), t) == tables_type_sum(tables, t) by {
            assert(ordered::count_in(a.types(), t) == tables_type_sum(fewer, t));
        }
        assert forall|u: Seq<char>| ({
            let c = #[trigger] conv_counts(b.convs(), u);
            (c.0 as int, c.1 as int, c.2 as int) == tables_conv_sums(tables, u)
        }) by {
            let before = conv_counts(a.convs(), u);
            assert((before.0 as int, before.1 as int, before.2 as int) == tables_conv_sums(fewer, u));
        }
    }
}

/// What is summed up after any row of tables, several of them possibly of one conversation: the
/// counts by type add up to all messages, which are those of all tables; each type that occurs stands
/// once with its sum, the larger first and equal ones in the order of their types; and the largest
/// conversations stand once each with the sums over their tables, as many as are to be listed or as
/// there are, the larger first, with none left out that is larger than one that is listed.
pub proof fn tables_are_summed_up(states: Seq<VolumeAccum>, tables: Seq<TableRow>, s: VolumeStats)
    requires
        is_run(states, tables),
        states.last().sums_up(s),
    ensures
        s.total_messages == tables_total(tables),
        row_total(s.type_dist@) == tables_total(tables),
        forall|i: int|
            0 <= i < s.type_dist@.len() ==> (#[trigger] s.type_dist@[i]).1 == tables_type_sum(tables, s.type_dist@[i].0),
        forall|i: int, j: int|
            0 <= i < j < s.type_dist@.len() ==> (#[trigger] s.type_dist@[i]).0 != (#[trigger] s.type_dist@[j]).0 && (
            s.type_dist@[i].1 > s.type_dist@[j].1 || (s.type_dist@[i].1 == s.type_dist@[j].1 && s.type_dist@[i].0
                < s.type_dist@[j].0)),
        s.top@.len() == if states[0].listed() <= usernames(tables).len() {
            states[0].listed()
        } else {
            usernames(tables).len() as int
        },
        forall|i: int|
            0 <= i < s.top@.len() ==> usernames(tables).contains((#[trigger] s.top@[i]).0@) && (
                s.top@[i].1 as int,
                s.top@[i].2 as int,
                s.top@[i].3 as int,
            ) == tables_conv_sums(tables, s.top@[i].0@),
        forall|i: int, j: int|
            0 <= i < j < s.top@.len() ==> (#[trigger] s.top@[i]).0@ != (#[trigger] s.top@[j]).0@ && s.top@[i].1
                >= s.top@[j].1,
        forall|u: Seq<char>, i: int|
            #![trigger usernames(tables).contains(u), s.top@[i]]
            usernames(tables).contains(u) && 0 <= i < s.top@.len() && (forall|k: int|
                0 <= k < s.top@.len() ==> (#[trigger] s.top@[k]).0@ != u) ==> tables_conv_sums(tables, u).0 <= s.top@[i].1,
{
    tables_add_up(states, tables);
    let a = states.last();
    let types = a.types();
    let convs = a.convs();
    let rows = top_views(s.top@);
    assert(rows.len() == s.top@.len());
    assert forall|i: int| 0 <= i < s.type_dist@.len() implies (#[trigger] s.type_dist@[i]).1 == tables_type_sum(
        tables,
        s.type_dist@[i].0,
    ) by {
        let t = s.type_dist@[i].0;
        assert(types.contains_pair(s.type_dist@[i].0, s.type_dist@[i].1));
        assert(ordered::count_in(types, t) == tables_type_sum(tables, t));
    }
    assert forall|i: int| 0 <= i < s.top@.len() implies usernames(tables).contains((#[trigger] s.top@[i]).0@) && (
        s.top@[i].1 as int,
        s.top@[i].2 as int,
        s.top@[i].3 as int,
    ) == tables_conv_sums(tables, s.top@[i].0@) by {
        let u = s.top@[i].0@;
        assert(rows[i] == (u, s.top@[i].1, s.top@[i].2, s.top@[i].3));
        assert(convs.contains_pair(rows[i].0, (rows[i].1, rows[i].2, rows[i].3)));
        assert(conv_counts(convs, u) == (s.top@[i].1, s.top@[i].2, s.top@[i].3));
    }
    assert forall|i: int, j: int| 0 <= i < j < s.top@.len() implies (#[trigger] s.top@[i]).0@ != (
    #[trigger] s.top@[j]).0@ && s.top@[i].1 >= s.top@[j].1 by {
        assert(rows[i].0 == s.top@[i].0@ && rows[j].0 == s.top@[j].0@);
    }
    assert forall|u: Seq<char>, i: int|
        #![trigger usernames(tables).contains(u), s.top@[i]]
        usernames(tables).contains(u) && 0 <= i < s.top@.len() && (forall|k: int|
            0 <= k < s.top@.len() ==> (#[trigger] s.top@[k]).0@ != u) implies tables_conv_sums(tables, u).0
        <= s.top@[i].1 by {
        assert(convs.contains_key(u));
        assert(conv_counts(convs, u) == convs[u]);
        assert forall|k: int| 0 <= k < rows.len() implies (#[trigger] rows[k]).0 != u by {
            assert(rows[k].0 == s.top@[k].0@);
        }
        assert(rows[i].1 == s.top@[i].1);
    }
}

/// The conversations with all their messages.
fn total_up(per_conv: &SortedMap<String, (i64, i64, i64)>) -> (totals: SortedMap<String, i64>)
    requires
        per_conv.wf(),
    ensures
        totals.wf(),
        totals.map() == conv_totals(per_conv.map()),
{
    let entries = per_conv.pairs();
    let ghost rows = ordered::keyed(entries@);
    let mut totals: SortedMap<String, i64> = SortedMap::new();
    let mut i: usize = 0;
    while i < entries.len()
        invariant
            i <= entries@.len(),
            rows == ordered::keyed(entries@),
            ordered::lists::<String, (i64, i64, i64)>(rows, per_conv.map()),
            totals.wf(),
            forall|u: Seq<char>| #[trigger]
                totals.map().contains_key(u) <==> exists|k: int| 0 <= k < i && (#[trigger] rows[k]).0 == u,
            forall|u: Seq<char>| #[trigger]
                totals.map().contains_key(u) ==> per_conv.map().contains_key(u) && totals.map()[u]
                    == per_conv.map()[u].0,
        decreases entries@.len() - i,
    {
        let ghost start = totals;
        let key = entries[i].0.clone();
        totals.set(key, entries[i].1.0);
        proof {
            assert(rows[i as int] == (entries@[i as int].0@, entries@[i as int].1));
            assert(per_conv.map().contains_pair(rows[i as int].0, rows[i as int].1));
            assert forall|u: Seq<char>| #[trigger] totals.map().contains_key(u) <==> exists|k: int|
                0 <= k < i + 1 && (#[trigger] rows[k]).0 == u by {
                if start.map().contains_key(u) {
                    let k = choose|k: int| 0 <= k < i && (#[trigger] rows[k]).0 == u;
                    assert(rows[k].0 == u);
                }
                if exists|k: int| 0 <= k < i + 1 && (#[trigger] rows[k]).0 == u {
                    let k = choose|k: int| 0 <= k < i + 1 && (#[trigger] rows[k]).0 == u;
                    if k < i {
                        assert(start.map().contains_key(u));
                    }
                }
            }
        }
        i = i + 1;
    }
    proof {
        assert forall|u: Seq<char>| per_conv.map().contains_key(u) implies #[trigger] totals.map().contains_key(u) by {
            let k = choose|k: int| 0 <= k < rows.len() && rows[k].0 == u;
            assert(rows[k].0 == u);
        }
        assert(totals.map() =~= conv_totals(per_conv.map()));
    }
    totals
}

/// The conversations, the largest first.
fn rank_conversations(per_conv: &SortedMap<String, (i64, i64, i64)>) -> (rows: Vec<(String, i64, i64, i64)>)
    requires
        per_conv.wf(),
    ensures
        top_views(rows@) == top_rows(per_conv.map()),
{
    let ranked = ordered::ranked(total_up(per_conv));
    let ghost order = ordered::keyed(ranked@);
    let ghost pick = |p: (Seq<char>, i64)| (p.0, p.1, per_conv.map()[p.0].1, per_conv.map()[p.0].2);
    let mut rows: Vec<(String, i64, i64, i64)> = Vec::new();
    let mut i: usize = 0;
    while i < ranked.len()
        invariant
            i <= ranked@.len(),
            per_conv.wf(),
            order == ordered::keyed(ranked@),
            ordered::ranks_map::<String>(order, conv_totals(per_conv.map())),
            pick == (|p: (Seq<char>, i64)| (p.0, p.1, per_conv.map()[p.0].1, per_conv.map()[p.0].2)),
            top_views(rows@) == order.take(i as int).map_values(pick),
        decreases ranked@.len() - i,
    {
        proof {
            assert(order[i as int] == (ranked@[i as int].0@, ranked@[i as int].1));
            assert(conv_totals(per_conv.map()).contains_pair(order[i as int].0, order[i as int].1));
        }
        let kept: (i64, i64, i64) = match per_conv.get(&ranked[i].0) {
            Some(c) => *c,
            None => (0, 0, 0),
        };
        let ghost before = rows@;
        rows.push((ranked[i].0.clone(), ranked[i].1, kept.1, kept.2));
        proof {
            let row = pick(order[i as int]);
            assert(top_views(rows@) =~= top_views(before).push(row));
            assert(order.take(i + 1).map_values(pick) =~= order.take(i as int).map_values(pick).push(row));
        }
        i = i + 1;
    }
    assert(order.take(i as int) =~= order);
    assert(order.map_values(pick) =~= top_rows(per_conv.map()));
    rows
}

/// The query for the messages of a table by base type.
pub open spec fn types_sql(table: Seq<char>) -> Seq<char> {
    "SELECT (local_type & 4294967295), count(*) FROM "@ + schema::quoted(table) + " GROUP BY 1"@
}

/// The query for the messages of a table by base type.
pub fn types_query(table: &str) -> (q: String)
    ensures
        q@ == types_sql(table@),
{
    let mut q = "SELECT (local_type & 4294967295), count(*) FROM ".to_string();
    q.append(schema::quote_ident(table).as_str());
    q.append(" GROUP BY 1");
    q
}

/// The query for one's own messages of a table and the others'.
pub open spec fn sides_sql(table: Seq<char>, self_id: int) -> Seq<char> {
    "SELECT SUM(real_sender_id="@ + text::numeral(self_id) + "), SUM(real_sender_id<>"@ + text::numeral(self_id)
        + ") FROM "@ + schema::quoted(table)
}

/// The query for one's own messages of a table and the others'.
pub fn sides_query(table: &str, self_id: i64) -> (q: String)
    ensures
        q@ == sides_sql(table@, self_id as int),
{
    let id = text::numeral_of(self_id);
    let mut q = "SELECT SUM(real_sender_id=".to_string();
    q.append(id.as_str());
    q.append("), SUM(real_sender_id<>");
    q.append(id.as_str());
    q.append(") FROM ");
    q.append(schema::quote_ident(table).as_str());
    q
}

}
