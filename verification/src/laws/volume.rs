//! Messages by type and by conversation: what a row and a table add.

use vstd::prelude::*;

use crate::stats::volume;
use crate::stats::volume::TableRow;

verus! {

/// One more row adds its messages to its own type and to all, and to no other type.
pub proof fn a_row_adds_to_its_type(rows: Seq<(i64, i64)>, r: (i64, i64), t: i64)
    ensures
        volume::type_sum(Seq::empty(), t) == 0,
        volume::row_total(Seq::empty()) == 0,
        !volume::has_type(Seq::empty(), t),
        volume::type_sum(rows.push(r), t) == volume::type_sum(rows, t) + if r.0 == t {
            r.1 as int
        } else {
            0
        },
        volume::row_total(rows.push(r)) == volume::row_total(rows) + r.1,
        volume::has_type(rows.push(r), t) <==> volume::has_type(rows, t) || r.0 == t,
{
    let more = rows.push(r);
    assert(more.drop_last() =~= rows);
    if volume::has_type(rows, t) {
        let i = choose|i: int| 0 <= i < rows.len() && (#[trigger] rows[i]).0 == t;
        assert(more[i].0 == t);
    }
    if volume::has_type(more, t) {
        let i = choose|i: int| 0 <= i < more.len() && (#[trigger] more[i]).0 == t;
        if i < rows.len() {
            assert(rows[i].0 == t);
        }
    }
    if r.0 == t {
        assert(more[rows.len() as int].0 == t);
    }
}

/// One's own messages and the others' are as they were summed up, nothing where there was nothing to sum;
/// where it is not known which are one's own, all are the others'.
pub proof fn sides_are_told_apart(mine: Option<i64>, theirs: Option<i64>, all: int)
    ensures
        volume::sides(None, all) == (0int, all),
        volume::sides(Some((mine, theirs)), all).0 == if mine is Some {
            mine->0 as int
        } else {
            0
        },
        volume::sides(Some((mine, theirs)), all).1 == if theirs is Some {
            theirs->0 as int
        } else {
            0
        },
{
}

/// One more table adds its messages to all, to each of its types and to its own conversation, and to no
/// other.
pub proof fn a_table_adds_to_its_conversation(tables: Seq<TableRow>, table: TableRow, t: i64, u: Seq<char>)
    ensures
        volume::tables_total(Seq::empty()) == 0,
        volume::tables_type_sum(Seq::empty(), t) == 0,
        volume::tables_conv_sums(Seq::empty(), u) == (0int, 0int, 0int),
        volume::tables_total(tables.push(table)) == volume::tables_total(tables) + volume::row_total(table.1),
        volume::tables_type_sum(tables.push(table), t) == volume::tables_type_sum(tables, t) + volume::type_sum(
            table.1,
            t,
        ),
        ({
            let before = volume::tables_conv_sums(tables, u);
            let now = volume::tables_conv_sums(tables.push(table), u);
            let sides = volume::sides(table.2, volume::row_total(table.1));
            if table.0 == u {
                now.0 == before.0 + volume::row_total(table.1) && now.1 == before.1 + sides.0 && now.2 == before.2
                    + sides.1
            } else {
                now == before
            }
        }),
{
    assert(tables.push(table).drop_last() =~= tables);
}

}
