//! What is found in a database.

use vstd::prelude::*;
use vstd::string::*;

use crate::calendar;
use crate::calendar::Date;
use crate::laws::fmt as shown;
use crate::ordered;
use crate::probe;
use crate::probe::{CellValue, ColumnReport, TableInfo};
use crate::schema;
use crate::text;

verus! {

/// A group is no smaller than the next, names its tables in their order, and no table stands in two
/// groups.
pub proof fn groups_come_by_size(out: Seq<Vec<usize>>, tables: Seq<TableInfo>)
    requires
        probe::are_groups(out, tables),
        tables.len() <= usize::MAX,
        tables.len() <= i64::MAX,
    ensures
        forall|k: int, l: int| 0 <= k < l < out.len() ==> (#[trigger] out[k])@.len() >= (#[trigger] out[l])@.len(),
        forall|k: int, i: int, j: int|
            0 <= k < out.len() && 0 <= i < j < out[k]@.len() ==> #[trigger] out[k]@[i] < #[trigger] out[k]@[j],
        forall|k: int, l: int, p: usize|
            0 <= k < out.len() && 0 <= l < out.len() && #[trigger] out[k]@.contains(p) && #[trigger] out[l]@.contains(p)
                ==> k == l,
        forall|k: int| 0 <= k < out.len() ==> (#[trigger] out[k])@.len() > 0,
{
    let sigs = probe::signatures(tables);
    let groups = probe::signature_groups(sigs);
    let sizes = probe::group_sizes(groups);
    let map = probe::by_signature(sigs);
    let order = choose|order: Seq<usize>| #[trigger]
        ordered::falling_order(order, sizes) && out.len() == order.len() && forall|k: int|
            0 <= k < out.len() ==> (#[trigger] out[k])@ == groups[order[k] as int].1;
    signatures_are_listed(sigs);
    ordered::listing_lists::<String, Seq<usize>>(map);
    assert forall|g: int| 0 <= g < groups.len() implies (#[trigger] groups[g]).1 == probe::members(sigs, groups[g].0)
        && groups[g].1.len() <= sigs.len() && sigs.contains(groups[g].0) && groups[g].1.len() > 0 by {
        assert(map.contains_pair(groups[g].0, groups[g].1));
        members_in_order(sigs, groups[g].0);
        let i = sigs.index_of(groups[g].0);
        assert(probe::members(sigs, groups[g].0).contains(i as usize));
    }
    assert forall|k: int, l: int| 0 <= k < l < out.len() implies (#[trigger] out[k])@.len() >= (
    #[trigger] out[l])@.len() by {
        let (x, y) = (groups[order[k] as int], groups[order[l] as int]);
        assert(sizes[order[k] as int] == x.1.len() && sizes[order[l] as int] == y.1.len());
    }
    assert forall|k: int| 0 <= k < out.len() implies (#[trigger] out[k])@.len() > 0 by {
        let x = groups[order[k] as int];
    }
    assert forall|k: int, i: int, j: int| 0 <= k < out.len() && 0 <= i < j < out[k]@.len() implies #[trigger] out[k]@[i]
        < #[trigger] out[k]@[j] by {
        let x = groups[order[k] as int];
        members_in_order(sigs, x.0);
    }
    assert forall|k: int, l: int, p: usize|
        0 <= k < out.len() && 0 <= l < out.len() && #[trigger] out[k]@.contains(p) && #[trigger] out[l]@.contains(
            p,
        ) implies k == l by {
        let (a, b) = (order[k] as int, order[l] as int);
        let (x, y) = (groups[a], groups[b]);
        members_in_order(sigs, x.0);
        members_in_order(sigs, y.0);
        assert(x.0 == y.0);
        if a < b {
            assert(ordered::text_before(groups[a].0, groups[b].0));
            <String as ordered::Key>::before_irreflexive(x.0);
        }
        if b < a {
            assert(ordered::text_before(groups[b].0, groups[a].0));
            <String as ordered::Key>::before_irreflexive(x.0);
        }
        if k < l {
            assert(order[k] != order[l]);
        }
        if l < k {
            assert(order[l] != order[k]);
        }
    }
}

proof fn signatures_are_listed(sigs: Seq<Seq<char>>)
    ensures
        probe::by_signature(sigs).dom().finite(),
{
    assert(probe::by_signature(sigs).dom() =~= sigs.to_set());
}

proof fn members_in_order(sigs: Seq<Seq<char>>, sig: Seq<char>)
    requires
        sigs.len() <= usize::MAX,
    ensures
        probe::members(sigs, sig).len() <= sigs.len(),
        forall|i: int, j: int|
            0 <= i < j < probe::members(sigs, sig).len() ==> #[trigger] probe::members(sigs, sig)[i]
                < #[trigger] probe::members(sigs, sig)[j],
        forall|i: int|
            0 <= i < probe::members(sigs, sig).len() ==> #[trigger] probe::members(sigs, sig)[i] < sigs.len()
                && sigs[probe::members(sigs, sig)[i] as int] == sig,
        forall|p: int| 0 <= p < sigs.len() && #[trigger] sigs[p] == sig ==> probe::members(sigs, sig).contains(p as usize),
    decreases sigs.len(),
{
    if sigs.len() > 0 {
        let n = sigs.len() - 1;
        let less = sigs.drop_last();
        members_in_order(less, sig);
        let before = probe::members(less, sig);
        let now = probe::members(sigs, sig);
        assert forall|i: int| 0 <= i < now.len() implies #[trigger] now[i] < sigs.len() && sigs[now[i] as int] == sig by {
            if i < before.len() {
                assert(now[i] == before[i]);
                assert(less[before[i] as int] == sigs[before[i] as int]);
            }
        }
        assert forall|p: int| 0 <= p < sigs.len() && #[trigger] sigs[p] == sig implies now.contains(p as usize) by {
            if p < n {
                assert(less[p] == sigs[p]);
                let i = before.index_of(p as usize);
                assert(now[i] == before[i]);
            } else {
                assert(now[before.len() as int] == p);
            }
        }
    }
}

/// A value from the year 2000 to the start of 2100 in seconds is taken for seconds as it is; a value beyond
/// a million million whose thousandth part is in that range is taken for milliseconds; no other is taken
/// for a time.
pub proof fn plausible_times(v: int)
    ensures
        946684800 <= v <= 4102444800 ==> probe::plausible_secs(v) == Some(("Unix秒"@, v)),
        forall|s: int|
            v > 1000000000000 && 946684800 <= s <= 4102444800 && #[trigger] (1000 * s) <= v < 1000 * s + 1000
                ==> probe::plausible_secs(v) == Some(("Unix毫秒"@, s)),
        probe::plausible_secs(v) matches Some((unit, s)) ==> 946684800 <= s <= 4102444800 && (s == v || (1000 * s <= v
            < 1000 * s + 1000 && v > 1000000000000)),
        v < 946684800 || v >= 4102444801000 ==> probe::plausible_secs(v) is None,
        4102444800 < v <= 1000000000000 ==> probe::plausible_secs(v) is None,
        946684800 == 86400 * (calendar::day_number(Date { year: 2000, month: 1, day: 1 }) - calendar::day_number(
            Date { year: 1970, month: 1, day: 1 },
        )),
        4102444800 == 86400 * (calendar::day_number(Date { year: 2100, month: 1, day: 1 }) - calendar::day_number(
            Date { year: 1970, month: 1, day: 1 },
        )),
{
    assert forall|s: int|
        v > 1000000000000 && 946684800 <= s <= 4102444800 && #[trigger] (1000 * s) <= v < 1000 * s
            + 1000 implies probe::plausible_secs(v) == Some(("Unix毫秒"@, s)) by {
        assert(v / 1000 == s);
    }
}

/// A column may hold times where its type holds `int` and its name `time`, `create`, `stamp` or `date`,
/// whatever the case of the letters.
pub proof fn time_columns_are_named_so(c: ColumnReport)
    ensures
        probe::may_hold_times(c) <==> text::has_text(schema::lower(c.sql_type@), "int"@) && (text::has_text(
            schema::lower(c.name@),
            "time"@,
        ) || text::has_text(schema::lower(c.name@), "create"@) || text::has_text(schema::lower(c.name@), "stamp"@)
            || text::has_text(schema::lower(c.name@), "date"@)),
{
}

/// Databases end in `db` or `sqlite`, whatever the case of the letters, and in nothing else.
pub proof fn databases_have_extensions(ext: Seq<char>)
    ensures
        probe::is_database_ext(ext) <==> schema::lower(ext) == "db"@ || schema::lower(ext) == "sqlite"@,
{
}

/// The offset from UTC is shown with its sign, in two digits for the hours and two for the minutes, to the
/// nearest minute. For offsets of less than a day.
pub proof fn offsets_are_shown(offset: int)
    requires
        -86400 < offset < 86400,
    ensures
        ({
            let t = probe::offset_text(offset);
            let h = text::digits_value(t.subrange(1, 3));
            let m = text::digits_value(t.subrange(4, 6));
            &&& t.len() == 6
            &&& t[0] == if offset < 0 {
                '-'
            } else {
                '+'
            }
            &&& t[3] == ':'
            &&& m < 60
            &&& -30 <= (3600 * h + 60 * m) - (if offset < 0 {
                -offset
            } else {
                offset
            }) <= 30
        }),
{
    reveal_strlit("-");
    reveal_strlit("+");
    reveal_strlit(":");
    let size = if offset < 0 {
        -offset
    } else {
        offset
    };
    let minutes = (size + 30) / 60;
    shown::padded_value(minutes / 60, 2);
    shown::padded_value(minutes % 60, 2);
    let t = probe::offset_text(offset);
    let (a, b) = (text::zero_padded(minutes / 60, 2), text::zero_padded(minutes % 60, 2));
    assert(t.subrange(1, 3) =~= a);
    assert(t.subrange(4, 6) =~= b);
}

/// Values are shown by what they are: nothing as NULL, whole numbers in decimal, bytes by their number.
pub proof fn values_are_shown(n: i64, size: usize, max_chars: int)
    ensures
        probe::value_text(CellValue::Null, max_chars) == "NULL"@,
        probe::value_text(CellValue::Integer(n), max_chars) == text::numeral(n as int),
        probe::value_text(CellValue::Blob(size), max_chars) == "<BLOB "@ + text::numeral(size as int) + " bytes>"@,
{
}

/// The values of a column are gone through in order: each that reads as a time is shown behind itself, and
/// the last of those gives the unit.
pub proof fn readings_come_in_order(raws: Seq<i64>, v: i64, found: Seq<Option<(&'static str, String)>>)
    requires
        raws.len() < found.len(),
    ensures
        probe::readings_shown(Seq::empty(), found) == Seq::<Seq<char>>::empty(),
        probe::last_unit(Seq::empty(), found) == "未知"@,
        found[raws.len() as int] is None ==> probe::readings_shown(raws.push(v), found) == probe::readings_shown(
            raws,
            found,
        ) && probe::last_unit(raws.push(v), found) == probe::last_unit(raws, found),
        found[raws.len() as int] matches Some((unit, t)) ==> probe::readings_shown(raws.push(v), found)
            == probe::readings_shown(raws, found).push(text::numeral(v as int) + " → "@ + t@) && probe::last_unit(
            raws.push(v),
            found,
        ) == unit@,
{
    assert(raws.push(v).drop_last() =~= raws);
}

/// Of the columns, those that may hold times are asked for their values, in order: at least five, or as
/// many as there are samples.
pub proof fn time_columns_are_asked(cols: Seq<ColumnReport>, c: ColumnReport, table: Seq<char>, limit: usize)
    ensures
        probe::time_queries(Seq::empty(), table, limit) == Seq::<(Seq<char>, Seq<char>)>::empty(),
        probe::time_queries(cols.push(c), table, limit) == if probe::may_hold_times(c) {
            probe::time_queries(cols, table, limit).push(
                (
                    c.name@,
                    "SELECT "@ + schema::quoted(c.name@) + " FROM "@ + schema::quoted(table) + " LIMIT "@ + text::numeral(
                        if limit < 5 {
                            5
                        } else {
                            limit as int
                        },
                    ),
                ),
            )
        } else {
            probe::time_queries(cols, table, limit)
        },
{
    assert(cols.push(c).drop_last() =~= cols);
}

}
