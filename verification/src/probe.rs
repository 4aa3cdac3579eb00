//! Finding out how the tables of a database are built, and which columns hold times.

use vstd::prelude::*;
use vstd::string::*;
use vstd::utf8::*;

use crate::calendar;
use crate::calendar::LocalTime;
use crate::fmt;
use crate::loader;
use crate::ordered;
use crate::ordered::SortedMap;
use crate::schema;
use crate::text;

verus! {

/// What is looked at.
#[derive(Debug)]
pub struct ProbeOptions {
    /// Leave out the number of rows.
    pub no_count: bool,
    /// Leave out the samples.
    pub no_samples: bool,
    /// Sample rows of each table.
    pub sample_limit: usize,
    /// Characters that are shown of a text.
    pub text_truncate: usize,
    /// Table names that are kept of each group.
    pub max_table_names: usize,
}

impl Default for ProbeOptions {
    fn default() -> (o: Self)
        ensures
            !o.no_count,
            !o.no_samples,
            o.sample_limit == 3,
            o.text_truncate == 200,
            o.max_table_names == 50,
    {
        ProbeOptions { no_count: false, no_samples: false, sample_limit: 3, text_truncate: 200, max_table_names: 50 }
    }
}

/// What was found in a database.
pub struct ProbeReport {
    pub path: String,
    pub table_count: usize,
    pub groups: Vec<TableGroup>,
}

/// Tables that are built alike.
pub struct TableGroup {
    /// How many tables there are.
    pub shared_by: usize,
    /// The names of the first of them.
    pub table_names: Vec<String>,
    pub columns: Vec<ColumnReport>,
    /// The rows of the first table.
    pub row_count: Option<i64>,
    /// Sample rows of the first table: columns with their values.
    pub samples: Vec<Vec<(String, String)>>,
    pub time_columns: Vec<TimeColumnGuess>,
}

/// A column.
#[derive(Clone)]
pub struct ColumnReport {
    pub name: String,
    pub sql_type: String,
    pub not_null: bool,
    pub pk: bool,
}

/// What the values of a column may mean as times.
pub struct TimeColumnGuess {
    pub column: String,
    pub unit: &'static str,
    pub sample_values: Vec<i64>,
    pub interpreted: Vec<String>,
}

/// A table and its columns.
pub struct TableInfo {
    pub name: String,
    pub columns: Vec<ColumnReport>,
}

/// The name ends a file of a database.
pub open spec fn is_database_ext(ext: Seq<char>) -> bool {
    schema::lower(ext) == "db"@ || schema::lower(ext) == "sqlite"@
}

/// Whether a file with this extension is a database.
pub fn has_database_ext(ext: &str) -> (r: bool)
    ensures
        r == is_database_ext(ext@),
{
    let lower = schema::to_ascii_lowercase(ext);
    text::same(lower.as_str(), "db") || text::same(lower.as_str(), "sqlite")
}

/// A column in one text: name, type and constraints.
pub open spec fn column_entry(c: ColumnReport) -> Seq<char> {
    c.name@ + ":"@ + c.sql_type@ + (if c.pk {
        "P"@
    } else {
        "-"@
    }) + (if c.not_null {
        "N"@
    } else {
        "-"@
    })
}

/// The columns in one text each.
pub open spec fn column_entries(cols: Seq<ColumnReport>) -> Seq<Seq<char>> {
    cols.map_values(|c: ColumnReport| column_entry(c))
}

/// `a` does not come after `b` in lexicographic order.
pub open spec fn text_order() -> spec_fn(Seq<char>, Seq<char>) -> bool {
    |a: Seq<char>, b: Seq<char>| a == b || ordered::text_before(a, b)
}

/// The signature of a table: its columns in order of their texts, with commas between them.
pub open spec fn table_signature(cols: Seq<ColumnReport>) -> Seq<char> {
    text::joined(column_entries(cols).sort_by(text_order()), ","@)
}

proof fn text_order_is_total()
    ensures
        vstd::relations::total_ordering(text_order()),
{
    let leq = text_order();
    assert forall|a: Seq<char>, b: Seq<char>| #[trigger] leq(a, b) && #[trigger] leq(b, a) implies a == b by {
        if a != b {
            <String as ordered::Key>::before_transitive(a, b, a);
            <String as ordered::Key>::before_irreflexive(a);
        }
    }
    assert forall|a: Seq<char>, b: Seq<char>, c: Seq<char>| #[trigger] leq(a, b) && #[trigger] leq(b, c) implies leq(
        a,
        c,
    ) by {
        if a != b && b != c {
            <String as ordered::Key>::before_transitive(a, b, c);
        }
    }
    assert forall|a: Seq<char>, b: Seq<char>| #[trigger] leq(a, b) || #[trigger] leq(b, a) by {
        <String as ordered::Key>::before_total(a, b);
    }
}

/// Tables with the same columns have the same signature, whatever the order of the columns.
pub proof fn signature_ignores_column_order(a: Seq<ColumnReport>, b: Seq<ColumnReport>)
    requires
        column_entries(a).to_multiset() == column_entries(b).to_multiset(),
    ensures
        table_signature(a) == table_signature(b),
{
    text_order_is_total();
    let x = column_entries(a);
    let y = column_entries(b);
    x.lemma_sort_by_ensures(text_order());
    y.lemma_sort_by_ensures(text_order());
    vstd::seq_lib::lemma_sorted_unique(x.sort_by(text_order()), y.sort_by(text_order()), text_order());
}

/// What a column is: name, type, whether it is a key and whether it must be given.
pub open spec fn column_facts(c: ColumnReport) -> (Seq<char>, Seq<char>, bool, bool) {
    (c.name@, c.sql_type@, c.pk, c.not_null)
}

/// What the columns are.
pub open spec fn facts_of(cols: Seq<ColumnReport>) -> Seq<(Seq<char>, Seq<char>, bool, bool)> {
    cols.map_values(|c: ColumnReport| column_facts(c))
}

/// Nothing in the name or the type can be taken for what separates them from others: the name holds
/// neither comma nor colon, the type no comma.
pub open spec fn is_plain(facts: (Seq<char>, Seq<char>, bool, bool)) -> bool {
    !facts.0.contains(',') && !facts.0.contains(':') && !facts.1.contains(',')
}

/// What a column is, in one text.
spec fn facts_entry(facts: (Seq<char>, Seq<char>, bool, bool)) -> Seq<char> {
    facts.0 + ":"@ + facts.1 + (if facts.2 {
        "P"@
    } else {
        "-"@
    }) + (if facts.3 {
        "N"@
    } else {
        "-"@
    })
}

/// The plain column that a text stands for.
spec fn entry_facts(entry: Seq<char>) -> (Seq<char>, Seq<char>, bool, bool) {
    choose|facts: (Seq<char>, Seq<char>, bool, bool)| is_plain(facts) && #[trigger] facts_entry(facts) == entry
}

proof fn entry_tells_the_column(
    a: (Seq<char>, Seq<char>, bool, bool),
    b: (Seq<char>, Seq<char>, bool, bool),
)
    requires
        is_plain(a),
        is_plain(b),
        facts_entry(a) == facts_entry(b),
    ensures
        a == b,
{
    reveal_strlit(":");
    reveal_strlit("P");
    reveal_strlit("N");
    reveal_strlit("-");
    let x = facts_entry(a);
    let y = facts_entry(b);
    assert(x[a.0.len() as int] == ':');
    assert(y[b.0.len() as int] == ':');
    if a.0.len() < b.0.len() {
        assert(y[a.0.len() as int] == b.0[a.0.len() as int]);
        assert(b.0.contains(':'));
    }
    if b.0.len() < a.0.len() {
        assert(x[b.0.len() as int] == a.0[b.0.len() as int]);
        assert(a.0.contains(':'));
    }
    assert(a.0 =~= x.take(a.0.len() as int));
    assert(b.0 =~= y.take(b.0.len() as int));
    assert(a.1 =~= x.subrange(a.0.len() as int + 1, x.len() - 2));
    assert(b.1 =~= y.subrange(b.0.len() as int + 1, y.len() - 2));
    assert(x[x.len() - 1] == y[y.len() - 1]);
    assert(x[x.len() - 2] == y[y.len() - 2]);
}

proof fn plain_entry_has_no_comma(facts: (Seq<char>, Seq<char>, bool, bool))
    requires
        is_plain(facts),
    ensures
        !facts_entry(facts).contains(','),
        facts_entry(facts).len() > 0,
{
    reveal_strlit(":");
    reveal_strlit("P");
    reveal_strlit("N");
    reveal_strlit("-");
    let x = facts_entry(facts);
    if x.contains(',') {
        let i = x.index_of(',');
        if i < facts.0.len() {
            assert(facts.0[i] == ',');
        } else if facts.0.len() < i < facts.0.len() + 1 + facts.1.len() {
            assert(facts.1[i - facts.0.len() - 1] == ',');
        }
    }
}

proof fn sorted_entries_have_no_comma(cols: Seq<ColumnReport>)
    requires
        forall|i: int| 0 <= i < cols.len() ==> is_plain(#[trigger] column_facts(cols[i])),
    ensures
        ({
            let sorted = column_entries(cols).sort_by(text_order());
            &&& sorted.to_multiset() == column_entries(cols).to_multiset()
            &&& sorted.len() == cols.len()
            &&& forall|i: int| 0 <= i < sorted.len() ==> !(#[trigger] sorted[i]).contains(',') && sorted[i].len() > 0
        }),
{
    broadcast use vstd::seq_lib::group_to_multiset_ensures;

    text_order_is_total();
    let x = column_entries(cols);
    let sorted = x.sort_by(text_order());
    x.lemma_sort_by_ensures(text_order());
    assert(sorted.to_multiset().len() == x.to_multiset().len());
    assert forall|i: int| 0 <= i < sorted.len() implies !(#[trigger] sorted[i]).contains(',') && sorted[i].len() > 0 by {
        assert(sorted.contains(sorted[i]));
        assert(x.to_multiset().contains(sorted[i]));
        assert(x.contains(sorted[i]));
        let k = x.index_of(sorted[i]);
        assert(is_plain(column_facts(cols[k])));
        plain_entry_has_no_comma(column_facts(cols[k]));
        assert(sorted[i] == facts_entry(column_facts(cols[k])));
    }
}

proof fn entries_give_the_facts(cols: Seq<ColumnReport>)
    requires
        forall|i: int| 0 <= i < cols.len() ==> is_plain(#[trigger] column_facts(cols[i])),
    ensures
        facts_of(cols) == column_entries(cols).map_values(|e: Seq<char>| entry_facts(e)),
        column_entries(cols) == facts_of(cols).map_values(|f: (Seq<char>, Seq<char>, bool, bool)| facts_entry(f)),
{
    let x = column_entries(cols);
    let decoded = x.map_values(|e: Seq<char>| entry_facts(e));
    assert forall|i: int| 0 <= i < cols.len() implies #[trigger] decoded[i] == facts_of(cols)[i] by {
        let f = column_facts(cols[i]);
        assert(is_plain(f));
        assert(facts_entry(f) == x[i]);
        entry_tells_the_column(entry_facts(x[i]), f);
    }
    assert(decoded =~= facts_of(cols));
    assert(x =~= facts_of(cols).map_values(|f: (Seq<char>, Seq<char>, bool, bool)| facts_entry(f)));
}

/// Tables have the same signature exactly when they have the same columns, whatever their order.
/// Left out are names with a comma or a colon and types with a comma: they can pass for several
/// columns.
pub proof fn signature_tells_tables_apart(a: Seq<ColumnReport>, b: Seq<ColumnReport>)
    requires
        forall|i: int| 0 <= i < a.len() ==> is_plain(#[trigger] column_facts(a[i])),
        forall|i: int| 0 <= i < b.len() ==> is_plain(#[trigger] column_facts(b[i])),
    ensures
        table_signature(a) == table_signature(b) <==> facts_of(a).to_multiset() == facts_of(b).to_multiset(),
{
    reveal_strlit(",");
    assert(","@ =~= seq![',']);
    entries_give_the_facts(a);
    entries_give_the_facts(b);
    if table_signature(a) == table_signature(b) {
        let x = column_entries(a).sort_by(text_order());
        let y = column_entries(b).sort_by(text_order());
        sorted_entries_have_no_comma(a);
        sorted_entries_have_no_comma(b);
        if x.len() > 0 {
            text::fields_of_joined(x, ',');
        }
        if y.len() > 0 {
            text::fields_of_joined(y, ',');
        }
        if x.len() == 0 && y.len() > 0 {
            text::fields_single(',', Seq::empty());
            assert(y[0].len() == 0);
        }
        if y.len() == 0 && x.len() > 0 {
            text::fields_single(',', Seq::empty());
            assert(x[0].len() == 0);
        }
        assert(x =~= y);
        ordered::map_keeps_multiset(column_entries(a), column_entries(b), |e: Seq<char>| entry_facts(e));
    }
    if facts_of(a).to_multiset() == facts_of(b).to_multiset() {
        ordered::map_keeps_multiset(
            facts_of(a),
            facts_of(b),
            |f: (Seq<char>, Seq<char>, bool, bool)| facts_entry(f),
        );
        signature_ignores_column_order(a, b);
    }
}

/// The columns in one text each.
fn entries_of(cols: &Vec<ColumnReport>) -> (r: Vec<String>)
    ensures
        text::texts(r@) == column_entries(cols@),
{
    let mut r: Vec<String> = Vec::new();
    let mut i: usize = 0;
    assert(text::texts(r@) =~= column_entries(cols@.take(0)));
    while i < cols.len()
        invariant
            i <= cols@.len(),
            text::texts(r@) == column_entries(cols@.take(i as int)),
        decreases cols@.len() - i,
    {
        let c = &cols[i];
        let mut e = c.name.clone();
        e.append(":");
        e.append(c.sql_type.as_str());
        e.append(
            if c.pk {
                "P"
            } else {
                "-"
            },
        );
        e.append(
            if c.not_null {
                "N"
            } else {
                "-"
            },
        );
        let ghost shown = e@;
        text::put(&mut r, e);
        assert(column_entries(cols@.take(i + 1)) =~= column_entries(cols@.take(i as int)).push(shown));
        i = i + 1;
    }
    assert(cols@.take(i as int) =~= cols@);
    r
}

/// The signature of a table.
pub fn signature(cols: &Vec<ColumnReport>) -> (r: String)
    ensures
        r@ == table_signature(cols@),
{
    let entries = entries_of(cols);
    let ghost all = entries@;
    let sorted = ordered::rising(entries);
    proof {
        text_order_is_total();
        let x = column_entries(cols@);
        x.lemma_sort_by_ensures(text_order());
        ordered::map_keeps_multiset(sorted@, all, |t: String| t@);
        assert(text::texts(sorted@) =~= sorted@.map_values(|t: String| t@));
        assert(text::texts(all) =~= all.map_values(|t: String| t@));
        let y = text::texts(sorted@);
        assert forall|i: int, j: int| 0 <= i < j < y.len() implies #[trigger] text_order()(y[i], y[j]) by {
            assert(y[i] == sorted@[i]@);
            assert(y[j] == sorted@[j]@);
        }
        vstd::seq_lib::lemma_sorted_unique(y, x.sort_by(text_order()), text_order());
    }
    text::join(&sorted, ",")
}

/// The signatures of the tables.
pub open spec fn signatures(tables: Seq<TableInfo>) -> Seq<Seq<char>> {
    tables.map_values(|t: TableInfo| table_signature(t.columns@))
}

/// The positions of a signature.
pub open spec fn members(sigs: Seq<Seq<char>>, sig: Seq<char>) -> Seq<usize>
    decreases sigs.len(),
{
    if sigs.len() == 0 {
        Seq::empty()
    } else {
        let before = members(sigs.drop_last(), sig);
        if sigs.last() == sig {
            before.push((sigs.len() - 1) as usize)
        } else {
            before
        }
    }
}

/// The signatures with their positions.
pub open spec fn by_signature(sigs: Seq<Seq<char>>) -> Map<Seq<char>, Seq<usize>> {
    Map::new(|sig: Seq<char>| sigs.contains(sig), |sig: Seq<char>| members(sigs, sig))
}

/// The groups of positions in order of their signatures.
pub open spec fn signature_groups(sigs: Seq<Seq<char>>) -> Seq<(Seq<char>, Seq<usize>)> {
    ordered::listing::<String, Seq<usize>>(by_signature(sigs))
}

/// The sizes of the groups.
pub open spec fn group_sizes(groups: Seq<(Seq<char>, Seq<usize>)>) -> Seq<i64> {
    groups.map_values(|g: (Seq<char>, Seq<usize>)| g.1.len() as i64)
}

/// `out` holds the groups of tables that are built alike, the largest first, groups of the same size
/// in order of their signatures.
pub open spec fn are_groups(out: Seq<Vec<usize>>, tables: Seq<TableInfo>) -> bool {
    let groups = signature_groups(signatures(tables));
    exists|order: Seq<usize>| #[trigger]
        ordered::falling_order(order, group_sizes(groups)) && out.len() == order.len() && forall|k: int|
            0 <= k < out.len() ==> (#[trigger] out[k])@ == groups[order[k] as int].1
}

/// What the groups hold while the tables are read: the number of each signature's group, and the
/// positions in each group.
spec fn groups_so_far(index: SortedMap<String, usize>, groups: Seq<Vec<usize>>, sigs: Seq<Seq<char>>) -> bool {
    &&& index.wf()
    &&& forall|g: Seq<char>| #[trigger] index.map().contains_key(g) <==> sigs.contains(g)
    &&& forall|g: Seq<char>| #[trigger]
        index.map().contains_key(g) ==> index.map()[g] < groups.len() && groups[index.map()[g] as int]@ == members(
            sigs,
            g,
        )
    &&& forall|g: Seq<char>, h: Seq<char>|
        #![trigger index.map().contains_key(g), index.map().contains_key(h)]
        index.map().contains_key(g) && index.map().contains_key(h) && g != h ==> index.map()[g] != index.map()[h]
}

proof fn absent_signature(sigs: Seq<Seq<char>>, sig: Seq<char>)
    requires
        !sigs.contains(sig),
    ensures
        members(sigs, sig).len() == 0,
    decreases sigs.len(),
{
    if sigs.len() > 0 {
        let less = sigs.drop_last();
        assert(sigs[sigs.len() - 1] == sigs.last());
        assert(!less.contains(sig)) by {
            if less.contains(sig) {
                assert(sigs[less.index_of(sig)] == sig);
            }
        }
        absent_signature(less, sig);
    }
}

proof fn members_at_most(sigs: Seq<Seq<char>>, sig: Seq<char>)
    ensures
        members(sigs, sig).len() <= sigs.len(),
    decreases sigs.len(),
{
    if sigs.len() > 0 {
        members_at_most(sigs.drop_last(), sig);
    }
}

/// Collects the positions of every signature.
fn collect_groups(tables: &Vec<TableInfo>) -> (r: (SortedMap<String, usize>, Vec<Vec<usize>>))
    ensures
        groups_so_far(r.0, r.1@, signatures(tables@)),
{
    let mut index: SortedMap<String, usize> = SortedMap::new();
    let mut groups: Vec<Vec<usize>> = Vec::new();
    let mut i: usize = 0;
    while i < tables.len()
        invariant
            i <= tables@.len(),
            groups_so_far(index, groups@, signatures(tables@.take(i as int))),
        decreases tables@.len() - i,
    {
        let ghost done = signatures(tables@.take(i as int));
        let ghost now = signatures(tables@.take(i + 1));
        let ghost start_index = index;
        let ghost start_groups = groups@;
        let sig = signature(&tables[i].columns);
        let ghost g = sig@;
        proof {
            assert(now =~= done.push(g));
            assert(now.drop_last() =~= done);
            assert forall|x: Seq<char>| #[trigger] now.contains(x) <==> done.contains(x) || x == g by {
                if done.contains(x) {
                    assert(now[done.index_of(x)] == x);
                }
                assert(now[i as int] == g);
                if now.contains(x) {
                    let k = now.index_of(x);
                    if k < i {
                        assert(done[k] == x);
                    }
                }
            }
        }
        let found: Option<usize> = match index.get(&sig) {
            Some(p) => Some(*p),
            None => None,
        };
        match found {
            Some(p) => {
                groups[p].push(i);
                proof {
                    assert(start_index.map().contains_key(g));
                    assert forall|x: Seq<char>| #[trigger] index.map().contains_key(x) implies index.map()[x]
                        < groups@.len() && groups@[index.map()[x] as int]@ == members(now, x) by {
                        if x != g {
                            assert(start_index.map().contains_key(x));
                            assert(index.map()[x] != p);
                        }
                    }
                }
            },
            None => {
                proof {
                    absent_signature(done, g);
                }
                let at = groups.len();
                let mut one: Vec<usize> = Vec::new();
                one.push(i);
                let ghost single = one@;
                groups.push(one);
                index.set(sig, at);
                proof {
                    assert(members(now, g) =~= single);
                    assert forall|x: Seq<char>| #[trigger] index.map().contains_key(x) implies index.map()[x]
                        < groups@.len() && groups@[index.map()[x] as int]@ == members(now, x) by {
                        if x != g {
                            assert(start_index.map().contains_key(x));
                            assert(groups@[index.map()[x] as int] == start_groups[index.map()[x] as int]);
                        }
                    }
                    assert forall|x: Seq<char>, y: Seq<char>|
                        #![trigger index.map().contains_key(x), index.map().contains_key(y)]
                        index.map().contains_key(x) && index.map().contains_key(y) && x != y implies index.map()[x]
                        != index.map()[y] by {
                        if x != g {
                            assert(start_index.map().contains_key(x));
                        }
                        if y != g {
                            assert(start_index.map().contains_key(y));
                        }
                    }
                }
            },
        }
        i = i + 1;
    }
    assert(tables@.take(i as int) =~= tables@);
    (index, groups)
}

/// Copies positions.
fn copy_positions(v: &Vec<usize>) -> (r: Vec<usize>)
    ensures
        r@ == v@,
{
    let mut r: Vec<usize> = Vec::new();
    let mut i: usize = 0;
    while i < v.len()
        invariant
            i <= v@.len(),
            r@ == v@.take(i as int),
        decreases v@.len() - i,
    {
        r.push(v[i]);
        i = i + 1;
    }
    assert(v@.take(i as int) =~= v@);
    r
}

/// Groups the tables that are built alike, by position: the largest group first.
pub fn group_tables(tables: &Vec<TableInfo>) -> (out: Vec<Vec<usize>>)
    requires
        tables@.len() <= i64::MAX,
    ensures
        are_groups(out@, tables@),
{
    let ghost sigs = signatures(tables@);
    let (index, groups) = collect_groups(tables);
    let entries = index.pairs();
    let ghost list = Seq::new(
        entries@.len(),
        |k: int| (entries@[k].0@, groups@[entries@[k].1 as int]@),
    );
    proof {
        let rows = ordered::keyed(entries@);
        assert forall|k: int| 0 <= k < rows.len() implies #[trigger] rows[k] == (entries@[k].0@, entries@[k].1) by {}
        assert forall|k: int| 0 <= k < list.len() implies by_signature(sigs).contains_pair(
            #[trigger] list[k].0,
            list[k].1,
        ) by {
            assert(index.map().contains_pair(rows[k].0, rows[k].1));
        }
        assert forall|x: Seq<char>| #[trigger] by_signature(sigs).contains_key(x) implies exists|k: int|
            0 <= k < list.len() && list[k].0 == x by {
            assert(index.map().contains_key(x));
            let k = choose|k: int| 0 <= k < rows.len() && rows[k].0 == x;
            assert(list[k].0 == x);
        }
        assert forall|a: int, b: int| 0 <= a < b < list.len() implies <String as ordered::Key>::before(
            #[trigger] list[a].0,
            #[trigger] list[b].0,
        ) by {
            assert(<String as ordered::Key>::before(rows[a].0, rows[b].0));
        }
        assert(ordered::lists::<String, Seq<usize>>(list, by_signature(sigs)));
        ordered::listing_is_unique::<String, Seq<usize>>(list, by_signature(sigs));
    }
    let mut sizes: Vec<i64> = Vec::new();
    let mut i: usize = 0;
    while i < entries.len()
        invariant
            i <= entries@.len(),
            tables@.len() <= i64::MAX,
            sigs == signatures(tables@),
            groups_so_far(index, groups@, sigs),
            ordered::lists::<String, usize>(ordered::keyed(entries@), index.map()),
            list == Seq::new(entries@.len(), |k: int| (entries@[k].0@, groups@[entries@[k].1 as int]@)),
            sizes@ == group_sizes(list).take(i as int),
        decreases entries@.len() - i,
    {
        proof {
            let rows = ordered::keyed(entries@);
            assert(rows[i as int] == (entries@[i as int].0@, entries@[i as int].1));
            assert(index.map().contains_pair(rows[i as int].0, rows[i as int].1));
            members_at_most(sigs, rows[i as int].0);
        }
        let size = groups[entries[i].1].len();
        sizes.push(size as i64);
        assert(group_sizes(list)[i as int] == size as i64);
        i = i + 1;
    }
    assert(group_sizes(list).take(i as int) =~= group_sizes(list));
    let order = ordered::falling(&sizes);
    let mut out: Vec<Vec<usize>> = Vec::new();
    let mut k: usize = 0;
    while k < order.len()
        invariant
            k <= order@.len(),
            sigs == signatures(tables@),
            groups_so_far(index, groups@, sigs),
            ordered::lists::<String, usize>(ordered::keyed(entries@), index.map()),
            list == Seq::new(entries@.len(), |k: int| (entries@[k].0@, groups@[entries@[k].1 as int]@)),
            sizes@ == group_sizes(list),
            ordered::falling_order(order@, sizes@),
            out@.len() == k,
            forall|j: int| 0 <= j < k ==> (#[trigger] out@[j])@ == list[order@[j] as int].1,
        decreases order@.len() - k,
    {
        let p: usize = order[k];
        proof {
            assert(0 <= order@[k as int] < sizes@.len());
            let rows = ordered::keyed(entries@);
            assert(rows[p as int] == (entries@[p as int].0@, entries@[p as int].1));
            assert(index.map().contains_pair(rows[p as int].0, rows[p as int].1));
        }
        out.push(copy_positions(&groups[entries[p].1]));
        k = k + 1;
    }
    proof {
        assert(list == signature_groups(sigs));
        assert(ordered::falling_order(order@, group_sizes(signature_groups(signatures(tables@)))));
        assert(out@.len() == order@.len());
    }
    out
}

/// The name hints at a time.
pub open spec fn hints_at_time(name: Seq<char>) -> bool {
    let n = schema::lower(name);
    text::has_text(n, "time"@) || text::has_text(n, "create"@) || text::has_text(n, "stamp"@) || text::has_text(
        n,
        "date"@,
    )
}

/// Whether the name of a column hints at a time.
pub fn is_time_candidate(name: &str) -> (r: bool)
    ensures
        r == hints_at_time(name@),
{
    let n = schema::to_ascii_lowercase(name);
    text::contains(n.as_str(), "time") || text::contains(n.as_str(), "create") || text::contains(n.as_str(), "stamp")
        || text::contains(n.as_str(), "date")
}

/// The column may hold times: its name hints at them and its type is an integer type.
pub open spec fn may_hold_times(c: ColumnReport) -> bool {
    hints_at_time(c.name@) && text::has_text(schema::lower(c.sql_type@), "int"@)
}

/// Whether a column may hold times.
pub fn is_time_column(c: &ColumnReport) -> (r: bool)
    ensures
        r == may_hold_times(*c),
{
    is_time_candidate(c.name.as_str()) && text::contains(
        schema::to_ascii_lowercase(c.sql_type.as_str()).as_str(),
        "int",
    )
}

/// 2000-01-01, the first second that is taken for a time.
pub const MIN_SEC: i64 = 946684800;

/// 2100-01-01, the last second that is taken for a time.
pub const MAX_SEC: i64 = 4102444800;

/// The Unix seconds that a value stands for and their unit: seconds or milliseconds of a plausible
/// time.
pub open spec fn plausible_secs(v: int) -> Option<(Seq<char>, int)> {
    if MIN_SEC <= v <= MAX_SEC {
        Some(("Unix秒"@, v))
    } else if v > 1000000000000 && MIN_SEC <= v / 1000 <= MAX_SEC {
        Some(("Unix毫秒"@, v / 1000))
    } else {
        None
    }
}

/// The offset from UTC in hours and minutes, rounded to the nearest minute.
pub open spec fn offset_text(offset: int) -> Seq<char> {
    let size = if offset < 0 {
        -offset
    } else {
        offset
    };
    let minutes = (size + 30) / 60;
    (if offset < 0 {
        "-"@
    } else {
        "+"@
    }) + text::zero_padded(minutes / 60, 2) + ":"@ + text::zero_padded(minutes % 60, 2)
}

/// A time as UTC shows it and as the local clock does.
pub open spec fn both_times(utc: LocalTime, local: LocalTime) -> Seq<char> {
    calendar::date_text(utc.date) + " "@ + calendar::clock_text(utc) + " | 本地 "@ + calendar::date_text(local.date)
        + " "@ + calendar::clock_text(local) + " "@ + offset_text(local.offset as int)
}

/// Writes out the offset from UTC.
fn offset_text_of(offset: i32) -> (r: String)
    ensures
        r@ == offset_text(offset as int),
{
    let size: i64 = if offset < 0 {
        -(offset as i64)
    } else {
        offset as i64
    };
    let minutes: i64 = (size + 30) / 60;
    let mut r = if offset < 0 {
        "-".to_string()
    } else {
        "+".to_string()
    };
    r.append(text::zero_padded_of(minutes / 60, 2).as_str());
    r.append(":");
    r.append(text::zero_padded_of(minutes % 60, 2).as_str());
    r
}

/// A time as UTC shows it and as the local clock does.
pub fn both_times_of(utc: &LocalTime, local: &LocalTime) -> (r: String)
    ensures
        r@ == both_times(*utc, *local),
{
    let mut r = calendar::date_text_of(&utc.date);
    r.append(" ");
    r.append(calendar::clock_text_of(utc).as_str());
    r.append(" | 本地 ");
    r.append(calendar::date_text_of(&local.date).as_str());
    r.append(" ");
    r.append(calendar::clock_text_of(local).as_str());
    r.append(" ");
    r.append(offset_text_of(local.offset).as_str());
    r
}

/// The unit and the Unix seconds of a value, where it stands for a plausible time.
pub fn plausible(v: i64) -> (r: Option<(&'static str, i64)>)
    ensures
        match r {
            Some((unit, secs)) => plausible_secs(v as int) == Some((unit@, secs as int)),
            None => plausible_secs(v as int) is None,
        },
{
    if MIN_SEC <= v && v <= MAX_SEC {
        return Some(("Unix秒", v));
    }
    if v > 1000000000000 {
        let secs: i64 = v / 1000;
        if MIN_SEC <= secs && secs <= MAX_SEC {
            return Some(("Unix毫秒", secs));
        }
    }
    None
}

proof fn plausible_is_readable(secs: int)
    requires
        MIN_SEC <= secs <= MAX_SEC,
    ensures
        calendar::is_readable(secs),
{
    reveal_with_fuel(calendar::days_before_month, 13);
}

/// `t` shows the instant as UTC and the local clock do.
pub open spec fn shows_both(secs: int, t: Seq<char>) -> bool {
    exists|utc: LocalTime, local: LocalTime|
        #![trigger calendar::utc_reads(secs, Some(utc)), calendar::clock_gives(secs, Some(local))]
        calendar::utc_reads(secs, Some(utc)) && calendar::clock_gives(secs, Some(local)) && t == both_times(utc, local)
}

/// `r` reads a value as a time: as UTC and the local clock show it.
pub open spec fn reads_as(v: int, r: Option<(&'static str, String)>) -> bool {
    match plausible_secs(v) {
        Some((unit, secs)) => match r {
            Some((u, shown)) => u@ == unit && shows_both(secs, shown@),
            None => false,
        },
        None => r is None,
    }
}

/// Shows an instant as UTC and the local clock do.
fn show_both(secs: i64) -> (r: Option<String>)
    ensures
        calendar::is_readable(secs as int) ==> r is Some && shows_both(secs as int, r->0@),
{
    let utc = calendar::utc_dt(secs);
    let local = calendar::local_dt(secs);
    match (utc, local) {
        (Some(u), Some(l)) => Some(both_times_of(&u, &l)),
        _ => None,
    }
}

/// Reads a value as a plausible time.
pub fn interpret_ts(v: i64) -> (r: Option<(&'static str, String)>)
    ensures
        reads_as(v as int, r),
{
    match plausible(v) {
        Some((unit, secs)) => {
            proof {
                plausible_is_readable(secs as int);
            }
            match show_both(secs) {
                Some(shown) => Some((unit, shown)),
                None => None,
            }
        },
        None => None,
    }
}

/// The readings that were found, each behind its value.
pub open spec fn readings_shown(raws: Seq<i64>, found: Seq<Option<(&'static str, String)>>) -> Seq<Seq<char>>
    decreases raws.len(),
{
    if raws.len() == 0 {
        Seq::empty()
    } else {
        let before = readings_shown(raws.drop_last(), found);
        match found[raws.len() - 1] {
            Some((_, shown)) => before.push(text::numeral(raws.last() as int) + " → "@ + shown@),
            None => before,
        }
    }
}

/// The unit of the last reading that was found.
pub open spec fn last_unit(raws: Seq<i64>, found: Seq<Option<(&'static str, String)>>) -> Seq<char>
    decreases raws.len(),
{
    if raws.len() == 0 {
        "未知"@
    } else {
        match found[raws.len() - 1] {
            Some((unit, _)) => unit@,
            None => last_unit(raws.drop_last(), found),
        }
    }
}

/// `g` says what the values of a column may mean, given the reading of each; without values nothing
/// is said.
pub open spec fn is_guess(
    g: Option<TimeColumnGuess>,
    column: Seq<char>,
    raws: Seq<i64>,
    found: Seq<Option<(&'static str, String)>>,
) -> bool {
    if raws.len() == 0 {
        g is None
    } else {
        let shown = readings_shown(raws, found);
        match g {
            Some(g) => {
                &&& g.column@ == column
                &&& g.unit@ == last_unit(raws, found)
                &&& g.sample_values@ == raws
                &&& text::texts(g.interpreted@) == if shown.len() == 0 {
                    seq![text::numeral(raws[0] as int) + " 无法解释为合理时间戳（是否带 2000 年偏移？）"@]
                } else {
                    shown
                }
            },
            None => false,
        }
    }
}

/// What the values of a column may mean, given the reading of each.
pub fn guess_from(column: &str, raws: Vec<i64>, found: &Vec<Option<(&'static str, String)>>) -> (g: Option<
    TimeColumnGuess,
>)
    requires
        found@.len() == raws@.len(),
    ensures
        is_guess(g, column@, raws@, found@),
{
    if raws.len() == 0 {
        return None;
    }
    let mut unit: &'static str = "未知";
    let mut interpreted: Vec<String> = Vec::new();
    let mut i: usize = 0;
    assert(text::texts(interpreted@) =~= readings_shown(raws@.take(0), found@));
    while i < raws.len()
        invariant
            i <= raws@.len(),
            found@.len() == raws@.len(),
            unit@ == last_unit(raws@.take(i as int), found@),
            text::texts(interpreted@) == readings_shown(raws@.take(i as int), found@),
        decreases raws@.len() - i,
    {
        assert(raws@.take(i + 1).drop_last() =~= raws@.take(i as int));
        if let Some((u, shown)) = &found[i] {
            unit = u;
            let mut line = text::numeral_of(raws[i]);
            line.append(" → ");
            line.append(shown.as_str());
            text::put(&mut interpreted, line);
        }
        i = i + 1;
    }
    assert(raws@.take(i as int) =~= raws@);
    assert(text::texts(interpreted@).len() == interpreted@.len());
    if interpreted.len() == 0 {
        let mut line = text::numeral_of(raws[0]);
        line.append(" 无法解释为合理时间戳（是否带 2000 年偏移？）");
        text::put(&mut interpreted, line);
        assert(text::texts(interpreted@) =~= seq![
            text::numeral(raws@[0] as int) + " 无法解释为合理时间戳（是否带 2000 年偏移？）"@,
        ]);
    }
    Some(TimeColumnGuess { column: column.to_string(), unit, sample_values: raws, interpreted })
}

/// What the values of a column may mean.
pub fn guess_times(column: &str, raws: Vec<i64>) -> (g: Option<TimeColumnGuess>)
    ensures
        exists|found: Seq<Option<(&'static str, String)>>|
            found.len() == raws@.len() && (forall|i: int|
                0 <= i < raws@.len() ==> reads_as(raws@[i] as int, #[trigger] found[i])) && #[trigger] is_guess(
                g,
                column@,
                raws@,
                found,
            ),
{
    let mut found: Vec<Option<(&'static str, String)>> = Vec::new();
    let mut i: usize = 0;
    while i < raws.len()
        invariant
            i <= raws@.len(),
            found@.len() == i,
            forall|k: int| 0 <= k < i ==> reads_as(raws@[k] as int, #[trigger] found@[k]),
        decreases raws@.len() - i,
    {
        found.push(interpret_ts(raws[i]));
        i = i + 1;
    }
    guess_from(column, raws, &found)
}

/// A stored value; a real number comes with its text.
pub enum CellValue {
    Null,
    Integer(i64),
    Real(String),
    Text(Vec<u8>),
    /// Bytes, of which only the number is shown.
    Blob(usize),
}

/// The text that `String::from_utf8_lossy` makes of bytes.
pub uninterp spec fn lossy_text(bytes: Seq<u8>) -> Seq<char>;

/// Reads bytes as UTF-8, with replacement characters where they are not valid.
///
/// Trusted: `String::from_utf8_lossy`, whose result rests on the bytes alone; valid UTF-8 is read as
/// it is.
#[verifier::external_body]
fn lossy(bytes: &Vec<u8>) -> (t: String)
    ensures
        t@ == lossy_text(bytes@),
        valid_utf8(bytes@) ==> t@ == decode_utf8(bytes@),
{
    String::from_utf8_lossy(bytes).to_string()
}

/// A value as it is shown.
pub open spec fn value_text(v: CellValue, max_chars: int) -> Seq<char> {
    match v {
        CellValue::Null => "NULL"@,
        CellValue::Integer(n) => text::numeral(n as int),
        CellValue::Real(t) => t@,
        CellValue::Text(bytes) => fmt::shortened(lossy_text(bytes@), max_chars),
        CellValue::Blob(n) => "<BLOB "@ + text::digits(n as nat) + " bytes>"@,
    }
}

/// A value as it is shown; texts are shortened.
pub fn render_value(v: &CellValue, max_chars: usize) -> (r: String)
    ensures
        r@ == value_text(*v, max_chars as int),
        match v {
            CellValue::Text(bytes) => valid_utf8(bytes@) ==> r@ == fmt::shortened(decode_utf8(bytes@), max_chars as int),
            _ => true,
        },
{
    match v {
        CellValue::Null => "NULL".to_string(),
        CellValue::Integer(n) => text::numeral_of(*n),
        CellValue::Real(t) => t.clone(),
        CellValue::Text(bytes) => fmt::truncate(lossy(bytes).as_str(), max_chars),
        CellValue::Blob(n) => {
            let mut r = "<BLOB ".to_string();
            r.append(text::count_text(*n).as_str());
            r.append(" bytes>");
            r
        },
    }
}

/// The query for sample rows of a table.
pub open spec fn sample_sql(table: Seq<char>, limit: usize) -> Seq<char> {
    "SELECT * FROM "@ + schema::quoted(table) + " LIMIT "@ + text::digits(limit as nat)
}

/// The query for sample rows of a table.
pub fn sample_query(table: &str, limit: usize) -> (q: String)
    ensures
        q@ == sample_sql(table@, limit),
{
    let mut q = "SELECT * FROM ".to_string();
    q.append(schema::quote_ident(table).as_str());
    q.append(" LIMIT ");
    q.append(text::count_text(limit).as_str());
    q
}

/// How many values of a time column are looked at: at least five.
pub open spec fn time_samples(limit: usize) -> usize {
    if limit >= 5 {
        limit
    } else {
        5
    }
}

/// The query for the values of a time column.
pub open spec fn time_sql(column: Seq<char>, table: Seq<char>, limit: usize) -> Seq<char> {
    "SELECT "@ + schema::quoted(column) + " FROM "@ + schema::quoted(table) + " LIMIT "@ + text::digits(
        time_samples(limit) as nat,
    )
}

/// The query for the values of a time column.
pub fn time_query(column: &str, table: &str, limit: usize) -> (q: String)
    ensures
        q@ == time_sql(column@, table@, limit),
{
    let n: usize = if limit >= 5 {
        limit
    } else {
        5
    };
    let mut q = "SELECT ".to_string();
    q.append(schema::quote_ident(column).as_str());
    q.append(" FROM ");
    q.append(schema::quote_ident(table).as_str());
    q.append(" LIMIT ");
    q.append(text::count_text(n).as_str());
    q
}

/// What is asked of the first table of a group.
pub struct GroupQueries {
    /// The number of rows, unless it is left out.
    pub count: Option<String>,
    /// Sample rows, unless they are left out.
    pub samples: Option<String>,
    /// The columns that may hold times, with the query for their values.
    pub times: Vec<(String, String)>,
}

/// The columns that may hold times, with the query for their values.
pub open spec fn time_queries(cols: Seq<ColumnReport>, table: Seq<char>, limit: usize) -> Seq<(Seq<char>, Seq<char>)>
    decreases cols.len(),
{
    if cols.len() == 0 {
        Seq::empty()
    } else {
        let before = time_queries(cols.drop_last(), table, limit);
        let c = cols.last();
        if may_hold_times(c) {
            before.push((c.name@, time_sql(c.name@, table, limit)))
        } else {
            before
        }
    }
}

/// Names and queries as text.
pub open spec fn query_views(pairs: Seq<(String, String)>) -> Seq<(Seq<char>, Seq<char>)> {
    pairs.map_values(|p: (String, String)| (p.0@, p.1@))
}

/// What to ask of the first table of a group: the number of rows and sample rows where they are wanted,
/// and the values of the columns that may hold times.
pub fn group_queries(table: &str, columns: &Vec<ColumnReport>, opts: &ProbeOptions) -> (q: GroupQueries)
    ensures
        q.count is Some <==> !opts.no_count,
        q.count matches Some(t) ==> t@ == "SELECT count(*) FROM "@ + schema::quoted(table@),
        q.samples is Some <==> !opts.no_samples,
        q.samples matches Some(t) ==> t@ == sample_sql(table@, opts.sample_limit),
        query_views(q.times@) == time_queries(columns@, table@, opts.sample_limit),
{
    let count = if opts.no_count {
        None
    } else {
        Some(loader::count_query(table))
    };
    let samples = if opts.no_samples {
        None
    } else {
        Some(sample_query(table, opts.sample_limit))
    };
    let mut times: Vec<(String, String)> = Vec::new();
    let mut i: usize = 0;
    assert(query_views(times@) =~= Seq::empty());
    while i < columns.len()
        invariant
            i <= columns@.len(),
            query_views(times@) == time_queries(columns@.take(i as int), table@, opts.sample_limit),
        decreases columns@.len() - i,
    {
        assert(columns@.take(i + 1).drop_last() =~= columns@.take(i as int));
        let c = &columns[i];
        if is_time_column(c) {
            let ghost before = times@;
            let query = time_query(c.name.as_str(), table, opts.sample_limit);
            let ghost pair = (c.name@, query@);
            times.push((c.name.clone(), query));
            assert(query_views(times@) =~= query_views(before).push(pair));
        }
        i = i + 1;
    }
    assert(columns@.take(i as int) =~= columns@);
    GroupQueries { count, samples, times }
}

/// The heading of a group.
pub open spec fn group_header(number: int, total: int, shared: int, first: Seq<char>) -> Seq<char> {
    "---- 结构 "@ + text::digits(number as nat) + "/"@ + text::digits(total as nat) + " ：被 "@
        + text::digits(shared as nat) + " 张表共享，代表表 ["@ + first + "] ----"@
}

/// The heading of a group.
fn group_header_of(number: usize, total: usize, shared: usize, first: &str) -> (r: String)
    ensures
        r@ == group_header(number as int, total as int, shared as int, first@),
{
    let mut r = "---- 结构 ".to_string();
    r.append(text::count_text(number).as_str());
    r.append("/");
    r.append(text::count_text(total).as_str());
    r.append(" ：被 ");
    r.append(text::count_text(shared).as_str());
    r.append(" 张表共享，代表表 [");
    r.append(first);
    r.append("] ----");
    r
}

/// The first ten names.
pub open spec fn preview(names: Seq<Seq<char>>) -> Seq<Seq<char>> {
    if names.len() <= 10 {
        names
    } else {
        names.take(10)
    }
}

/// The names of a group.
pub open spec fn names_line(names: Seq<Seq<char>>) -> Seq<char> {
    if names.len() > 10 {
        "  表名(前 10，共 "@ + text::digits(names.len()) + "): "@ + text::joined(preview(names), ", "@) + " …"@
    } else {
        "  表名: "@ + text::joined(preview(names), ", "@)
    }
}

/// At most the first `n` of the names.
fn first_names(names: &Vec<String>, n: usize) -> (r: Vec<String>)
    ensures
        text::texts(r@) == if names@.len() <= n {
            text::texts(names@)
        } else {
            text::texts(names@).take(n as int)
        },
{
    let mut r: Vec<String> = Vec::new();
    let mut i: usize = 0;
    while i < names.len() && i < n
        invariant
            i <= names@.len(),
            i <= n,
            text::texts(r@) == text::texts(names@).take(i as int),
        decreases names@.len() - i,
    {
        let name = names[i].clone();
        text::put(&mut r, name);
        proof {
            let all = text::texts(names@);
            assert(all[i as int] == names@[i as int]@);
            assert(all.take(i + 1) =~= all.take(i as int).push(all[i as int]));
        }
        i = i + 1;
    }
    assert(text::texts(names@).take(names@.len() as int) =~= text::texts(names@));
    r
}

/// The names of a group.
fn names_line_of(names: &Vec<String>) -> (r: String)
    ensures
        r@ == names_line(text::texts(names@)),
{
    let shown = text::join(&first_names(names, 10), ", ");
    if names.len() > 10 {
        let mut r = "  表名(前 10，共 ".to_string();
        r.append(text::count_text(names.len()).as_str());
        r.append("): ");
        r.append(shown.as_str());
        r.append(" …");
        r
    } else {
        let mut r = "  表名: ".to_string();
        r.append(shown.as_str());
        r
    }
}

/// A column of a group.
pub open spec fn column_line(c: ColumnReport) -> Seq<char> {
    "  · "@ + text::pad_right(c.name@, 24) + " "@ + text::pad_right(c.sql_type@, 12) + (if c.pk {
        " PK"@
    } else {
        ""@
    }) + (if c.not_null {
        " NOTNULL"@
    } else {
        ""@
    })
}

/// The columns of a group.
pub open spec fn column_lines(cols: Seq<ColumnReport>) -> Seq<Seq<char>> {
    cols.map_values(|c: ColumnReport| column_line(c))
}

/// Appends the columns of a group.
fn put_columns(lines: &mut Vec<String>, cols: &Vec<ColumnReport>)
    ensures
        text::texts(final(lines)@) == text::texts(old(lines)@) + column_lines(cols@),
{
    let ghost start = text::texts(lines@);
    let mut i: usize = 0;
    assert(start + column_lines(cols@.take(0)) =~= start);
    while i < cols.len()
        invariant
            i <= cols@.len(),
            text::texts(lines@) == start + column_lines(cols@.take(i as int)),
        decreases cols@.len() - i,
    {
        let c = &cols[i];
        let mut r = "  · ".to_string();
        r.append(text::padded_right(c.name.as_str(), 24).as_str());
        r.append(" ");
        r.append(text::padded_right(c.sql_type.as_str(), 12).as_str());
        r.append(
            if c.pk {
                " PK"
            } else {
                ""
            },
        );
        r.append(
            if c.not_null {
                " NOTNULL"
            } else {
                ""
            },
        );
        let ghost shown = r@;
        text::put(lines, r);
        assert(start + column_lines(cols@.take(i + 1)) =~= (start + column_lines(cols@.take(i as int))).push(shown));
        i = i + 1;
    }
    assert(cols@.take(i as int) =~= cols@);
}

/// The rows of the first table of a group, unless they are not counted.
pub open spec fn rows_line(rows: Option<i64>) -> Seq<char> {
    match rows {
        Some(n) => "  代表表行数: "@ + text::numeral(n as int),
        None => "  代表表行数: (已跳过 --no-count)"@,
    }
}

/// A sample row: columns with their values.
pub open spec fn sample_pairs(row: Seq<(String, String)>) -> Seq<Seq<char>> {
    row.map_values(|p: (String, String)| p.0@ + "="@ + p.1@)
}

/// A sample row with its number.
pub open spec fn sample_line(i: int, row: Seq<(String, String)>) -> Seq<char> {
    "  样本["@ + text::digits(i as nat) + "]: "@ + text::joined(sample_pairs(row), "  "@)
}

/// The sample rows, unless none are taken.
pub open spec fn sample_lines(samples: Option<Seq<Vec<(String, String)>>>) -> Seq<Seq<char>> {
    match samples {
        Some(rows) => Seq::new(rows.len(), |i: int| sample_line(i, rows[i]@)),
        None => seq!["  采样: (已跳过 --no-samples)"@],
    }
}

/// A sample row with its number.
fn sample_line_of(i: usize, row: &Vec<(String, String)>) -> (r: String)
    ensures
        r@ == sample_line(i as int, row@),
{
    let mut pairs: Vec<String> = Vec::new();
    let mut k: usize = 0;
    assert(text::texts(pairs@) =~= sample_pairs(row@.take(0)));
    while k < row.len()
        invariant
            k <= row@.len(),
            text::texts(pairs@) == sample_pairs(row@.take(k as int)),
        decreases row@.len() - k,
    {
        let mut pair = row[k].0.clone();
        pair.append("=");
        pair.append(row[k].1.as_str());
        let ghost shown = pair@;
        text::put(&mut pairs, pair);
        assert(sample_pairs(row@.take(k + 1)) =~= sample_pairs(row@.take(k as int)).push(shown));
        k = k + 1;
    }
    assert(row@.take(k as int) =~= row@);
    let mut r = "  样本[".to_string();
    r.append(text::count_text(i).as_str());
    r.append("]: ");
    r.append(text::join(&pairs, "  ").as_str());
    r
}

/// What a column may hold as times.
pub open spec fn guess_line(g: TimeColumnGuess) -> Seq<char> {
    "  ⏱  "@ + g.column@ + " 疑似「"@ + g.unit@ + "」时间戳; 样例: "@ + text::joined(
        text::texts(g.interpreted@),
        "; "@,
    )
}

/// What the columns may hold as times.
pub open spec fn guess_lines(gs: Seq<TimeColumnGuess>) -> Seq<Seq<char>> {
    gs.map_values(|g: TimeColumnGuess| guess_line(g))
}

/// Appends what the columns may hold as times.
fn put_guesses(lines: &mut Vec<String>, gs: &Vec<TimeColumnGuess>)
    ensures
        text::texts(final(lines)@) == text::texts(old(lines)@) + guess_lines(gs@),
{
    let ghost start = text::texts(lines@);
    let mut i: usize = 0;
    assert(start + guess_lines(gs@.take(0)) =~= start);
    while i < gs.len()
        invariant
            i <= gs@.len(),
            text::texts(lines@) == start + guess_lines(gs@.take(i as int)),
        decreases gs@.len() - i,
    {
        let mut r = "  ⏱  ".to_string();
        r.append(gs[i].column.as_str());
        r.append(" 疑似「");
        r.append(gs[i].unit);
        r.append("」时间戳; 样例: ");
        r.append(text::join(&gs[i].interpreted, "; ").as_str());
        let ghost shown = r@;
        text::put(lines, r);
        assert(start + guess_lines(gs@.take(i + 1)) =~= (start + guess_lines(gs@.take(i as int))).push(shown));
        i = i + 1;
    }
    assert(gs@.take(i as int) =~= gs@);
}

/// What is shown of a group.
pub open spec fn group_text(
    number: int,
    total: int,
    names: Seq<Seq<char>>,
    cols: Seq<ColumnReport>,
    rows: Option<i64>,
    samples: Option<Seq<Vec<(String, String)>>>,
    guesses: Seq<TimeColumnGuess>,
) -> Seq<Seq<char>> {
    seq![group_header(number, total, names.len() as int, names[0]), names_line(names)] + column_lines(cols)
        + seq![rows_line(rows)] + sample_lines(samples) + guess_lines(guesses) + seq![""@]
}

/// The lines that show a group: its tables, columns, rows, samples and times.
pub fn group_lines(
    number: usize,
    total: usize,
    names: &Vec<String>,
    cols: &Vec<ColumnReport>,
    rows: Option<i64>,
    samples: Option<&Vec<Vec<(String, String)>>>,
    guesses: &Vec<TimeColumnGuess>,
) -> (lines: Vec<String>)
    requires
        names@.len() > 0,
    ensures
        text::texts(lines@) == group_text(
            number as int,
            total as int,
            text::texts(names@),
            cols@,
            rows,
            match samples {
                Some(s) => Some(s@),
                None => None,
            },
            guesses@,
        ),
{
    let mut lines: Vec<String> = Vec::new();
    let ghost empty = text::texts(lines@);
    let ghost all = text::texts(names@);
    assert(all[0] == names@[0]@);
    text::put(&mut lines, group_header_of(number, total, names.len(), names[0].as_str()));
    text::put(&mut lines, names_line_of(names));
    let ghost head = seq![group_header(number as int, total as int, all.len() as int, all[0]), names_line(all)];
    assert(text::texts(lines@) =~= head);
    put_columns(&mut lines, cols);
    let count = match rows {
        Some(n) => {
            let mut r = "  代表表行数: ".to_string();
            r.append(text::numeral_of(n).as_str());
            r
        },
        None => "  代表表行数: (已跳过 --no-count)".to_string(),
    };
    text::put(&mut lines, count);
    let ghost upper = head + column_lines(cols@) + seq![rows_line(rows)];
    assert(text::texts(lines@) =~= upper);
    match samples {
        Some(s) => {
            let ghost all_samples = sample_lines(Some(s@));
            let mut i: usize = 0;
            assert(upper + all_samples.take(0) =~= upper);
            while i < s.len()
                invariant
                    i <= s@.len(),
                    all_samples == sample_lines(Some(s@)),
                    text::texts(lines@) == upper + all_samples.take(i as int),
                decreases s@.len() - i,
            {
                text::put(&mut lines, sample_line_of(i, &s[i]));
                assert(upper + all_samples.take(i + 1) =~= (upper + all_samples.take(i as int)).push(
                    all_samples[i as int],
                ));
                i = i + 1;
            }
            assert(all_samples.take(i as int) =~= all_samples);
        },
        None => {
            text::put(&mut lines, "  采样: (已跳过 --no-samples)".to_string());
            assert(text::texts(lines@) =~= upper + sample_lines(None));
        },
    }
    put_guesses(&mut lines, guesses);
    let ghost before = text::texts(lines@);
    text::put(&mut lines, "".to_string());
    assert(text::texts(lines@) =~= before + seq![""@]);
    lines
}

/// The report on a group.
pub fn table_group(
    names: &Vec<String>,
    columns: Vec<ColumnReport>,
    row_count: Option<i64>,
    samples: Vec<Vec<(String, String)>>,
    time_columns: Vec<TimeColumnGuess>,
    max_table_names: usize,
) -> (g: TableGroup)
    ensures
        g.shared_by == names@.len(),
        text::texts(g.table_names@) == if names@.len() <= max_table_names {
            text::texts(names@)
        } else {
            text::texts(names@).take(max_table_names as int)
        },
        g.columns == columns,
        g.row_count == row_count,
        g.samples == samples,
        g.time_columns == time_columns,
{
    TableGroup {
        shared_by: names.len(),
        table_names: first_names(names, max_table_names),
        columns,
        row_count,
        samples,
        time_columns,
    }
}

/// A position belongs to a signature exactly when the table there has it.
proof fn members_have_the_signature(sigs: Seq<Seq<char>>, sig: Seq<char>)
    requires
        sigs.len() <= usize::MAX,
    ensures
        forall|q: usize| #[trigger] members(sigs, sig).contains(q) <==> q < sigs.len() && sigs[q as int] == sig,
    decreases sigs.len(),
{
    let now = members(sigs, sig);
    if sigs.len() > 0 {
        let less = sigs.drop_last();
        let before = members(less, sig);
        let at = (sigs.len() - 1) as usize;
        members_have_the_signature(less, sig);
        assert forall|q: usize| #[trigger] now.contains(q) <==> q < sigs.len() && sigs[q as int] == sig by {
            assert(before.contains(q) <==> q < less.len() && less[q as int] == sig);
            if now.contains(q) {
                let i = now.index_of(q);
                if i < before.len() {
                    assert(before[i] == q);
                }
            }
            if before.contains(q) {
                assert(now[before.index_of(q)] == q);
            }
            if q == at && sigs.last() == sig {
                assert(now[before.len() as int] == q);
            }
        }
    }
}

proof fn groups_are_members(tables: Seq<TableInfo>)
    ensures
        ordered::lists::<String, Seq<usize>>(signature_groups(signatures(tables)), by_signature(signatures(tables))),
{
    let sigs = signatures(tables);
    assert(by_signature(sigs).dom() =~= sigs.to_set());
    ordered::listing_lists::<String, Seq<usize>>(by_signature(sigs));
}

/// A group holds exactly the tables that are built like any of its tables.
pub proof fn groups_hold_tables_alike(out: Seq<Vec<usize>>, tables: Seq<TableInfo>, k: int, p: usize)
    requires
        are_groups(out, tables),
        tables.len() <= usize::MAX,
        0 <= k < out.len(),
        out[k]@.contains(p),
    ensures
        p < tables.len(),
        forall|q: usize|
            q < tables.len() ==> (#[trigger] out[k]@.contains(q) <==> table_signature(tables[q as int].columns@)
                == table_signature(tables[p as int].columns@)),
{
    let sigs = signatures(tables);
    let groups = signature_groups(sigs);
    groups_are_members(tables);
    let order = choose|order: Seq<usize>| #[trigger]
        ordered::falling_order(order, group_sizes(groups)) && out.len() == order.len() && forall|k: int|
            0 <= k < out.len() ==> (#[trigger] out[k])@ == groups[order[k] as int].1;
    let g = groups[order[k] as int];
    assert(0 <= order[k] < groups.len());
    assert(by_signature(sigs).contains_pair(g.0, g.1));
    members_have_the_signature(sigs, g.0);
    assert(members(sigs, g.0).contains(p));
    assert forall|q: usize| q < tables.len() implies (#[trigger] out[k]@.contains(q) <==> table_signature(
        tables[q as int].columns@,
    ) == table_signature(tables[p as int].columns@)) by {
        assert(members(sigs, g.0).contains(q) <==> q < sigs.len() && sigs[q as int] == g.0);
    }
}

/// Every table stands in a group.
pub proof fn every_table_is_grouped(out: Seq<Vec<usize>>, tables: Seq<TableInfo>, p: usize)
    requires
        are_groups(out, tables),
        tables.len() <= usize::MAX,
        p < tables.len(),
    ensures
        exists|k: int| 0 <= k < out.len() && #[trigger] out[k]@.contains(p),
{
    let sigs = signatures(tables);
    let groups = signature_groups(sigs);
    groups_are_members(tables);
    let order = choose|order: Seq<usize>| #[trigger]
        ordered::falling_order(order, group_sizes(groups)) && out.len() == order.len() && forall|k: int|
            0 <= k < out.len() ==> (#[trigger] out[k])@ == groups[order[k] as int].1;
    assert(sigs.contains(sigs[p as int]));
    assert(by_signature(sigs).contains_key(sigs[p as int]));
    let g = choose|g: int| 0 <= g < groups.len() && groups[g].0 == sigs[p as int];
    ordered::listing_size::<String, Seq<usize>>(groups, by_signature(sigs));
    assert(by_signature(sigs).dom() =~= sigs.to_set());
    sigs.lemma_cardinality_of_set();
    ordered::falling_order_is_permutation(order, group_sizes(groups));
    assert(order.contains(g as usize));
    let k = order.index_of(g as usize);
    assert(by_signature(sigs).contains_pair(groups[g].0, groups[g].1));
    members_have_the_signature(sigs, sigs[p as int]);
    assert(members(sigs, sigs[p as int]).contains(p));
    assert(out[k]@ == groups[order[k] as int].1);
    assert(out[k]@.contains(p));
}

}
