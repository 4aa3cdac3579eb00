//! Which conversation is meant, what it is called, and how it stands in a page.

use vstd::prelude::*;
use vstd::string::*;

use crate::calendar;
use crate::calendar::Date;
use crate::double;
use crate::model::{Contact, Conversation};
use crate::ordered;
use crate::render::markup;
use crate::report;
use crate::report::LocateError;
use crate::text;
use crate::unicode;

verus! {

/// Of a name of up to four characters nothing is shown but a star; of a longer one its first three
/// characters, an ellipsis and its last three.
pub proof fn names_are_masked(t: Seq<char>)
    ensures
        t.len() <= 4 ==> report::masked(t) == seq!['*'],
        t.len() > 4 ==> report::masked(t) == seq![
            t[0],
            t[1],
            t[2],
            '…',
            t[t.len() - 3],
            t[t.len() - 2],
            t[t.len() - 1],
        ],
{
    reveal_strlit("*");
    reveal_strlit("…");
    if t.len() <= 4 {
        assert(report::masked(t) =~= seq!['*']);
    } else {
        assert(report::masked(t) =~= seq![t[0], t[1], t[2], '…', t[t.len() - 3], t[t.len() - 2], t[t.len() - 1]]);
    }
}

/// An account goes by the remark of its contact, else by the nickname, where they are not empty; without
/// either, or without a contact, it goes by its masked name. Of several contacts with one account name the
/// last counts.
pub proof fn accounts_have_names(contacts: Seq<Contact>, c: Contact, user: Seq<char>)
    ensures
        report::name_of(Map::empty(), user) == report::masked(user),
        user != c.username@ ==> report::name_of(report::contact_map(contacts.push(c)), user) == report::name_of(
            report::contact_map(contacts),
            user,
        ),
        c.remark is Some && c.remark->0@.len() > 0 ==> report::name_of(
            report::contact_map(contacts.push(c)),
            c.username@,
        ) == c.remark->0@,
        !(c.remark is Some && c.remark->0@.len() > 0) && c.nickname is Some && c.nickname->0@.len() > 0
            ==> report::name_of(report::contact_map(contacts.push(c)), c.username@) == c.nickname->0@,
        !(c.remark is Some && c.remark->0@.len() > 0) && !(c.nickname is Some && c.nickname->0@.len() > 0)
            ==> report::name_of(report::contact_map(contacts.push(c)), c.username@) == report::masked(c.username@),
{
    assert(contacts.push(c).drop_last() =~= contacts);
}

/// The conversation at `p` matches a search: the text stands in its account name or in the name that is
/// shown for it, both in lower case.
pub open spec fn is_hit(convs: Seq<Conversation>, contacts: Map<Seq<char>, Contact>, query: Seq<char>, p: int) -> bool {
    0 <= p < convs.len() && (text::has_text(unicode::lowercase(convs[p].username@), unicode::lowercase(query))
        || text::has_text(
        unicode::lowercase(report::name_of(contacts, convs[p].username@)),
        unicode::lowercase(query),
    ))
}

/// The conversations that are found are exactly those that match, in their order.
pub proof fn hits_match(convs: Seq<Conversation>, contacts: Map<Seq<char>, Contact>, query: Seq<char>)
    requires
        convs.len() <= usize::MAX,
    ensures
        forall|k: int|
            0 <= k < report::matches(convs, contacts, query).len() ==> is_hit(
                convs,
                contacts,
                query,
                #[trigger] report::matches(convs, contacts, query)[k] as int,
            ),
        forall|k: int, l: int|
            0 <= k < l < report::matches(convs, contacts, query).len() ==> #[trigger] report::matches(
                convs,
                contacts,
                query,
            )[k] < #[trigger] report::matches(convs, contacts, query)[l],
        forall|p: int| #[trigger]
            is_hit(convs, contacts, query, p) ==> report::matches(convs, contacts, query).contains(p as usize),
    decreases convs.len(),
{
    if convs.len() > 0 {
        let n = convs.len() - 1;
        let less = convs.drop_last();
        hits_match(less, contacts, query);
        let before = report::matches(less, contacts, query);
        let now = report::matches(convs, contacts, query);
        assert forall|p: int| 0 <= p < n implies is_hit(less, contacts, query, p) == #[trigger] is_hit(
            convs,
            contacts,
            query,
            p,
        ) by {
            assert(less[p] == convs[p]);
        }
        assert forall|k: int| 0 <= k < now.len() implies is_hit(convs, contacts, query, #[trigger] now[k] as int) by {
            if k < before.len() {
                assert(now[k] == before[k]);
            }
        }
        assert forall|p: int| #[trigger] is_hit(convs, contacts, query, p) implies now.contains(p as usize) by {
            if p < n {
                assert(is_hit(less, contacts, query, p));
                let k = before.index_of(p as usize);
                assert(now[k] == before[k]);
            } else {
                assert(now[before.len() as int] == n);
            }
        }
    }
}

/// By rank the conversations are told from the largest on: as many are ahead of the one with a rank as the
/// rank says, each larger, or as large and before it. Rank zero and a rank beyond the last are refused.
pub proof fn ranks_count_from_the_largest(r: Result<usize, LocateError>, counts: Seq<i64>, rank: int)
    requires
        report::finds_rank(r, counts, rank),
        counts.len() <= usize::MAX,
        rank >= 0,
    ensures
        r is Ok <==> 1 <= rank <= counts.len(),
        r matches Ok(p) ==> p < counts.len() && crate::laws::counting::how_many(
            counts.len() as int,
            |q: int| counts[q] > counts[p as int] || (counts[q] == counts[p as int] && q < p),
        ) == rank - 1,
{
    if r is Ok {
        let p = r->Ok_0;
        let order = choose|order: Seq<usize>| #[trigger]
            ordered::falling_order(order, counts) && p == order[rank - 1];
        ordered::falling_order_is_permutation(order, counts);
        let e = rank - 1;
        let m = counts.len() as int;
        let ahead = |q: int| counts[q] > counts[p as int] || (counts[q] == counts[p as int] && q < p);
        let first = order.take(e).map_values(|x: usize| x as int);
        assert(first.no_duplicates());
        first.unique_seq_to_set();
        let places = crate::laws::counting::places(m, ahead);
        assert forall|q: int| places.contains(q) implies first.to_set().contains(q) by {
            assert(order.contains(q as usize));
            let k = order.index_of(q as usize);
            if k > e {
                assert(counts[order[e] as int] > counts[order[k] as int] || (counts[order[e] as int]
                    == counts[order[k] as int] && order[e] < order[k]));
            }
            assert(k < e);
            assert(first[k] == q);
        }
        assert forall|q: int| first.to_set().contains(q) implies places.contains(q) by {
            let k = first.index_of(q);
            assert(order[k] as int == q);
            assert(counts[order[k] as int] > counts[order[e] as int] || (counts[order[k] as int]
                == counts[order[e] as int] && order[k] < order[e]));
        }
        assert(places =~= first.to_set());
    }
}

/// In a page a text stands character by character: `&`, `<`, `>` and `"` by name, all others as they are.
pub proof fn characters_are_escaped(c: char, t: Seq<char>)
    ensures
        markup::escaped(Seq::empty()) == Seq::<char>::empty(),
        markup::escaped(seq![c] + t) == (if c == '&' {
            "&amp;"@
        } else if c == '<' {
            "&lt;"@
        } else if c == '>' {
            "&gt;"@
        } else if c == '"' {
            "&quot;"@
        } else {
            seq![c]
        }) + markup::escaped(t),
{
    let all = seq![c] + t;
    assert(all.skip(1) =~= t);
    assert(all[0] == c);
}

/// A date is told by its month and its day, without leading zeros. For dates of years of up to four digits.
pub proof fn dates_are_told(d: Date)
    requires
        calendar::is_date(d),
        0 <= d.year <= 9999,
    ensures
        markup::month_day(calendar::date_key(d)) == text::numeral(d.month as int) + "月"@ + text::numeral(d.day as int)
            + "日"@,
{
    reveal_strlit("-");
    let y = text::zero_padded(d.year as int, 4);
    let m = text::zero_padded(d.month as int, 2);
    let a = text::zero_padded(d.day as int, 2);
    crate::laws::fmt::padded_value(d.year as int, 4);
    crate::laws::fmt::padded_value(d.month as int, 2);
    crate::laws::fmt::padded_value(d.day as int, 2);
    text::zero_padded_reads_back(d.month as int, 2, i64::MIN as int, i64::MAX as int);
    text::zero_padded_reads_back(d.day as int, 2, i64::MIN as int, i64::MAX as int);
    no_dash(y);
    no_dash(m);
    no_dash(a);
    text::fields_single('-', y);
    text::fields_append(y, '-', m);
    let ym = y.push('-') + m;
    text::fields_append(ym, '-', a);
    assert(calendar::date_key(d) =~= ym.push('-') + a);
}

proof fn no_dash(t: Seq<char>)
    requires
        text::all_digits(t),
    ensures
        !t.contains('-'),
{
    if t.contains('-') {
        let i = t.index_of('-');
        assert(text::is_digit(t[i]));
    }
}

/// The shade of a cell tells the quarter of the largest count that its own falls into; a cell without
/// messages has none. For counts of up to two to the 46th.
pub proof fn shades_tell_quarters(count: int, max: int)
    requires
        0 <= count <= max <= 0x4000_0000_0000,
        max > 0,
    ensures
        markup::shade(count, max) == if count == 0 {
            0int
        } else if 4 * count < max {
            1
        } else if 2 * count < max {
            2
        } else if 4 * count < 3 * max {
            3
        } else {
            4
        },
{
    if count > 0 {
        double::quotient_against_fraction(count, max, 1, 4);
        double::quotient_against_fraction(count, max, 1, 2);
        double::quotient_against_fraction(count, max, 3, 4);
    }
}

/// A conversation is meant by its account name first, then by a part of a name, and then by its rank; where
/// none is given nothing is meant. By account name it is the first that has it; by a part of a name the
/// only one that matches.
pub proof fn targets_are_taken_in_turn(
    r: Result<usize, LocateError>,
    convs: Seq<Conversation>,
    contacts: Map<Seq<char>, Contact>,
    with: Option<Seq<char>>,
    rank: Option<usize>,
    user: Option<Seq<char>>,
    counts: Seq<i64>,
)
    requires
        report::locates(r, convs, contacts, with, rank, user, counts),
        convs.len() <= usize::MAX,
    ensures
        user is Some ==> (r is Ok <==> exists|k: int| 0 <= k < convs.len() && (#[trigger] convs[k]).username@ == user->0),
        user is Some && r is Ok ==> r->Ok_0 < convs.len() && convs[r->Ok_0 as int].username@ == user->0 && forall|k: int|
            0 <= k < r->Ok_0 ==> (#[trigger] convs[k]).username@ != user->0,
        user is None && with is Some && r is Ok ==> is_hit(convs, contacts, with->0, r->Ok_0 as int) && forall|k: int|
            #[trigger] is_hit(convs, contacts, with->0, k) ==> k == r->Ok_0,
        user is None && with is Some && r is Err ==> (forall|k: int| !#[trigger] is_hit(convs, contacts, with->0, k)) || (
        exists|k: int, l: int| k != l && #[trigger] is_hit(convs, contacts, with->0, k) && #[trigger] is_hit(
            convs,
            contacts,
            with->0,
            l,
        )),
        user is None && with is None && rank is Some ==> report::finds_rank(r, counts, rank->0 as int),
        user is None && with is None && rank is None ==> r is Err && r->Err_0 is NoTarget,
{
    if user is Some {
        assert forall|k: int| 0 <= k < convs.len() implies report::has_user(#[trigger] convs[k], user->0) == (
        convs[k].username@ == user->0) by {}
    } else if with is Some {
        let q = with->0;
        hits_match(convs, contacts, q);
        let hits = report::matches(convs, contacts, q);
        if r is Ok {
            let p = r->Ok_0;
            assert(hits[0] == p);
            assert forall|k: int| #[trigger] is_hit(convs, contacts, q, k) implies k == p by {
                let i = hits.index_of(k as usize);
                assert(hits[i] == k);
            }
        } else if hits.len() > 1 {
            assert(is_hit(convs, contacts, q, hits[0] as int) && is_hit(convs, contacts, q, hits[1] as int));
            assert(hits[0] < hits[1]);
        } else {
            assert forall|k: int| !#[trigger] is_hit(convs, contacts, q, k) by {
                if is_hit(convs, contacts, q, k) {
                    assert(hits.contains(k as usize));
                }
            }
        }
    }
}

}
