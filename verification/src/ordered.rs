//! Ordered keys, a map kept in key order, and sorting by rank.

use vstd::prelude::*;
use vstd::multiset::Multiset;

use crate::seqs;
use crate::text;

verus! {

/// A key with a strict total order on what it stands for.
pub trait Key: View + Sized {
    /// `a` comes strictly before `b`.
    spec fn before(a: Self::V, b: Self::V) -> bool;

    proof fn before_irreflexive(a: Self::V)
        ensures
            !Self::before(a, a),
    ;

    proof fn before_transitive(a: Self::V, b: Self::V, c: Self::V)
        requires
            Self::before(a, b),
            Self::before(b, c),
        ensures
            Self::before(a, c),
    ;

    proof fn before_total(a: Self::V, b: Self::V)
        ensures
            Self::before(a, b) || a == b || Self::before(b, a),
    ;

    fn precedes(&self, other: &Self) -> (r: bool)
        ensures
            r == Self::before(self@, other@),
    ;
}

impl Key for i64 {
    open spec fn before(a: i64, b: i64) -> bool {
        a < b
    }

    proof fn before_irreflexive(a: i64) {
    }

    proof fn before_transitive(a: i64, b: i64, c: i64) {
    }

    proof fn before_total(a: i64, b: i64) {
    }

    fn precedes(&self, other: &i64) -> (r: bool) {
        *self < *other
    }
}

impl Key for usize {
    open spec fn before(a: usize, b: usize) -> bool {
        a < b
    }

    proof fn before_irreflexive(a: usize) {
    }

    proof fn before_transitive(a: usize, b: usize, c: usize) {
    }

    proof fn before_total(a: usize, b: usize) {
    }

    fn precedes(&self, other: &usize) -> (r: bool) {
        *self < *other
    }
}

/// Lexicographic order of texts by code point.
pub open spec fn text_before(a: Seq<char>, b: Seq<char>) -> bool
    decreases a.len(),
{
    if b.len() == 0 {
        false
    } else if a.len() == 0 {
        true
    } else if a[0] == b[0] {
        text_before(a.drop_first(), b.drop_first())
    } else {
        (a[0] as int) < (b[0] as int)
    }
}

pub proof fn text_before_irreflexive(a: Seq<char>)
    ensures
        !text_before(a, a),
    decreases a.len(),
{
    if a.len() > 0 {
        text_before_irreflexive(a.drop_first());
    }
}

proof fn text_before_transitive(a: Seq<char>, b: Seq<char>, c: Seq<char>)
    requires
        text_before(a, b),
        text_before(b, c),
    ensures
        text_before(a, c),
    decreases a.len(),
{
    if a.len() > 0 && a[0] == b[0] && b[0] == c[0] {
        text_before_transitive(a.drop_first(), b.drop_first(), c.drop_first());
    }
}

proof fn text_before_total(a: Seq<char>, b: Seq<char>)
    ensures
        text_before(a, b) || a == b || text_before(b, a),
    decreases a.len(),
{
    if a.len() == 0 {
        if b.len() == 0 {
            assert(a =~= b);
        }
    } else if b.len() > 0 {
        if a[0] == b[0] {
            text_before_total(a.drop_first(), b.drop_first());
            if a.drop_first() == b.drop_first() {
                assert(a =~= seq![a[0]] + a.drop_first());
                assert(b =~= seq![b[0]] + b.drop_first());
            }
        } else {
            assert(a[0] as int != b[0] as int);
        }
    }
}

/// Whether `a` comes before `b` in lexicographic order.
fn text_precedes(a: &str, b: &str) -> (r: bool)
    ensures
        r == text_before(a@, b@),
{
    let x = text::chars_of(a);
    let y = text::chars_of(b);
    let mut i: usize = 0;
    proof {
        assert(x@.skip(0) =~= x@);
        assert(y@.skip(0) =~= y@);
    }
    while i < x.len() && i < y.len() && x[i] == y[i]
        invariant
            i <= x@.len(),
            i <= y@.len(),
            text_before(x@, y@) == text_before(x@.skip(i as int), y@.skip(i as int)),
        decreases x@.len() - i,
    {
        proof {
            assert(x@.skip(i as int).drop_first() =~= x@.skip(i + 1));
            assert(y@.skip(i as int).drop_first() =~= y@.skip(i + 1));
        }
        i = i + 1;
    }
    if i == y.len() {
        return false;
    }
    if i == x.len() {
        return true;
    }
    let c: char = x[i];
    let d: char = y[i];
    proof {
        assert(x@.skip(i as int)[0] == c);
        assert(y@.skip(i as int)[0] == d);
    }
    c < d
}

/// Texts with beginnings of the same length are ordered by these, and where these are equal, by what
/// follows.
pub proof fn text_before_append(p: Seq<char>, q: Seq<char>, s: Seq<char>, t: Seq<char>)
    requires
        p.len() == q.len(),
    ensures
        text_before(p + s, q + t) <==> text_before(p, q) || (p == q && text_before(s, t)),
    decreases p.len(),
{
    if p.len() == 0 {
        assert(p + s =~= s);
        assert(q + t =~= t);
        assert(p =~= q);
    } else {
        assert((p + s).drop_first() =~= p.drop_first() + s);
        assert((q + t).drop_first() =~= q.drop_first() + t);
        text_before_append(p.drop_first(), q.drop_first(), s, t);
        if p[0] == q[0] {
            assert(p =~= seq![p[0]] + p.drop_first());
            assert(q =~= seq![q[0]] + q.drop_first());
            if p.drop_first() == q.drop_first() {
                assert(p =~= q);
            }
        }
    }
}

/// Numerals of the same length are ordered as their numbers are.
pub proof fn numerals_order_as_numbers(s: Seq<char>, t: Seq<char>)
    requires
        s.len() == t.len(),
        text::all_digits(s),
        text::all_digits(t),
    ensures
        text_before(s, t) <==> text::digits_value(s) < text::digits_value(t),
        s == t <==> text::digits_value(s) == text::digits_value(t),
    decreases s.len(),
{
    let a = s.drop_last();
    let b = t.drop_last();
    let x = seq![s.last()];
    let y = seq![t.last()];
    assert(s =~= a + x);
    assert(t =~= b + y);
    text_before_append(a, b, x, y);
    assert(text::is_digit(s[s.len() - 1]));
    assert(text::is_digit(t[t.len() - 1]));
    assert(x.drop_first() =~= Seq::empty());
    assert(y.drop_first() =~= Seq::empty());
    assert(text_before(x, y) <==> (s.last() as int) < (t.last() as int)) by {
        assert(!text_before(x.drop_first(), y.drop_first()));
    }
    if s.len() > 1 {
        assert forall|i: int| 0 <= i < a.len() implies text::is_digit(#[trigger] a[i]) && text::is_digit(b[i]) by {
            assert(text::is_digit(s[i]));
            assert(text::is_digit(t[i]));
        }
        numerals_order_as_numbers(a, b);
    } else {
        assert(a =~= Seq::empty());
        assert(b =~= Seq::empty());
    }
}

impl Key for String {
    open spec fn before(a: Seq<char>, b: Seq<char>) -> bool {
        text_before(a, b)
    }

    proof fn before_irreflexive(a: Seq<char>) {
        text_before_irreflexive(a);
    }

    proof fn before_transitive(a: Seq<char>, b: Seq<char>, c: Seq<char>) {
        text_before_transitive(a, b, c);
    }

    proof fn before_total(a: Seq<char>, b: Seq<char>) {
        text_before_total(a, b);
    }

    fn precedes(&self, other: &String) -> (r: bool) {
        text_precedes(self.as_str(), other.as_str())
    }
}

/// The pairs with each key replaced by what it stands for.
pub open spec fn keyed<K: View, V>(pairs: Seq<(K, V)>) -> Seq<(K::V, V)> {
    pairs.map_values(|p: (K, V)| (p.0@, p.1))
}

/// The keys come in strictly increasing order.
pub open spec fn in_key_order<K: Key, V>(pairs: Seq<(K::V, V)>) -> bool {
    forall|i: int, j: int| 0 <= i < j < pairs.len() ==> K::before(#[trigger] pairs[i].0, #[trigger] pairs[j].0)
}

/// The pairs are the entries of `map`, in key order.
pub open spec fn lists<K: Key, V>(pairs: Seq<(K::V, V)>, map: Map<K::V, V>) -> bool {
    &&& in_key_order::<K, V>(pairs)
    &&& forall|i: int| 0 <= i < pairs.len() ==> map.contains_pair(#[trigger] pairs[i].0, pairs[i].1)
    &&& forall|k: K::V| #[trigger] map.contains_key(k) ==> exists|i: int| 0 <= i < pairs.len() && pairs[i].0 == k
}

/// The entries of `map` in key order.
pub open spec fn listing<K: Key, V>(map: Map<K::V, V>) -> Seq<(K::V, V)> {
    choose|pairs: Seq<(K::V, V)>| lists::<K, V>(pairs, map)
}

/// How many of the pairs come before the key.
spec fn place<K: Key, V>(pairs: Seq<(K::V, V)>, k: K::V) -> int
    decreases pairs.len(),
{
    if pairs.len() == 0 {
        0
    } else if K::before(pairs.last().0, k) {
        pairs.len() as int
    } else {
        place::<K, V>(pairs.drop_last(), k)
    }
}

proof fn place_parts<K: Key, V>(pairs: Seq<(K::V, V)>, k: K::V)
    requires
        in_key_order::<K, V>(pairs),
        forall|i: int| 0 <= i < pairs.len() ==> (#[trigger] pairs[i]).0 != k,
    ensures
        0 <= place::<K, V>(pairs, k) <= pairs.len(),
        forall|i: int| 0 <= i < place::<K, V>(pairs, k) ==> K::before((#[trigger] pairs[i]).0, k),
        forall|i: int| place::<K, V>(pairs, k) <= i < pairs.len() ==> K::before(k, (#[trigger] pairs[i]).0),
    decreases pairs.len(),
{
    if pairs.len() > 0 {
        let last = pairs.last().0;
        assert(pairs[pairs.len() - 1].0 != k);
        K::before_total(last, k);
        if K::before(last, k) {
            assert forall|i: int| 0 <= i < pairs.len() implies K::before((#[trigger] pairs[i]).0, k) by {
                if i < pairs.len() - 1 {
                    K::before_transitive(pairs[i].0, last, k);
                }
            }
        } else {
            let less = pairs.drop_last();
            assert forall|i: int| 0 <= i < less.len() implies (#[trigger] less[i]).0 != k by {
                assert(pairs[i].0 != k);
            }
            place_parts::<K, V>(less, k);
            let j = place::<K, V>(less, k);
            assert forall|i: int| 0 <= i < j implies K::before((#[trigger] pairs[i]).0, k) by {
                assert(less[i] == pairs[i]);
            }
            assert forall|i: int| j <= i < pairs.len() implies K::before(k, (#[trigger] pairs[i]).0) by {
                if i < less.len() {
                    assert(less[i] == pairs[i]);
                }
            }
        }
    }
}

proof fn finite_map_has_listing<K: Key, V>(map: Map<K::V, V>)
    requires
        map.dom().finite(),
    ensures
        exists|pairs: Seq<(K::V, V)>| lists::<K, V>(pairs, map),
    decreases map.dom().len(),
{
    if map.dom().len() == 0 {
        assert(map.dom() =~= Set::empty());
        assert(lists::<K, V>(Seq::empty(), map));
    } else {
        let k = map.dom().choose();
        assert(map.contains_key(k)) by {
            if forall|x: K::V| !map.dom().contains(x) {
                assert(map.dom() =~= Set::empty());
            }
        }
        let rest = map.remove(k);
        assert(rest.dom() =~= map.dom().remove(k));
        finite_map_has_listing::<K, V>(rest);
        let pairs = choose|pairs: Seq<(K::V, V)>| lists::<K, V>(pairs, rest);
        assert forall|i: int| 0 <= i < pairs.len() implies (#[trigger] pairs[i]).0 != k by {
            assert(rest.contains_pair(pairs[i].0, pairs[i].1));
        }
        place_parts::<K, V>(pairs, k);
        let j = place::<K, V>(pairs, k);
        let all = pairs.insert(j, (k, map[k]));
        assert forall|i: int| 0 <= i < all.len() implies map.contains_pair(#[trigger] all[i].0, all[i].1) by {
            if i < j {
                assert(all[i] == pairs[i]);
                assert(rest.contains_pair(pairs[i].0, pairs[i].1));
            } else if i > j {
                assert(all[i] == pairs[i - 1]);
                assert(rest.contains_pair(pairs[i - 1].0, pairs[i - 1].1));
            }
        }
        assert forall|x: K::V| #[trigger] map.contains_key(x) implies exists|i: int|
            0 <= i < all.len() && all[i].0 == x by {
            if x == k {
                assert(all[j].0 == x);
            } else {
                assert(rest.contains_key(x));
                let i = choose|i: int| 0 <= i < pairs.len() && pairs[i].0 == x;
                if i < j {
                    assert(all[i].0 == x);
                } else {
                    assert(all[i + 1].0 == x);
                }
            }
        }
        assert(in_key_order::<K, V>(all)) by {
            assert forall|a: int, b: int| 0 <= a < b < all.len() implies K::before(
                (#[trigger] all[a]).0,
                (#[trigger] all[b]).0,
            ) by {
                if a < j {
                    assert(all[a] == pairs[a]);
                } else if a > j {
                    assert(all[a] == pairs[a - 1]);
                }
                if b < j {
                    assert(all[b] == pairs[b]);
                } else if b > j {
                    assert(all[b] == pairs[b - 1]);
                }
            }
        }
        assert(lists::<K, V>(all, map));
    }
}

/// The listing of a finite map lists it.
pub proof fn listing_lists<K: Key, V>(map: Map<K::V, V>)
    requires
        map.dom().finite(),
    ensures
        lists::<K, V>(listing::<K, V>(map), map),
{
    finite_map_has_listing::<K, V>(map);
}

/// A map has only one listing in key order.
pub proof fn listing_is_unique<K: Key, V>(pairs: Seq<(K::V, V)>, map: Map<K::V, V>)
    requires
        lists::<K, V>(pairs, map),
    ensures
        pairs == listing::<K, V>(map),
{
    let other = listing::<K, V>(map);
    assert(lists::<K, V>(other, map));
    same_listing::<K, V>(pairs, other, map);
}

proof fn same_listing<K: Key, V>(a: Seq<(K::V, V)>, b: Seq<(K::V, V)>, map: Map<K::V, V>)
    requires
        lists::<K, V>(a, map),
        lists::<K, V>(b, map),
    ensures
        a == b,
    decreases a.len(),
{
    if a.len() == 0 {
        if b.len() > 0 {
            assert(map.contains_key(b[0].0));
        }
        assert(a =~= b);
    } else {
        assert(map.contains_key(a.last().0));
        let j = choose|j: int| 0 <= j < b.len() && b[j].0 == a.last().0;
        if j < b.len() - 1 {
            assert(map.contains_key(b.last().0));
            let i = choose|i: int| 0 <= i < a.len() && a[i].0 == b.last().0;
            assert(K::before(b[j].0, b[b.len() - 1].0));
            if i < a.len() - 1 {
                assert(K::before(a[i].0, a[a.len() - 1].0));
                K::before_transitive(a[i].0, a.last().0, a[i].0);
            }
            K::before_irreflexive(a[i].0);
            assert(false);
        }
        let k = a.last().0;
        let smaller = map.remove(k);
        assert forall|i: int| 0 <= i < a.drop_last().len() implies smaller.contains_pair(
            #[trigger] a.drop_last()[i].0,
            a.drop_last()[i].1,
        ) by {
            assert(K::before(a[i].0, a[a.len() - 1].0));
            K::before_irreflexive(k);
            assert(map.contains_pair(a[i].0, a[i].1));
        }
        assert forall|i: int| 0 <= i < b.drop_last().len() implies smaller.contains_pair(
            #[trigger] b.drop_last()[i].0,
            b.drop_last()[i].1,
        ) by {
            assert(K::before(b[i].0, b[b.len() - 1].0));
            K::before_irreflexive(k);
            assert(map.contains_pair(b[i].0, b[i].1));
        }
        assert forall|q: K::V| #[trigger] smaller.contains_key(q) implies exists|i: int|
            0 <= i < a.drop_last().len() && a.drop_last()[i].0 == q by {
            assert(map.contains_key(q));
            let i = choose|i: int| 0 <= i < a.len() && a[i].0 == q;
            assert(a.drop_last()[i].0 == q);
        }
        assert forall|q: K::V| #[trigger] smaller.contains_key(q) implies exists|i: int|
            0 <= i < b.drop_last().len() && b.drop_last()[i].0 == q by {
            assert(map.contains_key(q));
            let i = choose|i: int| 0 <= i < b.len() && b[i].0 == q;
            assert(b.drop_last()[i].0 == q);
        }
        same_listing::<K, V>(a.drop_last(), b.drop_last(), smaller);
        assert(map.contains_pair(a[a.len() - 1].0, a[a.len() - 1].1));
        assert(map.contains_pair(b[b.len() - 1].0, b[b.len() - 1].1));
        assert(a =~= a.drop_last().push(a.last()));
        assert(b =~= b.drop_last().push(b.last()));
    }
}

/// A listing has as many entries as the map has keys.
pub proof fn listing_size<K: Key, V>(pairs: Seq<(K::V, V)>, map: Map<K::V, V>)
    requires
        lists::<K, V>(pairs, map),
    ensures
        map.dom().finite(),
        pairs.len() == map.dom().len(),
{
    let keys = pairs.map_values(|p: (K::V, V)| p.0);
    assert(keys.no_duplicates()) by {
        assert forall|i: int, j: int| 0 <= i < keys.len() && 0 <= j < keys.len() && i != j implies keys[i]
            != keys[j] by {
            K::before_irreflexive(keys[i]);
            assert(keys[i] == pairs[i].0);
            assert(keys[j] == pairs[j].0);
            if i < j {
                assert(K::before(pairs[i].0, pairs[j].0));
            } else {
                assert(K::before(pairs[j].0, pairs[i].0));
            }
        }
    }
    keys.unique_seq_to_set();
    assert forall|k: K::V| keys.to_set().contains(k) <==> map.dom().contains(k) by {
        if map.contains_key(k) {
            let i = choose|i: int| 0 <= i < pairs.len() && pairs[i].0 == k;
            assert(keys[i] == k);
        }
        if keys.to_set().contains(k) {
            let i = keys.index_of(k);
            assert(keys[i] == pairs[i].0);
            assert(map.contains_pair(pairs[i].0, pairs[i].1));
        }
    }
    assert(keys.to_set() =~= map.dom());
}

/// A map whose entries are kept in key order.
pub struct SortedMap<K, V> {
    entries: Vec<(K, V)>,
}

impl<K: Key, V> SortedMap<K, V> {
    /// The keys are distinct and in order.
    pub closed spec fn wf(&self) -> bool {
        in_key_order::<K, V>(keyed(self.entries@))
    }

    /// What the map holds.
    pub closed spec fn map(&self) -> Map<K::V, V> {
        Map::new(
            |k: K::V| exists|i: int| 0 <= i < self.entries@.len() && self.entries@[i].0@ == k,
            |k: K::V| self.entries@[choose|i: int| 0 <= i < self.entries@.len() && self.entries@[i].0@ == k].1,
        )
    }

    proof fn key_is_unique(&self, i: int, j: int)
        requires
            self.wf(),
            0 <= i < self.entries@.len(),
            0 <= j < self.entries@.len(),
            self.entries@[i].0@ == self.entries@[j].0@,
        ensures
            i == j,
    {
        let pairs = keyed(self.entries@);
        K::before_irreflexive(pairs[i].0);
        if i < j {
            assert(K::before(pairs[i].0, pairs[j].0));
        } else if j < i {
            assert(K::before(pairs[j].0, pairs[i].0));
        }
    }

    proof fn entry_in_map(&self, i: int)
        requires
            self.wf(),
            0 <= i < self.entries@.len(),
        ensures
            self.map().contains_pair(self.entries@[i].0@, self.entries@[i].1),
    {
        let k = self.entries@[i].0@;
        let j = choose|j: int| 0 <= j < self.entries@.len() && self.entries@[j].0@ == k;
        self.key_is_unique(i, j);
    }

    proof fn entries_list_map(&self)
        requires
            self.wf(),
        ensures
            lists::<K, V>(keyed(self.entries@), self.map()),
    {
        let pairs = keyed(self.entries@);
        assert forall|i: int| 0 <= i < pairs.len() implies self.map().contains_pair(#[trigger] pairs[i].0, pairs[i].1) by {
            self.entry_in_map(i);
        }
        assert forall|k: K::V| #[trigger] self.map().contains_key(k) implies exists|i: int|
            0 <= i < pairs.len() && pairs[i].0 == k by {
            let i = choose|i: int| 0 <= i < self.entries@.len() && self.entries@[i].0@ == k;
            assert(pairs[i].0 == k);
        }
    }

    /// The empty map.
    pub fn new() -> (m: Self)
        ensures
            m.wf(),
            m.map() == Map::<K::V, V>::empty(),
    {
        let m = SortedMap { entries: Vec::new() };
        assert(m.map() =~= Map::<K::V, V>::empty());
        m
    }

    /// The first position whose key does not come before `key`.
    fn position(&self, key: &K) -> (p: usize)
        requires
            self.wf(),
        ensures
            p <= self.entries@.len(),
            forall|i: int| 0 <= i < p ==> K::before(#[trigger] self.entries@[i].0@, key@),
            forall|i: int| p <= i < self.entries@.len() ==> !K::before(#[trigger] self.entries@[i].0@, key@),
    {
        let mut lo: usize = 0;
        let mut hi: usize = self.entries.len();
        while lo < hi
            invariant
                self.wf(),
                lo <= hi <= self.entries@.len(),
                forall|i: int| 0 <= i < lo ==> K::before(#[trigger] self.entries@[i].0@, key@),
                forall|i: int| hi <= i < self.entries@.len() ==> !K::before(#[trigger] self.entries@[i].0@, key@),
            decreases hi - lo,
        {
            let mid = lo + (hi - lo) / 2;
            let ghost pairs = keyed(self.entries@);
            if self.entries[mid].0.precedes(key) {
                assert forall|i: int| 0 <= i < mid + 1 implies K::before(#[trigger] self.entries@[i].0@, key@) by {
                    if i < mid {
                        assert(K::before(pairs[i].0, pairs[mid as int].0));
                        K::before_transitive(pairs[i].0, pairs[mid as int].0, key@);
                    }
                }
                lo = mid + 1;
            } else {
                assert forall|i: int| mid <= i < self.entries@.len() implies !K::before(
                    #[trigger] self.entries@[i].0@,
                    key@,
                ) by {
                    if i > mid && K::before(self.entries@[i].0@, key@) {
                        assert(K::before(pairs[mid as int].0, pairs[i].0));
                        K::before_transitive(pairs[mid as int].0, pairs[i].0, key@);
                    }
                }
                hi = mid;
            }
        }
        lo
    }

    /// The position of `key`, or where it would stand.
    fn locate(&self, key: &K) -> (r: (usize, bool))
        requires
            self.wf(),
        ensures
            r.0 <= self.entries@.len(),
            forall|i: int| 0 <= i < r.0 ==> K::before(#[trigger] self.entries@[i].0@, key@),
            r.1 ==> r.0 < self.entries@.len() && self.entries@[r.0 as int].0@ == key@,
            !r.1 ==> forall|i: int| r.0 <= i < self.entries@.len() ==> K::before(key@, #[trigger] self.entries@[i].0@),
            r.1 == self.map().contains_key(key@),
            r.1 ==> self.map()[key@] == self.entries@[r.0 as int].1,
    {
        let p = self.position(key);
        let found = p < self.entries.len() && !key.precedes(&self.entries[p].0);
        proof {
            let pairs = keyed(self.entries@);
            if found {
                K::before_total(self.entries@[p as int].0@, key@);
                self.entry_in_map(p as int);
            } else {
                assert forall|i: int| p <= i < self.entries@.len() implies K::before(
                    key@,
                    #[trigger] self.entries@[i].0@,
                ) by {
                    if i > p {
                        assert(K::before(pairs[p as int].0, pairs[i].0));
                        K::before_transitive(key@, pairs[p as int].0, pairs[i].0);
                    }
                }
                if self.map().contains_key(key@) {
                    let i = choose|i: int| 0 <= i < self.entries@.len() && self.entries@[i].0@ == key@;
                    K::before_irreflexive(key@);
                    assert(false);
                }
            }
        }
        (p, found)
    }

    /// The value kept for `key`.
    pub fn get(&self, key: &K) -> (v: Option<&V>)
        requires
            self.wf(),
        ensures
            match v {
                Some(x) => self.map().contains_pair(key@, *x),
                None => !self.map().contains_key(key@),
            },
    {
        let (p, found) = self.locate(key);
        if found {
            Some(&self.entries[p].1)
        } else {
            None
        }
    }

    /// Keeps `value` for `key`.
    pub fn set(&mut self, key: K, value: V)
        requires
            old(self).wf(),
        ensures
            final(self).wf(),
            final(self).map() == old(self).map().insert(key@, value),
    {
        let (p, found) = self.locate(&key);
        let ghost before = *self;
        let ghost k = key@;
        if found {
            self.entries.set(p, (key, value));
        } else {
            self.entries.insert(p, (key, value));
        }
        proof {
            let was = keyed(before.entries@);
            let now = keyed(self.entries@);
            assert(before.wf());
            if found {
                assert forall|i: int, j: int| 0 <= i < j < now.len() implies K::before(
                    #[trigger] now[i].0,
                    #[trigger] now[j].0,
                ) by {
                    assert(K::before(was[i].0, was[j].0));
                }
            } else {
                assert forall|i: int, j: int| 0 <= i < j < now.len() implies K::before(
                    #[trigger] now[i].0,
                    #[trigger] now[j].0,
                ) by {
                    if i < p && j > p {
                        assert(K::before(was[i].0, was[j - 1].0));
                    } else if i < p && j < p {
                        assert(K::before(was[i].0, was[j].0));
                    } else if i > p {
                        assert(K::before(was[i - 1].0, was[j - 1].0));
                    } else if i == p {
                        assert(before.entries@[j - 1].0@ == now[j].0);
                    } else {
                        assert(before.entries@[i].0@ == now[i].0);
                    }
                }
            }
            assert(self.wf());
            let want = before.map().insert(k, value);
            assert forall|q: K::V| #[trigger] self.map().contains_key(q) <==> want.contains_key(q) by {
                if self.map().contains_key(q) {
                    let i = choose|i: int| 0 <= i < self.entries@.len() && self.entries@[i].0@ == q;
                    if q != k {
                        let b = if found || i < p { i } else { i - 1 };
                        assert(before.entries@[b].0@ == q);
                        before.entry_in_map(b);
                    }
                }
                if want.contains_key(q) {
                    if q == k {
                        assert(self.entries@[p as int].0@ == q);
                    } else {
                        let b = choose|b: int| 0 <= b < before.entries@.len() && before.entries@[b].0@ == q;
                        let i = if found || b < p { b } else { b + 1 };
                        assert(self.entries@[i].0@ == q);
                    }
                }
            }
            assert forall|q: K::V| #[trigger] self.map().contains_key(q) implies self.map()[q] == want[q] by {
                let i = choose|i: int| 0 <= i < self.entries@.len() && self.entries@[i].0@ == q;
                self.entry_in_map(i);
                if q == k {
                    self.entry_in_map(p as int);
                } else {
                    let b = if found || i < p { i } else { i - 1 };
                    assert(before.entries@[b] == self.entries@[i]);
                    before.entry_in_map(b);
                }
            }
            assert(self.map() =~= want);
        }
    }

    /// The number of keys.
    pub fn len(&self) -> (n: usize)
        requires
            self.wf(),
        ensures
            n == listing::<K, V>(self.map()).len(),
    {
        proof {
            self.entries_list_map();
            listing_is_unique::<K, V>(keyed(self.entries@), self.map());
        }
        self.entries.len()
    }

    /// The entries in key order.
    pub fn pairs(&self) -> (entries: &Vec<(K, V)>)
        requires
            self.wf(),
        ensures
            lists::<K, V>(keyed(entries@), self.map()),
            keyed(entries@) == listing::<K, V>(self.map()),
    {
        proof {
            self.entries_list_map();
            listing_is_unique::<K, V>(keyed(self.entries@), self.map());
        }
        &self.entries
    }

    /// Hands out the entries in key order.
    pub fn into_pairs(self) -> (entries: Vec<(K, V)>)
        requires
            self.wf(),
        ensures
            lists::<K, V>(keyed(entries@), self.map()),
            keyed(entries@) == listing::<K, V>(self.map()),
    {
        proof {
            self.entries_list_map();
            listing_is_unique::<K, V>(keyed(self.entries@), self.map());
        }
        self.entries
    }
}

/// A count, which stops at the largest value that it can take.
pub open spec fn clipped(n: nat) -> i64 {
    if n <= i64::MAX {
        n as i64
    } else {
        i64::MAX
    }
}

/// How often each item of a sequence occurs.
pub open spec fn tally<A>(items: Seq<A>) -> Map<A, i64> {
    Map::new(|x: A| items.contains(x), |x: A| clipped(items.to_multiset().count(x)))
}

/// One more item adds one to its own count, unless that is full, and leaves the others.
pub proof fn tally_push<A>(items: Seq<A>, x: A)
    ensures
        tally(items.push(x)) == tally(items).insert(
            x,
            if !tally(items).contains_key(x) {
                1i64
            } else if tally(items)[x] < i64::MAX {
                (tally(items)[x] + 1) as i64
            } else {
                i64::MAX
            },
        ),
        tally(items).contains_key(x) ==> 0 < tally(items)[x] && tally(items)[x] <= items.len(),
{
    broadcast use vstd::seq_lib::group_to_multiset_ensures;
    broadcast use vstd::multiset::group_multiset_axioms;

    let more = items.push(x);
    assert forall|y: A| #[trigger] more.contains(y) <==> items.contains(y) || y == x by {
        if items.contains(y) {
            let i = items.index_of(y);
            assert(more[i] == y);
        }
        assert(more[items.len() as int] == x);
    }
    assert(items.to_multiset().len() == items.len());
    assert(more.to_multiset() =~= items.to_multiset().insert(x));
    if !items.contains(x) {
        assert(items.to_multiset().count(x) == 0);
    } else {
        assert(items.to_multiset().count(x) > 0);
    }
    assert(tally(more) =~= tally(items).insert(
        x,
        if !tally(items).contains_key(x) {
            1i64
        } else if tally(items)[x] < i64::MAX {
            (tally(items)[x] + 1) as i64
        } else {
            i64::MAX
        },
    ));
}

/// An item that occurs is counted at least once.
pub proof fn tally_holds<A>(items: Seq<A>, x: A)
    requires
        items.contains(x),
    ensures
        tally(items).contains_key(x),
        0 < tally(items)[x] <= items.len(),
{
    broadcast use vstd::seq_lib::group_to_multiset_ensures;
    broadcast use vstd::multiset::group_multiset_axioms;

    assert(items.to_multiset().count(x) > 0);
    assert(items.to_multiset().len() == items.len());
}

/// There are no more different items than items.
pub proof fn tally_size<A>(items: Seq<A>)
    ensures
        tally(items).dom().finite(),
        tally(items).dom().len() <= items.len(),
{
    items.lemma_cardinality_of_set();
    assert(tally(items).dom() =~= items.to_set());
}

impl<K: Key> SortedMap<K, i64> {
    /// Counts one more occurrence of `key`.
    pub(crate) fn count(&mut self, key: K, Ghost(items): Ghost<Seq<K::V>>)
        requires
            old(self).wf(),
            old(self).map() == tally(items),
        ensures
            final(self).wf(),
            final(self).map() == tally(items.push(key@)),
    {
        proof {
            tally_push(items, key@);
        }
        let n: i64 = match self.get(&key) {
            Some(c) => if *c < i64::MAX {
                *c + 1
            } else {
                *c
            },
            None => 1,
        };
        self.set(key, n);
    }
}

/// The pair with key and value replaced by what they stand for.
pub open spec fn pair_view<K: View, V: View>(p: (K, V)) -> (K::V, V::V) {
    (p.0@, p.1@)
}

/// `a` may stand ahead of `b`: the larger value first, and on equal values the smaller key.
pub open spec fn ranks<K: Key, V: Key>(a: (K::V, V::V), b: (K::V, V::V)) -> bool {
    V::before(b.1, a.1) || (a.1 == b.1 && (a.0 == b.0 || K::before(a.0, b.0)))
}

/// Every pair may stand ahead of those after it.
pub open spec fn in_rank_order<K: Key, V: Key>(pairs: Seq<(K, V)>) -> bool {
    forall|i: int, j: int|
        0 <= i < j < pairs.len() ==> ranks::<K, V>(#[trigger] pair_view(pairs[i]), #[trigger] pair_view(pairs[j]))
}

proof fn ranks_total<K: Key, V: Key>(a: (K::V, V::V), b: (K::V, V::V))
    ensures
        ranks::<K, V>(a, b) || ranks::<K, V>(b, a),
{
    V::before_total(a.1, b.1);
    K::before_total(a.0, b.0);
}

proof fn ranks_transitive<K: Key, V: Key>(a: (K::V, V::V), b: (K::V, V::V), c: (K::V, V::V))
    requires
        ranks::<K, V>(a, b),
        ranks::<K, V>(b, c),
    ensures
        ranks::<K, V>(a, c),
{
    if V::before(b.1, a.1) && V::before(c.1, b.1) {
        V::before_transitive(c.1, b.1, a.1);
    }
    if K::before(a.0, b.0) && K::before(b.0, c.0) {
        K::before_transitive(a.0, b.0, c.0);
    }
}

fn may_lead<K: Key, V: Key>(a: &(K, V), b: &(K, V)) -> (r: bool)
    ensures
        r == ranks::<K, V>(pair_view(*a), pair_view(*b)),
{
    proof {
        V::before_total(a.1@, b.1@);
        K::before_total(a.0@, b.0@);
        V::before_irreflexive(a.1@);
        K::before_irreflexive(a.0@);
        if V::before(a.1@, b.1@) && V::before(b.1@, a.1@) {
            V::before_transitive(a.1@, b.1@, a.1@);
        }
        if K::before(a.0@, b.0@) && K::before(b.0@, a.0@) {
            K::before_transitive(a.0@, b.0@, a.0@);
        }
    }
    if b.1.precedes(&a.1) {
        true
    } else if a.1.precedes(&b.1) {
        false
    } else {
        !b.0.precedes(&a.0)
    }
}

fn reversed<T>(items: Vec<T>) -> (out: Vec<T>)
    ensures
        out@.len() == items@.len(),
        forall|i: int| 0 <= i < out@.len() ==> #[trigger] out@[i] == items@[items@.len() - 1 - i],
        out@.to_multiset() == items@.to_multiset(),
{
    broadcast use vstd::seq_lib::group_to_multiset_ensures;
    broadcast use vstd::multiset::group_multiset_axioms;

    let ghost all = items@;
    let mut rest = items;
    let mut out: Vec<T> = Vec::new();
    assert(out@.to_multiset() =~= Multiset::empty());
    while rest.len() > 0
        invariant
            rest@.len() + out@.len() == all.len(),
            rest@ == all.take(rest@.len() as int),
            forall|i: int| 0 <= i < out@.len() ==> #[trigger] out@[i] == all[all.len() - 1 - i],
            rest@.to_multiset().add(out@.to_multiset()) == all.to_multiset(),
        decreases rest@.len(),
    {
        broadcast use vstd::seq_lib::group_to_multiset_ensures;
        broadcast use vstd::multiset::group_multiset_axioms;

        let ghost was = rest@;
        let ghost so_far = out@;
        let x = rest.pop().unwrap();
        out.push(x);
        proof {
            assert(was =~= rest@.push(x));
            assert(was.to_multiset() =~= rest@.to_multiset().insert(x));
            assert(rest@.to_multiset().add(out@.to_multiset()) =~= was.to_multiset().add(so_far.to_multiset()));
        }
    }
    assert(rest@.to_multiset() =~= Multiset::empty());
    assert(out@.to_multiset() =~= all.to_multiset());
    out
}

/// Merges two ranked lists into one.
fn merge<K: Key, V: Key>(left: Vec<(K, V)>, right: Vec<(K, V)>) -> (out: Vec<(K, V)>)
    requires
        in_rank_order::<K, V>(left@),
        in_rank_order::<K, V>(right@),
    ensures
        in_rank_order::<K, V>(out@),
        out@.to_multiset() == left@.to_multiset().add(right@.to_multiset()),
{
    broadcast use vstd::seq_lib::group_to_multiset_ensures;
    broadcast use vstd::multiset::group_multiset_axioms;

    let ghost total = left@.to_multiset().add(right@.to_multiset());
    let mut a = left;
    let mut b = right;
    let mut tail: Vec<(K, V)> = Vec::new();
    assert(a@.to_multiset().add(b@.to_multiset()).add(tail@.to_multiset()) =~= total);
    while a.len() > 0 || b.len() > 0
        invariant
            in_rank_order::<K, V>(a@),
            in_rank_order::<K, V>(b@),
            forall|i: int, j: int|
                0 <= i < j < tail@.len() ==> ranks::<K, V>(#[trigger] pair_view(tail@[j]), #[trigger] pair_view(tail@[i])),
            forall|i: int, j: int|
                0 <= i < a@.len() && 0 <= j < tail@.len() ==> ranks::<K, V>(
                    #[trigger] pair_view(a@[i]),
                    #[trigger] pair_view(tail@[j]),
                ),
            forall|i: int, j: int|
                0 <= i < b@.len() && 0 <= j < tail@.len() ==> ranks::<K, V>(
                    #[trigger] pair_view(b@[i]),
                    #[trigger] pair_view(tail@[j]),
                ),
            a@.to_multiset().add(b@.to_multiset()).add(tail@.to_multiset()) == total,
        decreases a@.len() + b@.len(),
    {
        broadcast use vstd::seq_lib::group_to_multiset_ensures;
        broadcast use vstd::multiset::group_multiset_axioms;

        let from_a = if b.len() == 0 {
            true
        } else if a.len() == 0 {
            false
        } else {
            !may_lead(&a[a.len() - 1], &b[b.len() - 1])
        };
        let ghost a0 = a@;
        let ghost b0 = b@;
        let ghost t0 = tail@;
        if from_a {
            let x = a.pop().unwrap();
            tail.push(x);
            proof {
                assert(a0 =~= a@.push(x));
                assert(a0.to_multiset() =~= a@.to_multiset().insert(x));
                assert forall|i: int| 0 <= i < a@.len() implies ranks::<K, V>(#[trigger] pair_view(a@[i]), pair_view(x)) by {
                    assert(ranks::<K, V>(pair_view(a0[i]), pair_view(a0[a0.len() - 1])));
                }
                assert forall|i: int| 0 <= i < b@.len() implies ranks::<K, V>(#[trigger] pair_view(b@[i]), pair_view(x)) by {
                    let bl = b0[b0.len() - 1];
                    ranks_total::<K, V>(pair_view(bl), pair_view(x));
                    if i < b0.len() - 1 {
                        assert(ranks::<K, V>(pair_view(b0[i]), pair_view(b0[b0.len() - 1])));
                        ranks_transitive::<K, V>(pair_view(b0[i]), pair_view(bl), pair_view(x));
                    }
                }
                assert forall|j: int| 0 <= j < t0.len() implies ranks::<K, V>(pair_view(x), #[trigger] pair_view(tail@[j])) by {
                    assert(ranks::<K, V>(pair_view(a0[a0.len() - 1]), pair_view(t0[j])));
                }
            }
        } else {
            let x = b.pop().unwrap();
            tail.push(x);
            proof {
                assert(b0 =~= b@.push(x));
                assert(b0.to_multiset() =~= b@.to_multiset().insert(x));
                assert forall|i: int| 0 <= i < b@.len() implies ranks::<K, V>(#[trigger] pair_view(b@[i]), pair_view(x)) by {
                    assert(ranks::<K, V>(pair_view(b0[i]), pair_view(b0[b0.len() - 1])));
                }
                assert forall|i: int| 0 <= i < a@.len() implies ranks::<K, V>(#[trigger] pair_view(a@[i]), pair_view(x)) by {
                    let al = a0[a0.len() - 1];
                    if i < a0.len() - 1 {
                        assert(ranks::<K, V>(pair_view(a0[i]), pair_view(a0[a0.len() - 1])));
                        ranks_transitive::<K, V>(pair_view(a0[i]), pair_view(al), pair_view(x));
                    }
                }
                assert forall|j: int| 0 <= j < t0.len() implies ranks::<K, V>(pair_view(x), #[trigger] pair_view(tail@[j])) by {
                    assert(ranks::<K, V>(pair_view(b0[b0.len() - 1]), pair_view(t0[j])));
                }
            }
        }
        assert(a@.to_multiset().add(b@.to_multiset()).add(tail@.to_multiset()) =~= a0.to_multiset().add(
            b0.to_multiset(),
        ).add(t0.to_multiset()));
    }
    assert(a@.to_multiset() =~= Multiset::empty());
    assert(b@.to_multiset() =~= Multiset::empty());
    assert(tail@.to_multiset() =~= total);
    reversed(tail)
}

/// Sorts pairs by rank.
pub fn sorted_by_rank<K: Key, V: Key>(pairs: Vec<(K, V)>) -> (out: Vec<(K, V)>)
    ensures
        in_rank_order::<K, V>(out@),
        out@.to_multiset() == pairs@.to_multiset(),
        out@.len() == pairs@.len(),
    decreases pairs@.len(),
{
    broadcast use vstd::seq_lib::group_to_multiset_ensures;
    broadcast use vstd::multiset::group_multiset_axioms;

    if pairs.len() <= 1 {
        return pairs;
    }
    let ghost all = pairs@;
    let mut left = pairs;
    let mid = left.len() / 2;
    let right = left.split_off(mid);
    let ghost l0 = left@;
    let ghost r0 = right@;
    proof {
        assert(all =~= l0 + r0);
        vstd::seq_lib::lemma_multiset_commutative(l0, r0);
    }
    let left = sorted_by_rank(left);
    let right = sorted_by_rank(right);
    let out = merge(left, right);
    assert(out@.to_multiset() =~= all.to_multiset());
    assert(out@.to_multiset().len() == all.to_multiset().len());
    out
}

/// The pairs are the entries of `map`, ranked: the larger count first, equal counts by key.
pub open spec fn ranks_map<K: Key>(pairs: Seq<(K::V, i64)>, map: Map<K::V, i64>) -> bool {
    &&& forall|i: int, j: int|
        0 <= i < j < pairs.len() ==> ranks::<K, i64>(#[trigger] pairs[i], #[trigger] pairs[j]) && pairs[i].0 != pairs[j].0
    &&& forall|i: int| 0 <= i < pairs.len() ==> map.contains_pair(#[trigger] pairs[i].0, pairs[i].1)
    &&& forall|k: K::V| #[trigger] map.contains_key(k) ==> exists|i: int| 0 <= i < pairs.len() && pairs[i].0 == k
}

/// The entries of `map`, ranked by count.
pub open spec fn ranking<K: Key>(map: Map<K::V, i64>) -> Seq<(K::V, i64)> {
    choose|pairs: Seq<(K::V, i64)>| ranks_map::<K>(pairs, map)
}

/// The sum of all counts of a map.
pub open spec fn map_sum<A>(map: Map<A, i64>) -> int
    decreases map.dom().len(),
    when map.dom().finite()
{
    if map.dom().len() == 0 {
        0
    } else {
        let k = map.dom().choose();
        map[k] + map_sum(map.remove(k))
    }
}

/// Any one count can be taken out of the sum.
pub proof fn map_sum_without<A>(map: Map<A, i64>, k: A)
    requires
        map.dom().finite(),
        map.contains_key(k),
    ensures
        map_sum(map) == map[k] + map_sum(map.remove(k)),
    decreases map.dom().len(),
{
    let c = map.dom().choose();
    assert(map.dom().contains(c));
    assert(map.remove(k).dom() =~= map.dom().remove(k));
    assert(map.remove(c).dom() =~= map.dom().remove(c));
    if c != k {
        map_sum_without(map.remove(c), k);
        map_sum_without(map.remove(k), c);
        assert(map.remove(c).remove(k) =~= map.remove(k).remove(c));
    }
}

/// The count of a key in a map, or zero.
pub open spec fn count_in<A>(map: Map<A, i64>, k: A) -> int {
    if map.contains_key(k) {
        map[k] as int
    } else {
        0
    }
}

/// A new count of a key takes the place of its old one in the sum.
pub proof fn map_sum_with<A>(map: Map<A, i64>, k: A, n: i64)
    requires
        map.dom().finite(),
    ensures
        map.insert(k, n).dom().finite(),
        map_sum(map.insert(k, n)) == map_sum(map) - count_in(map, k) + n,
{
    let new = map.insert(k, n);
    assert(new.dom() =~= map.dom().insert(k));
    map_sum_without(new, k);
    if map.contains_key(k) {
        map_sum_without(map, k);
        assert(new.remove(k) =~= map.remove(k));
    } else {
        assert(new.remove(k) =~= map);
    }
}

/// The counts of a listing add up to those of its map.
pub proof fn listing_sum<K: Key>(pairs: Seq<(K::V, i64)>, map: Map<K::V, i64>)
    requires
        map.dom().finite(),
        lists::<K, i64>(pairs, map),
    ensures
        seqs::sum(pairs.map_values(|p: (K::V, i64)| p.1)) == map_sum(map),
    decreases pairs.len(),
{
    let counts = pairs.map_values(|p: (K::V, i64)| p.1);
    if pairs.len() == 0 {
        assert(map.dom() =~= Set::empty()) by {
            assert forall|k: K::V| !map.dom().contains(k) by {
                if map.dom().contains(k) {
                    assert(map.contains_key(k));
                }
            }
        }
    } else {
        let n = pairs.len() - 1;
        let k = pairs[n].0;
        let less = pairs.drop_last();
        let rest = map.remove(k);
        assert(map.contains_pair(pairs[n].0, pairs[n].1));
        assert(rest.dom() =~= map.dom().remove(k));
        assert forall|i: int| 0 <= i < less.len() implies rest.contains_pair(#[trigger] less[i].0, less[i].1) by {
            assert(map.contains_pair(pairs[i].0, pairs[i].1));
            assert(K::before(pairs[i].0, pairs[n].0));
            K::before_irreflexive(k);
        }
        assert forall|q: K::V| #[trigger] rest.contains_key(q) implies exists|i: int|
            0 <= i < less.len() && less[i].0 == q by {
            assert(map.contains_key(q));
            let i = choose|i: int| 0 <= i < pairs.len() && pairs[i].0 == q;
            assert(less[i].0 == q);
        }
        assert(in_key_order::<K, i64>(less)) by {
            assert forall|i: int, j: int| 0 <= i < j < less.len() implies K::before(
                (#[trigger] less[i]).0,
                (#[trigger] less[j]).0,
            ) by {
                assert(K::before(pairs[i].0, pairs[j].0));
            }
        }
        listing_sum::<K>(less, rest);
        map_sum_without(map, k);
        assert(counts.drop_last() =~= less.map_values(|p: (K::V, i64)| p.1));
        assert(counts.last() == map[k]);
    }
}

/// Where a pair belongs among ranked pairs.
proof fn rank_place<K: Key>(pairs: Seq<(K::V, i64)>, p: (K::V, i64)) -> (j: int)
    requires
        forall|a: int, b: int|
            0 <= a < b < pairs.len() ==> ranks::<K, i64>(#[trigger] pairs[a], #[trigger] pairs[b]),
    ensures
        0 <= j <= pairs.len(),
        forall|a: int| 0 <= a < j ==> ranks::<K, i64>(#[trigger] pairs[a], p),
        forall|a: int| j <= a < pairs.len() ==> ranks::<K, i64>(p, #[trigger] pairs[a]),
    decreases pairs.len(),
{
    if pairs.len() == 0 {
        0
    } else if ranks::<K, i64>(pairs.last(), p) {
        let n = pairs.len() - 1;
        assert forall|a: int| 0 <= a < pairs.len() implies ranks::<K, i64>(#[trigger] pairs[a], p) by {
            if a < n {
                ranks_transitive::<K, i64>(pairs[a], pairs[n], p);
            }
        }
        pairs.len() as int
    } else {
        ranks_total::<K, i64>(pairs.last(), p);
        let less = pairs.drop_last();
        let j = rank_place::<K>(less, p);
        assert forall|a: int| 0 <= a < j implies ranks::<K, i64>(#[trigger] pairs[a], p) by {
            assert(less[a] == pairs[a]);
        }
        assert forall|a: int| j <= a < pairs.len() implies ranks::<K, i64>(p, #[trigger] pairs[a]) by {
            if a < less.len() {
                assert(less[a] == pairs[a]);
            }
        }
        j
    }
}

proof fn finite_map_has_ranking<K: Key>(map: Map<K::V, i64>)
    requires
        map.dom().finite(),
    ensures
        exists|pairs: Seq<(K::V, i64)>| ranks_map::<K>(pairs, map),
    decreases map.dom().len(),
{
    if map.dom().len() == 0 {
        assert(map.dom() =~= Set::empty());
        assert(ranks_map::<K>(Seq::empty(), map));
    } else {
        let k = map.dom().choose();
        assert(map.contains_key(k)) by {
            if forall|x: K::V| !map.dom().contains(x) {
                assert(map.dom() =~= Set::empty());
            }
        }
        let rest = map.remove(k);
        assert(rest.dom() =~= map.dom().remove(k));
        finite_map_has_ranking::<K>(rest);
        let pairs = choose|pairs: Seq<(K::V, i64)>| ranks_map::<K>(pairs, rest);
        let p = (k, map[k]);
        let j = rank_place::<K>(pairs, p);
        let all = pairs.insert(j, p);
        assert forall|i: int| 0 <= i < pairs.len() implies (#[trigger] pairs[i]).0 != k by {
            assert(rest.contains_pair(pairs[i].0, pairs[i].1));
        }
        assert forall|i: int| 0 <= i < all.len() implies map.contains_pair(#[trigger] all[i].0, all[i].1) by {
            if i < j {
                assert(all[i] == pairs[i]);
                assert(rest.contains_pair(pairs[i].0, pairs[i].1));
            } else if i > j {
                assert(all[i] == pairs[i - 1]);
                assert(rest.contains_pair(pairs[i - 1].0, pairs[i - 1].1));
            }
        }
        assert forall|x: K::V| #[trigger] map.contains_key(x) implies exists|i: int|
            0 <= i < all.len() && all[i].0 == x by {
            if x == k {
                assert(all[j].0 == x);
            } else {
                assert(rest.contains_key(x));
                let i = choose|i: int| 0 <= i < pairs.len() && pairs[i].0 == x;
                if i < j {
                    assert(all[i].0 == x);
                } else {
                    assert(all[i + 1].0 == x);
                }
            }
        }
        assert forall|a: int, b: int| 0 <= a < b < all.len() implies ranks::<K, i64>(
            #[trigger] all[a],
            #[trigger] all[b],
        ) && all[a].0 != all[b].0 by {
            if a < j {
                assert(all[a] == pairs[a]);
            } else if a > j {
                assert(all[a] == pairs[a - 1]);
            }
            if b < j {
                assert(all[b] == pairs[b]);
            } else if b > j {
                assert(all[b] == pairs[b - 1]);
            }
        }
        assert(ranks_map::<K>(all, map));
    }
}

/// A finite map has a ranking: its entries, each once, the larger counts first and equal counts in
/// the order of their keys.
pub proof fn ranking_ranks<K: Key>(map: Map<K::V, i64>)
    requires
        map.dom().finite(),
    ensures
        ranks_map::<K>(ranking::<K>(map), map),
{
    finite_map_has_ranking::<K>(map);
}

/// A ranking has as many rows as the map has keys.
pub proof fn ranking_size<K: Key>(pairs: Seq<(K::V, i64)>, map: Map<K::V, i64>)
    requires
        map.dom().finite(),
        ranks_map::<K>(pairs, map),
    ensures
        pairs.len() == map.dom().len(),
{
    let keys = pairs.map_values(|p: (K::V, i64)| p.0);
    assert forall|i: int, j: int| 0 <= i < keys.len() && 0 <= j < keys.len() && i != j implies keys[i] != keys[j] by {
        if i < j {
            assert(ranks::<K, i64>(pairs[i], pairs[j]));
        } else {
            assert(ranks::<K, i64>(pairs[j], pairs[i]));
        }
    }
    assert(keys.no_duplicates());
    keys.unique_seq_to_set();
    assert(keys.to_set() =~= map.dom()) by {
        assert forall|k: K::V| map.dom().contains(k) implies #[trigger] keys.to_set().contains(k) by {
            assert(map.contains_key(k));
            let i = choose|i: int| 0 <= i < pairs.len() && pairs[i].0 == k;
            assert(keys[i] == k);
        }
        assert forall|k: K::V| #[trigger] keys.to_set().contains(k) implies map.dom().contains(k) by {
            let i = keys.index_of(k);
            assert(keys[i] == k);
            assert(map.contains_pair(pairs[i].0, pairs[i].1));
        }
    }
}

/// A map has only one ranking.
pub proof fn ranking_is_unique<K: Key>(pairs: Seq<(K::V, i64)>, map: Map<K::V, i64>)
    requires
        ranks_map::<K>(pairs, map),
    ensures
        pairs == ranking::<K>(map),
{
    let other = ranking::<K>(map);
    assert(ranks_map::<K>(other, map));
    same_ranking::<K>(pairs, other, map);
}

proof fn same_ranking<K: Key>(a: Seq<(K::V, i64)>, b: Seq<(K::V, i64)>, map: Map<K::V, i64>)
    requires
        ranks_map::<K>(a, map),
        ranks_map::<K>(b, map),
    ensures
        a == b,
    decreases a.len(),
{
    if a.len() == 0 {
        if b.len() > 0 {
            assert(map.contains_pair(b[0].0, b[0].1));
            assert(map.contains_key(b[0].0));
        }
        assert(a =~= b);
    } else {
        let x = a.last();
        assert(map.contains_pair(a[a.len() - 1].0, a[a.len() - 1].1));
        assert(map.contains_key(x.0));
        let j = choose|j: int| 0 <= j < b.len() && b[j].0 == x.0;
        assert(map.contains_pair(b[j].0, b[j].1));
        if j < b.len() - 1 {
            let y = b[b.len() - 1];
            assert(map.contains_pair(y.0, y.1));
            assert(map.contains_key(y.0));
            let i = choose|i: int| 0 <= i < a.len() && a[i].0 == y.0;
            assert(map.contains_pair(a[i].0, a[i].1));
            assert(ranks::<K, i64>(b[j], b[b.len() - 1]));
            if i < a.len() - 1 {
                assert(ranks::<K, i64>(a[i], a[a.len() - 1]));
                if K::before(x.0, y.0) && K::before(y.0, x.0) {
                    K::before_transitive(x.0, y.0, x.0);
                }
            }
            K::before_irreflexive(x.0);
            assert(false);
        }
        let smaller = map.remove(x.0);
        let a1 = a.drop_last();
        let b1 = b.drop_last();
        assert forall|i: int| 0 <= i < a1.len() implies smaller.contains_pair(#[trigger] a1[i].0, a1[i].1) by {
            assert(map.contains_pair(a[i].0, a[i].1));
            assert(ranks::<K, i64>(a[i], a[a.len() - 1]));
        }
        assert forall|i: int| 0 <= i < b1.len() implies smaller.contains_pair(#[trigger] b1[i].0, b1[i].1) by {
            assert(map.contains_pair(b[i].0, b[i].1));
            assert(ranks::<K, i64>(b[i], b[b.len() - 1]));
        }
        assert forall|q: K::V| #[trigger] smaller.contains_key(q) implies exists|i: int|
            0 <= i < a1.len() && a1[i].0 == q by {
            assert(map.contains_key(q));
            let i = choose|i: int| 0 <= i < a.len() && a[i].0 == q;
            assert(a1[i].0 == q);
        }
        assert forall|q: K::V| #[trigger] smaller.contains_key(q) implies exists|i: int|
            0 <= i < b1.len() && b1[i].0 == q by {
            assert(map.contains_key(q));
            let i = choose|i: int| 0 <= i < b.len() && b[i].0 == q;
            assert(b1[i].0 == q);
        }
        same_ranking::<K>(a1, b1, smaller);
        assert(a =~= a1.push(x));
        assert(b =~= b1.push(x));
    }
}

/// Equal multisets hold the same items.
proof fn same_members<A>(a: Seq<A>, b: Seq<A>, x: A)
    requires
        a.to_multiset() == b.to_multiset(),
        a.contains(x),
    ensures
        b.contains(x),
{
    broadcast use vstd::seq_lib::group_to_multiset_ensures;

    assert(a.to_multiset().contains(x));
    assert(b.to_multiset().contains(x));
}

/// Ranks the entries of a map of counts.
pub fn ranked<K: Key>(map: SortedMap<K, i64>) -> (out: Vec<(K, i64)>)
    requires
        map.wf(),
    ensures
        ranks_map::<K>(keyed(out@), map.map()),
        keyed(out@) == ranking::<K>(map.map()),
{
    let ghost m = map.map();
    let pairs = map.into_pairs();
    let ghost all = pairs@;
    let out = sorted_by_rank(pairs);
    proof {
        let views = keyed(out@);
        let listed = keyed(all);
        assert forall|i: int, j: int| 0 <= i < all.len() && 0 <= j < all.len() && listed[i].0 == listed[j].0 implies i == j by {
            K::before_irreflexive(listed[i].0);
            if i < j {
                assert(K::before(listed[i].0, listed[j].0));
            } else if j < i {
                assert(K::before(listed[j].0, listed[i].0));
            }
        }
        assert forall|i: int, j: int| 0 <= i < all.len() && 0 <= j < all.len() && i != j implies all[i] != all[j] by {
            assert(listed[i].0 != listed[j].0);
        }
        assert(all.no_duplicates());
        all.lemma_multiset_has_no_duplicates();
        out@.lemma_multiset_has_no_duplicates_conv();
        assert forall|i: int| 0 <= i < views.len() implies m.contains_pair(#[trigger] views[i].0, views[i].1) by {
            assert(out@.contains(out@[i]));
            same_members(out@, all, out@[i]);
            let k = all.index_of(out@[i]);
            assert(m.contains_pair(listed[k].0, listed[k].1));
        }
        assert forall|i: int, j: int| 0 <= i < j < views.len() implies ranks::<K, i64>(
            #[trigger] views[i],
            #[trigger] views[j],
        ) && views[i].0 != views[j].0 by {
            assert(ranks::<K, i64>(pair_view(out@[i]), pair_view(out@[j])));
            assert(out@.contains(out@[i]));
            assert(out@.contains(out@[j]));
            same_members(out@, all, out@[i]);
            same_members(out@, all, out@[j]);
            let p = all.index_of(out@[i]);
            let q = all.index_of(out@[j]);
            assert(listed[p].0 == views[i].0);
            assert(listed[q].0 == views[j].0);
            assert(out@[i] != out@[j]);
            assert(p != q);
        }
        assert forall|k: K::V| #[trigger] m.contains_key(k) implies exists|i: int| 0 <= i < views.len() && views[i].0 == k by {
            let p = choose|p: int| 0 <= p < listed.len() && listed[p].0 == k;
            assert(all.contains(all[p]));
            same_members(all, out@, all[p]);
            let i = out@.index_of(all[p]);
            assert(views[i].0 == k);
        }
        ranking_is_unique::<K>(views, m);
    }
    out
}

/// `order` puts the positions of `keys` by falling key; equal keys keep their order.
pub open spec fn falling_order(order: Seq<usize>, keys: Seq<i64>) -> bool {
    &&& order.len() == keys.len()
    &&& forall|i: int| 0 <= i < order.len() ==> 0 <= #[trigger] order[i] < keys.len()
    &&& forall|i: int, j: int|
        0 <= i < j < order.len() ==> keys[#[trigger] order[i] as int] > keys[#[trigger] order[j] as int] || (
        keys[order[i] as int] == keys[order[j] as int] && order[i] < order[j])
}

/// Every position stands in a falling order exactly once.
pub proof fn falling_order_is_permutation(order: Seq<usize>, keys: Seq<i64>)
    requires
        falling_order(order, keys),
        keys.len() <= usize::MAX,
    ensures
        order.no_duplicates(),
        forall|p: usize| p < keys.len() ==> order.contains(p),
{
    assert(order.no_duplicates());
    order.unique_seq_to_set();
    let all = vstd::set_lib::set_int_range(0, keys.len() as int);
    vstd::set_lib::lemma_int_range(0, keys.len() as int);
    let ints = order.map_values(|p: usize| p as int);
    assert(ints.no_duplicates());
    ints.unique_seq_to_set();
    assert(ints.to_set().subset_of(all)) by {
        assert forall|x: int| ints.to_set().contains(x) implies all.contains(x) by {
            let i = ints.index_of(x);
            assert(ints[i] == order[i] as int);
        }
    }
    vstd::set_lib::lemma_subset_equality(ints.to_set(), all);
    assert forall|p: usize| p < keys.len() implies order.contains(p) by {
        assert(ints.to_set().contains(p as int));
        let i = ints.index_of(p as int);
        assert(order[i] == p);
    }
}

/// The positions of `keys` by falling key, equal keys in their own order.
pub fn falling(keys: &Vec<i64>) -> (order: Vec<usize>)
    ensures
        falling_order(order@, keys@),
{
    let mut pairs: Vec<(usize, i64)> = Vec::new();
    let mut i: usize = 0;
    while i < keys.len()
        invariant
            i <= keys@.len(),
            pairs@.len() == i,
            forall|k: int| 0 <= k < i ==> #[trigger] pairs@[k] == (k as usize, keys@[k]),
        decreases keys@.len() - i,
    {
        pairs.push((i, keys[i]));
        i = i + 1;
    }
    let ghost all = pairs@;
    let sorted = sorted_by_rank(pairs);
    proof {
        assert(all.no_duplicates());
        all.lemma_multiset_has_no_duplicates();
        sorted@.lemma_multiset_has_no_duplicates_conv();
        assert forall|k: int| 0 <= k < sorted@.len() implies (#[trigger] sorted@[k]).0 < keys@.len() && sorted@[k].1
            == keys@[sorted@[k].0 as int] by {
            assert(sorted@.contains(sorted@[k]));
            same_members(sorted@, all, sorted@[k]);
            let p = all.index_of(sorted@[k]);
            assert(all[p] == (p as usize, keys@[p]));
        }
    }
    let mut order: Vec<usize> = Vec::new();
    let mut j: usize = 0;
    while j < sorted.len()
        invariant
            j <= sorted@.len(),
            order@.len() == j,
            forall|k: int| 0 <= k < j ==> #[trigger] order@[k] == sorted@[k].0,
        decreases sorted@.len() - j,
    {
        order.push(sorted[j].0);
        j = j + 1;
    }
    proof {
        assert forall|a: int, b: int| 0 <= a < b < order@.len() implies keys@[#[trigger] order@[a] as int]
            > keys@[#[trigger] order@[b] as int] || (keys@[order@[a] as int] == keys@[order@[b] as int] && order@[a]
            < order@[b]) by {
            assert(ranks::<usize, i64>(pair_view(sorted@[a]), pair_view(sorted@[b])));
            assert(sorted@[a] != sorted@[b]);
        }
    }
    order
}

/// `order` puts the positions of `keys` by rising key; equal keys keep their order.
pub open spec fn rising_order(order: Seq<usize>, keys: Seq<i64>) -> bool {
    &&& order.len() == keys.len()
    &&& forall|i: int| 0 <= i < order.len() ==> 0 <= #[trigger] order[i] < keys.len()
    &&& forall|i: int, j: int|
        0 <= i < j < order.len() ==> keys[#[trigger] order[i] as int] < keys[#[trigger] order[j] as int] || (
        keys[order[i] as int] == keys[order[j] as int] && order[i] < order[j])
}

/// Every position stands in a rising order exactly once.
pub proof fn rising_order_is_permutation(order: Seq<usize>, keys: Seq<i64>)
    requires
        rising_order(order, keys),
        keys.len() <= usize::MAX,
    ensures
        order.no_duplicates(),
        forall|p: usize| p < keys.len() ==> order.contains(p),
{
    let mirrored = keys.map_values(|k: i64| (-1 - k) as i64);
    assert forall|i: int, j: int| 0 <= i < j < order.len() implies mirrored[#[trigger] order[i] as int]
        > mirrored[#[trigger] order[j] as int] || (mirrored[order[i] as int] == mirrored[order[j] as int] && order[i]
        < order[j]) by {
        assert(keys[order[i] as int] < keys[order[j] as int] || (keys[order[i] as int] == keys[order[j] as int]
            && order[i] < order[j]));
    }
    falling_order_is_permutation(order, mirrored);
}

/// The positions of `keys` by rising key, equal keys in their own order.
pub fn rising_positions(keys: &Vec<i64>) -> (order: Vec<usize>)
    ensures
        rising_order(order@, keys@),
{
    let mut mirrored: Vec<i64> = Vec::new();
    let mut i: usize = 0;
    while i < keys.len()
        invariant
            i <= keys@.len(),
            mirrored@.len() == i,
            forall|k: int| 0 <= k < i ==> #[trigger] mirrored@[k] == -1 - keys@[k],
        decreases keys@.len() - i,
    {
        mirrored.push(-1 - keys[i]);
        i = i + 1;
    }
    let order = falling(&mirrored);
    proof {
        assert forall|i: int, j: int| 0 <= i < j < order@.len() implies keys@[#[trigger] order@[i] as int]
            < keys@[#[trigger] order@[j] as int] || (keys@[order@[i] as int] == keys@[order@[j] as int] && order@[i]
            < order@[j]) by {
            assert(mirrored@[order@[i] as int] == -1 - keys@[order@[i] as int]);
            assert(mirrored@[order@[j] as int] == -1 - keys@[order@[j] as int]);
        }
    }
    order
}

/// Mapping equal multisets gives equal multisets.
pub proof fn map_keeps_multiset<A, B>(a: Seq<A>, b: Seq<A>, f: spec_fn(A) -> B)
    requires
        a.to_multiset() == b.to_multiset(),
    ensures
        a.map_values(f).to_multiset() == b.map_values(f).to_multiset(),
    decreases a.len(),
{
    broadcast use vstd::seq_lib::group_to_multiset_ensures;
    broadcast use vstd::multiset::group_multiset_axioms;

    assert(a.to_multiset().len() == a.len());
    assert(b.to_multiset().len() == b.len());
    if a.len() == 0 {
        assert(a.map_values(f) =~= b.map_values(f));
    } else {
        let x = a.last();
        assert(a.contains(a[a.len() - 1]));
        same_members(a, b, x);
        let j = b.index_of(x);
        let a1 = a.drop_last();
        let b1 = b.remove(j);
        assert(a =~= a1.push(x));
        assert(a1.to_multiset() =~= a.to_multiset().remove(x));
        assert(b1.to_multiset() =~= b.to_multiset().remove(x));
        map_keeps_multiset(a1, b1, f);
        assert(a.map_values(f) =~= a1.map_values(f).push(f(x)));
        assert(b.map_values(f).remove(j) =~= b1.map_values(f));
        assert(b.map_values(f)[j] == f(x));
        assert(a.map_values(f).to_multiset() =~= a1.map_values(f).to_multiset().insert(f(x)));
        assert(b1.map_values(f).to_multiset() =~= b.map_values(f).to_multiset().remove(f(x)));
        assert(b.map_values(f).to_multiset().count(f(x)) > 0);
        assert(b.map_values(f).to_multiset() =~= b1.map_values(f).to_multiset().insert(f(x)));
    }
}

/// Sorts keys in rising order.
pub fn rising<K: Key>(keys: Vec<K>) -> (out: Vec<K>)
    ensures
        out@.to_multiset() == keys@.to_multiset(),
        out@.len() == keys@.len(),
        forall|i: int, j: int|
            0 <= i < j < out@.len() ==> (#[trigger] out@[i])@ == (#[trigger] out@[j])@ || K::before(out@[i]@, out@[j]@),
{
    let ghost all = keys@;
    let mut rest = keys;
    let mut pairs: Vec<(K, i64)> = Vec::new();
    let ghost first = |p: (K, i64)| p.0;
    proof {
        assert(all.take(all.len() as int) =~= all);
    }
    while rest.len() > 0
        invariant
            rest@.len() <= all.len(),
            rest@ == all.take(rest@.len() as int),
            pairs@.len() + rest@.len() == all.len(),
            forall|k: int| 0 <= k < pairs@.len() ==> #[trigger] pairs@[k] == (all[all.len() - 1 - k], 0i64),
        decreases rest@.len(),
    {
        let x = rest.pop().unwrap();
        pairs.push((x, 0));
    }
    let ghost back = pairs@;
    let sorted = sorted_by_rank(pairs);
    let ghost done = sorted@;
    proof {
        assert(back.map_values(first) =~= all.reverse());
        all.lemma_reverse_to_multiset();
        map_keeps_multiset(done, back, first);
        assert forall|k: int| 0 <= k < done.len() implies (#[trigger] done[k]).1 == 0 by {
            assert(done.contains(done[k]));
            same_members(done, back, done[k]);
            let p = back.index_of(done[k]);
            assert(back[p].1 == 0);
        }
    }
    let mut left = sorted;
    let mut out: Vec<K> = Vec::new();
    assert(done.take(done.len() as int) =~= done);
    while left.len() > 0
        invariant
            left@.len() <= done.len(),
            left@ == done.take(left@.len() as int),
            out@.len() + left@.len() == done.len(),
            forall|k: int| 0 <= k < out@.len() ==> #[trigger] out@[k] == done[done.len() - 1 - k].0,
        decreases left@.len(),
    {
        let p = left.pop().unwrap();
        out.push(p.0);
    }
    let ghost turned = out@;
    let out = reversed(out);
    proof {
        assert(out@ =~= done.map_values(first));
        assert forall|i: int, j: int| 0 <= i < j < out@.len() implies (#[trigger] out@[i])@ == (#[trigger] out@[j])@
            || K::before(out@[i]@, out@[j]@) by {
            assert(ranks::<K, i64>(pair_view(done[i]), pair_view(done[j])));
        }
    }
    out
}

}
