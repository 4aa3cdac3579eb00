//! Counting, filtering and summing over sequences.

use vstd::prelude::*;

verus! {

/// How many items of `s` have the property `p`.
pub open spec fn count_if<A>(s: Seq<A>, p: spec_fn(A) -> bool) -> nat
    decreases s.len(),
{
    if s.len() == 0 {
        0
    } else {
        count_if(s.drop_last(), p) + if p(s.last()) {
            1nat
        } else {
            0nat
        }
    }
}

/// The items of `s` that have the property `p`, in their order.
pub open spec fn kept<A>(s: Seq<A>, p: spec_fn(A) -> bool) -> Seq<A>
    decreases s.len(),
{
    if s.len() == 0 {
        Seq::empty()
    } else if p(s.last()) {
        kept(s.drop_last(), p).push(s.last())
    } else {
        kept(s.drop_last(), p)
    }
}

/// The sum of the numbers of `s`.
pub open spec fn sum(s: Seq<i64>) -> int
    decreases s.len(),
{
    if s.len() == 0 {
        0
    } else {
        sum(s.drop_last()) + s.last()
    }
}

/// One more item changes the count by at most one.
pub proof fn count_step<A>(s: Seq<A>, i: int, p: spec_fn(A) -> bool)
    requires
        0 <= i < s.len(),
    ensures
        count_if(s.take(i + 1), p) == count_if(s.take(i), p) + if p(s[i]) {
            1nat
        } else {
            0nat
        },
{
    assert(s.take(i + 1).drop_last() =~= s.take(i));
}

/// No more items are counted than there are.
pub proof fn count_at_most<A>(s: Seq<A>, p: spec_fn(A) -> bool)
    ensures
        count_if(s, p) <= s.len(),
    decreases s.len(),
{
    if s.len() > 0 {
        count_at_most(s.drop_last(), p);
    }
}

/// One more item is kept or left out.
pub proof fn kept_step<A>(s: Seq<A>, i: int, p: spec_fn(A) -> bool)
    requires
        0 <= i < s.len(),
    ensures
        kept(s.take(i + 1), p) == if p(s[i]) {
            kept(s.take(i), p).push(s[i])
        } else {
            kept(s.take(i), p)
        },
{
    assert(s.take(i + 1).drop_last() =~= s.take(i));
}

/// As many items are kept as are counted, and each of them has the property.
pub proof fn kept_items<A>(s: Seq<A>, p: spec_fn(A) -> bool)
    ensures
        kept(s, p).len() == count_if(s, p),
        kept(s, p).len() <= s.len(),
        forall|i: int| 0 <= i < kept(s, p).len() ==> p(#[trigger] kept(s, p)[i]),
        forall|i: int| 0 <= i < kept(s, p).len() ==> s.contains(#[trigger] kept(s, p)[i]),
    decreases s.len(),
{
    if s.len() > 0 {
        kept_items(s.drop_last(), p);
        assert forall|i: int| 0 <= i < kept(s, p).len() implies s.contains(#[trigger] kept(s, p)[i]) by {
            if i < kept(s.drop_last(), p).len() {
                let x = kept(s.drop_last(), p)[i];
                assert(s.drop_last().contains(x));
                let j = s.drop_last().index_of(x);
                assert(s[j] == x);
            } else {
                assert(s[s.len() - 1] == s.last());
            }
        }
    }
}

/// One more number adds itself.
pub proof fn sum_step(s: Seq<i64>, i: int)
    requires
        0 <= i < s.len(),
    ensures
        sum(s.take(i + 1)) == sum(s.take(i)) + s[i],
{
    assert(s.take(i + 1).drop_last() =~= s.take(i));
}

/// Numbers that are not negative add up: no prefix sums to more than the whole.
pub proof fn sum_grows(s: Seq<i64>, i: int)
    requires
        0 <= i <= s.len(),
        forall|k: int| 0 <= k < s.len() ==> #[trigger] s[k] >= 0,
    ensures
        0 <= sum(s.take(i)) <= sum(s),
    decreases s.len(),
{
    if s.len() > 0 {
        let less = s.drop_last();
        assert forall|k: int| 0 <= k < less.len() implies #[trigger] less[k] >= 0 by {
            assert(less[k] == s[k]);
        }
        assert(s[s.len() - 1] >= 0);
        if i == s.len() {
            sum_grows(less, less.len() as int);
            assert(less.take(less.len() as int) =~= less);
            assert(s.take(i) =~= s);
        } else {
            sum_grows(less, i);
            assert(less.take(i) =~= s.take(i));
        }
    } else {
        assert(s.take(i) =~= s);
    }
}

/// What two properties count apart, of items that have exactly one of them, adds up to all.
pub proof fn counts_split<A>(s: Seq<A>, p: spec_fn(A) -> bool, q: spec_fn(A) -> bool)
    requires
        forall|i: int| 0 <= i < s.len() ==> p(#[trigger] s[i]) == !q(s[i]),
    ensures
        count_if(s, p) + count_if(s, q) == s.len(),
    decreases s.len(),
{
    if s.len() > 0 {
        let less = s.drop_last();
        assert forall|i: int| 0 <= i < less.len() implies p(#[trigger] less[i]) == !q(less[i]) by {
            assert(less[i] == s[i]);
        }
        counts_split(less, p, q);
        assert(s[s.len() - 1] == s.last());
    }
}

/// Sums add up over parts.
pub proof fn sum_of_parts(a: Seq<i64>, b: Seq<i64>)
    ensures
        sum(a + b) == sum(a) + sum(b),
    decreases b.len(),
{
    if b.len() == 0 {
        assert(a + b =~= a);
    } else {
        sum_of_parts(a, b.drop_last());
        assert((a + b).drop_last() =~= a + b.drop_last());
    }
}

/// Changing one number changes the sum by the difference.
pub proof fn sum_update(s: Seq<i64>, i: int, x: i64)
    requires
        0 <= i < s.len(),
    ensures
        sum(s.update(i, x)) == sum(s) - s[i] + x,
    decreases s.len(),
{
    let t = s.update(i, x);
    if i == s.len() - 1 {
        assert(t.drop_last() =~= s.drop_last());
    } else {
        sum_update(s.drop_last(), i, x);
        assert(t.drop_last() =~= s.drop_last().update(i, x));
    }
}

/// Zeros sum to zero.
pub proof fn sum_zeros(s: Seq<i64>)
    requires
        forall|i: int| 0 <= i < s.len() ==> #[trigger] s[i] == 0,
    ensures
        sum(s) == 0,
    decreases s.len(),
{
    if s.len() > 0 {
        assert(s[s.len() - 1] == 0);
        assert forall|i: int| 0 <= i < s.drop_last().len() implies #[trigger] s.drop_last()[i] == 0 by {
            assert(s[i] == 0);
        }
        sum_zeros(s.drop_last());
    }
}

/// The largest number of `s`, or zero where there is none.
pub open spec fn max_of(s: Seq<i64>) -> i64
    decreases s.len(),
{
    if s.len() == 0 {
        0
    } else if s.len() == 1 || s.last() >= max_of(s.drop_last()) {
        s.last()
    } else {
        max_of(s.drop_last())
    }
}

/// The largest number stands in the sequence and no number is larger.
pub proof fn max_of_bounds(s: Seq<i64>)
    requires
        s.len() > 0,
    ensures
        s.contains(max_of(s)),
        forall|i: int| 0 <= i < s.len() ==> #[trigger] s[i] <= max_of(s),
    decreases s.len(),
{
    let less = s.drop_last();
    assert(s[s.len() - 1] == s.last());
    if s.len() > 1 {
        max_of_bounds(less);
        assert forall|i: int| 0 <= i < s.len() implies #[trigger] s[i] <= max_of(s) by {
            if i < less.len() {
                assert(less[i] == s[i]);
            }
        }
        let k = less.index_of(max_of(less));
        assert(s[k] == max_of(less));
    }
}

/// The largest number of a slice, or zero where there is none.
pub fn largest(s: &[i64]) -> (m: i64)
    ensures
        m == max_of(s@),
{
    let mut m: i64 = 0;
    let mut i: usize = 0;
    while i < s.len()
        invariant
            i <= s@.len(),
            m == max_of(s@.take(i as int)),
        decreases s@.len() - i,
    {
        assert(s@.take(i + 1).drop_last() =~= s@.take(i as int));
        if i == 0 || s[i] >= m {
            m = s[i];
        }
        i = i + 1;
    }
    assert(s@.take(i as int) =~= s@);
    m
}

}
