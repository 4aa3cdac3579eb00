//! What is done to texts.

use vstd::prelude::*;

use crate::ordered;
use crate::seqs;
use crate::text;

verus! {

/// A text that is padded keeps its characters, on the side that is told, and is as wide as asked for; one
/// that is wider already stays.
pub proof fn padding_keeps_the_text(t: Seq<char>, fill: char, width: int)
    ensures
        t.len() >= width ==> text::pad_left(t, fill, width) == t && text::pad_right(t, width) == t,
        t.len() < width ==> text::pad_left(t, fill, width).len() == width && text::pad_right(t, width).len() == width,
        t.len() < width ==> text::pad_left(t, fill, width).skip(width - t.len()) == t && text::pad_right(
            t,
            width,
        ).take(t.len() as int) == t,
        forall|i: int| 0 <= i < width - t.len() ==> #[trigger] text::pad_left(t, fill, width)[i] == fill,
        forall|i: int| t.len() <= i < width ==> #[trigger] text::pad_right(t, width)[i] == ' ',
{
    if t.len() < width {
        assert(text::pad_left(t, fill, width).skip(width - t.len()) =~= t);
        assert(text::pad_right(t, width).take(t.len() as int) =~= t);
    }
}

/// Parts are put together with the separator between each two of them and nowhere else.
pub proof fn parts_are_joined(parts: Seq<Seq<char>>, part: Seq<char>, sep: Seq<char>)
    ensures
        text::joined(Seq::empty(), sep) == Seq::<char>::empty(),
        text::joined(seq![part], sep) == part,
        parts.len() > 0 ==> text::joined(parts.push(part), sep) == text::joined(parts, sep) + sep + part,
{
    assert(parts.push(part).drop_last() =~= parts);
}

/// A text of one character, repeated, is that character as often as asked for.
pub proof fn characters_are_repeated(c: char, n: nat)
    ensures
        text::repeated(seq![c], n).len() == n,
        forall|i: int| 0 <= i < n ==> #[trigger] text::repeated(seq![c], n)[i] == c,
    decreases n,
{
    if n > 0 {
        characters_are_repeated(c, (n - 1) as nat);
    }
}

/// One text comes before another where it ends first, or has the smaller character at the first place at
/// which they differ.
pub proof fn texts_are_ordered(a: Seq<char>, b: Seq<char>, i: int)
    requires
        0 <= i <= a.len(),
        i <= b.len(),
        forall|k: int| 0 <= k < i ==> #[trigger] a[k] == b[k],
        i == a.len() || i == b.len() || a[i] != b[i],
    ensures
        ordered::text_before(a, b) <==> i < b.len() && (i == a.len() || (a[i] as int) < (b[i] as int)),
    decreases i,
{
    if i > 0 {
        let (x, y) = (a.drop_first(), b.drop_first());
        assert(a[0] == b[0]);
        assert forall|k: int| 0 <= k < i - 1 implies #[trigger] x[k] == y[k] by {
            assert(a[k + 1] == b[k + 1]);
        }
        texts_are_ordered(x, y, i - 1);
    }
}

/// A numeral has the digits of its number, the last one last, and a minus sign before a negative number.
pub proof fn numerals_are_decimal(n: nat)
    ensures
        n < 10 ==> text::numeral(n as int).len() == 1 && text::numeral(n as int)[0] as int == '0' as int + n,
        n >= 10 ==> text::numeral(n as int).len() == text::numeral(n as int / 10).len() + 1 && text::numeral(
            n as int,
        ).drop_last() == text::numeral(n as int / 10) && text::numeral(n as int).last() as int == '0' as int + n as int
            % 10,
        n > 0 ==> text::numeral(-(n as int)) == seq!['-'] + text::numeral(n as int),
{
    if n >= 10 {
        assert(text::numeral(n as int).drop_last() =~= text::numeral(n as int / 10));
    }
}

/// One more number adds itself to the sum; it is the largest where it is larger than all before.
pub proof fn numbers_add_up(s: Seq<i64>, x: i64)
    ensures
        seqs::sum(Seq::empty()) == 0,
        seqs::sum(s.push(x)) == seqs::sum(s) + x,
        seqs::max_of(seq![x]) == x,
        s.len() > 0 ==> seqs::max_of(s.push(x)) == if x > seqs::max_of(s) {
            x
        } else {
            seqs::max_of(s)
        },
{
    assert(s.push(x).drop_last() =~= s);
    seqs::max_of_bounds(seq![x]);
    let one = seq![x];
    assert(one.contains(seqs::max_of(one)));
    if s.len() > 0 {
        let more = s.push(x);
        seqs::max_of_bounds(s);
        seqs::max_of_bounds(more);
        assert(more[s.len() as int] == x);
        let i = s.index_of(seqs::max_of(s));
        assert(more[i] == seqs::max_of(s));
        let j = more.index_of(seqs::max_of(more));
        if j < s.len() {
            assert(s[j] == more[j]);
        }
    }
}

}
