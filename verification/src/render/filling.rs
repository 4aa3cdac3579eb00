//! Templates with marks, and what is left of them when the marks are filled.

use vstd::prelude::*;

use crate::text;

verus! {

/// Nowhere does the text hold the character twice in a row.
pub open spec fn pairless(t: Seq<char>, c: char) -> bool {
    forall|i: int| 0 <= i < t.len() - 1 ==> !(#[trigger] t[i] == c && t[i + 1] == c)
}

/// A mark: a name between double braces.
pub open spec fn is_mark(m: Seq<char>) -> bool {
    &&& m.len() >= 5
    &&& m[0] == '{' && m[1] == '{'
    &&& m[m.len() - 2] == '}' && m[m.len() - 1] == '}'
    &&& forall|k: int| 2 <= k < m.len() - 2 ==> #[trigger] m[k] != '{' && m[k] != '}'
}

/// A piece of a template between marks: neither braces nor slashes in pairs, nor at its ends.
pub open spec fn is_frame(t: Seq<char>) -> bool {
    &&& t.len() > 0
    &&& pairless(t, '{') && pairless(t, '/')
    &&& t[0] != '{' && t[0] != '/'
    &&& t.last() != '{' && t.last() != '/'
}

/// The text from frame `j` on: frames and slots in turn, a frame at either end.
pub open spec fn woven(frames: Seq<Seq<char>>, slots: Seq<Seq<char>>, j: int) -> Seq<char>
    decreases slots.len() - j,
{
    if j < slots.len() {
        frames[j] + slots[j] + woven(frames, slots, j + 1)
    } else {
        frames[j]
    }
}

/// The slots with what stands for the mark in its place.
pub open spec fn filled(slots: Seq<Seq<char>>, from: Seq<char>, to: Seq<char>) -> Seq<Seq<char>> {
    slots.map_values(
        |s: Seq<char>|
            if s == from {
                to
            } else {
                s
            },
    )
}

/// Frames all through, and in each slot a mark that is still to be filled or a text without two
/// opening braces in a row.
pub open spec fn is_weave(frames: Seq<Seq<char>>, slots: Seq<Seq<char>>, left: Set<Seq<char>>) -> bool {
    &&& frames.len() == slots.len() + 1
    &&& forall|i: int| 0 <= i < frames.len() ==> is_frame(#[trigger] frames[i])
    &&& forall|i: int|
        0 <= i < slots.len() ==> (pairless(#[trigger] slots[i], '{') || (left.contains(slots[i]) && is_mark(slots[i])))
}

/// No slot holds two slashes in a row.
pub open spec fn no_slot_names_a_host(slots: Seq<Seq<char>>) -> bool {
    forall|i: int| 0 <= i < slots.len() ==> pairless(#[trigger] slots[i], '/')
}

/// A text in which the pattern does not begin is passed over.
proof fn passed_over(a: Seq<char>, u: Seq<char>, from: Seq<char>, to: Seq<char>)
    requires
        from.len() > 0,
        forall|k: int| 0 <= k < a.len() ==> !#[trigger] text::occurs_at(a + u, from, k),
    ensures
        text::replace_text(a + u, from, to) == a + text::replace_text(u, from, to),
    decreases a.len(),
{
    if a.len() == 0 {
        assert(a + u =~= u);
        assert(a + text::replace_text(u, from, to) =~= text::replace_text(u, from, to));
    } else {
        let t = a + u;
        let rest = a.skip(1);
        assert(t.skip(1) =~= rest + u);
        assert forall|k: int| 0 <= k < rest.len() implies !#[trigger] text::occurs_at(rest + u, from, k) by {
            assert(!text::occurs_at(t, from, k + 1));
            if text::occurs_at(rest + u, from, k) {
                assert(t.subrange(k + 1, k + 1 + from.len()) =~= (rest + u).subrange(k, k + from.len()));
            }
        }
        passed_over(rest, u, from, to);
        assert(!text::occurs_at(t, from, 0));
        assert(a =~= seq![a[0]] + rest);
        if t.len() < from.len() {
            assert(u.len() < from.len());
        } else {
            assert(t.take(from.len() as int) =~= t.subrange(0, from.len() as int));
            assert(seq![t[0]] + (rest + text::replace_text(u, from, to)) =~= a + text::replace_text(u, from, to));
        }
    }
}

/// A mark begins only where two opening braces stand.
proof fn mark_needs_a_pair(t: Seq<char>, mark: Seq<char>, k: int)
    requires
        is_mark(mark),
        text::occurs_at(t, mark, k),
    ensures
        k + 1 < t.len(),
        t[k] == '{',
        t[k + 1] == '{',
{
    let s = t.subrange(k, k + mark.len());
    assert(s[0] == t[k]);
    assert(s[1] == t[k + 1]);
}

/// A text without pairs of braces is passed over where none arises at its end.
proof fn calm_text_is_passed_over(a: Seq<char>, u: Seq<char>, from: Seq<char>, to: Seq<char>)
    requires
        is_mark(from),
        pairless(a, '{'),
        a.len() == 0 || u.len() == 0 || a.last() != '{' || u[0] != '{',
    ensures
        text::replace_text(a + u, from, to) == a + text::replace_text(u, from, to),
{
    let t = a + u;
    assert forall|k: int| 0 <= k < a.len() implies !#[trigger] text::occurs_at(t, from, k) by {
        if text::occurs_at(t, from, k) {
            mark_needs_a_pair(t, from, k);
            if k + 1 < a.len() {
                assert(a[k] == '{' && a[k + 1] == '{');
            }
        }
    }
    passed_over(a, u, from, to);
}

/// No mark is the beginning of another.
proof fn marks_differ(a: Seq<char>, u: Seq<char>, b: Seq<char>)
    requires
        is_mark(a),
        is_mark(b),
        text::occurs_at(a + u, b, 0),
    ensures
        a == b,
{
    let t = a + u;
    let s = t.subrange(0, b.len() as int);
    assert(s == b);
    if a.len() < b.len() {
        let k = a.len() - 2;
        assert(s[k] == t[k] && s[k] == a[k]);
        assert(b[k] == '}');
    } else if b.len() < a.len() {
        let k = b.len() - 2;
        assert(s[k] == t[k] && t[k] == a[k]);
        assert(a[k] == '}');
    } else {
        assert(s =~= a);
    }
}

/// Another mark is passed over.
proof fn other_mark_is_passed_over(a: Seq<char>, u: Seq<char>, from: Seq<char>, to: Seq<char>)
    requires
        is_mark(from),
        is_mark(a),
        a != from,
    ensures
        text::replace_text(a + u, from, to) == a + text::replace_text(u, from, to),
{
    let t = a + u;
    assert forall|k: int| 0 <= k < a.len() implies !#[trigger] text::occurs_at(t, from, k) by {
        if text::occurs_at(t, from, k) {
            mark_needs_a_pair(t, from, k);
            if k == 0 {
                marks_differ(a, u, from);
            } else if k == 1 {
                assert(a[2] != '{');
            } else {
                assert(a[k] != '{');
            }
        }
    }
    passed_over(a, u, from, to);
}

/// Replacing a mark in a woven text fills the slots that hold it, and nothing else.
proof fn replacing_fills(
    frames: Seq<Seq<char>>,
    slots: Seq<Seq<char>>,
    left: Set<Seq<char>>,
    from: Seq<char>,
    to: Seq<char>,
    j: int,
)
    requires
        is_weave(frames, slots, left),
        is_mark(from),
        0 <= j < frames.len(),
    ensures
        text::replace_text(woven(frames, slots, j), from, to) == woven(frames, filled(slots, from, to), j),
    decreases slots.len() - j,
{
    let f = frames[j];
    assert(is_frame(f));
    if j < slots.len() {
        let s = slots[j];
        let rest = woven(frames, slots, j + 1);
        let done = woven(frames, filled(slots, from, to), j + 1);
        replacing_fills(frames, slots, left, from, to, j + 1);
        assert(is_frame(frames[j + 1]));
        assert(rest.len() > 0 && rest[0] == frames[j + 1][0]);
        assert(f + s + rest =~= f + (s + rest));
        calm_text_is_passed_over(f, s + rest, from, to);
        if s == from {
            assert((s + rest).take(from.len() as int) =~= from);
            assert((s + rest).skip(from.len() as int) =~= rest);
            assert(f + (to + done) =~= f + to + done);
        } else {
            if pairless(s, '{') {
                calm_text_is_passed_over(s, rest, from, to);
            } else {
                other_mark_is_passed_over(s, rest, from, to);
            }
            assert(f + (s + done) =~= f + s + done);
        }
    } else {
        assert(f + Seq::<char>::empty() =~= f);
        calm_text_is_passed_over(f, Seq::empty(), from, to);
        assert(text::replace_text(Seq::<char>::empty(), from, to) =~= Seq::<char>::empty());
    }
}

/// Filling a mark leaves the other marks to be filled.
pub proof fn fill_mark(
    frames: Seq<Seq<char>>,
    slots: Seq<Seq<char>>,
    left: Set<Seq<char>>,
    from: Seq<char>,
    to: Seq<char>,
)
    requires
        is_weave(frames, slots, left),
        is_mark(from),
        pairless(to, '{'),
    ensures
        text::replace_text(woven(frames, slots, 0), from, to) == woven(frames, filled(slots, from, to), 0),
        is_weave(frames, filled(slots, from, to), left.remove(from)),
        no_slot_names_a_host(slots) && pairless(to, '/') ==> no_slot_names_a_host(filled(slots, from, to)),
{
    replacing_fills(frames, slots, left, from, to, 0);
    let out = filled(slots, from, to);
    assert forall|i: int| 0 <= i < out.len() implies (pairless(#[trigger] out[i], '{') || (left.remove(from).contains(
        out[i],
    ) && is_mark(out[i]))) by {
        assert(pairless(slots[i], '{') || (left.contains(slots[i]) && is_mark(slots[i])));
    }
    if no_slot_names_a_host(slots) && pairless(to, '/') {
        assert forall|i: int| 0 <= i < out.len() implies pairless(#[trigger] out[i], '/') by {
            assert(pairless(slots[i], '/'));
        }
    }
}

/// The text with every mark replaced in turn.
pub open spec fn replace_all(t: Seq<char>, marks: Seq<Seq<char>>, fills: Seq<Seq<char>>) -> Seq<char>
    decreases marks.len(),
{
    if marks.len() == 0 {
        t
    } else {
        text::replace_text(replace_all(t, marks.drop_last(), fills.drop_last()), marks.last(), fills.last())
    }
}

/// One more mark is replaced last.
pub proof fn replace_one_more(
    t: Seq<char>,
    marks: Seq<Seq<char>>,
    fills: Seq<Seq<char>>,
    mark: Seq<char>,
    fill: Seq<char>,
)
    ensures
        replace_all(t, marks.push(mark), fills.push(fill)) == text::replace_text(
            replace_all(t, marks, fills),
            mark,
            fill,
        ),
{
    assert(marks.push(mark).drop_last() =~= marks);
    assert(fills.push(fill).drop_last() =~= fills);
}

/// The slots with every mark filled in turn.
pub open spec fn filled_all(slots: Seq<Seq<char>>, marks: Seq<Seq<char>>, fills: Seq<Seq<char>>) -> Seq<Seq<char>>
    decreases marks.len(),
{
    if marks.len() == 0 {
        slots
    } else {
        filled(filled_all(slots, marks.drop_last(), fills.drop_last()), marks.last(), fills.last())
    }
}

/// Replacing marks in turn fills their slots, and leaves the other marks.
pub proof fn fill_all(
    frames: Seq<Seq<char>>,
    slots: Seq<Seq<char>>,
    left: Set<Seq<char>>,
    marks: Seq<Seq<char>>,
    fills: Seq<Seq<char>>,
)
    requires
        is_weave(frames, slots, left),
        marks.len() == fills.len(),
        forall|i: int| 0 <= i < marks.len() ==> is_mark(#[trigger] marks[i]),
        forall|i: int| 0 <= i < fills.len() ==> pairless(#[trigger] fills[i], '{'),
    ensures
        filled_all(slots, marks, fills).len() == slots.len(),
        replace_all(woven(frames, slots, 0), marks, fills) == woven(frames, filled_all(slots, marks, fills), 0),
        is_weave(frames, filled_all(slots, marks, fills), left.difference(marks.to_set())),
        no_slot_names_a_host(slots) && no_slot_names_a_host(fills) ==> no_slot_names_a_host(
            filled_all(slots, marks, fills),
        ),
    decreases marks.len(),
{
    if marks.len() == 0 {
        assert(left.difference(marks.to_set()) =~= left);
    } else {
        let n = marks.len() - 1;
        let fewer = marks.drop_last();
        let less = fills.drop_last();
        assert forall|i: int| 0 <= i < fewer.len() implies is_mark(#[trigger] fewer[i]) by {
            assert(fewer[i] == marks[i]);
        }
        assert forall|i: int| 0 <= i < less.len() implies pairless(#[trigger] less[i], '{') by {
            assert(less[i] == fills[i]);
        }
        fill_all(frames, slots, left, fewer, less);
        if no_slot_names_a_host(fills) {
            assert forall|i: int| 0 <= i < less.len() implies pairless(#[trigger] less[i], '/') by {
                assert(less[i] == fills[i]);
            }
            assert(pairless(fills[n], '/'));
        }
        assert(is_mark(marks[n]));
        assert(pairless(fills[n], '{'));
        fill_mark(frames, filled_all(slots, fewer, less), left.difference(fewer.to_set()), marks[n], fills[n]);
        assert(left.difference(fewer.to_set()).remove(marks[n]) =~= left.difference(marks.to_set())) by {
            assert forall|m: Seq<char>| marks.to_set().contains(m) <==> fewer.to_set().contains(m) || m == marks[n] by {
                if marks.contains(m) {
                    let i = marks.index_of(m);
                    if i < n {
                        assert(fewer[i] == m);
                    }
                }
                if fewer.contains(m) {
                    assert(marks[fewer.index_of(m)] == m);
                }
                assert(marks.contains(marks[n]));
            }
        }
    }
}

/// A template whose marks are all filled holds no two opening braces in a row, and no two slashes
/// where none is put in.
pub proof fn full_weave_is_calm(
    frames: Seq<Seq<char>>,
    slots: Seq<Seq<char>>,
    marks: Seq<Seq<char>>,
    fills: Seq<Seq<char>>,
)
    requires
        is_weave(frames, slots, slots.to_set()),
        no_slot_names_a_host(slots),
        marks.len() == fills.len(),
        forall|i: int| 0 <= i < marks.len() ==> is_mark(#[trigger] marks[i]),
        forall|i: int| 0 <= i < fills.len() ==> pairless(#[trigger] fills[i], '{'),
        forall|i: int| 0 <= i < slots.len() ==> marks.contains(#[trigger] slots[i]),
    ensures
        pairless(replace_all(woven(frames, slots, 0), marks, fills), '{'),
        no_slot_names_a_host(fills) ==> pairless(replace_all(woven(frames, slots, 0), marks, fills), '/'),
{
    fill_all(frames, slots, slots.to_set(), marks, fills);
    let out = filled_all(slots, marks, fills);
    let left = slots.to_set().difference(marks.to_set());
    assert forall|i: int| 0 <= i < out.len() implies pairless(#[trigger] out[i], '{') by {
        if left.contains(out[i]) {
            let k = slots.index_of(out[i]);
            assert(marks.contains(slots[k]));
        }
    }
    weave_is_pairless(frames, out, '{', 0);
    if no_slot_names_a_host(fills) {
        weave_is_pairless(frames, out, '/', 0);
    }
}

/// Texts without pairs make one without pairs where none arises between them.
pub proof fn pairless_sum(a: Seq<char>, b: Seq<char>, c: char)
    requires
        pairless(a, c),
        pairless(b, c),
        a.len() == 0 || b.len() == 0 || a.last() != c || b[0] != c,
    ensures
        pairless(a + b, c),
{
    let t = a + b;
    assert forall|i: int| 0 <= i < t.len() - 1 implies !(#[trigger] t[i] == c && t[i + 1] == c) by {
        if i + 1 < a.len() {
            assert(t[i] == a[i] && t[i + 1] == a[i + 1]);
        } else if i >= a.len() {
            let k = i - a.len();
            assert(t[i] == b[k] && t[i + 1] == b[k + 1]);
        }
    }
}

/// Where no slot holds a character twice in a row, the woven text does not either.
pub proof fn weave_is_pairless(frames: Seq<Seq<char>>, slots: Seq<Seq<char>>, c: char, j: int)
    requires
        frames.len() == slots.len() + 1,
        forall|i: int| 0 <= i < frames.len() ==> is_frame(#[trigger] frames[i]),
        forall|i: int| 0 <= i < slots.len() ==> pairless(#[trigger] slots[i], c),
        c == '{' || c == '/',
        0 <= j < frames.len(),
    ensures
        pairless(woven(frames, slots, j), c),
    decreases slots.len() - j,
{
    assert(is_frame(frames[j]));
    if j < slots.len() {
        weave_is_pairless(frames, slots, c, j + 1);
        let rest = woven(frames, slots, j + 1);
        assert(is_frame(frames[j + 1]));
        assert(rest.len() > 0 && rest[0] == frames[j + 1][0]);
        assert(pairless(slots[j], c));
        pairless_sum(frames[j], slots[j], c);
        pairless_sum(frames[j] + slots[j], rest, c);
    }
}

/// Where the marks of a template stand: begin and end of each, in order.
pub open spec fn are_cuts(t: Seq<char>, cuts: Seq<(int, int)>) -> bool {
    &&& forall|i: int| 0 <= i < cuts.len() ==> 0 <= (#[trigger] cuts[i]).0 < cuts[i].1 <= t.len()
    &&& forall|i: int, k: int| 0 <= i < k < cuts.len() ==> (#[trigger] cuts[i]).1 <= (#[trigger] cuts[k]).0
}

/// A mark begins at the position.
pub open spec fn begins_cut(cuts: Seq<(int, int)>, at: int) -> bool {
    exists|k: int| 0 <= k < cuts.len() && (#[trigger] cuts[k]).0 == at
}

/// Where frame `i` begins.
pub open spec fn frame_start(cuts: Seq<(int, int)>, i: int) -> int {
    if i == 0 {
        0
    } else {
        cuts[i - 1].1
    }
}

/// Where frame `i` ends.
pub open spec fn frame_end(t: Seq<char>, cuts: Seq<(int, int)>, i: int) -> int {
    if i == cuts.len() {
        t.len() as int
    } else {
        cuts[i].0
    }
}

/// What stands between the marks.
pub open spec fn frames_of(t: Seq<char>, cuts: Seq<(int, int)>) -> Seq<Seq<char>> {
    Seq::new(cuts.len() + 1, |i: int| t.subrange(frame_start(cuts, i), frame_end(t, cuts, i)))
}

/// The marks.
pub open spec fn slots_of(t: Seq<char>, cuts: Seq<(int, int)>) -> Seq<Seq<char>> {
    Seq::new(cuts.len(), |i: int| t.subrange(cuts[i].0, cuts[i].1))
}

/// Frame `i` holds something, and neither brace nor slash stands at its ends.
pub open spec fn frame_stands(t: Seq<char>, cuts: Seq<(int, int)>, i: int) -> bool {
    let a = frame_start(cuts, i);
    let b = frame_end(t, cuts, i);
    0 <= a < b <= t.len() && t[a] != '{' && t[a] != '/' && t[b - 1] != '{' && t[b - 1] != '/'
}

/// Where pairs of opening braces stand only at the marks, and pairs of slashes nowhere, what stands
/// between the marks are frames.
pub proof fn frames_stand(t: Seq<char>, cuts: Seq<(int, int)>)
    requires
        are_cuts(t, cuts),
        pairless(t, '/'),
        forall|i: int| 0 <= i < t.len() - 1 && #[trigger] t[i] == '{' && t[i + 1] == '{' ==> begins_cut(cuts, i),
        forall|i: int| 0 <= i <= cuts.len() ==> #[trigger] frame_stands(t, cuts, i),
    ensures
        forall|i: int| 0 <= i < frames_of(t, cuts).len() ==> is_frame(#[trigger] frames_of(t, cuts)[i]),
{
    let frames = frames_of(t, cuts);
    assert forall|i: int| 0 <= i < frames.len() implies is_frame(#[trigger] frames[i]) by {
        assert(frame_stands(t, cuts, i));
        let f = frames[i];
        let a = frame_start(cuts, i);
        assert forall|x: int| 0 <= x < f.len() - 1 implies !(#[trigger] f[x] == '{' && f[x + 1] == '{') && !(f[x] == '/'
            && f[x + 1] == '/') by {
            assert(f[x] == t[a + x] && f[x + 1] == t[a + x + 1]);
            if f[x] == '{' && f[x + 1] == '{' {
                assert(begins_cut(cuts, a + x));
                let k = choose|k: int| 0 <= k < cuts.len() && (#[trigger] cuts[k]).0 == a + x;
                if k < i {
                    if k < i - 1 {
                        assert(cuts[k].1 <= cuts[i - 1].0);
                    }
                    assert(cuts[k].0 < cuts[k].1);
                    assert(cuts[i - 1].0 < cuts[i - 1].1);
                } else if k > i {
                    assert(cuts[i].1 <= cuts[k].0);
                    assert(cuts[i].0 < cuts[i].1);
                }
            }
        }
    }
}

/// A template is woven of what stands between its marks, and its marks.
pub proof fn cut_and_woven(t: Seq<char>, cuts: Seq<(int, int)>, j: int)
    requires
        are_cuts(t, cuts),
        0 <= j <= cuts.len(),
    ensures
        woven(frames_of(t, cuts), slots_of(t, cuts), j) == t.skip(frame_start(cuts, j)),
    decreases cuts.len() - j,
{
    let frames = frames_of(t, cuts);
    let slots = slots_of(t, cuts);
    if j > 0 {
        assert(cuts[j - 1].1 <= t.len());
    }
    if j < cuts.len() {
        cut_and_woven(t, cuts, j + 1);
        assert(cuts[j].0 <= cuts[j].1);
        if j > 0 {
            assert(cuts[j - 1].1 <= cuts[j].0);
        }
        assert(frames[j] + slots[j] + t.skip(cuts[j].1) =~= t.skip(frame_start(cuts, j)));
    } else {
        assert(frames[j] =~= t.skip(frame_start(cuts, j)));
    }
}

}
