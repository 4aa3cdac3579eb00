//! Text inside a page.

use vstd::prelude::*;
use vstd::string::*;

use crate::double;
use crate::double::{Double, SignedDouble};
use crate::text;

verus! {

/// What stands in a page for a character.
pub open spec fn escaped_char(c: char) -> Seq<char> {
    if c == '&' {
        "&amp;"@
    } else if c == '<' {
        "&lt;"@
    } else if c == '>' {
        "&gt;"@
    } else if c == '"' {
        "&quot;"@
    } else {
        seq![c]
    }
}

/// What stands in a page for a text.
pub open spec fn escaped(t: Seq<char>) -> Seq<char>
    decreases t.len(),
{
    if t.len() == 0 {
        Seq::empty()
    } else {
        escaped_char(t[0]) + escaped(t.skip(1))
    }
}

/// What stands in a page for a text: `&`, `<`, `>` and `"` by name.
pub fn esc(t: &str) -> (r: String)
    ensures
        r@ == escaped(t@),
{
    let chars = text::chars_of(t);
    let mut r = "".to_string();
    let mut i: usize = 0;
    proof {
        reveal_strlit("");
        assert(t@.skip(0) =~= t@);
        assert(escaped(t@) =~= r@ + escaped(t@.skip(0)));
    }
    while i < chars.len()
        invariant
            i <= chars@.len(),
            chars@ == t@,
            escaped(t@) == r@ + escaped(t@.skip(i as int)),
        decreases chars@.len() - i,
    {
        let c = chars[i];
        let ghost before = r@;
        if c == '&' {
            r.append("&amp;");
        } else if c == '<' {
            r.append("&lt;");
        } else if c == '>' {
            r.append("&gt;");
        } else if c == '"' {
            r.append("&quot;");
        } else {
            r.push(c);
        }
        proof {
            assert(r@ =~= before + escaped_char(c));
            assert(t@.skip(i as int).skip(1) =~= t@.skip(i + 1));
            assert(before + (escaped_char(c) + escaped(t@.skip(i + 1))) =~= r@ + escaped(t@.skip(i + 1)));
        }
        i = i + 1;
    }
    assert(t@.skip(i as int) =~= Seq::empty());
    assert(r@ + Seq::<char>::empty() =~= r@);
    r
}

/// No escaped text opens or closes a tag, or ends an attribute.
pub proof fn escaped_text_is_inert(t: Seq<char>)
    ensures
        !escaped(t).contains('<'),
        !escaped(t).contains('>'),
        !escaped(t).contains('"'),
    decreases t.len(),
{
    if t.len() > 0 {
        escaped_text_is_inert(t.skip(1));
        reveal_strlit("&amp;");
        reveal_strlit("&lt;");
        reveal_strlit("&gt;");
        reveal_strlit("&quot;");
        let a = escaped_char(t[0]);
        let b = escaped(t.skip(1));
        assert forall|i: int| 0 <= i < (a + b).len() implies (a + b)[i] != '<' && (a + b)[i] != '>' && (a + b)[i]
            != '"' by {
            if i >= a.len() {
                assert((a + b)[i] == b[i - a.len()]);
                assert(b.contains(b[i - a.len()]));
            }
        }
    }
}

/// Two texts that stand for the same in a page are the same.
pub proof fn escaping_is_unique(s: Seq<char>, t: Seq<char>)
    requires
        escaped(s) == escaped(t),
    ensures
        s == t,
    decreases s.len(),
{
    reveal_strlit("&amp;");
    reveal_strlit("&lt;");
    reveal_strlit("&gt;");
    reveal_strlit("&quot;");
    if s.len() == 0 {
        if t.len() > 0 {
            assert(escaped_char(t[0]).len() > 0);
            assert(escaped(t).len() > 0);
        }
        assert(s =~= t);
    } else if t.len() == 0 {
        assert(escaped_char(s[0]).len() > 0);
        assert(escaped(s).len() > 0);
    } else {
        let a = escaped_char(s[0]);
        let b = escaped_char(t[0]);
        let whole = escaped(s);
        assert(whole == a + escaped(s.skip(1)));
        assert(whole == b + escaped(t.skip(1)));
        assert(whole[0] == a[0] && whole[0] == b[0]);
        if a.len() > 1 && b.len() > 1 {
            assert(whole[1] == a[1] && whole[1] == b[1]);
        }
        assert(s[0] == t[0]);
        assert(whole.skip(a.len() as int) =~= escaped(s.skip(1)));
        assert(whole.skip(b.len() as int) =~= escaped(t.skip(1)));
        escaping_is_unique(s.skip(1), t.skip(1));
        assert(s =~= seq![s[0]] + s.skip(1));
        assert(t =~= seq![t[0]] + t.skip(1));
    }
}

/// The number that a field holds, or zero.
pub open spec fn field_number(parts: Seq<Seq<char>>, i: int) -> int {
    if i < parts.len() {
        match text::parsed(parts[i], i64::MIN as int, i64::MAX as int) {
            Some(n) => n,
            None => 0,
        }
    } else {
        0
    }
}

/// The number that a field holds, or zero.
fn field_number_of(parts: &Vec<String>, i: usize) -> (n: i64)
    ensures
        n == field_number(text::texts(parts@), i as int),
{
    if i < parts.len() {
        match text::parse_number(parts[i].as_str(), i64::MIN, i64::MAX) {
            Some(n) => n,
            None => 0,
        }
    } else {
        0
    }
}

/// Month and day of a date such as `2025-06-22`, as in `6月22日`.
pub open spec fn month_day(date: Seq<char>) -> Seq<char> {
    let parts = text::fields(date, '-');
    text::numeral(field_number(parts, 1)) + "月"@ + text::numeral(field_number(parts, 2)) + "日"@
}

/// Month and day of a date such as `2025-06-22`, as in `6月22日`.
pub fn cn_date(date: &str) -> (r: String)
    ensures
        r@ == month_day(date@),
{
    let parts = text::split(date, '-');
    let mut r = text::numeral_of(field_number_of(&parts, 1));
    r.append("月");
    r.append(text::numeral_of(field_number_of(&parts, 2)).as_str());
    r.append("日");
    r
}

/// The share of `max` that `count` is, in double precision, where both have the same sign.
pub open spec fn cell_share(count: int, max: int) -> double::Number {
    double::quotient(double::of(double::magnitude(count)), double::of(double::magnitude(max)))
}

/// The shade of a cell: zero for none, else by the quarter of `max` that `count` falls into.
pub open spec fn shade(count: int, max: int) -> int {
    let share = cell_share(count, max);
    if count == 0 || max == 0 {
        0
    } else if (count < 0) != (max < 0) {
        1
    } else if double::less(share, double::nearest(1, 4)) {
        1
    } else if double::less(share, double::nearest(1, 2)) {
        2
    } else if double::less(share, double::nearest(3, 4)) {
        3
    } else {
        4
    }
}

/// The shade of a cell: zero for none, else by the quarter of `max` that `count` falls into.
pub fn level(count: i64, max: i64) -> (r: i64)
    ensures
        r == shade(count as int, max as int),
        0 <= r <= 4,
{
    if count == 0 || max == 0 {
        return 0;
    }
    if (count < 0) != (max < 0) {
        return 1;
    }
    proof {
        double::nearest_is_number(double::magnitude(max as int), 1);
    }
    let share = Double::count(double::magnitude_of(count)).over(Double::count(double::magnitude_of(max)));
    if share.is_less(Double::fraction(1, 4)) {
        1
    } else if share.is_less(Double::fraction(1, 2)) {
        2
    } else if share.is_less(Double::fraction(3, 4)) {
        3
    } else {
        4
    }
}

/// A fuller cell has no lighter shade.
pub proof fn shades_rise(a: int, b: int, max: int)
    requires
        0 <= a <= b,
        max > 0,
    ensures
        shade(a, max) <= shade(b, max),
        shade(max, max) == 4,
{
    double::nearest_is_number(max, 1);
    double::quotient_of_equals(double::of(max));
    double::nearest_is_number(3, 4);
    double::nearest_is_number(1, 2);
    double::nearest_is_number(1, 4);
    parts_of_one();
    if a > 0 {
        double::nearest_is_number(a, 1);
        double::nearest_is_number(b, 1);
        double::nearest_grows(a, b, 1);
        double::quotients_grow(double::of(a), double::of(b), double::of(max));
        double::quotients_grow(double::of(b), double::of(b), double::of(max));
    }
}

/// The quarters are smaller than one.
proof fn parts_of_one()
    ensures
        double::less(double::nearest(1, 4), (double::LOW as int, -52int)),
        double::less(double::nearest(1, 2), (double::LOW as int, -52int)),
        double::less(double::nearest(3, 4), (double::LOW as int, -52int)),
{
    double::below_one(1, 4);
    double::below_one(1, 2);
    double::below_one(3, 4);
}

/// How much of a bar is filled, in whole percent: the share in double precision without its fraction.
pub open spec fn percent(points: int, most: int) -> int {
    if most <= 0 {
        0
    } else {
        double::saturated(
            points < 0,
            double::whole(
                double::product(
                    double::quotient(double::of(double::magnitude(points)), double::of(most)),
                    double::of(100),
                ),
            ),
        )
    }
}

/// How much of a bar is filled, in whole percent.
pub fn percent_filled(points: i64, most: i64) -> (r: i64)
    ensures
        r == percent(points as int, most as int),
{
    if most <= 0 {
        return 0;
    }
    let share = SignedDouble::share(points, most).size.times(Double::count(100));
    if points < 0 {
        let n: u64 = share.whole_up_to(0x8000_0000_0000_0000);
        (-(n as i128)) as i64
    } else {
        share.whole_up_to(i64::MAX as u64) as i64
    }
}

}
