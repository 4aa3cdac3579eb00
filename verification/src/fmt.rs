//! Numbers, durations, times and texts as they are shown.

use vstd::prelude::*;
use vstd::string::*;

use crate::calendar;
use crate::calendar::LocalTime;
use crate::double;
use crate::double::Double;
use crate::ordered;
use crate::ordered::Key;
use crate::text;

pub use crate::calendar::local_dt;

verus! {

/// Digits in groups of three from the right, with commas between the groups.
pub open spec fn grouped(ds: Seq<char>) -> Seq<char>
    decreases ds.len(),
{
    if ds.len() <= 3 {
        ds
    } else {
        grouped(ds.take(ds.len() - 3)) + seq![','] + ds.skip(ds.len() - 3)
    }
}

/// A number with its digits in groups.
pub open spec fn number_text(n: int) -> Seq<char> {
    if n < 0 {
        seq!['-'] + grouped(text::digits((-n) as nat))
    } else {
        grouped(text::digits(n as nat))
    }
}

/// Writes digits in groups behind what is there.
fn push_grouped(out: &mut Vec<char>, ds: &Vec<char>, n: usize)
    requires
        n <= ds@.len(),
    ensures
        final(out)@ == old(out)@ + grouped(ds@.take(n as int)),
    decreases n,
{
    let ghost start = out@;
    let ghost head = ds@.take(n as int);
    let mut i: usize = 0;
    if n > 3 {
        push_grouped(out, ds, n - 3);
        out.push(',');
        i = n - 3;
        assert(head.take(n - 3) =~= ds@.take(n - 3));
    }
    let ghost middle = out@;
    let ghost from = i;
    while i < n
        invariant
            from <= i <= n <= ds@.len(),
            out@ == middle + ds@.subrange(from as int, i as int),
        decreases n - i,
    {
        out.push(ds[i]);
        assert(ds@.subrange(from as int, i + 1) =~= ds@.subrange(from as int, i as int).push(ds@[i as int]));
        i = i + 1;
    }
    proof {
        if n > 3 {
            assert(ds@.subrange(from as int, n as int) =~= head.skip(n - 3));
            assert(out@ =~= start + (grouped(head.take(n - 3)) + seq![','] + head.skip(n - 3)));
        } else {
            assert(ds@.subrange(0, n as int) =~= head);
            assert(out@ =~= start + head);
        }
    }
}

/// A number with its digits in groups of three.
pub fn fmt_num(n: i64) -> (r: String)
    ensures
        r@ == number_text(n as int),
{
    let ds = text::digits_of(text::magnitude(n));
    let mut out: Vec<char> = Vec::new();
    if n < 0 {
        out.push('-');
    }
    let count = ds.len();
    push_grouped(&mut out, &ds, count);
    assert(ds@.take(count as int) =~= ds@);
    assert(out@ =~= number_text(n as int));
    text::text_of(&out)
}

/// Leaving the commas out of a shown number gives the plain numeral.
pub proof fn shown_number_without_commas(n: int)
    ensures
        text::replace_char(number_text(n), ',', Seq::empty()) == text::numeral(n),
{
    if n < 0 {
        digits_without_commas((-n) as nat);
        let g = grouped(text::digits((-n) as nat));
        replace_parts(seq!['-'], g);
        assert(seq!['-'].drop_last() =~= Seq::<char>::empty());
        reveal_with_fuel(text::replace_char, 2);
        assert(text::replace_char(seq!['-'], ',', Seq::empty()) =~= seq!['-']);
    } else {
        digits_without_commas(n as nat);
    }
}

proof fn replace_parts(a: Seq<char>, b: Seq<char>)
    ensures
        text::replace_char(a + b, ',', Seq::empty()) == text::replace_char(a, ',', Seq::empty())
            + text::replace_char(b, ',', Seq::empty()),
    decreases b.len(),
{
    let e = Seq::<char>::empty();
    if b.len() == 0 {
        assert(a + b =~= a);
        assert(text::replace_char(a, ',', e) + e =~= text::replace_char(a, ',', e));
    } else {
        replace_parts(a, b.drop_last());
        assert((a + b).drop_last() =~= a + b.drop_last());
        let x = text::replace_char(a, ',', e);
        let y = text::replace_char(b.drop_last(), ',', e);
        let z = if b.last() == ',' {
            e
        } else {
            seq![b.last()]
        };
        assert(x + y + z =~= x + (y + z));
    }
}

proof fn no_comma_stays(t: Seq<char>)
    requires
        forall|i: int| 0 <= i < t.len() ==> #[trigger] t[i] != ',',
    ensures
        text::replace_char(t, ',', Seq::empty()) == t,
    decreases t.len(),
{
    if t.len() > 0 {
        let less = t.drop_last();
        assert forall|i: int| 0 <= i < less.len() implies #[trigger] less[i] != ',' by {
            assert(less[i] == t[i]);
        }
        no_comma_stays(less);
        assert(t[t.len() - 1] != ',');
        assert(less + seq![t.last()] =~= t);
    }
}

proof fn groups_without_commas(ds: Seq<char>)
    requires
        forall|i: int| 0 <= i < ds.len() ==> #[trigger] ds[i] != ',',
    ensures
        text::replace_char(grouped(ds), ',', Seq::empty()) == ds,
    decreases ds.len(),
{
    let e = Seq::<char>::empty();
    if ds.len() <= 3 {
        no_comma_stays(ds);
    } else {
        let a = ds.take(ds.len() - 3);
        let b = ds.skip(ds.len() - 3);
        assert forall|i: int| 0 <= i < a.len() implies #[trigger] a[i] != ',' by {
            assert(a[i] == ds[i]);
        }
        assert forall|i: int| 0 <= i < b.len() implies #[trigger] b[i] != ',' by {
            assert(b[i] == ds[i + ds.len() - 3]);
        }
        groups_without_commas(a);
        no_comma_stays(b);
        replace_parts(grouped(a) + seq![','], b);
        replace_parts(grouped(a), seq![',']);
        reveal_with_fuel(text::replace_char, 2);
        assert(seq![','].drop_last() =~= e);
        assert(text::replace_char(seq![','], ',', e) =~= e);
        assert(a + e + b =~= ds);
    }
}

proof fn digits_without_commas(n: nat)
    ensures
        text::replace_char(grouped(text::digits(n)), ',', Seq::empty()) == text::digits(n),
{
    text::zero_padded_reads_back(n as int, 0, 0, n as int);
    let ds = text::digits(n);
    assert(text::zero_padded(n as int, 0) == ds);
    assert forall|i: int| 0 <= i < ds.len() implies #[trigger] ds[i] != ',' by {
        assert(text::is_digit(ds[i]));
    }
    groups_without_commas(ds);
}

/// A duration in hours and minutes, in minutes and seconds, or in seconds.
pub open spec fn duration_text(secs: int) -> Seq<char> {
    if secs < 60 {
        text::numeral(secs) + " 秒"@
    } else if secs < 3600 {
        text::numeral(secs / 60) + " 分 "@ + text::numeral(secs % 60) + " 秒"@
    } else {
        text::numeral(secs / 3600) + " 时 "@ + text::numeral(secs % 3600 / 60) + " 分"@
    }
}

/// A duration as it is shown.
pub fn fmt_duration(secs: i64) -> (r: String)
    ensures
        r@ == duration_text(secs as int),
{
    if secs < 60 {
        let mut r = text::numeral_of(secs);
        r.append(" 秒");
        return r;
    }
    if secs < 3600 {
        let mut r = text::numeral_of(secs / 60);
        r.append(" 分 ");
        r.append(text::numeral_of(secs % 60).as_str());
        r.append(" 秒");
        return r;
    }
    let mut r = text::numeral_of(secs / 3600);
    r.append(" 时 ");
    r.append(text::numeral_of(secs % 3600 / 60).as_str());
    r.append(" 分");
    r
}

/// Date and time of a reading; without one, the seconds and a remark.
pub open spec fn time_text(secs: int, t: Option<LocalTime>) -> Seq<char> {
    match t {
        Some(t) => calendar::date_text(t.date) + " "@ + calendar::clock_text(t),
        None => text::numeral(secs) + "(无法解析)"@,
    }
}

/// The date of a reading; without one, nothing.
pub open spec fn day_text(t: Option<LocalTime>) -> Seq<char> {
    match t {
        Some(t) => calendar::date_text(t.date),
        None => Seq::empty(),
    }
}

/// Date and time of a reading.
pub fn fmt_ts_at(secs: i64, t: &Option<LocalTime>) -> (r: String)
    ensures
        r@ == time_text(secs as int, *t),
{
    match t {
        Some(t) => {
            let mut r = calendar::date_text_of(&t.date);
            r.append(" ");
            r.append(calendar::clock_text_of(t).as_str());
            r
        },
        None => {
            let mut r = text::numeral_of(secs);
            r.append("(无法解析)");
            r
        },
    }
}

/// The local date and time.
pub fn fmt_ts(secs: i64) -> (r: String)
    ensures
        exists|t: Option<LocalTime>| #[trigger]
            calendar::clock_gives(secs as int, t) && r@ == time_text(secs as int, t),
{
    let t = calendar::local_dt(secs);
    fmt_ts_at(secs, &t)
}

/// The date of a reading.
pub fn fmt_date_at(t: &Option<LocalTime>) -> (r: String)
    ensures
        r@ == day_text(*t),
{
    match t {
        Some(t) => calendar::date_text_of(&t.date),
        None => {
            let r = String::new();
            assert(r@ =~= Seq::empty());
            r
        },
    }
}

/// The local date.
pub fn fmt_date(secs: i64) -> (r: String)
    ensures
        exists|t: Option<LocalTime>| #[trigger] calendar::clock_gives(secs as int, t) && r@ == day_text(t),
{
    let t = calendar::local_dt(secs);
    fmt_date_at(&t)
}

/// How many of `width` blocks a share of `max` fills: the share in double precision, rounded to the
/// nearest, halves up.
pub open spec fn blocks(value: int, max: int, width: int) -> int {
    if value <= 0 {
        0
    } else {
        double::up_to(
            double::rounded(double::product(double::quotient(double::of(value), double::of(max)), double::of(width))),
            width,
        )
    }
}

/// A row of blocks; nothing where there is no positive `max` to compare with.
pub open spec fn bar_text(value: int, max: int, width: int) -> Seq<char> {
    if max <= 0 {
        Seq::empty()
    } else {
        text::repeated("▇"@, blocks(value, max, width) as nat)
    }
}

/// A bar of blocks that shows `value` as a share of `max`, which fills the whole width.
pub fn bar(value: i64, max: i64, width: usize) -> (r: String)
    ensures
        r@ == bar_text(value as int, max as int, width as int),
{
    if max <= 0 {
        let r = String::new();
        assert(r@ =~= Seq::empty());
        return r;
    }
    if value <= 0 {
        return text::repeat("▇", 0);
    }
    proof {
        double::nearest_is_number(max as int, 1);
    }
    let share = Double::count(value as u64).over(Double::count(max as u64));
    let length: usize = share.times(Double::count(width as u64)).rounded_up_to(width as u64) as usize;
    text::repeat("▇", length)
}

/// At most the first `max_chars` characters, with an ellipsis where some are left out.
pub open spec fn shortened(t: Seq<char>, max_chars: int) -> Seq<char> {
    if t.len() <= max_chars {
        t
    } else {
        t.take(max_chars) + "…"@
    }
}

/// Shortens a text to `max_chars` characters and an ellipsis.
pub fn truncate(s: &str, max_chars: usize) -> (r: String)
    ensures
        r@ == shortened(s@, max_chars as int),
{
    let chars = text::chars_of(s);
    if chars.len() <= max_chars {
        return s.to_string();
    }
    let mut r = text::text_between(&chars, 0, max_chars);
    assert(r@ =~= s@.take(max_chars as int));
    r.append("…");
    r
}

/// Sorts pairs by falling value and, where values are equal, by rising key.
pub fn sort_by_value_desc<K: Key, V: Key>(v: &mut Vec<(K, V)>)
    ensures
        ordered::in_rank_order::<K, V>(final(v)@),
        final(v)@.to_multiset() == old(v)@.to_multiset(),
{
    let mut pairs: Vec<(K, V)> = Vec::new();
    std::mem::swap(v, &mut pairs);
    let mut sorted = ordered::sorted_by_rank(pairs);
    std::mem::swap(v, &mut sorted);
}

/// A bar is no longer than its width, and as long as that for all of `max`. Left out of the latter are
/// widths that double precision does not hold.
pub proof fn bars_fit(value: int, max: int, width: int)
    requires
        0 <= width,
        0 < max,
    ensures
        bar_text(value, max, width).len() <= width,
        width <= double::HIGH ==> bar_text(max, max, width).len() == width,
{
    blocks_fit(value, max, width);
    blocks_fit(max, max, width);
    if width <= double::HIGH {
        double::nearest_is_number(max, 1);
        double::quotient_of_equals(double::of(max));
        double::counts_are_exact(width);
        double::one_times(double::of(width));
    }
    repeats_add_up(blocks(value, max, width) as nat);
    repeats_add_up(blocks(max, max, width) as nat);
}

proof fn blocks_fit(value: int, max: int, width: int)
    requires
        0 <= width,
        0 < max,
    ensures
        0 <= blocks(value, max, width) <= width,
{
    if value > 0 {
        share_grows(value, value, max, width);
    }
}

/// The share of a larger number in double precision, times a width, rounds to no less.
proof fn share_grows(a: int, b: int, max: int, width: int)
    requires
        0 < a <= b,
        0 < max,
        0 <= width,
    ensures
        ({
            let share = |n: int|
                double::rounded(double::product(double::quotient(double::of(n), double::of(max)), double::of(width)));
            0 <= share(a) <= share(b)
        }),
{
    let (x, y, m, w) = (double::of(a), double::of(b), double::of(max), double::of(width));
    double::nearest_is_number(a, 1);
    double::nearest_is_number(b, 1);
    double::nearest_is_number(max, 1);
    if width > 0 {
        double::nearest_is_number(width, 1);
    }
    double::nearest_grows(a, b, 1);
    double::quotients_grow(x, y, m);
    double::quotients_grow(y, y, m);
    double::products_grow(double::quotient(x, m), double::quotient(y, m), w);
    double::products_grow(double::quotient(y, m), double::quotient(y, m), w);
    double::rounding_keeps_order(
        double::product(double::quotient(x, m), w),
        double::product(double::quotient(y, m), w),
    );
}

/// A larger share has no shorter bar.
pub proof fn bars_rise(a: int, b: int, max: int, width: int)
    requires
        a <= b,
        0 < max,
        0 <= width,
    ensures
        blocks(a, max, width) <= blocks(b, max, width),
{
    blocks_fit(b, max, width);
    if a > 0 {
        share_grows(a, b, max, width);
    }
}

proof fn repeats_add_up(n: nat)
    ensures
        text::repeated("▇"@, n).len() == n,
    decreases n,
{
    reveal_strlit("▇");
    if n > 0 {
        repeats_add_up((n - 1) as nat);
    }
}

/// A shortened text keeps the first characters, and has at most one more.
pub proof fn shortened_texts_fit(t: Seq<char>, max_chars: int)
    requires
        0 <= max_chars,
    ensures
        shortened(t, max_chars).len() <= max_chars + 1,
        t.len() <= max_chars ==> shortened(t, max_chars) == t,
        t.len() > max_chars ==> shortened(t, max_chars).take(max_chars) == t.take(max_chars),
{
    reveal_strlit("…");
    if t.len() > max_chars {
        assert(shortened(t, max_chars).take(max_chars) =~= t.take(max_chars));
    }
}

}
