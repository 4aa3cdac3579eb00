//! What shown numbers, times and texts say.

use vstd::prelude::*;
use vstd::string::*;

use crate::calendar;
use crate::calendar::LocalTime;
use crate::double;
use crate::fmt;
use crate::text;

verus! {

/// In a row of digits in groups, every fourth character from the right is a comma and no other is.
pub proof fn commas_stand_between_groups(ds: Seq<char>)
    requires
        forall|i: int| 0 <= i < ds.len() ==> #[trigger] ds[i] != ',',
        ds.len() > 0,
    ensures
        fmt::grouped(ds).len() == ds.len() + (ds.len() - 1) / 3,
        forall|i: int|
            0 <= i < fmt::grouped(ds).len() ==> (#[trigger] fmt::grouped(ds)[i] == ',' <==> (fmt::grouped(ds).len() - i)
                % 4 == 0),
    decreases ds.len(),
{
    let g = fmt::grouped(ds);
    if ds.len() > 3 {
        let head = ds.take(ds.len() - 3);
        let tail = ds.skip(ds.len() - 3);
        commas_stand_between_groups(head);
        let h = fmt::grouped(head);
        assert(g == h + seq![','] + tail);
        assert forall|i: int| 0 <= i < g.len() implies (#[trigger] g[i] == ',' <==> (g.len() - i) % 4 == 0) by {
            if i < h.len() {
                assert(g[i] == h[i]);
                assert((g.len() - i) % 4 == (h.len() - i) % 4);
            } else if i > h.len() {
                assert(g[i] == tail[i - h.len() - 1]);
                assert(tail[i - h.len() - 1] == ds[i - h.len() - 1 + ds.len() - 3]);
            }
        }
    } else {
        assert forall|i: int| 0 <= i < g.len() implies (#[trigger] g[i] == ',' <==> (g.len() - i) % 4 == 0) by {
            assert(g[i] == ds[i]);
        }
    }
}

/// A duration is told in whole seconds below a minute, in minutes and seconds below an hour, and in hours
/// and minutes from there on; what is told falls short of the duration by less than the smaller unit.
pub proof fn durations_are_told(secs: int)
    ensures
        secs < 60 ==> fmt::duration_text(secs) == text::numeral(secs) + " 秒"@,
        forall|m: int, s: int|
            #![trigger text::numeral(m), text::numeral(s)]
            0 <= s < 60 && 1 <= m < 60 && 60 * m + s == secs ==> fmt::duration_text(secs) == text::numeral(m) + " 分 "@
                + text::numeral(s) + " 秒"@,
        forall|h: int, m: int|
            #![trigger text::numeral(h), text::numeral(m)]
            0 <= m < 60 && h >= 1 && 3600 * h + 60 * m <= secs < 3600 * h + 60 * m + 60 ==> fmt::duration_text(secs)
                == text::numeral(h) + " 时 "@ + text::numeral(m) + " 分"@,
{
    assert forall|m: int, s: int|
        #![trigger text::numeral(m), text::numeral(s)]
        0 <= s < 60 && 1 <= m < 60 && 60 * m + s == secs implies fmt::duration_text(secs) == text::numeral(m) + " 分 "@
        + text::numeral(s) + " 秒"@ by {
        assert(secs / 60 == m && secs % 60 == s);
    }
    assert forall|h: int, m: int|
        #![trigger text::numeral(h), text::numeral(m)]
        0 <= m < 60 && h >= 1 && 3600 * h + 60 * m <= secs < 3600 * h + 60 * m + 60 implies fmt::duration_text(secs)
        == text::numeral(h) + " 时 "@ + text::numeral(m) + " 分"@ by {
        assert(secs / 3600 == h);
        assert(secs % 3600 == secs - 3600 * h);
        assert((secs - 3600 * h) / 60 == m);
    }
}

/// What is left out of a text is marked: one more character than fits, an ellipsis, stands at the end.
pub proof fn cut_texts_are_marked(t: Seq<char>, max_chars: int)
    requires
        0 <= max_chars,
    ensures
        t.len() <= max_chars ==> fmt::shortened(t, max_chars) == t,
        t.len() > max_chars ==> fmt::shortened(t, max_chars).len() == max_chars + 1 && fmt::shortened(
            t,
            max_chars,
        ).last() == '…' && forall|i: int| 0 <= i < max_chars ==> #[trigger] fmt::shortened(t, max_chars)[i] == t[i],
{
    reveal_strlit("…");
    let s = fmt::shortened(t, max_chars);
    if t.len() > max_chars {
        assert(s[max_chars] == '…');
    }
}

/// A time is shown as date and time of day, each part with its number of digits: year, month, day, hour,
/// minute and second, which read back as they were. For years of up to four digits.
pub proof fn shown_times_read_back(secs: int, t: LocalTime)
    requires
        0 <= t.date.year <= 9999,
        1 <= t.date.month <= 12,
        1 <= t.date.day <= 31,
        t.hour < 24,
        t.minute < 60,
        t.second < 60,
    ensures
        ({
            let shown = fmt::time_text(secs, Some(t));
            &&& shown.len() == 19
            &&& shown.take(10) == fmt::day_text(Some(t))
            &&& fmt::day_text(Some(t)) == calendar::date_key(t.date)
            &&& text::digits_value(shown.subrange(0, 4)) == t.date.year
            &&& shown[4] == '-'
            &&& text::digits_value(shown.subrange(5, 7)) == t.date.month
            &&& shown[7] == '-'
            &&& text::digits_value(shown.subrange(8, 10)) == t.date.day
            &&& shown[10] == ' '
            &&& text::digits_value(shown.subrange(11, 13)) == t.hour
            &&& shown[13] == ':'
            &&& text::digits_value(shown.subrange(14, 16)) == t.minute
            &&& shown[16] == ':'
            &&& text::digits_value(shown.subrange(17, 19)) == t.second
        }),
{
    reveal_strlit("-");
    reveal_strlit(":");
    reveal_strlit(" ");
    let y = text::zero_padded(t.date.year as int, 4);
    let m = text::zero_padded(t.date.month as int, 2);
    let d = text::zero_padded(t.date.day as int, 2);
    let h = text::zero_padded(t.hour as int, 2);
    let n = text::zero_padded(t.minute as int, 2);
    let s = text::zero_padded(t.second as int, 2);
    padded_value(t.date.year as int, 4);
    padded_value(t.date.month as int, 2);
    padded_value(t.date.day as int, 2);
    padded_value(t.hour as int, 2);
    padded_value(t.minute as int, 2);
    padded_value(t.second as int, 2);
    let shown = fmt::time_text(secs, Some(t));
    assert(shown =~= y + "-"@ + m + "-"@ + d + (" "@ + (h + ":"@ + n + ":"@ + s)));
    assert(shown.subrange(0, 4) =~= y);
    assert(shown.subrange(5, 7) =~= m);
    assert(shown.subrange(8, 10) =~= d);
    assert(shown.subrange(11, 13) =~= h);
    assert(shown.subrange(14, 16) =~= n);
    assert(shown.subrange(17, 19) =~= s);
    assert(shown.take(10) =~= y + "-"@ + m + "-"@ + d);
}

/// A number that fits in a width is padded to exactly that width and reads back.
pub proof fn padded_value(n: int, width: int)
    requires
        (width == 2 && 0 <= n < 100) || (width == 4 && 0 <= n < 10000),
    ensures
        text::zero_padded(n, width).len() == width,
        text::all_digits(text::zero_padded(n, width)),
        text::digits_value(text::zero_padded(n, width)) == n,
{
    reveal_with_fuel(text::digits, 5);
    text::digits_are_digits(n as nat);
    text::zero_padded_reads_back(n, width, 0, 9999);
    let z = text::zero_padded(n, width);
    assert(text::digits(n as nat).len() <= width);
    let ds = text::digits(n as nat);
    assert(z.len() == width);
    assert(text::all_digits(z)) by {
        assert forall|i: int| 0 <= i < z.len() implies text::is_digit(#[trigger] z[i]) by {
            if i >= width - ds.len() {
                assert(z[i] == ds[i - (width - ds.len())]);
            }
        }
    }
    assert(z[0] != '+') by {
        assert(text::is_digit(z[0]));
    }
}

/// A bar has the whole number of blocks that is nearest to its share of the width: `t` where the share is
/// more than half a block above `t - 1` and less than half a block above `t`. For counts of up to two to
/// the 32nd and widths of up to 1024.
pub proof fn bars_are_to_scale(value: int, max: int, width: int, t: int)
    requires
        0 <= value <= max <= 0x1_0000_0000,
        max > 0,
        0 <= t <= width <= 0x400,
    ensures
        (2 * t - 1) * max < 2 * (width * value) < (2 * t + 1) * max ==> fmt::bar_text(value, max, width).len() == t,
        value == 0 ==> fmt::bar_text(value, max, width).len() == 0,
        forall|i: int|
            0 <= i < fmt::bar_text(value, max, width).len() ==> #[trigger] fmt::bar_text(value, max, width)[i] == '▇',
{
    reveal_strlit("▇");
    fmt::bars_fit(value, max, width);
    let n = fmt::blocks(value, max, width);
    blocks_are_not_negative(value, max, width);
    assert("▇"@ =~= seq!['▇']);
    crate::laws::text::characters_are_repeated('▇', n as nat);
    if value > 0 && (2 * t - 1) * max < 2 * (width * value) < (2 * t + 1) * max {
        if t > 0 {
            double::share_rounds_to_nearest(value, max, width, t);
        }
        if t < width {
            double::share_rounds_to_nearest(value, max, width, t + 1);
            assert(2 * (t + 1) - 1 == 2 * t + 1);
        }
    }
    if value == 0 {
        assert(width * value == 0) by (nonlinear_arith)
            requires
                value == 0,
        ;
        if t > 0 {
            assert((2 * t - 1) * max > 0) by (nonlinear_arith)
                requires
                    t > 0,
                    max > 0,
            ;
        }
    }
}

proof fn blocks_are_not_negative(value: int, max: int, width: int)
    requires
        0 <= value,
        max > 0,
        0 <= width,
    ensures
        0 <= fmt::blocks(value, max, width),
{
    fmt::bars_rise(0, value, max, width);
}

}
