//! What a page shows, and under which name.

use vstd::prelude::*;
use vstd::string::*;

use crate::couple::CoupleReport;
use crate::curios::{Curios, First};
use crate::dig::ConversationDetail;
use crate::fmt;
use crate::render::charts;
use crate::render::curios;
use crate::render::figures::Figures;
use crate::render::markup;
use crate::render::parts;
use crate::schema;
use crate::story;
use crate::text;
use crate::trend::Heatmap;

verus! {

/// What stands in a part stands in the whole.
pub broadcast proof fn parts_stand_in_the_whole(a: Seq<char>, b: Seq<char>, p: Seq<char>)
    requires
        text::has_text(a, p) || text::has_text(b, p),
    ensures
        #[trigger] text::has_text(a + b, p),
{
    let all = a + b;
    if text::has_text(a, p) {
        let at = choose|at: int| text::occurs_at(a, p, at);
        assert(all.subrange(at, at + p.len()) =~= p);
        assert(text::occurs_at(all, p, at));
    } else {
        let at = choose|at: int| text::occurs_at(b, p, at);
        assert(all.subrange(a.len() + at, a.len() + at + p.len()) =~= p);
        assert(text::occurs_at(all, p, a.len() + at));
    }
}

proof fn stands_between(a: Seq<char>, p: Seq<char>, b: Seq<char>)
    ensures
        text::has_text(a + p + b, p),
{
    let all = a + p + b;
    let at = a.len() as int;
    assert(all.subrange(at, at + p.len()) =~= p);
    assert(text::occurs_at(all, p, at));
}

/// A figure of a card: its value, and the name below it.
pub open spec fn figure(value: Seq<char>, label: Seq<char>) -> Seq<char> {
    value + "</div><div class=\"card-label\">"@ + label
}

proof fn card_holds(label: Seq<char>, value: Seq<char>, sub: Seq<char>)
    ensures
        text::has_text(parts::card_markup(label, value, sub), figure(value, label)),
{
    let a = "<div class=\"card\"><div class=\"card-val\">"@;
    let b = "</div>"@ + sub + "</div>"@;
    stands_between(a, figure(value, label), b);
    assert(parts::card_markup(label, value, sub) =~= a + figure(value, label) + b);
}

/// The cards of a page show the longest row of days, the longest silence, the late nights, the calls and
/// the days with a message, each above its own name.
pub proof fn cards_show_figures(r: CoupleReport, f: Figures)
    ensures
        text::has_text(
            parts::cards_markup(r, f),
            figure(text::numeral(r.longest_streak as int), "🔥 最长连续"@),
        ),
        text::has_text(
            parts::cards_markup(r, f),
            figure(text::numeral(r.longest_silence_days as int) + " "@ + "天"@, "🤫 最长沉默"@),
        ),
        r.peak_day matches Some((day, _)) ==> text::has_text(
            parts::cards_markup(r, f),
            figure(markup::escaped(day@), "🎉 最嗨一天"@),
        ),
        text::has_text(
            parts::cards_markup(r, f),
            figure(text::numeral(r.late_night_count as int) + " "@ + "条"@, "🌙 一起熬夜"@),
        ),
        text::has_text(
            parts::cards_markup(r, f),
            figure(text::numeral(r.call_count as int) + " "@ + "次"@, "📞 通话"@),
        ),
        text::has_text(
            parts::cards_markup(r, f),
            figure(text::numeral(r.active_days as int) + " / "@ + text::numeral(r.nth_day_today as int), "📅 活跃"@),
        ),
{
    broadcast use parts_stand_in_the_whole;

    card_holds("🔥 最长连续"@, text::numeral(r.longest_streak as int), parts::streak_sub(r));
    card_holds("🤫 最长沉默"@, parts::with_unit(r.longest_silence_days, "天"@), parts::silence_sub(r));
    card_holds("🎉 最嗨一天"@, parts::peak_value(r), parts::peak_remark(r));
    card_holds("🌙 一起熬夜"@, parts::with_unit(r.late_night_count, "条"@), ""@);
    card_holds("📞 通话"@, parts::with_unit(r.call_count, "次"@), ""@);
    card_holds("📅 活跃"@, parts::fraction(r.active_days, r.nth_day_today), parts::active_sub(f.active@));
}

/// The messages of either side are shown on their own side, with bars of their own shares.
pub proof fn sides_show_figures(r: CoupleReport, f: Figures)
    ensures
        parts::ratio_markup(r, f) == "<div class=\"bar\"><span class=\"me\" style=\"width:"@ + f.my_share@
            + "%\"></span><span class=\"them\" style=\"width:"@ + f.other_share@
            + "%\"></span></div><div class=\"bar-legend\"><span>我 "@ + text::numeral(r.my_count as int)
            + "</span><span>ta "@ + text::numeral(r.other_count as int) + "</span></div>"@,
        parts::reply_markup(r, f) == if r.my_reply_count + r.other_reply_count == 0 {
            "<p class='muted'>无回复样本</p>"@
        } else {
            parts::bar_row_markup("秒回率（30s）"@, f.my_quick@, f.other_quick@) + parts::bar_row_markup(
                "1 分钟内"@,
                f.my_fast@,
                f.other_fast@,
            )
        },
{
}

/// At most twelve keywords are shown, in their order, with one's own messages before the other side's.
pub proof fn keywords_are_shown(rows: Seq<(String, i64, i64)>, i: int)
    ensures
        rows.len() <= 12 ==> parts::keyword_rows(rows).len() == rows.len(),
        rows.len() > 12 ==> parts::keyword_rows(rows).len() == 12,
        0 <= i < rows.len() && i < 12 ==> parts::keyword_rows(rows)[i] == "<tr><td>"@ + markup::escaped(rows[i].0@)
            + "</td><td class=\"me\">"@ + text::numeral(rows[i].1 as int) + "</td><td class=\"them\">"@ + text::numeral(
            rows[i].2 as int,
        ) + "</td></tr>"@,
{
}

/// At most six types of a side are shown, in their order, each with its name and its messages.
pub proof fn types_are_shown(rows: Seq<(i64, i64)>, side: Seq<char>, i: int)
    ensures
        rows.len() <= 6 ==> parts::type_chips(rows, side).len() == rows.len(),
        rows.len() > 6 ==> parts::type_chips(rows, side).len() == 6,
        0 <= i < rows.len() && i < 6 ==> parts::type_chips(rows, side)[i] == "<span class=\"tc "@ + side + "\">"@
            + schema::label_of_type(rows[i].0) + "<i>"@ + text::numeral(rows[i].1 as int) + "</i></span>"@,
{
}

/// In depth the days that either side opened are shown on their own side, and so are the replies.
pub proof fn depth_is_shown(d: ConversationDetail, f: Figures)
    ensures
        text::has_text(
            parts::dig_markup(Some(d), f),
            "%\"></span></div><div class=\"bar-legend\"><span>我开口 "@ + text::numeral(d.days_self_open as int)
                + " 天</span><span>ta 开口 "@ + text::numeral(d.days_other_open as int),
        ),
        d.my_reply.median_sec is Some && d.my_reply.mean_sec is Some ==> parts::latency_markup(d.my_reply)
            == "<span class=\"lat\"><b>中位 "@ + fmt::duration_text(d.my_reply.median_sec->0 as int) + "</b><i>均值 "@
            + fmt::duration_text(d.my_reply.mean_sec->0 as int) + "</i><u>"@ + text::numeral(d.my_reply.samples as int)
            + " 次回复</u></span>"@,
{
    let a = "<section><h2>🔎 深挖</h2><div class=\"dig-row\"><div class=\"dig-cell\"><h4>⏱ 回复时延</h4><div class=\"latpair\"><div><span class=\"lbl me\">我</span>"@
        + parts::latency_markup(d.my_reply) + "</div><div><span class=\"lbl them\">ta</span>"@
        + parts::latency_markup(d.other_reply)
        + "</div></div></div><div class=\"dig-cell\"><h4>🌅 每日首发</h4><div class=\"bar\"><span class=\"me\" style=\"width:"@
        + f.my_open@ + "%\"></span><span class=\"them\" style=\"width:"@ + f.other_open@;
    let x = text::numeral(d.days_self_open as int);
    let y = text::numeral(d.days_other_open as int);
    let u = "%\"></span></div><div class=\"bar-legend\"><span>我开口 "@;
    let v = " 天</span><span>ta 开口 "@;
    broadcast use parts_stand_in_the_whole;

    tail_stands(a, u, x, v, y);
}

proof fn tail_stands(a: Seq<char>, u: Seq<char>, x: Seq<char>, v: Seq<char>, y: Seq<char>)
    ensures
        text::has_text(a + u + x + v + y, u + x + v + y),
{
    let p = u + x + v + y;
    stands_between(a, p, Seq::empty());
    assert(a + p + Seq::empty() =~= a + p);
    sums_regroup(a, u, x);
    sums_regroup(a, u + x, v);
    sums_regroup(a, u + x + v, y);
}

proof fn sums_regroup(a: Seq<char>, b: Seq<char>, c: Seq<char>)
    ensures
        a + (b + c) == a + b + c,
{
    assert(a + (b + c) =~= a + b + c);
}

/// The small cards show last words, waiting, the longest rally, late texts, laughter and short answers, one's
/// own before the other side's.
pub proof fn small_cards_show_figures(c: Curios)
    ensures
        curios::card_grid(c) == "<div class=\"cgrid\">"@ + curios::small_card(
            "💤 最后一句"@,
            "我 "@ + text::numeral(c.ending.my_last_word as int) + " · ta "@ + text::numeral(
                c.ending.other_last_word as int,
            ),
        ) + curios::small_card(
            "⏳ 被晾 >6h"@,
            "我 "@ + text::numeral(c.ending.my_left_on_read as int) + " · ta "@ + text::numeral(
                c.ending.other_left_on_read as int,
            ),
        ) + curios::small_card(
            "🔁 最长对线"@,
            text::numeral(c.rally.max_len as int) + " 条 · 约 "@ + text::numeral(c.rally.duration_min as int) + " 分钟"@,
        ) + curios::small_card(
            "🌙 深夜 emo"@,
            "我 "@ + text::numeral(c.emo.my_count as int) + " · ta "@ + text::numeral(c.emo.other_count as int),
        ) + curios::small_card(
            "😂 哈哈指数"@,
            "我 "@ + text::numeral(c.haha.me_total as int) + " · ta "@ + text::numeral(c.haha.them_total as int),
        ) + curios::small_card(
            "🥱 敷衍回复"@,
            "我 "@ + text::numeral(c.perfunctory.my_count as int) + " · ta "@ + text::numeral(
                c.perfunctory.other_count as int,
            ),
        ) + "</div>"@,
{
}

/// First times that came about are shown in their order, and no others.
pub proof fn first_times_are_shown(firsts: Seq<First>, f: First)
    ensures
        curios::milestones(Seq::empty()) == Seq::<Seq<char>>::empty(),
        f.when is None ==> curios::milestones(firsts.push(f)) == curios::milestones(firsts),
        f.when is Some ==> curios::milestones(firsts.push(f)) == curios::milestones(firsts).push(
            curios::milestone(f, f.when->0@),
        ),
        crate::report::curios::first_lines(Seq::empty()) == Seq::<Seq<char>>::empty(),
        f.when is None ==> crate::report::curios::first_lines(firsts.push(f)) == crate::report::curios::first_lines(
            firsts,
        ),
        f.when is Some ==> crate::report::curios::first_lines(firsts.push(f)) == crate::report::curios::first_lines(
            firsts,
        ).push(crate::report::curios::first_line(f)),
{
    assert(firsts.push(f).drop_last() =~= firsts);
}

/// The point that is marked is the last of the highest.
pub proof fn marked_point_is_highest(counts: Seq<i64>)
    requires
        counts.len() > 0,
    ensures
        0 <= charts::peak_index(counts) < counts.len(),
        forall|i: int| 0 <= i < counts.len() ==> #[trigger] counts[i] <= counts[charts::peak_index(counts)],
        forall|i: int|
            charts::peak_index(counts) < i < counts.len() ==> #[trigger] counts[i] < counts[charts::peak_index(counts)],
    decreases counts.len(),
{
    if counts.len() > 1 {
        let less = counts.drop_last();
        marked_point_is_highest(less);
        let n = counts.len() - 1;
        assert forall|i: int| 0 <= i < counts.len() implies #[trigger] counts[i] <= counts[charts::peak_index(counts)] by {
            if i < n {
                assert(less[i] == counts[i]);
            }
        }
        assert forall|i: int| charts::peak_index(counts) < i < counts.len() implies #[trigger] counts[i]
            < counts[charts::peak_index(counts)] by {
            if i < n {
                assert(less[i] == counts[i]);
            }
        }
    }
}

/// Each cell of the grid shows its own day with its own count, and is shaded against the largest.
pub proof fn cells_show_days(h: Heatmap, i: int)
    ensures
        charts::cells(h).len() == h.cells@.len(),
        0 <= i < h.cells@.len() ==> charts::cells(h)[i] == "<i class=\"hm-c lv"@ + text::numeral(
            markup::shade(h.cells@[i].1 as int, h.max as int),
        ) + "\" data-tip=\""@ + markup::escaped(
            markup::month_day(h.cells@[i].0@) + " · "@ + (if h.cells@[i].1 > 0 {
                text::numeral(h.cells@[i].1 as int)
            } else {
                "无"@
            }) + " 条"@,
        ) + "\" data-date=\""@ + h.cells@[i].0@ + "\" data-count=\""@ + text::numeral(h.cells@[i].1 as int)
            + "\"></i>"@,
{
}

/// A label stands above its own column, the last one where several are of one column, and the other columns
/// have none.
pub proof fn labels_stand_above_columns(labels: Seq<(usize, String)>, label: (usize, String), n: nat, i: int)
    requires
        0 <= i < n,
    ensures
        charts::month_row(Seq::empty(), n)[i] == ""@,
        charts::month_row(labels.push(label), n).len() == n,
        charts::month_row(labels.push(label), n)[i] == if label.0 == i {
            label.1@
        } else {
            charts::month_row(labels, n)[i]
        },
{
    assert(labels.push(label).drop_last() =~= labels);
    row_is_full(labels, n);
}

proof fn row_is_full(labels: Seq<(usize, String)>, n: nat)
    ensures
        charts::month_row(labels, n).len() == n,
    decreases labels.len(),
{
    if labels.len() > 0 {
        row_is_full(labels.drop_last(), n);
    }
}

/// A course is drawn by its tag.
pub proof fn tags_have_styles(tag: Seq<char>)
    ensures
        charts::tag_style("升温"@) == "up"@,
        tag == "降温"@ && tag != "升温"@ ==> charts::tag_style(tag) == "down"@,
        tag == "平稳"@ && tag != "升温"@ && tag != "降温"@ ==> charts::tag_style(tag) == "flat"@,
        tag != "升温"@ && tag != "降温"@ && tag != "平稳"@ ==> charts::tag_style(tag) == "unk"@,
{
}

/// The warmth is measured by the messages, the longest row of days, the days with a message out of all since
/// the first, and the quick replies of either side out of its own.
pub proof fn warmth_is_measured(r: CoupleReport)
    ensures
        story::measured(r).total == r.total,
        story::measured(r).my_count == r.my_count && story::measured(r).other_count == r.other_count,
        story::measured(r).longest_streak == r.longest_streak,
        story::measured(r).active_ratio.part == r.active_days && story::measured(r).active_ratio.whole
            == r.nth_day_today,
        story::measured(r).my_quick.part == r.my_quick_replies && story::measured(r).my_quick.whole == r.my_reply_count,
        story::measured(r).other_quick.part == r.other_quick_replies && story::measured(r).other_quick.whole
            == r.other_reply_count,
{
}

}
