//! What the lines of a report show.

use vstd::prelude::*;
use vstd::string::*;

use crate::calendar;
use crate::calendar::LocalTime;
use crate::couple::{CoupleReport, TextMetrics};
use crate::curios::Curios;
use crate::dig::ConversationDetail;
use crate::fmt;
use crate::laws::counting;
use crate::lexical::WordFreq;
use crate::model::{Contact, Conversation};
use crate::report::couple;
use crate::report::couple::CoupleShares;
use crate::report::curios;
use crate::report::dig;
use crate::report::dig::{DigShares, DigTimes};
use crate::report::inspect;
use crate::report;
use crate::report::volume;
use crate::report::volume::VolumeShares;
use crate::seqs;
use crate::stats::volume as counts;
use crate::stats::volume::VolumeStats;
use crate::text;
use crate::trend::TrendSeries;

verus! {

/// The number as it is shown.
pub open spec fn n(x: i64) -> Seq<char> {
    fmt::number_text(x as int)
}

/// The story shows every figure under its own name: messages of either side, days, the longest row of
/// days and the current one, the longest silence, late nights, and calls where there are any.
pub proof fn story_shows_figures(name: Seq<char>, c: CoupleReport, s: CoupleShares, when: Option<LocalTime>)
    ensures
        couple::couple_text(name, c, s, when).contains(
            "│    共聊了 "@ + n(c.total) + " 条消息（我 "@ + n(c.my_count) + " · 对方 "@ + n(c.other_count)
                + "），分布在 "@ + n(c.active_days) + " / "@ + n(c.nth_day_today) + " 天里（"@ + s.active@ + "）"@,
        ),
        couple::couple_text(name, c, s, when).contains("│ 🔥 最长连续聊天："@ + n(c.longest_streak) + " 天不间断"@),
        c.current_streak > 0 ==> couple::couple_text(name, c, s, when).contains(
            "│    当前已连续 "@ + n(c.current_streak) + " 天 ✨"@,
        ),
        c.current_streak <= 0 ==> couple::couple_text(name, c, s, when).contains("│    （当前连续已中断）"@),
        couple::couple_text(name, c, s, when).contains("│ 🤫 最长沉默："@ + n(c.longest_silence_days) + " 天没说话"@),
        couple::couple_text(name, c, s, when).contains(
            "│ 🌙 一起熬过的夜："@ + n(c.late_night_count) + " 条凌晨消息（0–4 点）"@,
        ),
        c.call_count > 0 ==> couple::couple_text(name, c, s, when).contains(
            "│ 📞 语音/视频通话："@ + n(c.call_count) + " 次"@,
        ),
        c.first_day matches Some(day) ==> couple::couple_text(name, c, s, when).contains(
            "│ 📅 故事开始于 "@ + day@ + "，今天是第 "@ + n(c.nth_day_today) + " 天"@,
        ),
        c.peak_day matches Some((day, count)) ==> couple::couple_text(name, c, s, when).contains(
            "│ 🎉 最嗨的一天："@ + day@ + "，聊了 "@ + n(count) + " 条"@,
        ),
        c.longest_silence_range matches Some((a, b)) ==> couple::couple_text(name, c, s, when).contains(
            "│    （"@ + a@ + " 之后，直到 "@ + b@ + " 才再说话）"@,
        ),
        c.last_day matches Some(day) ==> couple::couple_text(name, c, s, when).contains("│ 💌 最近一次聊天："@ + day@),
        c.my_reply_count + c.other_reply_count > 0 ==> couple::couple_text(name, c, s, when).contains(
            "│ ⚡ 秒回率（30 秒内回复）：我 "@ + s.my_quick@ + " · 对方 "@ + s.other_quick@,
        ) && couple::couple_text(name, c, s, when).contains(
            "│    1 分钟内回复率     ：我 "@ + s.my_fast@ + " · 对方 "@ + s.other_fast@,
        ),
{
    broadcast use vstd::seq_lib::lemma_seq_concat_contains_all_elements;

    let days = couple::days_part(c, s);
    let fixed = seq![
        couple::total_line(c, s),
        "│"@,
        couple::streak_line(c),
        couple::now_line(c),
        couple::silence_line(c),
    ];
    assert(fixed[0] == couple::total_line(c, s) && fixed[2] == couple::streak_line(c) && fixed[3] == couple::now_line(c)
        && fixed[4] == couple::silence_line(c));
    assert(seq![couple::night_line(c)][0] == couple::night_line(c));
    if c.call_count > 0 {
        assert(couple::call_part(c)[0] == couple::call_line(c));
    }
    if c.first_day is Some {
        assert(couple::start_part(c)[0] == couple::start_line(c.first_day->0@, c.nth_day_today));
    }
    if c.peak_day is Some {
        let (day, count) = c.peak_day->0;
        assert(couple::peak_part(c)[0] == couple::peak_line(day@, count));
    }
    if c.longest_silence_range is Some {
        let (a, b) = c.longest_silence_range->0;
        assert(couple::range_part(c)[0] == couple::silence_range_line(a@, b@));
    }
    if c.my_reply_count + c.other_reply_count > 0 {
        let q = seq![couple::quick_line(s), couple::fast_line(s)];
        assert(q[0] == couple::quick_line(s) && q[1] == couple::fast_line(s));
    }
    if c.last_day is Some {
        let q = seq!["│"@, couple::last_line(c.last_day->0@)];
        assert(q[1] == couple::last_line(c.last_day->0@));
    }
}

/// The texts of a story are shown with the characters of either side and the longest text, and with at most
/// ten keywords, in their order, under a heading.
pub proof fn story_shows_texts(t: TextMetrics, when: Option<LocalTime>, i: int)
    ensures
        couple::text_part(Some(t), when).contains(
            "│ ✍️ 总字数：我 "@ + n(t.my_chars) + " · 对方 "@ + n(t.other_chars),
        ),
        t.longest matches Some((chars, mine, _)) ==> couple::text_part(Some(t), when).contains(
            "│ 📝 最长一条："@ + n(chars) + " 字（"@ + (if mine {
                "我"@
            } else {
                "对方"@
            }) + " 发，"@ + (match when {
                Some(w) => calendar::date_text(w.date),
                None => "?"@,
            }) + "）"@,
        ),
        couple::keyword_part(t.keywords@).len() == if t.keywords@.len() == 0 {
            0
        } else if t.keywords@.len() <= 10 {
            t.keywords@.len() as int + 1
        } else {
            11
        },
        0 <= i < t.keywords@.len() && i < 10 ==> couple::keyword_part(t.keywords@)[i + 1] == "│    "@ + text::pad_right(
            t.keywords@[i].0@,
            6,
        ) + " 我 "@ + text::pad_left(n(t.keywords@[i].1), ' ', 4) + " · 对方 "@ + text::pad_left(
            n(t.keywords@[i].2),
            ' ',
            4,
        ),
{
    broadcast use vstd::seq_lib::lemma_seq_concat_contains_all_elements;

    let head = seq!["│"@, couple::chars_line(t)];
    assert(head[1] == couple::chars_line(t));
    if t.longest is Some {
        let (chars, mine, _) = t.longest->0;
        assert(couple::longest_part(t, when)[0] == couple::longest_line(chars, mine, when));
    }
}

/// A conversation in depth shows the messages and the days of either side, the replies that came too late
/// where there are any, and of each listed day who opened it and when, the latest first and at most
/// fourteen.
pub proof fn depth_shows_figures(name: Seq<char>, d: ConversationDetail, s: DigShares, t: DigTimes, i: int)
    requires
        t.openers@.len() == d.recent_openers@.len(),
    ensures
        d.my_count + d.other_count > 0 ==> dig::dig_text(name, d, s, t).contains(
            "│ 发送比例      : 我 "@ + n(d.my_count) + " ("@ + s.my@ + ")  ·  对方 "@ + n(d.other_count) + " ("@ + s.other@
                + ")"@,
        ),
        d.days_self_open + d.days_other_open > 0 ==> dig::dig_text(name, d, s, t).contains(
            "│ 每日谁先开口：我主动 "@ + n(d.days_self_open) + " 天 ("@ + s.open_self@ + ")  ·  对方先 "@ + n(
                d.days_other_open,
            ) + " 天 ("@ + s.open_other@ + ")"@,
        ),
        d.capped_replies > 0 ==> dig::dig_text(name, d, s, t).contains(
            "│   （另有 "@ + n(d.capped_replies) + " 次超过 6h 的续聊未计入）"@,
        ),
        dig::opener_lines(d.recent_openers@, t.openers@).len() == if d.recent_openers@.len() <= 14 {
            d.recent_openers@.len() as int
        } else {
            14
        },
        0 <= i < d.recent_openers@.len() && i < 14 ==> dig::opener_lines(d.recent_openers@, t.openers@)[i] == "│     "@
            + d.recent_openers@[d.recent_openers@.len() - 1 - i].0@ + "  "@ + (if d.recent_openers@[
            d.recent_openers@.len() - 1 - i
        ].1 {
            "我"@
        } else {
            "对方"@
        }) + " 先开口  "@ + dig::minute_text(t.openers@[d.recent_openers@.len() - 1 - i]),
        d.my_reply.median_sec is Some && d.my_reply.mean_sec is Some ==> dig::dig_text(name, d, s, t).contains(
            "│   我回对方"@ + "：中位 "@ + fmt::duration_text(d.my_reply.median_sec->0 as int) + " · 均值 "@
                + fmt::duration_text(d.my_reply.mean_sec->0 as int) + " · 共 "@ + n(d.my_reply.samples) + " 次"@,
        ),
        d.other_reply.median_sec is Some && d.other_reply.mean_sec is Some ==> dig::dig_text(name, d, s, t).contains(
            "│   对方回我"@ + "：中位 "@ + fmt::duration_text(d.other_reply.median_sec->0 as int) + " · 均值 "@
                + fmt::duration_text(d.other_reply.mean_sec->0 as int) + " · 共 "@ + n(d.other_reply.samples) + " 次"@,
        ),
        d.time_min is Some && d.time_max is Some ==> dig::dig_text(name, d, s, t).contains(
            "│ 时间跨度      : "@ + fmt::time_text(d.time_min->0 as int, t.first) + " ~ "@ + fmt::time_text(
                d.time_max->0 as int,
                t.last,
            ),
        ),
{
    broadcast use vstd::seq_lib::lemma_seq_concat_contains_all_elements;

    let a = seq![
        dig::ratio_line(d, s),
        dig::my_bar_line(d),
        dig::other_bar_line(d),
        dig::times_line(s),
        "│ 对方最常发的类型："@,
    ];
    assert(a[0] == dig::ratio_line(d, s));
    let b = seq![
        "│ 回复时延（切换发送者算一次回复，上限 6h）："@,
        dig::latency_text("│   我回对方"@, d.my_reply),
        dig::latency_text("│   对方回我"@, d.other_reply),
    ];
    assert(b[1] == dig::latency_text("│   我回对方"@, d.my_reply) && b[2] == dig::latency_text(
        "│   对方回我"@,
        d.other_reply,
    ));
    assert(seq![dig::open_line(d, s)][0] == dig::open_line(d, s));
    if d.capped_replies > 0 {
        assert(dig::capped_part(d)[0] == dig::capped_line(d));
    }
    if d.time_min is Some && d.time_max is Some {
        assert(dig::span_part(d, t)[0] == dig::span_line(d.time_min->0, d.time_max->0, t.first, t.last));
    }
}

/// Hour and minute of a time are shown in two digits each, which read back.
pub proof fn minutes_are_shown(t: LocalTime)
    requires
        t.hour < 24,
        t.minute < 60,
    ensures
        dig::minute_text(Some(t)).len() == 5,
        dig::minute_text(Some(t))[2] == ':',
        text::digits_value(dig::minute_text(Some(t)).subrange(0, 2)) == t.hour,
        text::digits_value(dig::minute_text(Some(t)).subrange(3, 5)) == t.minute,
{
    reveal_strlit(":");
    crate::laws::fmt::padded_value(t.hour as int, 2);
    crate::laws::fmt::padded_value(t.minute as int, 2);
    let m = dig::minute_text(Some(t));
    assert(m.subrange(0, 2) =~= text::zero_padded(t.hour as int, 2));
    assert(m.subrange(3, 5) =~= text::zero_padded(t.minute as int, 2));
}

/// The curious facts show every figure under its own name and on its own side.
pub proof fn curious_facts_show_figures(c: Curios)
    ensures
        c.emo.my_count + c.emo.other_count > 0 ==> curios::curios_text(c).contains(
            "│ 🌙 深夜 emo 长文（≥50 字 @0–4 点）：我 "@ + n(c.emo.my_count) + " · ta "@ + n(c.emo.other_count),
        ),
        curios::curios_text(c).contains(
            "│ 💤 谁先消失：最后一句 我 "@ + n(c.ending.my_last_word) + " · ta "@ + n(c.ending.other_last_word),
        ),
        curios::curios_text(c).contains(
            "│    被晾 >6h：我 "@ + n(c.ending.my_left_on_read) + " · ta "@ + n(c.ending.other_left_on_read),
        ),
        c.rally.max_len > 0 && c.rally.when is Some ==> curios::curios_text(c).contains(
            "│ 🔁 最长对线："@ + n(c.rally.max_len) + " 条（"@ + c.rally.when->0@ + "，约 "@ + n(c.rally.duration_min)
                + " 分钟）"@,
        ),
        c.haha.me_total + c.haha.them_total > 0 ==> curios::curios_text(c).contains(
            "│ 😂 哈哈指数：我 "@ + n(c.haha.me_total) + " · ta "@ + n(c.haha.them_total),
        ),
        curios::curios_text(c).contains(
            "│ 🥱 敷衍回复（嗯/哦/好…）：我 "@ + n(c.perfunctory.my_count) + " · ta "@ + n(c.perfunctory.other_count),
        ),
        curios::curios_text(c).contains(
            "│ 🗓️ 全年热力图："@ + n(c.heatmap.active_days) + "/"@ + n(c.heatmap.span_days)
                + " 天有聊天（详细见 HTML 报告）"@,
        ),
{
    broadcast use vstd::seq_lib::lemma_seq_concat_contains_all_elements;

    let ends = seq![curios::last_word_line(c), curios::left_line(c)];
    assert(ends[0] == curios::last_word_line(c) && ends[1] == curios::left_line(c));
    let tail = seq![
        curios::short_line(c),
        curios::heat_line(c),
        "╰─────────────────────────────────────────────────────────"@,
    ];
    assert(tail[0] == curios::short_line(c) && tail[1] == curios::heat_line(c));
    if c.emo.my_count + c.emo.other_count > 0 {
        assert(curios::emo_part(c)[0] == curios::emo_line(c));
    }
    if c.rally.max_len > 0 {
        assert(curios::rally_part(c)[0] == curios::rally_line(c));
    }
    if c.haha.me_total + c.haha.them_total > 0 {
        assert(curios::haha_part(c)[0] == curios::haha_line(c));
    }
}

/// One more row of messages adds to the class of its type and to no other: text, pictures, voice messages,
/// videos, stickers, files, calls and system messages by their types, all others together.
pub proof fn messages_have_classes(rows: Seq<(i64, i64)>, r: (i64, i64))
    ensures
        volume::other_sum(Seq::empty()) == 0,
        volume::other_sum(rows.push(r)) == volume::other_sum(rows) + if r.0 == 1 || r.0 == 3 || r.0 == 34 || r.0 == 43
            || r.0 == 47 || r.0 == 49 || r.0 == 50 || r.0 == 10000 {
            0
        } else {
            r.1 as int
        },
{
    assert(rows.push(r).drop_last() =~= rows);
}

/// The figures of all conversations: messages by class, the classes by their types, and each listed
/// conversation with its rank from one on, its name, its messages of either side, and a bar against the
/// largest.
pub proof fn volume_shows_figures(
    v: VolumeStats,
    shares: VolumeShares,
    contacts: Map<Seq<char>, crate::model::Contact>,
    i: int,
)
    requires
        counts::counts_rows(v.type_dist@),
        counts::row_total(v.type_dist@) <= i64::MAX,
    ensures
        volume::volume_text(v, shares, contacts).contains("│ 消息总数      : "@ + n(v.total_messages)),
        volume::volume_text(v, shares, contacts).contains(
            "│ 会话总数      : "@ + fmt::number_text(v.conversations as int),
        ),
        volume::volume_text(v, shares, contacts).contains(
            "│   "@ + "├"@ + " "@ + "文本"@ + "      : "@ + text::pad_left(
                fmt::number_text(counts::type_sum(v.type_dist@, 1)),
                ' ',
                14,
            ) + "  ("@ + shares.text@ + ")"@,
        ),
        volume::volume_text(v, shares, contacts).contains(
            "│   "@ + "├"@ + " "@ + "系统"@ + "      : "@ + text::pad_left(
                fmt::number_text(counts::type_sum(v.type_dist@, 10000)),
                ' ',
                14,
            ) + "  ("@ + shares.system@ + ")"@,
        ),
        volume::volume_text(v, shares, contacts).contains(
            "│ 媒体拆分      : 图片 "@ + fmt::number_text(counts::type_sum(v.type_dist@, 3)) + " · 语音 "@
                + fmt::number_text(counts::type_sum(v.type_dist@, 34)) + " · 视频 "@ + fmt::number_text(
                counts::type_sum(v.type_dist@, 43),
            ) + " · 表情 "@ + fmt::number_text(counts::type_sum(v.type_dist@, 47)) + " · 文件 "@ + fmt::number_text(
                counts::type_sum(v.type_dist@, 49),
            ) + " · 通话 "@ + fmt::number_text(counts::type_sum(v.type_dist@, 50)),
        ),
        volume::top_lines(v.top@, contacts).len() == v.top@.len(),
        0 <= i < v.top@.len() ==> volume::top_lines(v.top@, contacts)[i] == "│ "@ + text::pad_left(
            text::numeral(i + 1),
            ' ',
            2,
        ) + ". ["@ + report::kind_text(v.top@[i].0@) + "] "@ + text::pad_right(
            report::display_text(report::name_of(contacts, v.top@[i].0@), 20),
            22,
        ) + " "@ + text::pad_left(n(v.top@[i].1), ' ', 10) + "  我 "@ + text::pad_left(n(v.top@[i].2), ' ', 6)
            + " · 对方 "@ + text::pad_left(n(v.top@[i].3), ' ', 6) + "  "@ + fmt::bar_text(
            v.top@[i].1 as int,
            seqs::max_of(volume::top_counts(v.top@)) as int,
            16,
        ),
{
    broadcast use vstd::seq_lib::lemma_seq_concat_contains_all_elements;

    let rows = v.type_dist@;
    let c = volume::type_classes(rows);
    counts::types_within_total(rows, 1);
    counts::types_within_total(rows, 3);
    counts::types_within_total(rows, 34);
    counts::types_within_total(rows, 43);
    counts::types_within_total(rows, 47);
    counts::types_within_total(rows, 49);
    counts::types_within_total(rows, 50);
    counts::types_within_total(rows, 10000);
    let head = seq![
        ""@,
        "╭─ 微信消息统计 ──────────────────────────────────────────"@,
        volume::conversations_line(v.conversations as int),
        volume::messages_line(v.total_messages as int),
        volume::class_line("├"@, "文本"@, c.text, shares.text@),
        volume::class_line("├"@, "媒体"@, c.media, shares.media@),
        volume::class_line("├"@, "系统"@, c.system, shares.system@),
        volume::class_line("└"@, "其它"@, c.other, shares.other@),
        volume::media_line(c),
        "│ 类型分布（基础类型码）："@,
    ];
    assert(head[2] == volume::conversations_line(v.conversations as int) && head[3] == volume::messages_line(
        v.total_messages as int,
    ) && head[4] == volume::class_line("├"@, "文本"@, c.text, shares.text@) && head[6] == volume::class_line(
        "├"@,
        "系统"@,
        c.system,
        shares.system@,
    ) && head[8] == volume::media_line(c));
}

/// Hours are shown from 0 to 23, days of the week from Monday to Sunday, and of the months the last 24 in
/// their order, each with its messages and a bar against the largest.
pub proof fn times_show_figures(hours: Seq<i64>, days: Seq<i64>, months: Seq<(String, i64)>, i: int)
    requires
        hours.len() == 24,
        days.len() == 7,
    ensures
        volume::hour_lines(hours).len() == 24,
        0 <= i < 24 ==> volume::hour_lines(hours)[i] == "│ "@ + text::zero_padded(i, 2) + ":00 ▏"@ + text::pad_right(
            fmt::bar_text(hours[i] as int, seqs::max_of(hours) as int, 28),
            28,
        ) + " "@ + text::pad_left(n(hours[i]), ' ', 12),
        volume::weekday_lines(days).len() == 7,
        0 <= i < 7 ==> volume::weekday_lines(days)[i] == "│ "@ + (if i == 0 {
            "周一"@
        } else if i == 1 {
            "周二"@
        } else if i == 2 {
            "周三"@
        } else if i == 3 {
            "周四"@
        } else if i == 4 {
            "周五"@
        } else if i == 5 {
            "周六"@
        } else {
            "周日"@
        }) + " ▏"@ + text::pad_right(fmt::bar_text(days[i] as int, seqs::max_of(days) as int, 28), 28) + " "@
            + text::pad_left(n(days[i]), ' ', 12),
        months.len() <= 24 ==> volume::month_lines(months).len() == months.len(),
        months.len() > 24 ==> volume::month_lines(months).len() == 24,
        0 <= i < months.len() && i < 24 ==> ({
            let shown = volume::month_lines(months);
            let m = months[months.len() - 1 - i];
            shown[shown.len() - 1 - i] == "│   "@ + m.0@ + " ▏"@ + text::pad_right(
                fmt::bar_text(m.1 as int, seqs::max_of(volume::month_counts(months)) as int, 24),
                24,
            ) + " "@ + text::pad_left(n(m.1), ' ', 12)
        }),
{
}

/// The overview counts the groups among the contacts, and lists the conversations in the order that is given,
/// each with its place from one on, its own messages and its own databases, and no more than asked for.
pub proof fn overview_shows_figures(
    contacts: Seq<Contact>,
    convs: Seq<Conversation>,
    messages: Seq<i64>,
    order: Seq<usize>,
    top: nat,
    i: int,
)
    ensures
        inspect::group_count(contacts) == counting::how_many(
            contacts.len() as int,
            |k: int| contacts[k].is_chatroom,
        ),
        order.len() <= top ==> inspect::overview_rows(convs, messages, order, top).len() == order.len(),
        order.len() > top ==> inspect::overview_rows(convs, messages, order, top).len() == top,
        0 <= i < order.len() && i < top ==> inspect::overview_rows(convs, messages, order, top)[i] == "  "@ + text::pad_left(
            text::numeral(i + 1),
            ' ',
            2,
        ) + ". ["@ + report::kind_text(convs[order[i] as int].username@) + "] "@ + text::pad_right(
            report::masked(convs[order[i] as int].username@),
            22,
        ) + " "@ + text::pad_left(text::numeral(messages[order[i] as int] as int), ' ', 8) + " 条  ("@ + text::numeral(
            convs[order[i] as int].db_stems@.len() as int,
        ) + " 分片 · "@ + convs[order[i] as int].table_name@ + ")"@,
{
    let p = |c: Contact| c.is_chatroom;
    counting::items_counted(contacts, p);
    counting::same_places(contacts.len() as int, |k: int| p(contacts[k]), |k: int| contacts[k].is_chatroom);
}

/// A name that holds `@chatroom` is that of a group, any other that of a friend; a name that is too long for
/// its place is cut to one character less, with an ellipsis behind it.
pub proof fn conversations_are_shown(t: Seq<char>, max: int)
    requires
        max >= 1,
    ensures
        report::kind_text(t) == if text::has_text(t, "@chatroom"@) {
            "群"@
        } else {
            "好友"@
        },
        t.len() <= max ==> report::display_text(t, max) == t,
        t.len() > max ==> report::display_text(t, max) == t.take(max - 1) + "…"@,
{
}

/// The story shows its words, how it goes in depth and its course, one's own side before the other.
pub proof fn story_shows_depth(d: ConversationDetail, w: WordFreq, t: TrendSeries)
    ensures
        couple::depth_part(Some(d)).contains(
            "│    每日首发：我开口 "@ + n(d.days_self_open) + " 天 · ta 开口 "@ + n(d.days_other_open) + " 天"@,
        ),
        couple::depth_part(Some(d)).contains("│    我常发："@ + couple::type_counts(d.my_type_dist@)),
        couple::depth_part(Some(d)).contains("│    ta常发："@ + couple::type_counts(d.other_type_dist@)),
        w.mine@.len() > 0 ==> couple::words_part(Some(w)).contains(
            "│    你最常说："@ + text::joined(couple::cloud_words(w.mine@), "  "@),
        ),
        w.theirs@.len() > 0 ==> couple::words_part(Some(w)).contains(
            "│    ta 最常说："@ + text::joined(couple::cloud_words(w.theirs@), "  "@),
        ),
        t.points@.len() >= 2 ==> couple::trend_part(Some(t)).contains(
            "│ 📈 趋势（按"@ + t.kind@ + "，共 "@ + fmt::number_text(t.points@.len() as int) + " 个，"@ + t.tag@ + "）"@,
        ),
        t.points@.len() >= 2 && t.peak is Some ==> couple::trend_part(Some(t)).contains(
            "│    最热烈的一"@ + t.kind@ + "："@ + t.peak->0.label@ + "（"@ + n(t.peak->0.count) + " 条）"@,
        ),
{
    broadcast use vstd::seq_lib::lemma_seq_concat_contains_all_elements;

    let depth = couple::depth_part(Some(d));
    assert(depth[3] == couple::opened_line(d) && depth[4] == couple::my_types_line(d) && depth[5]
        == couple::other_types_line(d));
    if w.mine@.len() > 0 {
        let c = couple::cloud_part("│    你最常说："@, w.mine@);
        assert(c[0] == "│    你最常说："@ + text::joined(couple::cloud_words(w.mine@), "  "@));
    }
    if w.theirs@.len() > 0 {
        let c = couple::cloud_part("│    ta 最常说："@, w.theirs@);
        assert(c[0] == "│    ta 最常说："@ + text::joined(couple::cloud_words(w.theirs@), "  "@));
    }
    if t.points@.len() >= 2 {
        let head = seq![
            "│"@,
            couple::trend_line(t),
            "│    "@ + curios::spark_text(crate::trend::counts(t.points@)),
            couple::ends_line(t.points@[0].label@, t.points@.last().label@),
        ];
        assert(head[1] == couple::trend_line(t));
        if t.peak is Some {
            let p = t.peak->0;
            let tail = seq![couple::hottest_line(t.kind@, p.label@, p.count)];
            assert(tail[0] == couple::hottest_line(t.kind@, p.label@, p.count));
        }
    }
}

}
