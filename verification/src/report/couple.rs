//! The story of two people as lines of text.

use vstd::prelude::*;
use vstd::string::*;

use crate::calendar;
use crate::calendar::LocalTime;
use crate::couple::{CoupleReport, TextMetrics};
use crate::dig::{ConversationDetail, LatencyStats};
use crate::fmt;
use crate::lexical::WordFreq;
use crate::model::Conversation;
use crate::report;
use crate::report::curios;
use crate::report::dig;
use crate::report::ContactIndex;
use crate::schema;
use crate::text;
use crate::trend;
use crate::trend::TrendSeries;

verus! {

/// Shares as text.
pub struct CoupleShares {
    /// Days with a message.
    pub active: String,
    /// Quick and fast replies of either side.
    pub my_quick: String,
    pub other_quick: String,
    pub my_fast: String,
    pub other_fast: String,
}

/// The heading.
pub open spec fn couple_heading(name: Seq<char>) -> Seq<char> {
    "╭─ 💑 情侣报告 · "@ + name + " ─────────────────────────────────"@
}

/// The heading.
fn couple_heading_of(name: &str) -> (r: String)
    ensures
        r@ == couple_heading(name@),
{
    let mut r = "╭─ 💑 情侣报告 · ".to_string();
    r.append(name);
    r.append(" ─────────────────────────────────");
    r
}

/// When it began.
pub open spec fn start_line(first: Seq<char>, nth: i64) -> Seq<char> {
    "│ 📅 故事开始于 "@ + first + "，今天是第 "@ + fmt::number_text(nth as int) + " 天"@
}

/// When it began.
fn start_line_of(first: &str, nth: i64) -> (r: String)
    ensures
        r@ == start_line(first@, nth),
{
    let mut r = "│ 📅 故事开始于 ".to_string();
    r.append(first);
    r.append("，今天是第 ");
    r.append(fmt::fmt_num(nth).as_str());
    r.append(" 天");
    r
}

/// How many messages there are, and on how many days.
pub open spec fn total_line(c: CoupleReport, s: CoupleShares) -> Seq<char> {
    "│    共聊了 "@ + fmt::number_text(c.total as int) + " 条消息（我 "@ + fmt::number_text(c.my_count as int)
        + " · 对方 "@ + fmt::number_text(c.other_count as int) + "），分布在 "@
        + fmt::number_text(c.active_days as int) + " / "@ + fmt::number_text(c.nth_day_today as int)
        + " 天里（"@ + s.active@ + "）"@
}

/// How many messages there are, and on how many days.
fn total_line_of(c: &CoupleReport, s: &CoupleShares) -> (r: String)
    ensures
        r@ == total_line(*c, *s),
{
    let mut r = "│    共聊了 ".to_string();
    r.append(fmt::fmt_num(c.total).as_str());
    r.append(" 条消息（我 ");
    r.append(fmt::fmt_num(c.my_count).as_str());
    r.append(" · 对方 ");
    r.append(fmt::fmt_num(c.other_count).as_str());
    r.append("），分布在 ");
    r.append(fmt::fmt_num(c.active_days).as_str());
    r.append(" / ");
    r.append(fmt::fmt_num(c.nth_day_today).as_str());
    r.append(" 天里（");
    r.append(s.active.as_str());
    r.append("）");
    r
}

/// The longest row of days.
pub open spec fn streak_line(c: CoupleReport) -> Seq<char> {
    "│ 🔥 最长连续聊天："@ + fmt::number_text(c.longest_streak as int) + " 天不间断"@
}

/// The longest row of days.
fn streak_line_of(c: &CoupleReport) -> (r: String)
    ensures
        r@ == streak_line(*c),
{
    let mut r = "│ 🔥 最长连续聊天：".to_string();
    r.append(fmt::fmt_num(c.longest_streak).as_str());
    r.append(" 天不间断");
    r
}

/// The row of days that lasts.
pub open spec fn current_line(c: CoupleReport) -> Seq<char> {
    "│    当前已连续 "@ + fmt::number_text(c.current_streak as int) + " 天 ✨"@
}

/// The row of days that lasts.
fn current_line_of(c: &CoupleReport) -> (r: String)
    ensures
        r@ == current_line(*c),
{
    let mut r = "│    当前已连续 ".to_string();
    r.append(fmt::fmt_num(c.current_streak).as_str());
    r.append(" 天 ✨");
    r
}

/// The longest silence.
pub open spec fn silence_line(c: CoupleReport) -> Seq<char> {
    "│ 🤫 最长沉默："@ + fmt::number_text(c.longest_silence_days as int) + " 天没说话"@
}

/// The longest silence.
fn silence_line_of(c: &CoupleReport) -> (r: String)
    ensures
        r@ == silence_line(*c),
{
    let mut r = "│ 🤫 最长沉默：".to_string();
    r.append(fmt::fmt_num(c.longest_silence_days).as_str());
    r.append(" 天没说话");
    r
}

/// The days around the longest silence.
pub open spec fn silence_range_line(a: Seq<char>, b: Seq<char>) -> Seq<char> {
    "│    （"@ + a + " 之后，直到 "@ + b + " 才再说话）"@
}

/// The days around the longest silence.
fn silence_range_line_of(a: &str, b: &str) -> (r: String)
    ensures
        r@ == silence_range_line(a@, b@),
{
    let mut r = "│    （".to_string();
    r.append(a);
    r.append(" 之后，直到 ");
    r.append(b);
    r.append(" 才再说话）");
    r
}

/// The day with the most messages.
pub open spec fn peak_line(day: Seq<char>, n: i64) -> Seq<char> {
    "│ 🎉 最嗨的一天："@ + day + "，聊了 "@ + fmt::number_text(n as int) + " 条"@
}

/// The day with the most messages.
fn peak_line_of(day: &str, n: i64) -> (r: String)
    ensures
        r@ == peak_line(day@, n),
{
    let mut r = "│ 🎉 最嗨的一天：".to_string();
    r.append(day);
    r.append("，聊了 ");
    r.append(fmt::fmt_num(n).as_str());
    r.append(" 条");
    r
}

/// Messages late at night.
pub open spec fn night_line(c: CoupleReport) -> Seq<char> {
    "│ 🌙 一起熬过的夜："@ + fmt::number_text(c.late_night_count as int) + " 条凌晨消息（0–4 点）"@
}

/// Messages late at night.
fn night_line_of(c: &CoupleReport) -> (r: String)
    ensures
        r@ == night_line(*c),
{
    let mut r = "│ 🌙 一起熬过的夜：".to_string();
    r.append(fmt::fmt_num(c.late_night_count).as_str());
    r.append(" 条凌晨消息（0–4 点）");
    r
}

/// Calls.
pub open spec fn call_line(c: CoupleReport) -> Seq<char> {
    "│ 📞 语音/视频通话："@ + fmt::number_text(c.call_count as int) + " 次"@
}

/// Calls.
fn call_line_of(c: &CoupleReport) -> (r: String)
    ensures
        r@ == call_line(*c),
{
    let mut r = "│ 📞 语音/视频通话：".to_string();
    r.append(fmt::fmt_num(c.call_count).as_str());
    r.append(" 次");
    r
}

/// When it began, where that is known.
pub open spec fn start_part(c: CoupleReport) -> Seq<Seq<char>> {
    match c.first_day {
        Some(first) => seq![start_line(first@, c.nth_day_today)],
        None => Seq::empty(),
    }
}

/// The row of days that lasts, or that none does.
pub open spec fn now_line(c: CoupleReport) -> Seq<char> {
    if c.current_streak > 0 {
        current_line(c)
    } else {
        "│    （当前连续已中断）"@
    }
}

/// The days around the longest silence, where there is one.
pub open spec fn range_part(c: CoupleReport) -> Seq<Seq<char>> {
    match c.longest_silence_range {
        Some((a, b)) => seq![silence_range_line(a@, b@)],
        None => Seq::empty(),
    }
}

/// The day with the most messages, where there is one.
pub open spec fn peak_part(c: CoupleReport) -> Seq<Seq<char>> {
    match c.peak_day {
        Some((day, n)) => seq![peak_line(day@, n)],
        None => Seq::empty(),
    }
}

/// Calls, where there are any.
pub open spec fn call_part(c: CoupleReport) -> Seq<Seq<char>> {
    if c.call_count > 0 {
        seq![call_line(c)]
    } else {
        Seq::empty()
    }
}

/// Days, streaks and silences.
pub open spec fn days_part(c: CoupleReport, s: CoupleShares) -> Seq<Seq<char>> {
    start_part(c) + seq![total_line(c, s), "│"@, streak_line(c), now_line(c), silence_line(c)] + range_part(c)
        + peak_part(c) + seq![night_line(c)] + call_part(c)
}

/// Days, streaks and silences.
fn days_part_of(c: &CoupleReport, s: &CoupleShares) -> (lines: Vec<String>)
    ensures
        text::texts(lines@) == days_part(*c, *s),
{
    let mut lines: Vec<String> = Vec::new();
    if let Some(first) = &c.first_day {
        text::put(&mut lines, start_line_of(first.as_str(), c.nth_day_today));
    }
    let ghost mut sum = start_part(*c);
    assert(text::texts(lines@) =~= sum);
    text::put(&mut lines, total_line_of(c, s));
    text::put(&mut lines, "│".to_string());
    text::put(&mut lines, streak_line_of(c));
    if c.current_streak > 0 {
        text::put(&mut lines, current_line_of(c));
    } else {
        text::put(&mut lines, "│    （当前连续已中断）".to_string());
    }
    text::put(&mut lines, silence_line_of(c));
    proof {
        sum = sum + seq![total_line(*c, *s), "│"@, streak_line(*c), now_line(*c), silence_line(*c)];
        assert(text::texts(lines@) =~= sum);
    }
    if let Some((a, b)) = &c.longest_silence_range {
        text::put(&mut lines, silence_range_line_of(a.as_str(), b.as_str()));
    }
    proof {
        sum = sum + range_part(*c);
        assert(text::texts(lines@) =~= sum);
    }
    if let Some((day, n)) = &c.peak_day {
        text::put(&mut lines, peak_line_of(day.as_str(), *n));
    }
    proof {
        sum = sum + peak_part(*c);
        assert(text::texts(lines@) =~= sum);
    }
    text::put(&mut lines, night_line_of(c));
    assert(text::texts(lines@) =~= sum + seq![night_line(*c)]);
    if c.call_count > 0 {
        text::put(&mut lines, call_line_of(c));
    }
    assert(text::texts(lines@) =~= days_part(*c, *s));
    lines
}

/// Quick replies.
pub open spec fn quick_line(s: CoupleShares) -> Seq<char> {
    "│ ⚡ 秒回率（30 秒内回复）：我 "@ + s.my_quick@ + " · 对方 "@ + s.other_quick@
}

/// Quick replies.
fn quick_line_of(s: &CoupleShares) -> (r: String)
    ensures
        r@ == quick_line(*s),
{
    let mut r = "│ ⚡ 秒回率（30 秒内回复）：我 ".to_string();
    r.append(s.my_quick.as_str());
    r.append(" · 对方 ");
    r.append(s.other_quick.as_str());
    r
}

/// Fast replies.
pub open spec fn fast_line(s: CoupleShares) -> Seq<char> {
    "│    1 分钟内回复率     ：我 "@ + s.my_fast@ + " · 对方 "@ + s.other_fast@
}

/// Fast replies.
fn fast_line_of(s: &CoupleShares) -> (r: String)
    ensures
        r@ == fast_line(*s),
{
    let mut r = "│    1 分钟内回复率     ：我 ".to_string();
    r.append(s.my_fast.as_str());
    r.append(" · 对方 ");
    r.append(s.other_fast.as_str());
    r
}

/// The last day with a message.
pub open spec fn last_line(day: Seq<char>) -> Seq<char> {
    "│ 💌 最近一次聊天："@ + day
}

/// The last day with a message.
fn last_line_of(day: &str) -> (r: String)
    ensures
        r@ == last_line(day@),
{
    let mut r = "│ 💌 最近一次聊天：".to_string();
    r.append(day);
    r
}

/// Replies, where there are any, and the last day.
pub open spec fn reply_part(c: CoupleReport, s: CoupleShares) -> Seq<Seq<char>> {
    seq!["│"@] + (if c.my_reply_count + c.other_reply_count > 0 {
        seq![quick_line(s), fast_line(s)]
    } else {
        Seq::empty()
    }) + (match c.last_day {
        Some(day) => seq!["│"@, last_line(day@)],
        None => Seq::empty(),
    })
}

/// Replies, where there are any, and the last day.
fn reply_part_of(c: &CoupleReport, s: &CoupleShares) -> (lines: Vec<String>)
    ensures
        text::texts(lines@) == reply_part(*c, *s),
{
    let mut lines: Vec<String> = Vec::new();
    text::put(&mut lines, "│".to_string());
    if c.my_reply_count as i128 + c.other_reply_count as i128 > 0 {
        text::put(&mut lines, quick_line_of(s));
        text::put(&mut lines, fast_line_of(s));
    }
    if let Some(day) = &c.last_day {
        text::put(&mut lines, "│".to_string());
        text::put(&mut lines, last_line_of(day.as_str()));
    }
    assert(text::texts(lines@) =~= reply_part(*c, *s));
    lines
}

/// Characters of either side.
pub open spec fn chars_line(t: TextMetrics) -> Seq<char> {
    "│ ✍️ 总字数：我 "@ + fmt::number_text(t.my_chars as int) + " · 对方 "@
        + fmt::number_text(t.other_chars as int)
}

/// Characters of either side.
fn chars_line_of(t: &TextMetrics) -> (r: String)
    ensures
        r@ == chars_line(*t),
{
    let mut r = "│ ✍️ 总字数：我 ".to_string();
    r.append(fmt::fmt_num(t.my_chars).as_str());
    r.append(" · 对方 ");
    r.append(fmt::fmt_num(t.other_chars).as_str());
    r
}

/// The date of a reading, or a question mark.
pub open spec fn date_or_mark(t: Option<LocalTime>) -> Seq<char> {
    match t {
        Some(t) => calendar::date_text(t.date),
        None => "?"@,
    }
}

/// The date of a reading, or a question mark.
fn date_or_mark_of(t: &Option<LocalTime>) -> (r: String)
    ensures
        r@ == date_or_mark(*t),
{
    match t {
        Some(t) => calendar::date_text_of(&t.date),
        None => "?".to_string(),
    }
}

/// The longest text.
pub open spec fn longest_line(chars: i64, mine: bool, t: Option<LocalTime>) -> Seq<char> {
    "│ 📝 最长一条："@ + fmt::number_text(chars as int) + " 字（"@ + dig::opener_name(mine) + " 发，"@
        + date_or_mark(t) + "）"@
}

/// The longest text.
fn longest_line_of(chars: i64, mine: bool, t: &Option<LocalTime>) -> (r: String)
    ensures
        r@ == longest_line(chars, mine, *t),
{
    let mut r = "│ 📝 最长一条：".to_string();
    r.append(fmt::fmt_num(chars).as_str());
    r.append(" 字（");
    r.append(dig::opener_name_of(mine));
    r.append(" 发，");
    r.append(date_or_mark_of(t).as_str());
    r.append("）");
    r
}

/// A keyword with the messages of either side.
pub open spec fn keyword_line(k: Seq<char>, mine: i64, theirs: i64) -> Seq<char> {
    "│    "@ + text::pad_right(k, 6) + " 我 "@ + text::pad_left(fmt::number_text(mine as int), ' ', 4)
        + " · 对方 "@ + text::pad_left(fmt::number_text(theirs as int), ' ', 4)
}

/// A keyword with the messages of either side.
fn keyword_line_of(k: &str, mine: i64, theirs: i64) -> (r: String)
    ensures
        r@ == keyword_line(k@, mine, theirs),
{
    let mut r = "│    ".to_string();
    r.append(text::padded_right(k, 6).as_str());
    r.append(" 我 ");
    r.append(text::padded_left(fmt::fmt_num(mine).as_str(), ' ', 4).as_str());
    r.append(" · 对方 ");
    r.append(text::padded_left(fmt::fmt_num(theirs).as_str(), ' ', 4).as_str());
    r
}

/// At most ten.
pub open spec fn up_to_ten(n: nat) -> nat {
    if n <= 10 {
        n
    } else {
        10
    }
}

/// The most frequent keywords, at most ten.
pub open spec fn keyword_lines(rows: Seq<(String, i64, i64)>) -> Seq<Seq<char>> {
    Seq::new(up_to_ten(rows.len()), |i: int| keyword_line(rows[i].0@, rows[i].1, rows[i].2))
}

/// The longest text, where there is one; `when` is its local time.
pub open spec fn longest_part(t: TextMetrics, when: Option<LocalTime>) -> Seq<Seq<char>> {
    match t.longest {
        Some((chars, mine, _)) => seq![longest_line(chars, mine, when)],
        None => Seq::empty(),
    }
}

/// The keywords with their heading, where there are any.
pub open spec fn keyword_part(rows: Seq<(String, i64, i64)>) -> Seq<Seq<char>> {
    if rows.len() == 0 {
        Seq::empty()
    } else {
        seq!["│ 💬 关键词（消息条数，我 / 对方）："@] + keyword_lines(rows)
    }
}

/// What the texts say, where they were measured.
pub open spec fn text_part(t: Option<TextMetrics>, when: Option<LocalTime>) -> Seq<Seq<char>> {
    match t {
        Some(t) => seq!["│"@, chars_line(t)] + longest_part(t, when) + keyword_part(t.keywords@),
        None => Seq::empty(),
    }
}

/// What the texts say, where they were measured.
fn text_part_of(t: &Option<TextMetrics>, when: &Option<LocalTime>) -> (lines: Vec<String>)
    ensures
        text::texts(lines@) == text_part(*t, *when),
{
    let mut lines: Vec<String> = Vec::new();
    if let Some(t) = t {
        text::put(&mut lines, "│".to_string());
        text::put(&mut lines, chars_line_of(t));
        if let Some((chars, mine, _)) = t.longest {
            text::put(&mut lines, longest_line_of(chars, mine, when));
        }
        let ghost head = seq!["│"@, chars_line(*t)] + longest_part(*t, *when);
        assert(text::texts(lines@) =~= head);
        let n = t.keywords.len();
        if n > 0 {
            text::put(&mut lines, "│ 💬 关键词（消息条数，我 / 对方）：".to_string());
            let ghost start = head + seq!["│ 💬 关键词（消息条数，我 / 对方）："@];
            let ghost all = keyword_lines(t.keywords@);
            let mut i: usize = 0;
            assert(text::texts(lines@) =~= start + all.take(0));
            while i < n && i < 10
                invariant
                    i <= n,
                    i <= 10,
                    n == t.keywords@.len(),
                    all == keyword_lines(t.keywords@),
                    text::texts(lines@) == start + all.take(i as int),
                decreases n - i,
            {
                text::put(
                    &mut lines,
                    keyword_line_of(t.keywords[i].0.as_str(), t.keywords[i].1, t.keywords[i].2),
                );
                assert(start + all.take(i + 1) =~= (start + all.take(i as int)).push(all[i as int]));
                i = i + 1;
            }
            assert(all.take(all.len() as int) =~= all);
            assert(start + all =~= head + keyword_part(t.keywords@));
        } else {
            assert(head + keyword_part(t.keywords@) =~= head);
        }
    } else {
        assert(text::texts(lines@) =~= Seq::empty());
    }
    lines
}

/// A word with its count.
pub open spec fn cloud_word(p: (String, i64)) -> Seq<char> {
    p.0@ + "("@ + fmt::number_text(p.1 as int) + ")"@
}

/// Words with their counts.
pub open spec fn cloud_words(words: Seq<(String, i64)>) -> Seq<Seq<char>> {
    words.map_values(|p: (String, i64)| cloud_word(p))
}

/// A line of words, where there are any.
pub open spec fn cloud_part(head: Seq<char>, words: Seq<(String, i64)>) -> Seq<Seq<char>> {
    if words.len() == 0 {
        Seq::empty()
    } else {
        seq![head + text::joined(cloud_words(words), "  "@)]
    }
}

/// A line of words, where there are any.
fn cloud_part_of(head: &str, words: &Vec<(String, i64)>) -> (lines: Vec<String>)
    ensures
        text::texts(lines@) == cloud_part(head@, words@),
{
    let mut lines: Vec<String> = Vec::new();
    if words.len() == 0 {
        assert(text::texts(lines@) =~= Seq::empty());
        return lines;
    }
    let mut shown: Vec<String> = Vec::new();
    let mut i: usize = 0;
    assert(text::texts(shown@) =~= cloud_words(words@.take(0)));
    while i < words.len()
        invariant
            i <= words@.len(),
            text::texts(shown@) == cloud_words(words@.take(i as int)),
        decreases words@.len() - i,
    {
        let mut t = words[i].0.clone();
        t.append("(");
        t.append(fmt::fmt_num(words[i].1).as_str());
        t.append(")");
        let ghost one = t@;
        text::put(&mut shown, t);
        assert(cloud_words(words@.take(i + 1)) =~= cloud_words(words@.take(i as int)).push(one));
        i = i + 1;
    }
    assert(words@.take(i as int) =~= words@);
    let mut r = head.to_string();
    r.append(text::join(&shown, "  ").as_str());
    text::put(&mut lines, r);
    assert(text::texts(lines@) =~= cloud_part(head@, words@));
    lines
}

/// The most frequent words, where they were counted.
pub open spec fn words_part(w: Option<WordFreq>) -> Seq<Seq<char>> {
    match w {
        Some(w) => seq!["│"@] + cloud_part("│ ☁️ 总体高频词："@, w.overall@) + cloud_part("│    你最常说："@, w.mine@)
            + cloud_part("│    ta 最常说："@, w.theirs@),
        None => Seq::empty(),
    }
}

/// The most frequent words, where they were counted.
fn words_part_of(w: &Option<WordFreq>) -> (lines: Vec<String>)
    ensures
        text::texts(lines@) == words_part(*w),
{
    let mut lines: Vec<String> = Vec::new();
    if let Some(w) = w {
        text::put(&mut lines, "│".to_string());
        assert(text::texts(lines@) =~= seq!["│"@]);
        text::put_all(&mut lines, cloud_part_of("│ ☁️ 总体高频词：", &w.overall));
        text::put_all(&mut lines, cloud_part_of("│    你最常说：", &w.mine));
        text::put_all(&mut lines, cloud_part_of("│    ta 最常说：", &w.theirs));
    } else {
        assert(text::texts(lines@) =~= Seq::empty());
    }
    lines
}

/// What is known of the latencies of one side.
pub open spec fn latency_short(s: LatencyStats) -> Seq<char> {
    match (s.median_sec, s.mean_sec) {
        (Some(md), Some(mn)) => "中位 "@ + fmt::duration_text(md as int) + " · 均值 "@ + fmt::duration_text(mn as int)
            + "（"@ + fmt::number_text(s.samples as int) + " 次）"@,
        _ => "无样本"@,
    }
}

/// What is known of the latencies of one side.
fn latency_short_of(s: &LatencyStats) -> (r: String)
    ensures
        r@ == latency_short(*s),
{
    match (s.median_sec, s.mean_sec) {
        (Some(md), Some(mn)) => {
            let mut r = "中位 ".to_string();
            r.append(fmt::fmt_duration(md).as_str());
            r.append(" · 均值 ");
            r.append(fmt::fmt_duration(mn).as_str());
            r.append("（");
            r.append(fmt::fmt_num(s.samples).as_str());
            r.append(" 次）");
            r
        },
        _ => "无样本".to_string(),
    }
}

/// A type with its messages.
pub open spec fn type_count(p: (i64, i64)) -> Seq<char> {
    schema::label_of_type(p.0) + " "@ + fmt::number_text(p.1 as int)
}

/// The most frequent types, at most four.
pub open spec fn type_counts(rows: Seq<(i64, i64)>) -> Seq<char> {
    let shown = if rows.len() <= 4 {
        rows
    } else {
        rows.take(4)
    };
    if rows.len() == 0 {
        "—"@
    } else {
        text::joined(shown.map_values(|p: (i64, i64)| type_count(p)), "  "@)
    }
}

/// The most frequent types, at most four.
fn type_counts_of(rows: &Vec<(i64, i64)>) -> (r: String)
    ensures
        r@ == type_counts(rows@),
{
    if rows.len() == 0 {
        return "—".to_string();
    }
    let ghost f = |p: (i64, i64)| type_count(p);
    let mut shown: Vec<String> = Vec::new();
    let mut i: usize = 0;
    assert(text::texts(shown@) =~= rows@.take(0).map_values(f));
    while i < rows.len() && i < 4
        invariant
            i <= rows@.len(),
            i <= 4,
            f == (|p: (i64, i64)| type_count(p)),
            text::texts(shown@) == rows@.take(i as int).map_values(f),
        decreases rows@.len() - i,
    {
        let mut t = schema::type_label(rows[i].0).to_string();
        t.append(" ");
        t.append(fmt::fmt_num(rows[i].1).as_str());
        text::put(&mut shown, t);
        assert(rows@.take(i + 1).map_values(f) =~= rows@.take(i as int).map_values(f).push(f(rows@[i as int])));
        i = i + 1;
    }
    assert(rows@.len() <= 4 ==> rows@.take(i as int) =~= rows@);
    text::join(&shown, "  ")
}

/// The latencies of either side.
pub open spec fn latency_line(d: ConversationDetail) -> Seq<char> {
    "│    回复时延：我 "@ + latency_short(d.my_reply) + " · ta "@ + latency_short(d.other_reply)
}

/// The latencies of either side.
fn latency_line_of(d: &ConversationDetail) -> (r: String)
    ensures
        r@ == latency_line(*d),
{
    let mut r = "│    回复时延：我 ".to_string();
    r.append(latency_short_of(&d.my_reply).as_str());
    r.append(" · ta ");
    r.append(latency_short_of(&d.other_reply).as_str());
    r
}

/// Who opens the days.
pub open spec fn opened_line(d: ConversationDetail) -> Seq<char> {
    "│    每日首发：我开口 "@ + fmt::number_text(d.days_self_open as int) + " 天 · ta 开口 "@
        + fmt::number_text(d.days_other_open as int) + " 天"@
}

/// Who opens the days.
fn opened_line_of(d: &ConversationDetail) -> (r: String)
    ensures
        r@ == opened_line(*d),
{
    let mut r = "│    每日首发：我开口 ".to_string();
    r.append(fmt::fmt_num(d.days_self_open).as_str());
    r.append(" 天 · ta 开口 ");
    r.append(fmt::fmt_num(d.days_other_open).as_str());
    r.append(" 天");
    r
}

/// One's own types.
pub open spec fn my_types_line(d: ConversationDetail) -> Seq<char> {
    "│    我常发："@ + type_counts(d.my_type_dist@)
}

/// One's own types.
fn my_types_line_of(d: &ConversationDetail) -> (r: String)
    ensures
        r@ == my_types_line(*d),
{
    let mut r = "│    我常发：".to_string();
    r.append(type_counts_of(&d.my_type_dist).as_str());
    r
}

/// The others' types.
pub open spec fn other_types_line(d: ConversationDetail) -> Seq<char> {
    "│    ta常发："@ + type_counts(d.other_type_dist@)
}

/// The others' types.
fn other_types_line_of(d: &ConversationDetail) -> (r: String)
    ensures
        r@ == other_types_line(*d),
{
    let mut r = "│    ta常发：".to_string();
    r.append(type_counts_of(&d.other_type_dist).as_str());
    r
}

/// The conversation in depth, where it was looked at.
pub open spec fn depth_part(d: Option<ConversationDetail>) -> Seq<Seq<char>> {
    match d {
        Some(d) => seq!["│"@, "│ 🔎 深挖"@, latency_line(d), opened_line(d), my_types_line(d), other_types_line(d)],
        None => Seq::empty(),
    }
}

/// The conversation in depth, where it was looked at.
fn depth_part_of(d: &Option<ConversationDetail>) -> (lines: Vec<String>)
    ensures
        text::texts(lines@) == depth_part(*d),
{
    let mut lines: Vec<String> = Vec::new();
    if let Some(d) = d {
        text::put(&mut lines, "│".to_string());
        text::put(&mut lines, "│ 🔎 深挖".to_string());
        text::put(&mut lines, latency_line_of(d));
        text::put(&mut lines, opened_line_of(d));
        text::put(&mut lines, my_types_line_of(d));
        text::put(&mut lines, other_types_line_of(d));
    }
    assert(text::texts(lines@) =~= depth_part(*d));
    lines
}

/// The course of the conversation.
pub open spec fn trend_line(t: TrendSeries) -> Seq<char> {
    "│ 📈 趋势（按"@ + t.kind@ + "，共 "@ + fmt::number_text(t.points@.len() as int) + " 个，"@ + t.tag@ + "）"@
}

/// The course of the conversation.
fn trend_line_of(t: &TrendSeries) -> (r: String)
    requires
        t.points@.len() <= i64::MAX,
    ensures
        r@ == trend_line(*t),
{
    let mut r = "│ 📈 趋势（按".to_string();
    r.append(t.kind);
    r.append("，共 ");
    r.append(fmt::fmt_num(t.points.len() as i64).as_str());
    r.append(" 个，");
    r.append(t.tag);
    r.append("）");
    r
}

/// The first and the last point.
pub open spec fn ends_line(a: Seq<char>, b: Seq<char>) -> Seq<char> {
    "│    "@ + a + " ─────────────────→ "@ + b
}

/// The first and the last point.
fn ends_line_of(a: &str, b: &str) -> (r: String)
    ensures
        r@ == ends_line(a@, b@),
{
    let mut r = "│    ".to_string();
    r.append(a);
    r.append(" ─────────────────→ ");
    r.append(b);
    r
}

/// The point with the most messages.
pub open spec fn hottest_line(kind: Seq<char>, label: Seq<char>, n: i64) -> Seq<char> {
    "│    最热烈的一"@ + kind + "："@ + label + "（"@ + fmt::number_text(n as int) + " 条）"@
}

/// The point with the most messages.
fn hottest_line_of(kind: &str, label: &str, n: i64) -> (r: String)
    ensures
        r@ == hottest_line(kind@, label@, n),
{
    let mut r = "│    最热烈的一".to_string();
    r.append(kind);
    r.append("：");
    r.append(label);
    r.append("（");
    r.append(fmt::fmt_num(n).as_str());
    r.append(" 条）");
    r
}

/// The course of the conversation, where it has two points or more.
pub open spec fn trend_part(t: Option<TrendSeries>) -> Seq<Seq<char>> {
    match t {
        Some(t) => if t.points@.len() >= 2 {
            seq![
                "│"@,
                trend_line(t),
                "│    "@ + curios::spark_text(trend::counts(t.points@)),
                ends_line(t.points@[0].label@, t.points@.last().label@),
            ] + match t.peak {
                Some(p) => seq![hottest_line(t.kind@, p.label@, p.count)],
                None => Seq::empty(),
            }
        } else {
            Seq::empty()
        },
        None => Seq::empty(),
    }
}

/// The counts of the points.
fn counts_of(t: &TrendSeries) -> (r: Vec<i64>)
    ensures
        r@ == trend::counts(t.points@),
{
    let mut r: Vec<i64> = Vec::new();
    let mut i: usize = 0;
    while i < t.points.len()
        invariant
            i <= t.points@.len(),
            r@ == trend::counts(t.points@).take(i as int),
        decreases t.points@.len() - i,
    {
        r.push(t.points[i].count);
        assert(trend::counts(t.points@)[i as int] == t.points@[i as int].count);
        i = i + 1;
    }
    assert(trend::counts(t.points@).take(i as int) =~= trend::counts(t.points@));
    r
}

/// The course of the conversation, where it has two points or more.
fn trend_part_of(t: &Option<TrendSeries>) -> (lines: Vec<String>)
    requires
        t matches Some(t) ==> t.points@.len() <= i64::MAX,
    ensures
        text::texts(lines@) == trend_part(*t),
{
    let mut lines: Vec<String> = Vec::new();
    if let Some(t) = t {
        let n = t.points.len();
        if n >= 2 {
            text::put(&mut lines, "│".to_string());
            text::put(&mut lines, trend_line_of(t));
            let mut spark = "│    ".to_string();
            spark.append(trend::sparkline(counts_of(t).as_slice()).as_str());
            text::put(&mut lines, spark);
            text::put(&mut lines, ends_line_of(t.points[0].label.as_str(), t.points[n - 1].label.as_str()));
            if let Some(p) = &t.peak {
                text::put(&mut lines, hottest_line_of(t.kind, p.label.as_str(), p.count));
            }
        }
    }
    assert(text::texts(lines@) =~= trend_part(*t));
    lines
}

/// The story as lines; `when` is the local time of the longest text.
pub open spec fn couple_text(
    name: Seq<char>,
    c: CoupleReport,
    s: CoupleShares,
    when: Option<LocalTime>,
) -> Seq<Seq<char>> {
    seq![""@, couple_heading(name)] + days_part(c, s) + reply_part(c, s) + text_part(c.text, when) + words_part(c.words)
        + depth_part(c.dig) + trend_part(c.trend) + seq!["╰─────────────────────────────────────────────────────────"@]
}

/// The story as lines of text, given shares and the local time of the longest text.
pub fn print_couple_report_at(
    conv: &Conversation,
    c: &CoupleReport,
    index: &ContactIndex,
    s: &CoupleShares,
    when: &Option<LocalTime>,
) -> (lines: Vec<String>)
    requires
        index.wf(),
        c.trend matches Some(t) ==> t.points@.len() <= i64::MAX,
    ensures
        text::texts(lines@) == couple_text(report::name_of(index.contacts(), conv.username@), *c, *s, *when),
{
    let name = index.name_by_username(conv.username.as_str());
    let mut lines: Vec<String> = Vec::new();
    text::put(&mut lines, "".to_string());
    text::put(&mut lines, couple_heading_of(name.as_str()));
    assert(text::texts(lines@) =~= seq![""@, couple_heading(name@)]);
    text::put_all(&mut lines, days_part_of(c, s));
    text::put_all(&mut lines, reply_part_of(c, s));
    text::put_all(&mut lines, text_part_of(&c.text, when));
    text::put_all(&mut lines, words_part_of(&c.words));
    text::put_all(&mut lines, depth_part_of(&c.dig));
    text::put_all(&mut lines, trend_part_of(&c.trend));
    text::put(&mut lines, "╰─────────────────────────────────────────────────────────".to_string());
    assert(text::texts(lines@) =~= couple_text(name@, *c, *s, *when));
    lines
}

/// `when` is what a local clock may have shown at the time of the longest text.
pub open spec fn is_when(when: Option<LocalTime>, c: CoupleReport) -> bool {
    match c.text {
        Some(t) => match t.longest {
            Some((_, _, secs)) => calendar::clock_gives(secs as int, when),
            None => true,
        },
        None => true,
    }
}

/// The story as lines of text, given shares.
pub fn print_couple_report(
    conv: &Conversation,
    c: &CoupleReport,
    index: &ContactIndex,
    s: &CoupleShares,
) -> (lines: Vec<String>)
    requires
        index.wf(),
        c.trend matches Some(t) ==> t.points@.len() <= i64::MAX,
    ensures
        exists|when: Option<LocalTime>| #[trigger]
            is_when(when, *c) && text::texts(lines@) == couple_text(
                report::name_of(index.contacts(), conv.username@),
                *c,
                *s,
                when,
            ),
{
    let when: Option<LocalTime> = match &c.text {
        Some(t) => match t.longest {
            Some((_, _, secs)) => calendar::local_dt(secs),
            None => None,
        },
        None => None,
    };
    assert(is_when(when, *c));
    print_couple_report_at(conv, c, index, s, &when)
}

}
