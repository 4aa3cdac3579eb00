//! The slides.

use vstd::prelude::*;
use vstd::string::*;

use crate::couple::{CoupleReport, TextMetrics};
use crate::curios::Curios;
use crate::render::charts;
use crate::render::curios;
use crate::render::figures;
use crate::render::figures::Figures;
use crate::render::markup;
use crate::render::parts;
use crate::text;

verus! {

/// A text, or a dash where there is none.
pub open spec fn or_dash(t: Option<String>) -> Seq<char> {
    match t {
        Some(t) => t@,
        None => "—"@,
    }
}

/// A text, or a dash where there is none.
fn or_dash_of(t: &Option<String>) -> (r: &str)
    ensures
        r@ == or_dash(*t),
{
    match t {
        Some(t) => t.as_str(),
        None => "—",
    }
}

/// The cover.
pub open spec fn cover_slide(name: Seq<char>, r: CoupleReport) -> Seq<char> {
    "<div class=\"s-cover\"><div class=\"emoji\">💑</div><h1>"@ + markup::escaped(name)
        + " 的情侣报告</h1><p class=\"sub\">"@ + or_dash(r.first_day) + " ~ "@ + or_dash(r.last_day)
        + " · 第 "@ + text::numeral(r.nth_day_today as int) + " 天</p><p class=\"big\">"@
        + text::numeral(r.total as int)
        + " 条消息</p><p class=\"hint\">← → 方向键 · 滚动 · 点击两侧 · 滑动 翻页</p></div>"@
}

/// The cover.
fn cover_slide_of(name: &str, r: &CoupleReport) -> (out: String)
    ensures
        out@ == cover_slide(name@, *r),
{
    let mut out = "<div class=\"s-cover\"><div class=\"emoji\">💑</div><h1>".to_string();
    out.append(markup::esc(name).as_str());
    out.append(" 的情侣报告</h1><p class=\"sub\">");
    out.append(or_dash_of(&r.first_day));
    out.append(" ~ ");
    out.append(or_dash_of(&r.last_day));
    out.append(" · 第 ");
    out.append(text::numeral_of(r.nth_day_today).as_str());
    out.append(" 天</p><p class=\"big\">");
    out.append(text::numeral_of(r.total).as_str());
    out.append(" 条消息</p><p class=\"hint\">← → 方向键 · 滚动 · 点击两侧 · 滑动 翻页</p></div>");
    out
}

/// The score.
pub open spec fn score_slide(c: Curios) -> Seq<char> {
    "<h2>🌡️ 关系温度</h2><div class=\"s-score\">"@ + text::numeral(c.score.score as int)
        + "<span>/100</span></div><div class=\"s-scorelabel\">"@ + c.score.label@
        + "</div><div class=\"score-bars\" style=\"max-width:560px;margin:0 auto\">"@
        + curios::score_markup(c) + "</div>"@
}

/// The score.
fn score_slide_of(c: &Curios) -> (out: String)
    ensures
        out@ == score_slide(*c),
{
    let mut out = "<h2>🌡️ 关系温度</h2><div class=\"s-score\">".to_string();
    out.append(text::numeral_of(c.score.score).as_str());
    out.append("<span>/100</span></div><div class=\"s-scorelabel\">");
    out.append(c.score.label);
    out.append("</div><div class=\"score-bars\" style=\"max-width:560px;margin:0 auto\">");
    out.append(curios::score_html(c).as_str());
    out.append("</div>");
    out
}

/// The longest silence.
pub open spec fn silence_note(n: i64, a: Seq<char>, b: Seq<char>) -> Seq<char> {
    "<div class=\"s-note\">最长沉默 "@ + text::numeral(n as int) + " 天（"@ + a + " → "@ + b + "）</div>"@
}

/// The longest silence.
fn silence_note_of(n: i64, a: &str, b: &str) -> (out: String)
    ensures
        out@ == silence_note(n, a@, b@),
{
    let mut out = "<div class=\"s-note\">最长沉默 ".to_string();
    out.append(text::numeral_of(n).as_str());
    out.append(" 天（");
    out.append(a);
    out.append(" → ");
    out.append(b);
    out.append("）</div>");
    out
}

/// The longest silence, where there is one.
pub open spec fn silence_markup(r: CoupleReport) -> Seq<char> {
    match r.longest_silence_range {
        Some((a, b)) => silence_note(r.longest_silence_days, a@, b@),
        None => ""@,
    }
}

/// The longest silence, where there is one.
fn silence_html(r: &CoupleReport) -> (s: String)
    ensures
        s@ == silence_markup(*r),
{
    match &r.longest_silence_range {
        Some((a, b)) => silence_note_of(r.longest_silence_days, a.as_str(), b.as_str()),
        None => "".to_string(),
    }
}

/// The timeline.
pub open spec fn timeline_slide(r: CoupleReport) -> Seq<char> {
    "<h2>📅 我们的时间线</h2><div class=\"s-stats\"><div class=\"s-stat\"><b>"@
        + text::numeral(r.nth_day_today as int)
        + "</b><span>在一起第几天</span></div><div class=\"s-stat\"><b>"@
        + text::numeral(r.active_days as int) + "/"@ + text::numeral(r.nth_day_today as int)
        + "</b><span>有聊天的天</span></div><div class=\"s-stat\"><b>"@
        + text::numeral(r.longest_streak as int)
        + "</b><span>最长连续(天)</span></div><div class=\"s-stat\"><b>"@
        + text::numeral(r.longest_silence_days as int) + "</b><span>最长沉默(天)</span></div></div>"@
        + silence_markup(r)
}

/// The timeline.
fn timeline_slide_of(r: &CoupleReport) -> (out: String)
    ensures
        out@ == timeline_slide(*r),
{
    let mut out = "<h2>📅 我们的时间线</h2><div class=\"s-stats\"><div class=\"s-stat\"><b>".to_string();
    out.append(text::numeral_of(r.nth_day_today).as_str());
    out.append("</b><span>在一起第几天</span></div><div class=\"s-stat\"><b>");
    out.append(text::numeral_of(r.active_days).as_str());
    out.append("/");
    out.append(text::numeral_of(r.nth_day_today).as_str());
    out.append("</b><span>有聊天的天</span></div><div class=\"s-stat\"><b>");
    out.append(text::numeral_of(r.longest_streak).as_str());
    out.append("</b><span>最长连续(天)</span></div><div class=\"s-stat\"><b>");
    out.append(text::numeral_of(r.longest_silence_days).as_str());
    out.append("</b><span>最长沉默(天)</span></div></div>");
    out.append(silence_html(r).as_str());
    out
}

/// The busiest day, or a dash.
pub open spec fn peak_day(r: CoupleReport) -> Seq<char> {
    match r.peak_day {
        Some((day, _)) => markup::escaped(day@),
        None => "—"@,
    }
}

/// The busiest day, or a dash.
fn peak_day_of(r: &CoupleReport) -> (s: String)
    ensures
        s@ == peak_day(*r),
{
    match &r.peak_day {
        Some((day, _)) => markup::esc(day.as_str()),
        None => "—".to_string(),
    }
}

/// The messages of the busiest day.
pub open spec fn peak_count(r: CoupleReport) -> i64 {
    match r.peak_day {
        Some((_, n)) => n,
        None => 0,
    }
}

/// The messages of the busiest day.
fn peak_count_of(r: &CoupleReport) -> (n: i64)
    ensures
        n == peak_count(*r),
{
    match &r.peak_day {
        Some((_, n)) => *n,
        None => 0,
    }
}

/// The highlights.
pub open spec fn highlight_slide(r: CoupleReport, c: Curios) -> Seq<char> {
    "<h2>✨ 高光时刻</h2><div class=\"s-stats\"><div class=\"s-stat\"><b>"@
        + text::numeral(peak_count(r) as int) + "</b><span>最嗨一天 "@ + peak_day(r)
        + "</span></div><div class=\"s-stat\"><b>"@ + text::numeral(r.late_night_count as int)
        + "</b><span>一起熬夜(条)</span></div><div class=\"s-stat\"><b>"@
        + text::numeral(r.call_count as int)
        + "</b><span>通话次数</span></div><div class=\"s-stat\"><b>"@
        + text::numeral(c.rally.max_len as int) + "</b><span>最长对线(条)</span></div></div>"@
}

/// The highlights.
fn highlight_slide_of(r: &CoupleReport, c: &Curios) -> (out: String)
    ensures
        out@ == highlight_slide(*r, *c),
{
    let mut out = "<h2>✨ 高光时刻</h2><div class=\"s-stats\"><div class=\"s-stat\"><b>".to_string();
    out.append(text::numeral_of(peak_count_of(r)).as_str());
    out.append("</b><span>最嗨一天 ");
    out.append(peak_day_of(r).as_str());
    out.append("</span></div><div class=\"s-stat\"><b>");
    out.append(text::numeral_of(r.late_night_count).as_str());
    out.append("</b><span>一起熬夜(条)</span></div><div class=\"s-stat\"><b>");
    out.append(text::numeral_of(r.call_count).as_str());
    out.append("</b><span>通话次数</span></div><div class=\"s-stat\"><b>");
    out.append(text::numeral_of(c.rally.max_len).as_str());
    out.append("</b><span>最长对线(条)</span></div></div>");
    out
}

/// The two sides.
pub open spec fn sides_slide(r: CoupleReport, f: Figures) -> Seq<char> {
    "<h2>📊 你来我往</h2><div style=\"max-width:600px;margin:0 auto\">"@ + parts::ratio_markup(r, f)
        + "</div><div style=\"max-width:560px;margin:28px auto 0\">"@ + parts::reply_rows(f)
        + "</div>"@
}

/// The two sides.
fn sides_slide_of(r: &CoupleReport, f: &Figures) -> (out: String)
    ensures
        out@ == sides_slide(*r, *f),
{
    let mut out = "<h2>📊 你来我往</h2><div style=\"max-width:600px;margin:0 auto\">".to_string();
    out.append(parts::ratio_html(r, f).as_str());
    out.append("</div><div style=\"max-width:560px;margin:28px auto 0\">");
    out.append(parts::reply_rows_of(f).as_str());
    out.append("</div>");
    out
}

/// The first times.
pub open spec fn firsts_slide(c: Curios) -> Seq<char> {
    "<h2>🏁 第一次纪念日</h2><section style=\"max-width:660px\"><div class=\"milestones\">"@
        + text::joined(curios::milestones(c.firsts@), ""@) + "</div></section>"@
}

/// The first times.
fn firsts_slide_of(c: &Curios) -> (out: String)
    ensures
        out@ == firsts_slide(*c),
{
    let mut out = "<h2>🏁 第一次纪念日</h2><section style=\"max-width:660px\"><div class=\"milestones\">".to_string();
    out.append(text::join(&curios::milestones_of(&c.firsts), "").as_str());
    out.append("</div></section>");
    out
}

/// The course of the conversation.
pub open spec fn trend_slide(r: CoupleReport, f: Figures) -> Seq<char> {
    "<h2>📈 热度趋势</h2>"@ + charts::trend_section_markup(r.trend, r.trend_monthly, f)
}

/// The course of the conversation.
fn trend_slide_of(r: &CoupleReport, f: &Figures) -> (out: String)
    requires
        figures::trend_fits(r.trend, f.weekly),
        figures::trend_fits(r.trend_monthly, f.monthly),
    ensures
        out@ == trend_slide(*r, *f),
{
    let mut out = "<h2>📈 热度趋势</h2>".to_string();
    out.append(charts::trend_section(&r.trend, &r.trend_monthly, f).as_str());
    out
}

/// The hours of the day.
pub open spec fn rhythm_slide(f: Figures) -> Seq<char> {
    "<h2>🕐 聊天生物钟</h2><section style=\"max-width:780px\">"@ + charts::rhythm_markup(f.rhythm)
        + "</section>"@
}

/// The hours of the day.
fn rhythm_slide_of(f: &Figures) -> (out: String)
    requires
        figures::rhythm_fits(f.rhythm),
    ensures
        out@ == rhythm_slide(*f),
{
    let mut out = "<h2>🕐 聊天生物钟</h2><section style=\"max-width:780px\">".to_string();
    out.append(charts::biorhythm_svg(&f.rhythm).as_str());
    out.append("</section>");
    out
}

/// The grid of days.
pub open spec fn heat_slide(c: Curios) -> Seq<char> {
    "<h2>🗓️ 全年热力图</h2>"@ + charts::heatmap_markup(c.heatmap)
}

/// The grid of days.
fn heat_slide_of(c: &Curios) -> (out: String)
    ensures
        out@ == heat_slide(*c),
{
    let mut out = "<h2>🗓️ 全年热力图</h2>".to_string();
    out.append(charts::heatmap_html(&c.heatmap).as_str());
    out
}

/// The cloud of words.
pub open spec fn cloud_slide(r: CoupleReport, f: Figures) -> Seq<char> {
    "<h2>☁️ 高频词云</h2><section style=\"max-width:780px\">"@ + parts::cloud_markup(r, f) + "</section>"@
}

/// The cloud of words.
fn cloud_slide_of(r: &CoupleReport, f: &Figures) -> (out: String)
    requires
        figures::cloud_fits(*r, *f),
    ensures
        out@ == cloud_slide(*r, *f),
{
    let mut out = "<h2>☁️ 高频词云</h2><section style=\"max-width:780px\">".to_string();
    out.append(parts::cloud_html(r, f).as_str());
    out.append("</section>");
    out
}

/// The words that are typical of either side.
pub open spec fn signature_slide(c: Curios) -> Seq<char> {
    "<h2>🗣️ 各自口癖</h2><div class=\"sign\" style=\"max-width:680px;margin:0 auto\"><div><span class=\"lbl me\">你的口癖</span><div class=\"chips\">"@
        + parts::chips_markup(c.signature.mine@)
        + "</div></div><div><span class=\"lbl them\">ta 的口癖</span><div class=\"chips\">"@
        + parts::chips_markup(c.signature.theirs@) + "</div></div></div>"@
}

/// The words that are typical of either side.
fn signature_slide_of(c: &Curios) -> (out: String)
    ensures
        out@ == signature_slide(*c),
{
    let mut out = "<h2>🗣️ 各自口癖</h2><div class=\"sign\" style=\"max-width:680px;margin:0 auto\"><div><span class=\"lbl me\">你的口癖</span><div class=\"chips\">".to_string();
    out.append(parts::chips(&c.signature.mine).as_str());
    out.append("</div></div><div><span class=\"lbl them\">ta 的口癖</span><div class=\"chips\">");
    out.append(parts::chips(&c.signature.theirs).as_str());
    out.append("</div></div></div>");
    out
}

/// The keywords.
pub open spec fn keyword_slide(r: CoupleReport) -> Seq<char> {
    "<h2>💬 关键词</h2>"@ + parts::keywords_markup(r.text)
}

/// The keywords.
fn keyword_slide_of(r: &CoupleReport) -> (out: String)
    ensures
        out@ == keyword_slide(*r),
{
    let mut out = "<h2>💬 关键词</h2>".to_string();
    out.append(parts::keywords_html(r).as_str());
    out
}

/// The conversation in depth.
pub open spec fn depth_slide(r: CoupleReport, f: Figures) -> Seq<char> {
    "<h2>🔎 单会话深挖</h2>"@ + parts::dig_markup(r.dig, f)
}

/// The conversation in depth.
fn depth_slide_of(r: &CoupleReport, f: &Figures) -> (out: String)
    ensures
        out@ == depth_slide(*r, *f),
{
    let mut out = "<h2>🔎 单会话深挖</h2>".to_string();
    out.append(parts::dig_html(r, f).as_str());
    out
}

/// The sum of the characters of both sides can be counted.
pub open spec fn chars_countable(t: Option<TextMetrics>) -> bool {
    match t {
        Some(t) => i64::MIN <= t.my_chars + t.other_chars <= i64::MAX,
        None => true,
    }
}

/// The characters of both sides, or a dash.
pub open spec fn char_count(t: Option<TextMetrics>) -> Seq<char> {
    match t {
        Some(t) => text::numeral(t.my_chars + t.other_chars),
        None => "—"@,
    }
}

/// The characters of both sides, or a dash.
fn char_count_of(t: &Option<TextMetrics>) -> (r: String)
    requires
        chars_countable(*t),
    ensures
        r@ == char_count(*t),
{
    match t {
        Some(t) => text::numeral_of(t.my_chars + t.other_chars),
        None => "—".to_string(),
    }
}

/// The end.
pub open spec fn last_slide(r: CoupleReport, c: Curios) -> Seq<char> {
    "<div class=\"emoji\">💌</div><h1 style=\"font-size:38px;margin:10px 0\">谢谢观看</h1><p class=\"sub\">"@
        + text::numeral(r.total as int) + " 条消息 · "@ + char_count(r.text) + " 字 · 最长连续 "@
        + text::numeral(r.longest_streak as int) + " 天 · 温度 "@ + text::numeral(c.score.score as int)
        + "/100</p><p class=\"hint\">由 wechat-statistics 本地生成 · 全程离线</p>"@
}

/// The end.
fn last_slide_of(r: &CoupleReport, c: &Curios) -> (out: String)
    requires
        chars_countable(r.text),
    ensures
        out@ == last_slide(*r, *c),
{
    let mut out = "<div class=\"emoji\">💌</div><h1 style=\"font-size:38px;margin:10px 0\">谢谢观看</h1><p class=\"sub\">".to_string();
    out.append(text::numeral_of(r.total).as_str());
    out.append(" 条消息 · ");
    out.append(char_count_of(&r.text).as_str());
    out.append(" 字 · 最长连续 ");
    out.append(text::numeral_of(r.longest_streak).as_str());
    out.append(" 天 · 温度 ");
    out.append(text::numeral_of(c.score.score).as_str());
    out.append("/100</p><p class=\"hint\">由 wechat-statistics 本地生成 · 全程离线</p>");
    out
}

/// The slides up to the two sides.
pub open spec fn first_slides(name: Seq<char>, r: CoupleReport, c: Curios, f: Figures) -> Seq<Seq<char>> {
    seq![
        cover_slide(name, r),
        score_slide(c),
        timeline_slide(r),
        highlight_slide(r, c),
        sides_slide(r, f),
    ]
}

/// The slides up to the two sides.
fn first_slides_of(name: &str, r: &CoupleReport, c: &Curios, f: &Figures) -> (s: Vec<String>)
    ensures
        text::texts(s@) == first_slides(name@, *r, *c, *f),
{
    let mut s: Vec<String> = Vec::new();
    text::put(&mut s, cover_slide_of(name, r));
    text::put(&mut s, score_slide_of(c));
    text::put(&mut s, timeline_slide_of(r));
    text::put(&mut s, highlight_slide_of(r, c));
    text::put(&mut s, sides_slide_of(r, f));
    assert(text::texts(s@) =~= first_slides(name@, *r, *c, *f));
    s
}

/// The slides up to the cloud of words.
pub open spec fn middle_slides(r: CoupleReport, c: Curios, f: Figures) -> Seq<Seq<char>> {
    seq![
        firsts_slide(c),
        trend_slide(r, f),
        rhythm_slide(f),
        heat_slide(c),
        cloud_slide(r, f),
    ]
}

/// The slides up to the cloud of words.
fn middle_slides_of(r: &CoupleReport, c: &Curios, f: &Figures) -> (s: Vec<String>)
    requires
        figures::figures_fit(*r, *f),
    ensures
        text::texts(s@) == middle_slides(*r, *c, *f),
{
    let mut s: Vec<String> = Vec::new();
    text::put(&mut s, firsts_slide_of(c));
    text::put(&mut s, trend_slide_of(r, f));
    text::put(&mut s, rhythm_slide_of(f));
    text::put(&mut s, heat_slide_of(c));
    text::put(&mut s, cloud_slide_of(r, f));
    assert(text::texts(s@) =~= middle_slides(*r, *c, *f));
    s
}

/// The slides that are left.
pub open spec fn last_slides(r: CoupleReport, c: Curios, f: Figures) -> Seq<Seq<char>> {
    seq![
        signature_slide(c),
        keyword_slide(r),
        depth_slide(r, f),
        last_slide(r, c),
    ]
}

/// The slides that are left.
fn last_slides_of(r: &CoupleReport, c: &Curios, f: &Figures) -> (s: Vec<String>)
    requires
        chars_countable(r.text),
    ensures
        text::texts(s@) == last_slides(*r, *c, *f),
{
    let mut s: Vec<String> = Vec::new();
    text::put(&mut s, signature_slide_of(c));
    text::put(&mut s, keyword_slide_of(r));
    text::put(&mut s, depth_slide_of(r, f));
    text::put(&mut s, last_slide_of(r, c));
    assert(text::texts(s@) =~= last_slides(*r, *c, *f));
    s
}

/// All slides.
pub open spec fn slides(name: Seq<char>, r: CoupleReport, c: Curios, f: Figures) -> Seq<Seq<char>> {
    first_slides(name, r, c, f) + middle_slides(r, c, f) + last_slides(r, c, f)
}

/// All slides.
pub fn build_slides(name: &str, r: &CoupleReport, c: &Curios, f: &Figures) -> (s: Vec<String>)
    requires
        figures::figures_fit(*r, *f),
        chars_countable(r.text),
    ensures
        text::texts(s@) == slides(name@, *r, *c, *f),
{
    let mut s = first_slides_of(name, r, c, f);
    text::put_all(&mut s, middle_slides_of(r, c, f));
    text::put_all(&mut s, last_slides_of(r, c, f));
    s
}

}
