//! The parts of a page that hold figures and words.

use vstd::prelude::*;
use vstd::string::*;

use crate::couple::CoupleReport;
use crate::couple::TextMetrics;
use crate::dig::{ConversationDetail, LatencyStats};
use crate::fmt;
use crate::lexical::WordFreq;
use crate::render::figures;
use crate::render::figures::Figures;
use crate::render::markup;
use crate::schema;
use crate::text;

verus! {

/// A card: a value, what it is, and a remark.
pub open spec fn card_markup(label: Seq<char>, value: Seq<char>, sub: Seq<char>) -> Seq<char> {
    "<div class=\"card\"><div class=\"card-val\">"@ + value + "</div><div class=\"card-label\">"@
        + label + "</div>"@ + sub + "</div>"@
}

/// A card: a value, what it is, and a remark.
pub fn card(label: &str, value: &str, sub: &str) -> (out: String)
    ensures
        out@ == card_markup(label@, value@, sub@),
{
    let mut out = "<div class=\"card\"><div class=\"card-val\">".to_string();
    out.append(value);
    out.append("</div><div class=\"card-label\">");
    out.append(label);
    out.append("</div>");
    out.append(sub);
    out.append("</div>");
    out
}

/// A row of days that lasts.
pub open spec fn lasting_sub(n: i64) -> Seq<char> {
    "<div class=\"card-sub\">当前已连续 "@ + text::numeral(n as int) + " 天</div>"@
}

/// A row of days that lasts.
fn lasting_sub_of(n: i64) -> (out: String)
    ensures
        out@ == lasting_sub(n),
{
    let mut out = "<div class=\"card-sub\">当前已连续 ".to_string();
    out.append(text::numeral_of(n).as_str());
    out.append(" 天</div>");
    out
}

/// The days around a silence.
pub open spec fn range_sub(a: Seq<char>, b: Seq<char>) -> Seq<char> {
    "<div class=\"card-sub\">"@ + markup::escaped(a) + " → "@ + markup::escaped(b) + "</div>"@
}

/// The days around a silence.
fn range_sub_of(a: &str, b: &str) -> (out: String)
    ensures
        out@ == range_sub(a@, b@),
{
    let mut out = "<div class=\"card-sub\">".to_string();
    out.append(markup::esc(a).as_str());
    out.append(" → ");
    out.append(markup::esc(b).as_str());
    out.append("</div>");
    out
}

/// The messages of the busiest day.
pub open spec fn peak_sub(n: i64) -> Seq<char> {
    "<div class=\"card-sub\">"@ + text::numeral(n as int) + " 条</div>"@
}

/// The messages of the busiest day.
fn peak_sub_of(n: i64) -> (out: String)
    ensures
        out@ == peak_sub(n),
{
    let mut out = "<div class=\"card-sub\">".to_string();
    out.append(text::numeral_of(n).as_str());
    out.append(" 条</div>");
    out
}

/// The share of days with a message.
pub open spec fn active_sub(share: Seq<char>) -> Seq<char> {
    "<div class=\"card-sub\">"@ + share + "% 有交流</div>"@
}

/// The share of days with a message.
fn active_sub_of(share: &str) -> (out: String)
    ensures
        out@ == active_sub(share@),
{
    let mut out = "<div class=\"card-sub\">".to_string();
    out.append(share);
    out.append("% 有交流</div>");
    out
}

/// A number with its unit.
pub open spec fn with_unit(n: i64, unit: Seq<char>) -> Seq<char> {
    text::numeral(n as int) + " "@ + unit
}

/// A number with its unit.
fn with_unit_of(n: i64, unit: &str) -> (out: String)
    ensures
        out@ == with_unit(n, unit@),
{
    let mut out = text::numeral_of(n);
    out.append(" ");
    out.append(unit);
    out
}

/// A number out of another.
pub open spec fn fraction(a: i64, b: i64) -> Seq<char> {
    text::numeral(a as int) + " / "@ + text::numeral(b as int)
}

/// A number out of another.
fn fraction_of(a: i64, b: i64) -> (out: String)
    ensures
        out@ == fraction(a, b),
{
    let mut out = text::numeral_of(a);
    out.append(" / ");
    out.append(text::numeral_of(b).as_str());
    out
}

/// The remark below the longest row of days.
pub open spec fn streak_sub(r: CoupleReport) -> Seq<char> {
    if r.current_streak > 0 {
        lasting_sub(r.current_streak)
    } else {
        "<div class=\"card-sub\">当前已中断</div>"@
    }
}

/// The remark below the longest row of days.
fn streak_sub_of(r: &CoupleReport) -> (s: String)
    ensures
        s@ == streak_sub(*r),
{
    if r.current_streak > 0 {
        lasting_sub_of(r.current_streak)
    } else {
        "<div class=\"card-sub\">当前已中断</div>".to_string()
    }
}

/// The remark below the longest silence.
pub open spec fn silence_sub(r: CoupleReport) -> Seq<char> {
    match r.longest_silence_range {
        Some((a, b)) => range_sub(a@, b@),
        None => ""@,
    }
}

/// The remark below the longest silence.
fn silence_sub_of(r: &CoupleReport) -> (s: String)
    ensures
        s@ == silence_sub(*r),
{
    match &r.longest_silence_range {
        Some((a, b)) => range_sub_of(a.as_str(), b.as_str()),
        None => "".to_string(),
    }
}

/// The busiest day.
pub open spec fn peak_value(r: CoupleReport) -> Seq<char> {
    match r.peak_day {
        Some((day, _)) => markup::escaped(day@),
        None => ""@,
    }
}

/// The busiest day.
fn peak_value_of(r: &CoupleReport) -> (s: String)
    ensures
        s@ == peak_value(*r),
{
    match &r.peak_day {
        Some((day, _)) => markup::esc(day.as_str()),
        None => "".to_string(),
    }
}

/// The remark below the busiest day.
pub open spec fn peak_remark(r: CoupleReport) -> Seq<char> {
    match r.peak_day {
        Some((_, n)) => peak_sub(n),
        None => ""@,
    }
}

/// The remark below the busiest day.
fn peak_remark_of(r: &CoupleReport) -> (s: String)
    ensures
        s@ == peak_remark(*r),
{
    match &r.peak_day {
        Some((_, n)) => peak_sub_of(*n),
        None => "".to_string(),
    }
}

/// The cards.
pub open spec fn cards_markup(r: CoupleReport, f: Figures) -> Seq<char> {
    "<div class=\"cards\">"@
        + card_markup("🔥 最长连续"@, text::numeral(r.longest_streak as int), streak_sub(r))
        + card_markup("🤫 最长沉默"@, with_unit(r.longest_silence_days, "天"@), silence_sub(r))
        + card_markup("🎉 最嗨一天"@, peak_value(r), peak_remark(r))
        + card_markup("🌙 一起熬夜"@, with_unit(r.late_night_count, "条"@), ""@)
        + card_markup("📞 通话"@, with_unit(r.call_count, "次"@), ""@)
        + card_markup("📅 活跃"@, fraction(r.active_days, r.nth_day_today), active_sub(f.active@))
        + "</div>"@
}

/// The cards.
pub fn cards_html(r: &CoupleReport, f: &Figures) -> (out: String)
    ensures
        out@ == cards_markup(*r, *f),
{
    let mut out = "<div class=\"cards\">".to_string();
    out.append(card("🔥 最长连续", text::numeral_of(r.longest_streak).as_str(), streak_sub_of(r).as_str()).as_str());
    out.append(card("🤫 最长沉默", with_unit_of(r.longest_silence_days, "天").as_str(), silence_sub_of(r).as_str()).as_str());
    out.append(card("🎉 最嗨一天", peak_value_of(r).as_str(), peak_remark_of(r).as_str()).as_str());
    out.append(card("🌙 一起熬夜", with_unit_of(r.late_night_count, "条").as_str(), "").as_str());
    out.append(card("📞 通话", with_unit_of(r.call_count, "次").as_str(), "").as_str());
    out.append(card("📅 活跃", fraction_of(r.active_days, r.nth_day_today).as_str(), active_sub_of(f.active.as_str()).as_str()).as_str());
    out.append("</div>");
    out
}

/// One bar: its side, its name and its share.
pub open spec fn bar_line_markup(cls: Seq<char>, who: Seq<char>, share: Seq<char>) -> Seq<char> {
    "<div class=\"rbi\"><span class=\"who "@ + cls + "\">"@ + who
        + "</span><div class=\"rb\"><span class=\""@ + cls + "\" style=\"width:"@ + share
        + "%\"></span></div><i>"@ + share + "%</i></div>"@
}

/// One bar: its side, its name and its share.
pub fn bar_line(cls: &str, who: &str, share: &str) -> (out: String)
    ensures
        out@ == bar_line_markup(cls@, who@, share@),
{
    let mut out = "<div class=\"rbi\"><span class=\"who ".to_string();
    out.append(cls);
    out.append("\">");
    out.append(who);
    out.append("</span><div class=\"rb\"><span class=\"");
    out.append(cls);
    out.append("\" style=\"width:");
    out.append(share);
    out.append("%\"></span></div><i>");
    out.append(share);
    out.append("%</i></div>");
    out
}

/// A row with a bar for either side.
pub open spec fn bar_row_markup(label: Seq<char>, me: Seq<char>, other: Seq<char>) -> Seq<char> {
    "<div class=\"reply-row\"><div class=\"reply-label\">"@ + markup::escaped(label)
        + "</div><div class=\"reply-bars\">"@ + bar_line_markup("me"@, "我"@, me)
        + bar_line_markup("them"@, "ta"@, other) + "</div></div>"@
}

/// A row with a bar for either side.
pub fn bar_row(label: &str, me: &str, other: &str) -> (out: String)
    ensures
        out@ == bar_row_markup(label@, me@, other@),
{
    let mut out = "<div class=\"reply-row\"><div class=\"reply-label\">".to_string();
    out.append(markup::esc(label).as_str());
    out.append("</div><div class=\"reply-bars\">");
    out.append(bar_line("me", "我", me).as_str());
    out.append(bar_line("them", "ta", other).as_str());
    out.append("</div></div>");
    out
}

/// Quick and fast replies of either side.
pub open spec fn reply_rows(f: Figures) -> Seq<char> {
    bar_row_markup("秒回率（30s）"@, f.my_quick@, f.other_quick@)
        + bar_row_markup("1 分钟内"@, f.my_fast@, f.other_fast@)
}

/// Quick and fast replies of either side.
pub fn reply_rows_of(f: &Figures) -> (out: String)
    ensures
        out@ == reply_rows(*f),
{
    let mut out = bar_row("秒回率（30s）", f.my_quick.as_str(), f.other_quick.as_str());
    out.append(bar_row("1 分钟内", f.my_fast.as_str(), f.other_fast.as_str()).as_str());
    out
}

/// How fast either side replies.
pub open spec fn reply_markup(r: CoupleReport, f: Figures) -> Seq<char> {
    if r.my_reply_count + r.other_reply_count == 0 {
        "<p class='muted'>无回复样本</p>"@
    } else {
        reply_rows(f)
    }
}

/// How fast either side replies.
pub fn reply_html(r: &CoupleReport, f: &Figures) -> (s: String)
    ensures
        s@ == reply_markup(*r, *f),
{
    if r.my_reply_count as i128 + r.other_reply_count as i128 == 0 {
        "<p class='muted'>无回复样本</p>".to_string()
    } else {
        reply_rows_of(f)
    }
}

/// The messages of either side, as one bar.
pub open spec fn ratio_markup(r: CoupleReport, f: Figures) -> Seq<char> {
    "<div class=\"bar\"><span class=\"me\" style=\"width:"@ + f.my_share@
        + "%\"></span><span class=\"them\" style=\"width:"@ + f.other_share@
        + "%\"></span></div><div class=\"bar-legend\"><span>我 "@ + text::numeral(r.my_count as int)
        + "</span><span>ta "@ + text::numeral(r.other_count as int) + "</span></div>"@
}

/// The messages of either side, as one bar.
pub fn ratio_html(r: &CoupleReport, f: &Figures) -> (out: String)
    ensures
        out@ == ratio_markup(*r, *f),
{
    let mut out = "<div class=\"bar\"><span class=\"me\" style=\"width:".to_string();
    out.append(f.my_share.as_str());
    out.append("%\"></span><span class=\"them\" style=\"width:");
    out.append(f.other_share.as_str());
    out.append("%\"></span></div><div class=\"bar-legend\"><span>我 ");
    out.append(text::numeral_of(r.my_count).as_str());
    out.append("</span><span>ta ");
    out.append(text::numeral_of(r.other_count).as_str());
    out.append("</span></div>");
    out
}

/// A word of the cloud.
pub open spec fn cloud_word(word: Seq<char>, n: i64, size: Seq<char>, opacity: Seq<char>) -> Seq<char> {
    "<span style=\"font-size:"@ + size + "px;opacity:"@ + opacity + "\">"@ + markup::escaped(word)
        + " <i>"@ + text::numeral(n as int) + "</i></span>"@
}

/// A word of the cloud.
fn cloud_word_of(word: &str, n: i64, size: &str, opacity: &str) -> (out: String)
    ensures
        out@ == cloud_word(word@, n, size@, opacity@),
{
    let mut out = "<span style=\"font-size:".to_string();
    out.append(size);
    out.append("px;opacity:");
    out.append(opacity);
    out.append("\">");
    out.append(markup::esc(word).as_str());
    out.append(" <i>");
    out.append(text::numeral_of(n).as_str());
    out.append("</i></span>");
    out
}

/// The words of the cloud.
pub open spec fn cloud_words(words: Seq<(String, i64)>, sizes: Seq<(String, String)>) -> Seq<Seq<char>> {
    Seq::new(words.len(), |i: int| cloud_word(words[i].0@, words[i].1, sizes[i].0@, sizes[i].1@))
}

/// The words of the cloud.
fn cloud_words_of(words: &Vec<(String, i64)>, sizes: &Vec<(String, String)>) -> (r: Vec<String>)
    requires
        words@.len() == sizes@.len(),
    ensures
        text::texts(r@) == cloud_words(words@, sizes@),
{
    let ghost all = cloud_words(words@, sizes@);
    let mut r: Vec<String> = Vec::new();
    let mut i: usize = 0;
    assert(text::texts(r@) =~= all.take(0));
    while i < words.len()
        invariant
            i <= all.len(),
            all == cloud_words(words@, sizes@),
            words@.len() == sizes@.len(),
            text::texts(r@) == all.take(i as int),
        decreases all.len() - i,
    {
        text::put(&mut r, cloud_word_of(words[i].0.as_str(), words[i].1, sizes[i].0.as_str(), sizes[i].1.as_str()));
        assert(all.take(i + 1) =~= all.take(i as int).push(all[i as int]));
        i = i + 1;
    }
    assert(all.take(i as int) =~= all);
    r
}

/// The cloud around its words.
pub open spec fn cloud_box(words: Seq<(String, i64)>, sizes: Seq<(String, String)>) -> Seq<char> {
    "<div class=\"cloud\">"@ + text::joined(cloud_words(words, sizes), "\n"@) + "</div>"@
}

/// The cloud around its words.
fn cloud_box_of(words: &Vec<(String, i64)>, sizes: &Vec<(String, String)>) -> (out: String)
    requires
        words@.len() == sizes@.len(),
    ensures
        out@ == cloud_box(words@, sizes@),
{
    let mut out = "<div class=\"cloud\">".to_string();
    out.append(text::join(&cloud_words_of(words, sizes), "\n").as_str());
    out.append("</div>");
    out
}

/// The cloud of the most frequent words.
pub open spec fn cloud_markup(r: CoupleReport, f: Figures) -> Seq<char> {
    match r.words {
        Some(w) => if w.overall@.len() == 0 {
            "<p class='muted'>无文本</p>"@
        } else {
            cloud_box(w.overall@, f.cloud@)
        },
        None => "<p class='muted'>未计算高频词（加 --words N）</p>"@,
    }
}

/// The cloud of the most frequent words.
pub fn cloud_html(r: &CoupleReport, f: &Figures) -> (s: String)
    requires
        figures::cloud_fits(*r, *f),
    ensures
        s@ == cloud_markup(*r, *f),
{
    match &r.words {
        Some(w) => if w.overall.len() == 0 {
            "<p class='muted'>无文本</p>".to_string()
        } else {
            cloud_box_of(&w.overall, &f.cloud)
        },
        None => "<p class='muted'>未计算高频词（加 --words N）</p>".to_string(),
    }
}

/// A row of the table of keywords.
pub open spec fn keyword_row(k: Seq<char>, mine: i64, theirs: i64) -> Seq<char> {
    "<tr><td>"@ + markup::escaped(k) + "</td><td class=\"me\">"@ + text::numeral(mine as int)
        + "</td><td class=\"them\">"@ + text::numeral(theirs as int) + "</td></tr>"@
}

/// A row of the table of keywords.
fn keyword_row_of(k: &str, mine: i64, theirs: i64) -> (out: String)
    ensures
        out@ == keyword_row(k@, mine, theirs),
{
    let mut out = "<tr><td>".to_string();
    out.append(markup::esc(k).as_str());
    out.append("</td><td class=\"me\">");
    out.append(text::numeral_of(mine).as_str());
    out.append("</td><td class=\"them\">");
    out.append(text::numeral_of(theirs).as_str());
    out.append("</td></tr>");
    out
}

/// No more than `most`.
pub open spec fn up_to(n: nat, most: nat) -> nat {
    if n <= most {
        n
    } else {
        most
    }
}

/// The most frequent keywords, at most twelve.
pub open spec fn keyword_rows(rows: Seq<(String, i64, i64)>) -> Seq<Seq<char>> {
    Seq::new(up_to(rows.len(), 12), |i: int| keyword_row(rows[i].0@, rows[i].1, rows[i].2))
}

/// The most frequent keywords, at most twelve.
fn keyword_rows_of(rows: &Vec<(String, i64, i64)>) -> (r: Vec<String>)
    ensures
        text::texts(r@) == keyword_rows(rows@),
{
    let ghost all = keyword_rows(rows@);
    let mut r: Vec<String> = Vec::new();
    let mut i: usize = 0;
    assert(text::texts(r@) =~= all.take(0));
    while i < rows.len() && i < 12
        invariant
            i <= all.len(),
            all == keyword_rows(rows@),
            text::texts(r@) == all.take(i as int),
        decreases all.len() - i,
    {
        text::put(&mut r, keyword_row_of(rows[i].0.as_str(), rows[i].1, rows[i].2));
        assert(all.take(i + 1) =~= all.take(i as int).push(all[i as int]));
        i = i + 1;
    }
    assert(all.take(i as int) =~= all);
    r
}

/// The table of keywords.
pub open spec fn keyword_table(rows: Seq<(String, i64, i64)>) -> Seq<char> {
    "<section><h2>💬 关键词（消息条数）</h2><table class=\"kw\"><thead><tr><th>词</th><th>我</th><th>ta</th></tr></thead><tbody>"@
        + text::joined(keyword_rows(rows), ""@) + "</tbody></table></section>"@
}

/// The table of keywords.
fn keyword_table_of(rows: &Vec<(String, i64, i64)>) -> (out: String)
    ensures
        out@ == keyword_table(rows@),
{
    let mut out = "<section><h2>💬 关键词（消息条数）</h2><table class=\"kw\"><thead><tr><th>词</th><th>我</th><th>ta</th></tr></thead><tbody>".to_string();
    out.append(text::join(&keyword_rows_of(rows), "").as_str());
    out.append("</tbody></table></section>");
    out
}

/// The keywords, where there are any.
pub open spec fn keywords_markup(t: Option<TextMetrics>) -> Seq<char> {
    match t {
        Some(t) => if t.keywords@.len() == 0 {
            ""@
        } else {
            keyword_table(t.keywords@)
        },
        None => ""@,
    }
}

/// The keywords, where there are any.
pub fn keywords_html(r: &CoupleReport) -> (s: String)
    ensures
        s@ == keywords_markup(r.text),
{
    match &r.text {
        Some(t) => if t.keywords.len() == 0 {
            "".to_string()
        } else {
            keyword_table_of(&t.keywords)
        },
        None => "".to_string(),
    }
}

/// A word with its count.
pub open spec fn chip(word: Seq<char>, n: i64) -> Seq<char> {
    "<span class=\"chip\">"@ + markup::escaped(word) + "<i>"@ + text::numeral(n as int) + "</i></span>"@
}

/// A word with its count.
fn chip_of(word: &str, n: i64) -> (out: String)
    ensures
        out@ == chip(word@, n),
{
    let mut out = "<span class=\"chip\">".to_string();
    out.append(markup::esc(word).as_str());
    out.append("<i>");
    out.append(text::numeral_of(n).as_str());
    out.append("</i></span>");
    out
}

/// Words with their counts.
pub open spec fn chip_list(words: Seq<(String, i64)>) -> Seq<Seq<char>> {
    Seq::new(words.len(), |i: int| chip(words[i].0@, words[i].1))
}

/// Words with their counts.
fn chip_list_of(words: &Vec<(String, i64)>) -> (r: Vec<String>)
    ensures
        text::texts(r@) == chip_list(words@),
{
    let ghost all = chip_list(words@);
    let mut r: Vec<String> = Vec::new();
    let mut i: usize = 0;
    assert(text::texts(r@) =~= all.take(0));
    while i < words.len()
        invariant
            i <= all.len(),
            all == chip_list(words@),
            text::texts(r@) == all.take(i as int),
        decreases all.len() - i,
    {
        text::put(&mut r, chip_of(words[i].0.as_str(), words[i].1));
        assert(all.take(i + 1) =~= all.take(i as int).push(all[i as int]));
        i = i + 1;
    }
    assert(all.take(i as int) =~= all);
    r
}

/// Words with their counts, or that there are none.
pub open spec fn chips_markup(words: Seq<(String, i64)>) -> Seq<char> {
    if words.len() == 0 {
        "<span class='muted'>无</span>"@
    } else {
        text::joined(chip_list(words), ""@)
    }
}

/// Words with their counts, or that there are none.
pub fn chips(words: &Vec<(String, i64)>) -> (s: String)
    ensures
        s@ == chips_markup(words@),
{
    if words.len() == 0 {
        "<span class='muted'>无</span>".to_string()
    } else {
        text::join(&chip_list_of(words), "")
    }
}

/// The words that either side says most.
pub open spec fn said_most(w: WordFreq) -> Seq<char> {
    "<section class=\"topwords\"><div><h3>🧑 你最常说</h3><div class=\"chips\">"@ + chips_markup(w.mine@)
        + "</div></div><div><h3>💜 ta 最常说</h3><div class=\"chips\">"@ + chips_markup(w.theirs@)
        + "</div></div></section>"@
}

/// The words that either side says most.
fn said_most_of(w: &WordFreq) -> (out: String)
    ensures
        out@ == said_most(*w),
{
    let mut out = "<section class=\"topwords\"><div><h3>🧑 你最常说</h3><div class=\"chips\">".to_string();
    out.append(chips(&w.mine).as_str());
    out.append("</div></div><div><h3>💜 ta 最常说</h3><div class=\"chips\">");
    out.append(chips(&w.theirs).as_str());
    out.append("</div></div></section>");
    out
}

/// The words that either side says most, where they were counted.
pub open spec fn topwords_markup(w: Option<WordFreq>) -> Seq<char> {
    match w {
        Some(w) => said_most(w),
        None => ""@,
    }
}

/// The words that either side says most, where they were counted.
pub fn topwords_html(r: &CoupleReport) -> (s: String)
    ensures
        s@ == topwords_markup(r.words),
{
    match &r.words {
        Some(w) => said_most_of(w),
        None => "".to_string(),
    }
}

/// The latencies of one side.
pub open spec fn latency_sample(median: i64, mean: i64, n: i64) -> Seq<char> {
    "<span class=\"lat\"><b>中位 "@ + fmt::duration_text(median as int) + "</b><i>均值 "@
        + fmt::duration_text(mean as int) + "</i><u>"@ + text::numeral(n as int)
        + " 次回复</u></span>"@
}

/// The latencies of one side.
fn latency_sample_of(median: i64, mean: i64, n: i64) -> (out: String)
    ensures
        out@ == latency_sample(median, mean, n),
{
    let mut out = "<span class=\"lat\"><b>中位 ".to_string();
    out.append(fmt::fmt_duration(median).as_str());
    out.append("</b><i>均值 ");
    out.append(fmt::fmt_duration(mean).as_str());
    out.append("</i><u>");
    out.append(text::numeral_of(n).as_str());
    out.append(" 次回复</u></span>");
    out
}

/// The latencies of one side, or that there are none.
pub open spec fn latency_markup(s: LatencyStats) -> Seq<char> {
    match (s.median_sec, s.mean_sec) {
        (Some(median), Some(mean)) => latency_sample(median, mean, s.samples),
        _ => "<span class='muted'>无样本</span>"@,
    }
}

/// The latencies of one side, or that there are none.
fn latency_html(s: &LatencyStats) -> (r: String)
    ensures
        r@ == latency_markup(*s),
{
    match (s.median_sec, s.mean_sec) {
        (Some(median), Some(mean)) => latency_sample_of(median, mean, s.samples),
        _ => "<span class='muted'>无样本</span>".to_string(),
    }
}

/// A type with its count.
pub open spec fn type_chip(side: Seq<char>, t: i64, n: i64) -> Seq<char> {
    "<span class=\"tc "@ + side + "\">"@ + schema::label_of_type(t) + "<i>"@ + text::numeral(n as int)
        + "</i></span>"@
}

/// A type with its count.
fn type_chip_of(side: &str, t: i64, n: i64) -> (out: String)
    ensures
        out@ == type_chip(side@, t, n),
{
    let mut out = "<span class=\"tc ".to_string();
    out.append(side);
    out.append("\">");
    out.append(schema::type_label(t));
    out.append("<i>");
    out.append(text::numeral_of(n).as_str());
    out.append("</i></span>");
    out
}

/// The most frequent types, at most six.
pub open spec fn type_chips(rows: Seq<(i64, i64)>, side: Seq<char>) -> Seq<Seq<char>> {
    Seq::new(up_to(rows.len(), 6), |i: int| type_chip(side, rows[i].0, rows[i].1))
}

/// The most frequent types, at most six.
fn type_chips_of(rows: &Vec<(i64, i64)>, side: &str) -> (r: Vec<String>)
    ensures
        text::texts(r@) == type_chips(rows@, side@),
{
    let ghost all = type_chips(rows@, side@);
    let mut r: Vec<String> = Vec::new();
    let mut i: usize = 0;
    assert(text::texts(r@) =~= all.take(0));
    while i < rows.len() && i < 6
        invariant
            i <= all.len(),
            all == type_chips(rows@, side@),
            text::texts(r@) == all.take(i as int),
        decreases all.len() - i,
    {
        text::put(&mut r, type_chip_of(side, rows[i].0, rows[i].1));
        assert(all.take(i + 1) =~= all.take(i as int).push(all[i as int]));
        i = i + 1;
    }
    assert(all.take(i as int) =~= all);
    r
}

/// The most frequent types, or a dash.
pub open spec fn types_markup(rows: Seq<(i64, i64)>, side: Seq<char>) -> Seq<char> {
    if rows.len() == 0 {
        "<span class='muted'>—</span>"@
    } else {
        text::joined(type_chips(rows, side), ""@)
    }
}

/// The most frequent types, or a dash.
fn types_html(rows: &Vec<(i64, i64)>, side: &str) -> (r: String)
    ensures
        r@ == types_markup(rows@, side@),
{
    if rows.len() == 0 {
        "<span class='muted'>—</span>".to_string()
    } else {
        text::join(&type_chips_of(rows, side), "")
    }
}

/// The conversation in depth.
pub open spec fn depth_box(d: ConversationDetail, f: Figures) -> Seq<char> {
    "<section><h2>🔎 深挖</h2><div class=\"dig-row\"><div class=\"dig-cell\"><h4>⏱ 回复时延</h4><div class=\"latpair\"><div><span class=\"lbl me\">我</span>"@
        + latency_markup(d.my_reply) + "</div><div><span class=\"lbl them\">ta</span>"@
        + latency_markup(d.other_reply)
        + "</div></div></div><div class=\"dig-cell\"><h4>🌅 每日首发</h4><div class=\"bar\"><span class=\"me\" style=\"width:"@
        + f.my_open@ + "%\"></span><span class=\"them\" style=\"width:"@ + f.other_open@
        + "%\"></span></div><div class=\"bar-legend\"><span>我开口 "@
        + text::numeral(d.days_self_open as int) + " 天</span><span>ta 开口 "@
        + text::numeral(d.days_other_open as int)
        + " 天</span></div></div></div><div class=\"types\"><div><span class=\"lbl me\">我常发</span><div class=\"tchips\">"@
        + types_markup(d.my_type_dist@, "me"@)
        + "</div></div><div><span class=\"lbl them\">ta 常发</span><div class=\"tchips\">"@
        + types_markup(d.other_type_dist@, "them"@) + "</div></div></div></section>"@
}

/// The conversation in depth.
fn depth_box_of(d: &ConversationDetail, f: &Figures) -> (out: String)
    ensures
        out@ == depth_box(*d, *f),
{
    let mut out = "<section><h2>🔎 深挖</h2><div class=\"dig-row\"><div class=\"dig-cell\"><h4>⏱ 回复时延</h4><div class=\"latpair\"><div><span class=\"lbl me\">我</span>".to_string();
    out.append(latency_html(&d.my_reply).as_str());
    out.append("</div><div><span class=\"lbl them\">ta</span>");
    out.append(latency_html(&d.other_reply).as_str());
    out.append("</div></div></div><div class=\"dig-cell\"><h4>🌅 每日首发</h4><div class=\"bar\"><span class=\"me\" style=\"width:");
    out.append(f.my_open.as_str());
    out.append("%\"></span><span class=\"them\" style=\"width:");
    out.append(f.other_open.as_str());
    out.append("%\"></span></div><div class=\"bar-legend\"><span>我开口 ");
    out.append(text::numeral_of(d.days_self_open).as_str());
    out.append(" 天</span><span>ta 开口 ");
    out.append(text::numeral_of(d.days_other_open).as_str());
    out.append(" 天</span></div></div></div><div class=\"types\"><div><span class=\"lbl me\">我常发</span><div class=\"tchips\">");
    out.append(types_html(&d.my_type_dist, "me").as_str());
    out.append("</div></div><div><span class=\"lbl them\">ta 常发</span><div class=\"tchips\">");
    out.append(types_html(&d.other_type_dist, "them").as_str());
    out.append("</div></div></div></section>");
    out
}

/// The conversation in depth, where it was looked at.
pub open spec fn dig_markup(d: Option<ConversationDetail>, f: Figures) -> Seq<char> {
    match d {
        Some(d) => depth_box(d, f),
        None => ""@,
    }
}

/// The conversation in depth, where it was looked at.
pub fn dig_html(r: &CoupleReport, f: &Figures) -> (s: String)
    ensures
        s@ == dig_markup(r.dig, *f),
{
    match &r.dig {
        Some(d) => depth_box_of(d, f),
        None => "".to_string(),
    }
}

}
