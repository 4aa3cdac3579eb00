//! Curious facts in a page.

use vstd::prelude::*;
use vstd::string::*;

use crate::curios::{Curios, EmoMsg, First};
use crate::render::charts;
use crate::render::figures;
use crate::render::figures::Figures;
use crate::render::markup;
use crate::render::parts;
use crate::report::curios;
use crate::text;

verus! {

/// One part of the score.
pub open spec fn score_bar(name: Seq<char>, points: i64, most: i64) -> Seq<char> {
    "<div class=\"sb\"><span>"@ + markup::escaped(name) + "</span><div class=\"sbb\"><i style=\"width:"@
        + text::numeral(markup::percent(points as int, most as int)) + "%\"></i></div><u>"@ + text::numeral(points as int) + "/"@
        + text::numeral(most as int) + "</u></div>"@
}

/// One part of the score.
fn score_bar_of(name: &str, points: i64, most: i64) -> (out: String)
    ensures
        out@ == score_bar(name@, points, most),
{
    let mut out = "<div class=\"sb\"><span>".to_string();
    out.append(markup::esc(name).as_str());
    out.append("</span><div class=\"sbb\"><i style=\"width:");
    out.append(text::numeral_of(markup::percent_filled(points, most)).as_str());
    out.append("%\"></i></div><u>");
    out.append(text::numeral_of(points).as_str());
    out.append("/");
    out.append(text::numeral_of(most).as_str());
    out.append("</u></div>");
    out
}

/// The parts of the score.
pub open spec fn score_bars(rows: Seq<(String, i64, i64)>) -> Seq<Seq<char>> {
    Seq::new(rows.len(), |i: int| score_bar(rows[i].0@, rows[i].1, rows[i].2))
}

/// The parts of the score.
fn score_bars_of(rows: &Vec<(String, i64, i64)>) -> (r: Vec<String>)
    ensures
        text::texts(r@) == score_bars(rows@),
{
    let ghost all = score_bars(rows@);
    let mut r: Vec<String> = Vec::new();
    let mut i: usize = 0;
    assert(text::texts(r@) =~= all.take(0));
    while i < rows.len()
        invariant
            i <= all.len(),
            all == score_bars(rows@),
            text::texts(r@) == all.take(i as int),
        decreases all.len() - i,
    {
        text::put(&mut r, score_bar_of(rows[i].0.as_str(), rows[i].1, rows[i].2));
        assert(all.take(i + 1) =~= all.take(i as int).push(all[i as int]));
        i = i + 1;
    }
    assert(all.take(i as int) =~= all);
    r
}

/// The parts of the score, one after the other.
pub open spec fn score_markup(c: Curios) -> Seq<char> {
    text::joined(score_bars(c.score.breakdown@), ""@)
}

/// The parts of the score, one after the other.
pub fn score_html(c: &Curios) -> (r: String)
    ensures
        r@ == score_markup(*c),
{
    text::join(&score_bars_of(&c.score.breakdown), "")
}

/// The score.
pub open spec fn score_box(c: Curios) -> Seq<char> {
    "<div class=\"score\"><div class=\"score-num\">"@ + text::numeral(c.score.score as int)
        + "</div><div class=\"score-meta\"><b>"@ + c.score.label@
        + "</b><div class=\"score-bars\">"@ + score_markup(c) + "</div></div></div>"@
}

/// The score.
fn score_box_of(c: &Curios) -> (out: String)
    ensures
        out@ == score_box(*c),
{
    let mut out = "<div class=\"score\"><div class=\"score-num\">".to_string();
    out.append(text::numeral_of(c.score.score).as_str());
    out.append("</div><div class=\"score-meta\"><b>");
    out.append(c.score.label);
    out.append("</b><div class=\"score-bars\">");
    out.append(score_html(c).as_str());
    out.append("</div></div></div>");
    out
}

/// A quoted text, or nothing for an empty one.
pub open spec fn quoted(t: Seq<char>) -> Seq<char> {
    if t.len() == 0 {
        ""@
    } else {
        "「"@ + markup::escaped(t) + "」"@
    }
}

/// A quoted text, or nothing for an empty one.
fn quoted_of(t: &str) -> (r: String)
    ensures
        r@ == quoted(t@),
{
    if text::chars_of(t).len() == 0 {
        return "".to_string();
    }
    let mut r = "「".to_string();
    r.append(markup::esc(t).as_str());
    r.append("」");
    r
}

/// A first time.
pub open spec fn milestone(f: First, when: Seq<char>) -> Seq<char> {
    "<div class=\"mi\"><span class=\"ml\">"@ + markup::escaped(f.label@) + "</span><span class=\"md\">"@
        + markup::escaped(when) + " "@ + curios::given_literal(f.who) + " "@
        + quoted(curios::given(f.snippet)) + "</span></div>"@
}

/// A first time.
fn milestone_of(f: &First, when: &str) -> (out: String)
    ensures
        out@ == milestone(*f, when@),
{
    let mut out = "<div class=\"mi\"><span class=\"ml\">".to_string();
    out.append(markup::esc(f.label.as_str()).as_str());
    out.append("</span><span class=\"md\">");
    out.append(markup::esc(when).as_str());
    out.append(" ");
    out.append(curios::given_literal_of(f.who));
    out.append(" ");
    out.append(quoted_of(curios::given_of(&f.snippet)).as_str());
    out.append("</span></div>");
    out
}

/// The first times that came.
pub open spec fn milestones(firsts: Seq<First>) -> Seq<Seq<char>>
    decreases firsts.len(),
{
    if firsts.len() == 0 {
        Seq::empty()
    } else {
        let before = milestones(firsts.drop_last());
        match firsts.last().when {
            Some(when) => before.push(milestone(firsts.last(), when@)),
            None => before,
        }
    }
}

/// The first times that came.
pub fn milestones_of(firsts: &Vec<First>) -> (r: Vec<String>)
    ensures
        text::texts(r@) == milestones(firsts@),
{
    let mut r: Vec<String> = Vec::new();
    let mut i: usize = 0;
    assert(text::texts(r@) =~= milestones(firsts@.take(0)));
    while i < firsts.len()
        invariant
            i <= firsts@.len(),
            text::texts(r@) == milestones(firsts@.take(i as int)),
        decreases firsts@.len() - i,
    {
        let f = &firsts[i];
        assert(firsts@.take(i + 1).drop_last() =~= firsts@.take(i as int));
        if let Some(when) = &f.when {
            text::put(&mut r, milestone_of(f, when.as_str()));
        }
        i = i + 1;
    }
    assert(firsts@.take(i as int) =~= firsts@);
    r
}

/// The first times below a heading.
pub open spec fn milestone_box(items: Seq<Seq<char>>) -> Seq<char> {
    "<div class=\"milestones\"><h4>🏁 第一次</h4>"@ + text::joined(items, ""@) + "</div>"@
}

/// The first times below a heading.
fn milestone_box_of(items: &Vec<String>) -> (out: String)
    ensures
        out@ == milestone_box(text::texts(items@)),
{
    let mut out = "<div class=\"milestones\"><h4>🏁 第一次</h4>".to_string();
    out.append(text::join(items, "").as_str());
    out.append("</div>");
    out
}

/// The first times, where any came.
pub open spec fn firsts_markup(firsts: Seq<First>) -> Seq<char> {
    if milestones(firsts).len() == 0 {
        ""@
    } else {
        milestone_box(milestones(firsts))
    }
}

/// The first times, where any came.
fn firsts_html(firsts: &Vec<First>) -> (r: String)
    ensures
        r@ == firsts_markup(firsts@),
{
    let items = milestones_of(firsts);
    assert(text::texts(items@).len() == items@.len());
    if items.len() == 0 {
        "".to_string()
    } else {
        milestone_box_of(&items)
    }
}

/// A number of either side.
pub open spec fn both_sides(a: i64, b: i64) -> Seq<char> {
    "我 "@ + text::numeral(a as int) + " · ta "@ + text::numeral(b as int)
}

/// A number of either side.
fn both_sides_of(a: i64, b: i64) -> (out: String)
    ensures
        out@ == both_sides(a, b),
{
    let mut out = "我 ".to_string();
    out.append(text::numeral_of(a).as_str());
    out.append(" · ta ");
    out.append(text::numeral_of(b).as_str());
    out
}

/// The longest exchange.
pub open spec fn exchange(n: i64, minutes: i64) -> Seq<char> {
    text::numeral(n as int) + " 条 · 约 "@ + text::numeral(minutes as int) + " 分钟"@
}

/// The longest exchange.
fn exchange_of(n: i64, minutes: i64) -> (out: String)
    ensures
        out@ == exchange(n, minutes),
{
    let mut out = text::numeral_of(n);
    out.append(" 条 · 约 ");
    out.append(text::numeral_of(minutes).as_str());
    out.append(" 分钟");
    out
}

/// A small card.
pub open spec fn small_card(title: Seq<char>, body: Seq<char>) -> Seq<char> {
    "<div class=\"ccard\"><div class=\"ct\">"@ + title + "</div><div class=\"cb\">"@
        + markup::escaped(body) + "</div></div>"@
}

/// A small card.
fn small_card_of(title: &str, body: &str) -> (out: String)
    ensures
        out@ == small_card(title@, body@),
{
    let mut out = "<div class=\"ccard\"><div class=\"ct\">".to_string();
    out.append(title);
    out.append("</div><div class=\"cb\">");
    out.append(markup::esc(body).as_str());
    out.append("</div></div>");
    out
}

/// The small cards.
pub open spec fn card_grid(c: Curios) -> Seq<char> {
    "<div class=\"cgrid\">"@
        + small_card("💤 最后一句"@, both_sides(c.ending.my_last_word, c.ending.other_last_word))
        + small_card("⏳ 被晾 >6h"@, both_sides(c.ending.my_left_on_read, c.ending.other_left_on_read))
        + small_card("🔁 最长对线"@, exchange(c.rally.max_len, c.rally.duration_min))
        + small_card("🌙 深夜 emo"@, both_sides(c.emo.my_count, c.emo.other_count))
        + small_card("😂 哈哈指数"@, both_sides(c.haha.me_total, c.haha.them_total))
        + small_card("🥱 敷衍回复"@, both_sides(c.perfunctory.my_count, c.perfunctory.other_count))
        + "</div>"@
}

/// The small cards.
fn card_grid_of(c: &Curios) -> (out: String)
    ensures
        out@ == card_grid(*c),
{
    let mut out = "<div class=\"cgrid\">".to_string();
    out.append(small_card_of("💤 最后一句", both_sides_of(c.ending.my_last_word, c.ending.other_last_word).as_str()).as_str());
    out.append(small_card_of("⏳ 被晾 >6h", both_sides_of(c.ending.my_left_on_read, c.ending.other_left_on_read).as_str()).as_str());
    out.append(small_card_of("🔁 最长对线", exchange_of(c.rally.max_len, c.rally.duration_min).as_str()).as_str());
    out.append(small_card_of("🌙 深夜 emo", both_sides_of(c.emo.my_count, c.emo.other_count).as_str()).as_str());
    out.append(small_card_of("😂 哈哈指数", both_sides_of(c.haha.me_total, c.haha.them_total).as_str()).as_str());
    out.append(small_card_of("🥱 敷衍回复", both_sides_of(c.perfunctory.my_count, c.perfunctory.other_count).as_str()).as_str());
    out.append("</div>");
    out
}

/// The words that are typical of either side.
pub open spec fn signature_box(c: Curios) -> Seq<char> {
    "<div class=\"sign\"><div><span class=\"lbl me\">你的口癖</span><div class=\"chips\">"@
        + parts::chips_markup(c.signature.mine@)
        + "</div></div><div><span class=\"lbl them\">ta 的口癖</span><div class=\"chips\">"@
        + parts::chips_markup(c.signature.theirs@) + "</div></div></div>"@
}

/// The words that are typical of either side.
fn signature_box_of(c: &Curios) -> (out: String)
    ensures
        out@ == signature_box(*c),
{
    let mut out = "<div class=\"sign\"><div><span class=\"lbl me\">你的口癖</span><div class=\"chips\">".to_string();
    out.append(parts::chips(&c.signature.mine).as_str());
    out.append("</div></div><div><span class=\"lbl them\">ta 的口癖</span><div class=\"chips\">");
    out.append(parts::chips(&c.signature.theirs).as_str());
    out.append("</div></div></div>");
    out
}

/// The words that are typical of either side, where there are any.
pub open spec fn signature_markup(c: Curios) -> Seq<char> {
    if c.signature.mine@.len() == 0 && c.signature.theirs@.len() == 0 {
        ""@
    } else {
        signature_box(c)
    }
}

/// The words that are typical of either side, where there are any.
fn signature_html(c: &Curios) -> (r: String)
    ensures
        r@ == signature_markup(*c),
{
    if c.signature.mine.len() == 0 && c.signature.theirs.len() == 0 {
        "".to_string()
    } else {
        signature_box_of(c)
    }
}

/// The longest text late at night.
pub open spec fn night_text(e: EmoMsg) -> Seq<char> {
    "<div class=\"emo\">🌙 最长深夜长文："@ + text::numeral(e.chars as int) + " 字（"@
        + curios::side_name(e.is_self) + " · "@ + markup::escaped(e.when@) + "）「"@
        + markup::escaped(e.snippet@) + "」</div>"@
}

/// The longest text late at night.
fn night_text_of(e: &EmoMsg) -> (out: String)
    ensures
        out@ == night_text(*e),
{
    let mut out = "<div class=\"emo\">🌙 最长深夜长文：".to_string();
    out.append(text::numeral_of(e.chars).as_str());
    out.append(" 字（");
    out.append(curios::side_name_of(e.is_self));
    out.append(" · ");
    out.append(markup::esc(e.when.as_str()).as_str());
    out.append("）「");
    out.append(markup::esc(e.snippet.as_str()).as_str());
    out.append("」</div>");
    out
}

/// The longest text late at night, where there is one.
pub open spec fn night_markup(e: Option<EmoMsg>) -> Seq<char> {
    match e {
        Some(e) => night_text(e),
        None => ""@,
    }
}

/// The longest text late at night, where there is one.
fn night_html(e: &Option<EmoMsg>) -> (r: String)
    ensures
        r@ == night_markup(*e),
{
    match e {
        Some(e) => night_text_of(e),
        None => "".to_string(),
    }
}

/// All curious facts.
pub open spec fn curios_markup(c: Curios, f: Figures) -> Seq<char> {
    "<section><h2>✨ 趣味统计</h2>"@ + score_box(c) + firsts_markup(c.firsts@)
        + charts::rhythm_markup(f.rhythm) + card_grid(c) + signature_markup(c)
        + night_markup(c.emo.longest) + charts::heatmap_markup(c.heatmap) + "</section>"@
}

/// All curious facts.
pub fn curios_html(c: &Curios, f: &Figures) -> (out: String)
    requires
        figures::rhythm_fits(f.rhythm),
    ensures
        out@ == curios_markup(*c, *f),
{
    let mut out = "<section><h2>✨ 趣味统计</h2>".to_string();
    out.append(score_box_of(c).as_str());
    out.append(firsts_html(&c.firsts).as_str());
    out.append(charts::biorhythm_svg(&f.rhythm).as_str());
    out.append(card_grid_of(c).as_str());
    out.append(signature_html(c).as_str());
    out.append(night_html(&c.emo.longest).as_str());
    out.append(charts::heatmap_html(&c.heatmap).as_str());
    out.append("</section>");
    out
}

}
