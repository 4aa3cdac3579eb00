//! The curious facts as lines of text.

use vstd::prelude::*;
use vstd::string::*;

use crate::curios::{Curios, EmoMsg, First};
use crate::fmt;
use crate::text;
use crate::trend;

verus! {

/// How warm it is.
pub open spec fn score_line(c: Curios) -> Seq<char> {
    "│ 🌡️ 关系温度："@ + text::numeral(c.score.score as int) + "/100 · "@ + c.score.label@
}

/// How warm it is.
fn score_line_of(c: &Curios) -> (r: String)
    ensures
        r@ == score_line(*c),
{
    let mut r = "│ 🌡️ 关系温度：".to_string();
    r.append(text::numeral_of(c.score.score).as_str());
    r.append("/100 · ");
    r.append(c.score.label);
    r
}

/// A part of the score.
pub open spec fn part_text(p: (Seq<char>, i64, i64)) -> Seq<char> {
    p.0 + " "@ + text::numeral(p.1 as int) + "/"@ + text::numeral(p.2 as int)
}

/// The parts of the score.
pub open spec fn part_texts(parts: Seq<(String, i64, i64)>) -> Seq<Seq<char>> {
    parts.map_values(|p: (String, i64, i64)| part_text((p.0@, p.1, p.2)))
}

/// The parts of the score in one line.
pub open spec fn parts_line(c: Curios) -> Seq<char> {
    "│    "@ + text::joined(part_texts(c.score.breakdown@), "  "@)
}

/// The parts of the score in one line.
fn parts_line_of(c: &Curios) -> (r: String)
    ensures
        r@ == parts_line(*c),
{
    let parts = &c.score.breakdown;
    let mut shown: Vec<String> = Vec::new();
    let mut i: usize = 0;
    assert(text::texts(shown@) =~= part_texts(parts@.take(0)));
    while i < parts.len()
        invariant
            i <= parts@.len(),
            text::texts(shown@) == part_texts(parts@.take(i as int)),
        decreases parts@.len() - i,
    {
        let mut t = parts[i].0.clone();
        t.append(" ");
        t.append(text::numeral_of(parts[i].1).as_str());
        t.append("/");
        t.append(text::numeral_of(parts[i].2).as_str());
        let ghost one = t@;
        text::put(&mut shown, t);
        assert(part_texts(parts@.take(i + 1)) =~= part_texts(parts@.take(i as int)).push(one));
        i = i + 1;
    }
    assert(parts@.take(i as int) =~= parts@);
    let mut r = "│    ".to_string();
    r.append(text::join(&shown, "  ").as_str());
    r
}

/// What an optional text holds, or nothing.
pub open spec fn given(t: Option<String>) -> Seq<char> {
    match t {
        Some(t) => t@,
        None => ""@,
    }
}

/// What an optional literal holds, or nothing.
pub open spec fn given_literal(t: Option<&'static str>) -> Seq<char> {
    match t {
        Some(t) => t@,
        None => ""@,
    }
}

/// What an optional text holds, or nothing.
pub fn given_of(t: &Option<String>) -> (r: &str)
    ensures
        r@ == given(*t),
{
    match t {
        Some(t) => t.as_str(),
        None => "",
    }
}

/// What an optional literal holds, or nothing.
pub fn given_literal_of(t: Option<&'static str>) -> (r: &'static str)
    ensures
        r@ == given_literal(t),
{
    match t {
        Some(t) => t,
        None => "",
    }
}

/// The words that go with a first time, in quotation marks.
pub open spec fn snippet_text(t: Seq<char>) -> Seq<char> {
    if t.len() == 0 {
        ""@
    } else {
        "「"@ + t + "」"@
    }
}

/// The words that go with a first time, in quotation marks.
fn snippet_text_of(t: &str) -> (r: String)
    ensures
        r@ == snippet_text(t@),
{
    if t.is_empty() {
        return "".to_string();
    }
    let mut r = "「".to_string();
    r.append(t);
    r.append("」");
    r
}

/// A first time.
pub open spec fn first_line(f: First) -> Seq<char> {
    "│    "@ + f.label@ + " · "@ + given(f.when) + " "@ + given_literal(f.who) + " "@ + snippet_text(given(f.snippet))
}

/// The first times that came about.
pub open spec fn first_lines(firsts: Seq<First>) -> Seq<Seq<char>>
    decreases firsts.len(),
{
    if firsts.len() == 0 {
        Seq::empty()
    } else {
        let before = first_lines(firsts.drop_last());
        if firsts.last().when is Some {
            before.push(first_line(firsts.last()))
        } else {
            before
        }
    }
}

/// The first times with their heading, where there are any.
pub open spec fn firsts_part(firsts: Seq<First>) -> Seq<Seq<char>> {
    let lines = first_lines(firsts);
    if lines.len() == 0 {
        Seq::empty()
    } else {
        seq!["│ 🏁 第一次纪念日："@] + lines
    }
}

/// The first times with their heading, where there are any.
fn firsts_part_of(firsts: &Vec<First>) -> (lines: Vec<String>)
    ensures
        text::texts(lines@) == firsts_part(firsts@),
{
    let mut rows: Vec<String> = Vec::new();
    let mut i: usize = 0;
    assert(text::texts(rows@) =~= first_lines(firsts@.take(0)));
    while i < firsts.len()
        invariant
            i <= firsts@.len(),
            text::texts(rows@) == first_lines(firsts@.take(i as int)),
        decreases firsts@.len() - i,
    {
        assert(firsts@.take(i + 1).drop_last() =~= firsts@.take(i as int));
        let f = &firsts[i];
        if f.when.is_some() {
            let mut r = "│    ".to_string();
            r.append(f.label.as_str());
            r.append(" · ");
            r.append(given_of(&f.when));
            r.append(" ");
            r.append(given_literal_of(f.who));
            r.append(" ");
            r.append(snippet_text_of(given_of(&f.snippet)).as_str());
            text::put(&mut rows, r);
        }
        i = i + 1;
    }
    assert(firsts@.take(i as int) =~= firsts@);
    assert(text::texts(rows@).len() == rows@.len());
    let mut lines: Vec<String> = Vec::new();
    assert(text::texts(lines@) =~= Seq::empty());
    if rows.len() > 0 {
        text::put(&mut lines, "│ 🏁 第一次纪念日：".to_string());
        assert(text::texts(lines@) =~= seq!["│ 🏁 第一次纪念日："@]);
        text::put_all(&mut lines, rows);
    }
    lines
}

/// Oneself or the other.
pub open spec fn side_name(mine: bool) -> Seq<char> {
    if mine {
        "我"@
    } else {
        "ta"@
    }
}

/// Oneself or the other.
pub fn side_name_of(mine: bool) -> (r: &'static str)
    ensures
        r@ == side_name(mine),
{
    if mine {
        "我"
    } else {
        "ta"
    }
}

/// Long texts late at night.
pub open spec fn emo_line(c: Curios) -> Seq<char> {
    "│ 🌙 深夜 emo 长文（≥50 字 @0–4 点）：我 "@ + fmt::number_text(c.emo.my_count as int) + " · ta "@
        + fmt::number_text(c.emo.other_count as int)
}

/// Long texts late at night.
fn emo_line_of(c: &Curios) -> (r: String)
    ensures
        r@ == emo_line(*c),
{
    let mut r = "│ 🌙 深夜 emo 长文（≥50 字 @0–4 点）：我 ".to_string();
    r.append(fmt::fmt_num(c.emo.my_count).as_str());
    r.append(" · ta ");
    r.append(fmt::fmt_num(c.emo.other_count).as_str());
    r
}

/// The longest late text.
pub open spec fn longest_emo_line(e: EmoMsg) -> Seq<char> {
    "│    最长："@ + fmt::number_text(e.chars as int) + " 字（"@ + side_name(e.is_self) + " 发，"@ + e.when@
        + "）「"@ + e.snippet@ + "」"@
}

/// The longest late text.
fn longest_emo_line_of(e: &EmoMsg) -> (r: String)
    ensures
        r@ == longest_emo_line(*e),
{
    let mut r = "│    最长：".to_string();
    r.append(fmt::fmt_num(e.chars).as_str());
    r.append(" 字（");
    r.append(side_name_of(e.is_self));
    r.append(" 发，");
    r.append(e.when.as_str());
    r.append("）「");
    r.append(e.snippet.as_str());
    r.append("」");
    r
}

/// Long texts late at night, where there are any.
pub open spec fn emo_part(c: Curios) -> Seq<Seq<char>> {
    if c.emo.my_count + c.emo.other_count > 0 {
        match c.emo.longest {
            Some(e) => seq![emo_line(c), longest_emo_line(e)],
            None => seq![emo_line(c)],
        }
    } else {
        Seq::empty()
    }
}

/// Long texts late at night, where there are any.
fn emo_part_of(c: &Curios) -> (lines: Vec<String>)
    ensures
        text::texts(lines@) == emo_part(*c),
{
    let mut lines: Vec<String> = Vec::new();
    if c.emo.my_count as i128 + c.emo.other_count as i128 > 0 {
        text::put(&mut lines, emo_line_of(c));
        if let Some(e) = &c.emo.longest {
            text::put(&mut lines, longest_emo_line_of(e));
        }
    }
    assert(text::texts(lines@) =~= emo_part(*c));
    lines
}

/// A spark line of counts.
pub open spec fn spark_text(counts: Seq<i64>) -> Seq<char> {
    counts.map_values(|n: i64| trend::spark(n as int, crate::seqs::max_of(counts) as int))
}

/// Messages by the hour.
pub open spec fn rhythm_part(c: Curios) -> Seq<Seq<char>> {
    seq![
        "│ 🕐 聊天生物钟（0–23 点）"@,
        "│    我  "@ + spark_text(c.biorhythm.me@),
        "│    ta  "@ + spark_text(c.biorhythm.them@),
    ]
}

/// Messages by the hour.
fn rhythm_part_of(c: &Curios) -> (lines: Vec<String>)
    ensures
        text::texts(lines@) == rhythm_part(*c),
{
    let mut lines: Vec<String> = Vec::new();
    text::put(&mut lines, "│ 🕐 聊天生物钟（0–23 点）".to_string());
    let mut me = "│    我  ".to_string();
    me.append(trend::sparkline(c.biorhythm.me.as_slice()).as_str());
    text::put(&mut lines, me);
    let mut them = "│    ta  ".to_string();
    them.append(trend::sparkline(c.biorhythm.them.as_slice()).as_str());
    text::put(&mut lines, them);
    assert(text::texts(lines@) =~= rhythm_part(*c));
    lines
}

/// Who has the last word.
pub open spec fn last_word_line(c: Curios) -> Seq<char> {
    "│ 💤 谁先消失：最后一句 我 "@ + fmt::number_text(c.ending.my_last_word as int) + " · ta "@
        + fmt::number_text(c.ending.other_last_word as int)
}

/// Who has the last word.
fn last_word_line_of(c: &Curios) -> (r: String)
    ensures
        r@ == last_word_line(*c),
{
    let mut r = "│ 💤 谁先消失：最后一句 我 ".to_string();
    r.append(fmt::fmt_num(c.ending.my_last_word).as_str());
    r.append(" · ta ");
    r.append(fmt::fmt_num(c.ending.other_last_word).as_str());
    r
}

/// Who is left waiting.
pub open spec fn left_line(c: Curios) -> Seq<char> {
    "│    被晾 >6h：我 "@ + fmt::number_text(c.ending.my_left_on_read as int) + " · ta "@
        + fmt::number_text(c.ending.other_left_on_read as int)
}

/// Who is left waiting.
fn left_line_of(c: &Curios) -> (r: String)
    ensures
        r@ == left_line(*c),
{
    let mut r = "│    被晾 >6h：我 ".to_string();
    r.append(fmt::fmt_num(c.ending.my_left_on_read).as_str());
    r.append(" · ta ");
    r.append(fmt::fmt_num(c.ending.other_left_on_read).as_str());
    r
}

/// The longest rally.
pub open spec fn rally_line(c: Curios) -> Seq<char> {
    "│ 🔁 最长对线："@ + fmt::number_text(c.rally.max_len as int) + " 条（"@ + given(c.rally.when) + "，约 "@
        + fmt::number_text(c.rally.duration_min as int) + " 分钟）"@
}

/// The longest rally.
fn rally_line_of(c: &Curios) -> (r: String)
    ensures
        r@ == rally_line(*c),
{
    let mut r = "│ 🔁 最长对线：".to_string();
    r.append(fmt::fmt_num(c.rally.max_len).as_str());
    r.append(" 条（");
    r.append(given_of(&c.rally.when));
    r.append("，约 ");
    r.append(fmt::fmt_num(c.rally.duration_min).as_str());
    r.append(" 分钟）");
    r
}

/// A word with its count.
pub open spec fn counted_word(p: (String, i64)) -> Seq<char> {
    p.0@ + "("@ + text::numeral(p.1 as int) + ")"@
}

/// Words with their counts.
pub open spec fn counted_words(words: Seq<(String, i64)>) -> Seq<Seq<char>> {
    words.map_values(|p: (String, i64)| counted_word(p))
}

/// Words with their counts.
fn counted_words_of(words: &Vec<(String, i64)>) -> (r: Vec<String>)
    ensures
        text::texts(r@) == counted_words(words@),
{
    let mut r: Vec<String> = Vec::new();
    let mut i: usize = 0;
    assert(text::texts(r@) =~= counted_words(words@.take(0)));
    while i < words.len()
        invariant
            i <= words@.len(),
            text::texts(r@) == counted_words(words@.take(i as int)),
        decreases words@.len() - i,
    {
        let mut t = words[i].0.clone();
        t.append("(");
        t.append(text::numeral_of(words[i].1).as_str());
        t.append(")");
        let ghost one = t@;
        text::put(&mut r, t);
        assert(counted_words(words@.take(i + 1)) =~= counted_words(words@.take(i as int)).push(one));
        i = i + 1;
    }
    assert(words@.take(i as int) =~= words@);
    r
}

/// The words that are typical of either side.
pub open spec fn signature_line(c: Curios) -> Seq<char> {
    "│ 🗣️ 口癖：我 ["@ + text::joined(counted_words(c.signature.mine@), " "@) + "] · ta ["@
        + text::joined(counted_words(c.signature.theirs@), " "@) + "]"@
}

/// The words that are typical of either side.
fn signature_line_of(c: &Curios) -> (r: String)
    ensures
        r@ == signature_line(*c),
{
    let mut r = "│ 🗣️ 口癖：我 [".to_string();
    r.append(text::join(&counted_words_of(&c.signature.mine), " ").as_str());
    r.append("] · ta [");
    r.append(text::join(&counted_words_of(&c.signature.theirs), " ").as_str());
    r.append("]");
    r
}

/// How often either side laughs.
pub open spec fn haha_line(c: Curios) -> Seq<char> {
    "│ 😂 哈哈指数：我 "@ + fmt::number_text(c.haha.me_total as int) + " · ta "@
        + fmt::number_text(c.haha.them_total as int)
}

/// How often either side laughs.
fn haha_line_of(c: &Curios) -> (r: String)
    ensures
        r@ == haha_line(*c),
{
    let mut r = "│ 😂 哈哈指数：我 ".to_string();
    r.append(fmt::fmt_num(c.haha.me_total).as_str());
    r.append(" · ta ");
    r.append(fmt::fmt_num(c.haha.them_total).as_str());
    r
}

/// Answers that say nothing.
pub open spec fn short_line(c: Curios) -> Seq<char> {
    "│ 🥱 敷衍回复（嗯/哦/好…）：我 "@ + fmt::number_text(c.perfunctory.my_count as int) + " · ta "@
        + fmt::number_text(c.perfunctory.other_count as int)
}

/// Answers that say nothing.
fn short_line_of(c: &Curios) -> (r: String)
    ensures
        r@ == short_line(*c),
{
    let mut r = "│ 🥱 敷衍回复（嗯/哦/好…）：我 ".to_string();
    r.append(fmt::fmt_num(c.perfunctory.my_count).as_str());
    r.append(" · ta ");
    r.append(fmt::fmt_num(c.perfunctory.other_count).as_str());
    r
}

/// Days with a message.
pub open spec fn heat_line(c: Curios) -> Seq<char> {
    "│ 🗓️ 全年热力图："@ + fmt::number_text(c.heatmap.active_days as int) + "/"@
        + fmt::number_text(c.heatmap.span_days as int) + " 天有聊天（详细见 HTML 报告）"@
}

/// Days with a message.
fn heat_line_of(c: &Curios) -> (r: String)
    ensures
        r@ == heat_line(*c),
{
    let mut r = "│ 🗓️ 全年热力图：".to_string();
    r.append(fmt::fmt_num(c.heatmap.active_days).as_str());
    r.append("/");
    r.append(fmt::fmt_num(c.heatmap.span_days).as_str());
    r.append(" 天有聊天（详细见 HTML 报告）");
    r
}

/// The rally, where there is one.
pub open spec fn rally_part(c: Curios) -> Seq<Seq<char>> {
    if c.rally.max_len > 0 {
        seq![rally_line(c)]
    } else {
        Seq::empty()
    }
}

/// The typical words, where there are any.
pub open spec fn signature_part(c: Curios) -> Seq<Seq<char>> {
    if c.signature.mine@.len() > 0 || c.signature.theirs@.len() > 0 {
        seq![signature_line(c)]
    } else {
        Seq::empty()
    }
}

/// The laughter, where there is any.
pub open spec fn haha_part(c: Curios) -> Seq<Seq<char>> {
    if c.haha.me_total + c.haha.them_total > 0 {
        seq![haha_line(c)]
    } else {
        Seq::empty()
    }
}

/// The curious facts as lines.
pub open spec fn curios_text(c: Curios) -> Seq<Seq<char>> {
    seq![""@, "╭─ ✨ 趣味统计 ────────────────────────────────────────────"@, score_line(c), parts_line(c)] + firsts_part(
        c.firsts@,
    ) + emo_part(c) + rhythm_part(c) + seq![last_word_line(c), left_line(c)] + rally_part(c) + signature_part(c)
        + haha_part(c) + seq![
        short_line(c),
        heat_line(c),
        "╰─────────────────────────────────────────────────────────"@,
    ]
}

/// The rally, where there is one.
fn rally_part_of(c: &Curios) -> (r: Vec<String>)
    ensures
        text::texts(r@) == rally_part(*c),
{
    let mut r: Vec<String> = Vec::new();
    if c.rally.max_len > 0 {
        text::put(&mut r, rally_line_of(c));
    }
    assert(text::texts(r@) =~= rally_part(*c));
    r
}

/// The typical words, where there are any.
fn signature_part_of(c: &Curios) -> (r: Vec<String>)
    ensures
        text::texts(r@) == signature_part(*c),
{
    let mut r: Vec<String> = Vec::new();
    if c.signature.mine.len() > 0 || c.signature.theirs.len() > 0 {
        text::put(&mut r, signature_line_of(c));
    }
    assert(text::texts(r@) =~= signature_part(*c));
    r
}

/// The laughter, where there is any.
fn haha_part_of(c: &Curios) -> (r: Vec<String>)
    ensures
        text::texts(r@) == haha_part(*c),
{
    let mut r: Vec<String> = Vec::new();
    if c.haha.me_total as i128 + c.haha.them_total as i128 > 0 {
        text::put(&mut r, haha_line_of(c));
    }
    assert(text::texts(r@) =~= haha_part(*c));
    r
}

/// The curious facts as lines of text.
pub fn print_curios(c: &Curios) -> (lines: Vec<String>)
    ensures
        text::texts(lines@) == curios_text(*c),
{
    let mut lines: Vec<String> = Vec::new();
    text::put(&mut lines, "".to_string());
    text::put(&mut lines, "╭─ ✨ 趣味统计 ────────────────────────────────────────────".to_string());
    text::put(&mut lines, score_line_of(c));
    text::put(&mut lines, parts_line_of(c));
    let ghost mut sum = seq![
        ""@,
        "╭─ ✨ 趣味统计 ────────────────────────────────────────────"@,
        score_line(*c),
        parts_line(*c),
    ];
    assert(text::texts(lines@) =~= sum);
    text::put_all(&mut lines, firsts_part_of(&c.firsts));
    text::put_all(&mut lines, emo_part_of(c));
    text::put_all(&mut lines, rhythm_part_of(c));
    proof {
        sum = sum + firsts_part(c.firsts@) + emo_part(*c) + rhythm_part(*c);
    }
    text::put(&mut lines, last_word_line_of(c));
    text::put(&mut lines, left_line_of(c));
    proof {
        sum = sum + seq![last_word_line(*c), left_line(*c)];
        assert(text::texts(lines@) =~= sum);
    }
    text::put_all(&mut lines, rally_part_of(c));
    text::put_all(&mut lines, signature_part_of(c));
    text::put_all(&mut lines, haha_part_of(c));
    proof {
        sum = sum + rally_part(*c) + signature_part(*c) + haha_part(*c);
        assert(text::texts(lines@) =~= sum);
    }
    text::put(&mut lines, short_line_of(c));
    text::put(&mut lines, heat_line_of(c));
    text::put(&mut lines, "╰─────────────────────────────────────────────────────────".to_string());
    assert(text::texts(lines@) =~= curios_text(*c));
    lines
}

}
