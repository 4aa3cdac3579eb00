//! The statistics over all conversations as lines of text.

use vstd::prelude::*;
use vstd::string::*;

use crate::fmt;
use crate::report;
use crate::report::ContactIndex;
use crate::schema;
use crate::seqs;
use crate::stats::temporal::TemporalStats;
use crate::stats::volume;
use crate::stats::volume::VolumeStats;
use crate::text;

verus! {

/// Messages by class: texts, pictures, voice messages, videos, stickers, files, calls, system
/// messages and others.
pub struct TypeClasses {
    pub text: i64,
    pub img: i64,
    pub voice: i64,
    pub video: i64,
    pub sticker: i64,
    pub file: i64,
    pub call: i64,
    pub system: i64,
    pub other: i64,
    /// Pictures, voice messages, videos, stickers, files and calls together.
    pub media: i64,
}

/// The type is none of those that have a class.
pub open spec fn is_other(t: i64) -> bool {
    t != 1 && t != 3 && t != 34 && t != 43 && t != 47 && t != 49 && t != 50 && t != 10000
}

/// The messages of the types that have no class.
pub open spec fn other_sum(rows: Seq<(i64, i64)>) -> int
    decreases rows.len(),
{
    if rows.len() == 0 {
        0
    } else {
        other_sum(rows.drop_last()) + if is_other(rows.last().0) {
            rows.last().1 as int
        } else {
            0
        }
    }
}

/// `c` holds the messages by class.
pub open spec fn are_classes(c: TypeClasses, rows: Seq<(i64, i64)>) -> bool {
    &&& c.text == volume::type_sum(rows, 1)
    &&& c.img == volume::type_sum(rows, 3)
    &&& c.voice == volume::type_sum(rows, 34)
    &&& c.video == volume::type_sum(rows, 43)
    &&& c.sticker == volume::type_sum(rows, 47)
    &&& c.file == volume::type_sum(rows, 49)
    &&& c.call == volume::type_sum(rows, 50)
    &&& c.system == volume::type_sum(rows, 10000)
    &&& c.other == other_sum(rows)
    &&& c.media == c.img + c.voice + c.video + c.sticker + c.file + c.call
}

/// The messages by class.
pub open spec fn type_classes(rows: Seq<(i64, i64)>) -> TypeClasses {
    let sum = |t: i64| volume::type_sum(rows, t);
    TypeClasses {
        text: sum(1) as i64,
        img: sum(3) as i64,
        voice: sum(34) as i64,
        video: sum(43) as i64,
        sticker: sum(47) as i64,
        file: sum(49) as i64,
        call: sum(50) as i64,
        system: sum(10000) as i64,
        other: other_sum(rows) as i64,
        media: (sum(3) + sum(34) + sum(43) + sum(47) + sum(49) + sum(50)) as i64,
    }
}

/// Every message has one class.
pub proof fn classes_add_up(rows: Seq<(i64, i64)>)
    ensures
        volume::type_sum(rows, 1) + volume::type_sum(rows, 3) + volume::type_sum(rows, 34) + volume::type_sum(rows, 43)
            + volume::type_sum(rows, 47) + volume::type_sum(rows, 49) + volume::type_sum(rows, 50) + volume::type_sum(
            rows,
            10000,
        ) + other_sum(rows) == volume::row_total(rows),
    decreases rows.len(),
{
    if rows.len() > 0 {
        classes_add_up(rows.drop_last());
    }
}

/// The messages of a type.
fn sum_type(rows: &Vec<(i64, i64)>, t: i64) -> (n: i64)
    requires
        volume::counts_rows(rows@),
        volume::row_total(rows@) <= i64::MAX,
    ensures
        n == volume::type_sum(rows@, t),
        n >= 0,
{
    let mut n: i64 = 0;
    let mut i: usize = 0;
    while i < rows.len()
        invariant
            i <= rows@.len(),
            volume::counts_rows(rows@),
            volume::row_total(rows@) <= i64::MAX,
            n == volume::type_sum(rows@.take(i as int), t),
            0 <= n <= volume::row_total(rows@.take(i as int)),
        decreases rows@.len() - i,
    {
        proof {
            assert(rows@.take(i + 1).drop_last() =~= rows@.take(i as int));
            volume::totals_grow(rows@, i as int);
            volume::totals_grow(rows@, i + 1);
            assert(rows@[i as int].1 >= 0);
        }
        if rows[i].0 == t {
            n = n + rows[i].1;
        }
        i = i + 1;
    }
    assert(rows@.take(i as int) =~= rows@);
    n
}

/// The messages of the types that have no class.
fn sum_other(rows: &Vec<(i64, i64)>) -> (n: i64)
    requires
        volume::counts_rows(rows@),
        volume::row_total(rows@) <= i64::MAX,
    ensures
        n == other_sum(rows@),
        n >= 0,
{
    let mut n: i64 = 0;
    let mut i: usize = 0;
    while i < rows.len()
        invariant
            i <= rows@.len(),
            volume::counts_rows(rows@),
            volume::row_total(rows@) <= i64::MAX,
            n == other_sum(rows@.take(i as int)),
            0 <= n <= volume::row_total(rows@.take(i as int)),
        decreases rows@.len() - i,
    {
        proof {
            assert(rows@.take(i + 1).drop_last() =~= rows@.take(i as int));
            volume::totals_grow(rows@, i as int);
            volume::totals_grow(rows@, i + 1);
            assert(rows@[i as int].1 >= 0);
        }
        let t: i64 = rows[i].0;
        if t != 1 && t != 3 && t != 34 && t != 43 && t != 47 && t != 49 && t != 50 && t != 10000 {
            n = n + rows[i].1;
        }
        i = i + 1;
    }
    assert(rows@.take(i as int) =~= rows@);
    n
}

/// The messages by class.
pub fn classes(rows: &Vec<(i64, i64)>) -> (c: TypeClasses)
    requires
        volume::counts_rows(rows@),
        volume::row_total(rows@) <= i64::MAX,
    ensures
        are_classes(c, rows@),
        c == type_classes(rows@),
{
    let text = sum_type(rows, 1);
    let img = sum_type(rows, 3);
    let voice = sum_type(rows, 34);
    let video = sum_type(rows, 43);
    let sticker = sum_type(rows, 47);
    let file = sum_type(rows, 49);
    let call = sum_type(rows, 50);
    let system = sum_type(rows, 10000);
    let other = sum_other(rows);
    proof {
        classes_add_up(rows@);
    }
    TypeClasses {
        text,
        img,
        voice,
        video,
        sticker,
        file,
        call,
        system,
        other,
        media: img + voice + video + sticker + file + call,
    }
}

/// Shares of the classes as text.
pub struct VolumeShares {
    pub text: String,
    pub media: String,
    pub system: String,
    pub other: String,
}

/// The messages of a class.
pub open spec fn class_line(branch: Seq<char>, name: Seq<char>, n: i64, share: Seq<char>) -> Seq<char> {
    "│   "@ + branch + " "@ + name + "      : "@ + text::pad_left(fmt::number_text(n as int), ' ', 14)
        + "  ("@ + share + ")"@
}

/// The messages of a class.
fn class_line_of(branch: &str, name: &str, n: i64, share: &str) -> (r: String)
    ensures
        r@ == class_line(branch@, name@, n, share@),
{
    let mut r = "│   ".to_string();
    r.append(branch);
    r.append(" ");
    r.append(name);
    r.append("      : ");
    r.append(text::padded_left(fmt::fmt_num(n).as_str(), ' ', 14).as_str());
    r.append("  (");
    r.append(share);
    r.append(")");
    r
}

/// The media by kind.
pub open spec fn media_line(c: TypeClasses) -> Seq<char> {
    "│ 媒体拆分      : 图片 "@ + fmt::number_text(c.img as int) + " · 语音 "@ + fmt::number_text(c.voice as int)
        + " · 视频 "@ + fmt::number_text(c.video as int) + " · 表情 "@
        + fmt::number_text(c.sticker as int) + " · 文件 "@ + fmt::number_text(c.file as int)
        + " · 通话 "@ + fmt::number_text(c.call as int)
}

/// The media by kind.
fn media_line_of(c: &TypeClasses) -> (r: String)
    ensures
        r@ == media_line(*c),
{
    let mut r = "│ 媒体拆分      : 图片 ".to_string();
    r.append(fmt::fmt_num(c.img).as_str());
    r.append(" · 语音 ");
    r.append(fmt::fmt_num(c.voice).as_str());
    r.append(" · 视频 ");
    r.append(fmt::fmt_num(c.video).as_str());
    r.append(" · 表情 ");
    r.append(fmt::fmt_num(c.sticker).as_str());
    r.append(" · 文件 ");
    r.append(fmt::fmt_num(c.file).as_str());
    r.append(" · 通话 ");
    r.append(fmt::fmt_num(c.call).as_str());
    r
}

/// The messages of a type.
pub open spec fn type_line(t: i64, n: i64) -> Seq<char> {
    "│   "@ + text::pad_left(text::numeral(t as int), ' ', 6) + " "@
        + text::pad_right(schema::label_of_type(t), 10) + " "@
        + text::pad_left(fmt::number_text(n as int), ' ', 12)
}

/// The messages of a type.
fn type_line_of(t: i64, n: i64) -> (r: String)
    ensures
        r@ == type_line(t, n),
{
    let mut r = "│   ".to_string();
    r.append(text::padded_left(text::numeral_of(t).as_str(), ' ', 6).as_str());
    r.append(" ");
    r.append(text::padded_right(schema::type_label(t), 10).as_str());
    r.append(" ");
    r.append(text::padded_left(fmt::fmt_num(n).as_str(), ' ', 12).as_str());
    r
}

/// The most frequent types, at most eight.
pub open spec fn type_lines(rows: Seq<(i64, i64)>) -> Seq<Seq<char>> {
    let shown = if rows.len() <= 8 {
        rows
    } else {
        rows.take(8)
    };
    shown.map_values(|p: (i64, i64)| type_line(p.0, p.1))
}

/// The most frequent types, at most eight.
fn type_lines_of(rows: &Vec<(i64, i64)>) -> (lines: Vec<String>)
    ensures
        text::texts(lines@) == type_lines(rows@),
{
    let ghost f = |p: (i64, i64)| type_line(p.0, p.1);
    let mut lines: Vec<String> = Vec::new();
    let mut i: usize = 0;
    assert(text::texts(lines@) =~= rows@.take(0).map_values(f));
    while i < rows.len() && i < 8
        invariant
            i <= rows@.len(),
            i <= 8,
            f == (|p: (i64, i64)| type_line(p.0, p.1)),
            text::texts(lines@) == rows@.take(i as int).map_values(f),
        decreases rows@.len() - i,
    {
        text::put(&mut lines, type_line_of(rows[i].0, rows[i].1));
        assert(rows@.take(i + 1).map_values(f) =~= rows@.take(i as int).map_values(f).push(f(rows@[i as int])));
        i = i + 1;
    }
    assert(text::texts(lines@) =~= type_lines(rows@));
    lines
}

/// One of the largest conversations.
pub open spec fn top_line(at: int, user: Seq<char>, name: Seq<char>, n: i64, mine: i64, theirs: i64, max: i64) -> Seq<char> {
    "│ "@ + text::pad_left(text::digits(at as nat), ' ', 2) + ". ["@ + report::kind_text(user) + "] "@
        + text::pad_right(report::display_text(name, 20), 22) + " "@
        + text::pad_left(fmt::number_text(n as int), ' ', 10) + "  我 "@
        + text::pad_left(fmt::number_text(mine as int), ' ', 6) + " · 对方 "@
        + text::pad_left(fmt::number_text(theirs as int), ' ', 6) + "  "@
        + fmt::bar_text(n as int, max as int, 16)
}

/// One of the largest conversations.
fn top_line_of(at: usize, user: &str, name: &str, n: i64, mine: i64, theirs: i64, max: i64) -> (r: String)
    ensures
        r@ == top_line(at as int, user@, name@, n, mine, theirs, max),
{
    let mut r = "│ ".to_string();
    r.append(text::padded_left(text::count_text(at).as_str(), ' ', 2).as_str());
    r.append(". [");
    r.append(report::conv_kind(user));
    r.append("] ");
    r.append(text::padded_right(report::truncate_display(name, 20).as_str(), 22).as_str());
    r.append(" ");
    r.append(text::padded_left(fmt::fmt_num(n).as_str(), ' ', 10).as_str());
    r.append("  我 ");
    r.append(text::padded_left(fmt::fmt_num(mine).as_str(), ' ', 6).as_str());
    r.append(" · 对方 ");
    r.append(text::padded_left(fmt::fmt_num(theirs).as_str(), ' ', 6).as_str());
    r.append("  ");
    r.append(fmt::bar(n, max, 16).as_str());
    r
}

/// The counts of the largest conversations.
pub open spec fn top_counts(top: Seq<(String, i64, i64, i64)>) -> Seq<i64> {
    top.map_values(|r: (String, i64, i64, i64)| r.1)
}

/// The largest conversations.
pub open spec fn top_lines(
    top: Seq<(String, i64, i64, i64)>,
    contacts: Map<Seq<char>, crate::model::Contact>,
) -> Seq<Seq<char>> {
    let max = seqs::max_of(top_counts(top));
    Seq::new(
        top.len(),
        |i: int|
            top_line(
                i + 1,
                top[i].0@,
                report::name_of(contacts, top[i].0@),
                top[i].1,
                top[i].2,
                top[i].3,
                max,
            ),
    )
}

/// The largest conversations.
fn top_lines_of(top: &Vec<(String, i64, i64, i64)>, index: &ContactIndex) -> (lines: Vec<String>)
    requires
        index.wf(),
    ensures
        text::texts(lines@) == top_lines(top@, index.contacts()),
{
    let n = top.len();
    let mut counts: Vec<i64> = Vec::new();
    let mut k: usize = 0;
    while k < n
        invariant
            k <= n,
            n == top@.len(),
            counts@ == top_counts(top@).take(k as int),
        decreases n - k,
    {
        counts.push(top[k].1);
        assert(top_counts(top@)[k as int] == top@[k as int].1);
        k = k + 1;
    }
    assert(top_counts(top@).take(k as int) =~= top_counts(top@));
    let max = seqs::largest(counts.as_slice());
    let ghost all = top_lines(top@, index.contacts());
    let mut lines: Vec<String> = Vec::new();
    let mut i: usize = 0;
    assert(text::texts(lines@) =~= all.take(0));
    while i < n
        invariant
            i <= n,
            n == top@.len(),
            index.wf(),
            max == seqs::max_of(top_counts(top@)),
            all == top_lines(top@, index.contacts()),
            text::texts(lines@) == all.take(i as int),
        decreases n - i,
    {
        let name = index.name_by_username(top[i].0.as_str());
        let row = top_line_of(
            i + 1,
            top[i].0.as_str(),
            name.as_str(),
            top[i].1,
            top[i].2,
            top[i].3,
            max,
        );
        text::put(&mut lines, row);
        assert(all.take(i + 1) =~= all.take(i as int).push(all[i as int]));
        i = i + 1;
    }
    assert(all.take(i as int) =~= all);
    lines
}

/// How many conversations there are.
pub open spec fn conversations_line(n: int) -> Seq<char> {
    "│ 会话总数      : "@ + fmt::number_text(n)
}

/// How many conversations there are.
fn conversations_line_of(n: i64) -> (r: String)
    ensures
        r@ == conversations_line(n as int),
{
    let mut r = "│ 会话总数      : ".to_string();
    r.append(fmt::fmt_num(n).as_str());
    r
}

/// How many messages there are.
pub open spec fn messages_line(n: int) -> Seq<char> {
    "│ 消息总数      : "@ + fmt::number_text(n)
}

/// How many messages there are.
pub fn messages_line_of(n: i64) -> (r: String)
    ensures
        r@ == messages_line(n as int),
{
    let mut r = "│ 消息总数      : ".to_string();
    r.append(fmt::fmt_num(n).as_str());
    r
}

/// The heading of the largest conversations.
pub open spec fn top_heading(n: nat) -> Seq<char> {
    "│ 消息数 Top "@ + text::digits(n) + " 会话（名称为我 / 对方）："@
}

/// The heading of the largest conversations.
fn top_heading_of(n: usize) -> (r: String)
    ensures
        r@ == top_heading(n as nat),
{
    let mut r = "│ 消息数 Top ".to_string();
    r.append(text::count_text(n).as_str());
    r.append(" 会话（名称为我 / 对方）：");
    r
}

/// The messages over all conversations as lines.
pub open spec fn volume_text(
    v: VolumeStats,
    shares: VolumeShares,
    contacts: Map<Seq<char>, crate::model::Contact>,
) -> Seq<Seq<char>> {
    let c = type_classes(v.type_dist@);
    seq![
        ""@,
        "╭─ 微信消息统计 ──────────────────────────────────────────"@,
        conversations_line(v.conversations as int),
        messages_line(v.total_messages as int),
        class_line("├"@, "文本"@, c.text, shares.text@),
        class_line("├"@, "媒体"@, c.media, shares.media@),
        class_line("├"@, "系统"@, c.system, shares.system@),
        class_line("└"@, "其它"@, c.other, shares.other@),
        media_line(c),
        "│ 类型分布（基础类型码）："@,
    ] + type_lines(v.type_dist@) + seq![top_heading(v.top@.len())] + top_lines(v.top@, contacts) + seq![
        "╰─────────────────────────────────────────────────────────"@,
    ]
}

/// The messages over all conversations as lines of text, given the shares of the classes.
pub fn print_volume_report(v: &VolumeStats, shares: &VolumeShares, index: &ContactIndex) -> (lines: Vec<String>)
    requires
        index.wf(),
        v.conversations <= i64::MAX,
        volume::counts_rows(v.type_dist@),
        volume::row_total(v.type_dist@) <= i64::MAX,
    ensures
        text::texts(lines@) == volume_text(*v, *shares, index.contacts()),
{
    let c = classes(&v.type_dist);
    let mut lines: Vec<String> = Vec::new();
    text::put(&mut lines, "".to_string());
    text::put(&mut lines, "╭─ 微信消息统计 ──────────────────────────────────────────".to_string());
    text::put(&mut lines, conversations_line_of(v.conversations as i64));
    text::put(&mut lines, messages_line_of(v.total_messages));
    text::put(&mut lines, class_line_of("├", "文本", c.text, shares.text.as_str()));
    text::put(&mut lines, class_line_of("├", "媒体", c.media, shares.media.as_str()));
    text::put(&mut lines, class_line_of("├", "系统", c.system, shares.system.as_str()));
    text::put(&mut lines, class_line_of("└", "其它", c.other, shares.other.as_str()));
    text::put(&mut lines, media_line_of(&c));
    text::put(&mut lines, "│ 类型分布（基础类型码）：".to_string());
    let ghost head = seq![
        ""@,
        "╭─ 微信消息统计 ──────────────────────────────────────────"@,
        conversations_line(v.conversations as int),
        messages_line(v.total_messages as int),
        class_line("├"@, "文本"@, c.text, shares.text@),
        class_line("├"@, "媒体"@, c.media, shares.media@),
        class_line("├"@, "系统"@, c.system, shares.system@),
        class_line("└"@, "其它"@, c.other, shares.other@),
        media_line(c),
        "│ 类型分布（基础类型码）："@,
    ];
    assert(text::texts(lines@) =~= head);
    text::put_all(&mut lines, type_lines_of(&v.type_dist));
    text::put(&mut lines, top_heading_of(v.top.len()));
    assert(text::texts(lines@) =~= head + type_lines(v.type_dist@) + seq![top_heading(v.top@.len())]);
    text::put_all(&mut lines, top_lines_of(&v.top, index));
    text::put(&mut lines, "╰─────────────────────────────────────────────────────────".to_string());
    assert(text::texts(lines@) =~= volume_text(*v, *shares, index.contacts()));
    lines
}

/// The messages of an hour.
pub open spec fn hour_line(h: int, n: i64, max: i64) -> Seq<char> {
    "│ "@ + text::zero_padded(h, 2) + ":00 ▏"@
        + text::pad_right(fmt::bar_text(n as int, max as int, 28), 28) + " "@
        + text::pad_left(fmt::number_text(n as int), ' ', 12)
}

/// The messages of an hour.
fn hour_line_of(h: i64, n: i64, max: i64) -> (r: String)
    ensures
        r@ == hour_line(h as int, n, max),
{
    let mut r = "│ ".to_string();
    r.append(text::zero_padded_of(h, 2).as_str());
    r.append(":00 ▏");
    r.append(text::padded_right(fmt::bar(n, max, 28).as_str(), 28).as_str());
    r.append(" ");
    r.append(text::padded_left(fmt::fmt_num(n).as_str(), ' ', 12).as_str());
    r
}

/// The messages of a day of the week.
pub open spec fn weekday_line(day: Seq<char>, n: i64, max: i64) -> Seq<char> {
    "│ "@ + day + " ▏"@ + text::pad_right(fmt::bar_text(n as int, max as int, 28), 28) + " "@
        + text::pad_left(fmt::number_text(n as int), ' ', 12)
}

/// The messages of a day of the week.
fn weekday_line_of(day: &str, n: i64, max: i64) -> (r: String)
    ensures
        r@ == weekday_line(day@, n, max),
{
    let mut r = "│ ".to_string();
    r.append(day);
    r.append(" ▏");
    r.append(text::padded_right(fmt::bar(n, max, 28).as_str(), 28).as_str());
    r.append(" ");
    r.append(text::padded_left(fmt::fmt_num(n).as_str(), ' ', 12).as_str());
    r
}

/// The messages of a month.
pub open spec fn month_line(month: Seq<char>, n: i64, max: i64) -> Seq<char> {
    "│   "@ + month + " ▏"@ + text::pad_right(fmt::bar_text(n as int, max as int, 24), 24) + " "@
        + text::pad_left(fmt::number_text(n as int), ' ', 12)
}

/// The messages of a month.
fn month_line_of(month: &str, n: i64, max: i64) -> (r: String)
    ensures
        r@ == month_line(month@, n, max),
{
    let mut r = "│   ".to_string();
    r.append(month);
    r.append(" ▏");
    r.append(text::padded_right(fmt::bar(n, max, 24).as_str(), 24).as_str());
    r.append(" ");
    r.append(text::padded_left(fmt::fmt_num(n).as_str(), ' ', 12).as_str());
    r
}

/// The heading, with the number of messages.
pub open spec fn temporal_heading(n: int) -> Seq<char> {
    "╭─ 活跃时段（本地时间）  共 "@ + fmt::number_text(n) + " 条 ──────────────────────"@
}

/// The heading, with the number of messages.
fn temporal_heading_of(n: i64) -> (r: String)
    ensures
        r@ == temporal_heading(n as int),
{
    let mut r = "╭─ 活跃时段（本地时间）  共 ".to_string();
    r.append(fmt::fmt_num(n).as_str());
    r.append(" 条 ──────────────────────");
    r
}

/// The messages by hour.
pub open spec fn hour_lines(hours: Seq<i64>) -> Seq<Seq<char>> {
    Seq::new(24, |h: int| hour_line(h, hours[h], seqs::max_of(hours)))
}

/// The messages by hour.
fn hour_lines_of(hours: &[i64; 24]) -> (lines: Vec<String>)
    ensures
        text::texts(lines@) == hour_lines(hours@),
{
    let max = seqs::largest(hours.as_slice());
    let ghost all = hour_lines(hours@);
    let mut lines: Vec<String> = Vec::new();
    let mut h: usize = 0;
    assert(text::texts(lines@) =~= all.take(0));
    while h < 24
        invariant
            h <= 24,
            max == seqs::max_of(hours@),
            all == hour_lines(hours@),
            text::texts(lines@) == all.take(h as int),
        decreases 24 - h,
    {
        text::put(&mut lines, hour_line_of(h as i64, hours[h], max));
        assert(all.take(h + 1) =~= all.take(h as int).push(all[h as int]));
        h = h + 1;
    }
    assert(all.take(24) =~= all);
    lines
}

/// The names of the days of the week.
pub open spec fn day_names() -> Seq<Seq<char>> {
    seq!["周一"@, "周二"@, "周三"@, "周四"@, "周五"@, "周六"@, "周日"@]
}

/// The messages by day of the week.
pub open spec fn weekday_lines(days: Seq<i64>) -> Seq<Seq<char>> {
    Seq::new(7, |d: int| weekday_line(day_names()[d], days[d], seqs::max_of(days)))
}

/// The messages by day of the week.
fn weekday_lines_of(days: &[i64; 7]) -> (lines: Vec<String>)
    ensures
        text::texts(lines@) == weekday_lines(days@),
{
    let names: Vec<&'static str> = vec!["周一", "周二", "周三", "周四", "周五", "周六", "周日"];
    assert(text::literals(names@) =~= day_names());
    let max = seqs::largest(days.as_slice());
    let ghost all = weekday_lines(days@);
    let mut lines: Vec<String> = Vec::new();
    let mut d: usize = 0;
    assert(text::texts(lines@) =~= all.take(0));
    while d < 7
        invariant
            d <= 7,
            names@.len() == 7,
            text::literals(names@) == day_names(),
            max == seqs::max_of(days@),
            all == weekday_lines(days@),
            text::texts(lines@) == all.take(d as int),
        decreases 7 - d,
    {
        assert(day_names()[d as int] == names@[d as int]@);
        text::put(&mut lines, weekday_line_of(names[d], days[d], max));
        assert(all.take(d + 1) =~= all.take(d as int).push(all[d as int]));
        d = d + 1;
    }
    assert(all.take(7) =~= all);
    lines
}

/// The counts of the months.
pub open spec fn month_counts(months: Seq<(String, i64)>) -> Seq<i64> {
    months.map_values(|m: (String, i64)| m.1)
}

/// The first of the last 24 months.
pub open spec fn first_shown(n: nat) -> int {
    if n <= 24 {
        0
    } else {
        n - 24
    }
}

/// The last 24 months.
pub open spec fn month_lines(months: Seq<(String, i64)>) -> Seq<Seq<char>> {
    let start = first_shown(months.len());
    let max = seqs::max_of(month_counts(months));
    Seq::new(
        (months.len() - start) as nat,
        |i: int| month_line(months[start + i].0@, months[start + i].1, max),
    )
}

/// The last 24 months.
fn month_lines_of(months: &Vec<(String, i64)>) -> (lines: Vec<String>)
    ensures
        text::texts(lines@) == month_lines(months@),
{
    let n = months.len();
    let mut counts: Vec<i64> = Vec::new();
    let mut k: usize = 0;
    while k < n
        invariant
            k <= n,
            n == months@.len(),
            counts@ == month_counts(months@).take(k as int),
        decreases n - k,
    {
        counts.push(months[k].1);
        assert(month_counts(months@)[k as int] == months@[k as int].1);
        k = k + 1;
    }
    assert(month_counts(months@).take(k as int) =~= month_counts(months@));
    let max = seqs::largest(counts.as_slice());
    let start: usize = if n <= 24 {
        0
    } else {
        n - 24
    };
    let ghost all = month_lines(months@);
    let mut lines: Vec<String> = Vec::new();
    let mut i: usize = start;
    assert(text::texts(lines@) =~= all.take(0));
    while i < n
        invariant
            start <= i <= n,
            n == months@.len(),
            start == first_shown(n as nat),
            max == seqs::max_of(month_counts(months@)),
            all == month_lines(months@),
            text::texts(lines@) == all.take(i - start),
        decreases n - i,
    {
        text::put(&mut lines, month_line_of(months[i].0.as_str(), months[i].1, max));
        assert(all.take(i + 1 - start) =~= all.take(i - start).push(all[i - start]));
        i = i + 1;
    }
    assert(all.take(n - start) =~= all);
    lines
}

/// The months with their heading, where there are any.
pub open spec fn months_part(months: Seq<(String, i64)>) -> Seq<Seq<char>> {
    if months.len() == 0 {
        Seq::empty()
    } else {
        seq!["│"@, "│ 月份趋势（最近 24 个月）："@] + month_lines(months)
    }
}

/// The messages by time as lines.
pub open spec fn temporal_text(t: TemporalStats) -> Seq<Seq<char>> {
    seq![""@, temporal_heading(seqs::sum(t.hour@))] + hour_lines(t.hour@) + seq![
        "│"@,
        "│ 星期分布："@,
    ] + weekday_lines(t.weekday@) + months_part(t.month@) + seq![
        "╰─────────────────────────────────────────────────────────"@,
    ]
}

/// The sum of the hours.
fn sum_hours(hours: &[i64; 24]) -> (n: i64)
    requires
        i64::MIN <= seqs::sum(hours@) <= i64::MAX,
    ensures
        n == seqs::sum(hours@),
{
    let mut n: i128 = 0;
    let mut h: usize = 0;
    while h < 24
        invariant
            h <= 24,
            hours@.len() == 24,
            n == seqs::sum(hours@.take(h as int)),
            i64::MIN * h <= n <= i64::MAX * h,
        decreases 24 - h,
    {
        proof {
            seqs::sum_step(hours@, h as int);
        }
        n = n + hours[h] as i128;
        h = h + 1;
    }
    assert(hours@.take(24) =~= hours@);
    n as i64
}

/// The messages by time as lines of text.
pub fn print_temporal_report(t: &TemporalStats) -> (lines: Vec<String>)
    requires
        i64::MIN <= seqs::sum(t.hour@) <= i64::MAX,
    ensures
        text::texts(lines@) == temporal_text(*t),
{
    let mut lines: Vec<String> = Vec::new();
    text::put(&mut lines, "".to_string());
    text::put(&mut lines, temporal_heading_of(sum_hours(&t.hour)));
    let ghost head = seq![""@, temporal_heading(seqs::sum(t.hour@))];
    assert(text::texts(lines@) =~= head);
    text::put_all(&mut lines, hour_lines_of(&t.hour));
    text::put(&mut lines, "│".to_string());
    text::put(&mut lines, "│ 星期分布：".to_string());
    let ghost middle = head + hour_lines(t.hour@) + seq!["│"@, "│ 星期分布："@];
    assert(text::texts(lines@) =~= middle);
    text::put_all(&mut lines, weekday_lines_of(&t.weekday));
    let ghost lower = middle + weekday_lines(t.weekday@);
    if t.month.len() > 0 {
        text::put(&mut lines, "│".to_string());
        text::put(&mut lines, "│ 月份趋势（最近 24 个月）：".to_string());
        assert(text::texts(lines@) =~= lower + seq!["│"@, "│ 月份趋势（最近 24 个月）："@]);
        text::put_all(&mut lines, month_lines_of(&t.month));
    }
    assert(text::texts(lines@) =~= lower + months_part(t.month@));
    text::put(&mut lines, "╰─────────────────────────────────────────────────────────".to_string());
    assert(text::texts(lines@) =~= temporal_text(*t));
    lines
}

}
