//! One conversation in depth as lines of text.

use vstd::prelude::*;
use vstd::string::*;

use crate::calendar;
use crate::calendar::LocalTime;
use crate::dig::{ConversationDetail, LatencyStats};
use crate::fmt;
use crate::model::Conversation;
use crate::report;
use crate::report::volume;
use crate::report::ContactIndex;
use crate::schema;
use crate::text;

verus! {

/// Shares as text.
pub struct DigShares {
    /// Shares of one's own messages and of the others'.
    pub my: String,
    pub other: String,
    /// One's own messages for each of the others'.
    pub ratio: String,
    /// Shares of the days that oneself, or someone else, opened.
    pub open_self: String,
    pub open_other: String,
}

/// Local times: of the first and the last message, and of the first message of each listed day.
pub struct DigTimes {
    pub first: Option<LocalTime>,
    pub last: Option<LocalTime>,
    pub openers: Vec<Option<LocalTime>>,
}

/// The times are what a local clock may have shown.
pub open spec fn are_times(t: DigTimes, d: ConversationDetail) -> bool {
    &&& d.time_min matches Some(a) ==> calendar::clock_gives(a as int, t.first)
    &&& d.time_max matches Some(b) ==> calendar::clock_gives(b as int, t.last)
    &&& t.openers@.len() == d.recent_openers@.len()
    &&& forall|i: int|
        0 <= i < t.openers@.len() ==> calendar::clock_gives(d.recent_openers@[i].2 as int, #[trigger] t.openers@[i])
}

/// Group or not.
pub open spec fn chat_kind(is_group: bool) -> Seq<char> {
    if is_group {
        "群聊"@
    } else {
        "单聊"@
    }
}

/// Group or not.
fn chat_kind_of(is_group: bool) -> (r: &'static str)
    ensures
        r@ == chat_kind(is_group),
{
    if is_group {
        "群聊"
    } else {
        "单聊"
    }
}

/// A share, or a dash where there is nothing to share.
pub open spec fn share_text(share: Seq<char>, whole: int) -> Seq<char> {
    if whole > 0 {
        share
    } else {
        "—"@
    }
}

/// A share, or a dash where there is nothing to share.
fn share_text_of(share: &str, a: i64, b: i64) -> (r: String)
    ensures
        r@ == share_text(share@, a + b),
{
    if a as i128 + b as i128 > 0 {
        share.to_string()
    } else {
        "—".to_string()
    }
}

/// The heading.
pub open spec fn dig_heading(name: Seq<char>, is_group: bool) -> Seq<char> {
    "╭─ 单会话深挖 · "@ + name + " ["@ + chat_kind(is_group) + "] ──────────────────────────────"@
}

/// The heading.
fn dig_heading_of(name: &str, is_group: bool) -> (r: String)
    ensures
        r@ == dig_heading(name@, is_group),
{
    let mut r = "╭─ 单会话深挖 · ".to_string();
    r.append(name);
    r.append(" [");
    r.append(chat_kind_of(is_group));
    r.append("] ──────────────────────────────");
    r
}

/// From the first to the last message.
pub open spec fn span_line(a: i64, b: i64, first: Option<LocalTime>, last: Option<LocalTime>) -> Seq<char> {
    "│ 时间跨度      : "@ + fmt::time_text(a as int, first) + " ~ "@ + fmt::time_text(b as int, last)
}

/// From the first to the last message.
fn span_line_of(a: i64, b: i64, first: &Option<LocalTime>, last: &Option<LocalTime>) -> (r: String)
    ensures
        r@ == span_line(a, b, *first, *last),
{
    let mut r = "│ 时间跨度      : ".to_string();
    r.append(fmt::fmt_ts_at(a, first).as_str());
    r.append(" ~ ");
    r.append(fmt::fmt_ts_at(b, last).as_str());
    r
}

/// The messages of either side.
pub open spec fn ratio_line(d: ConversationDetail, s: DigShares) -> Seq<char> {
    "│ 发送比例      : 我 "@ + fmt::number_text(d.my_count as int) + " ("@
        + share_text(s.my@, d.my_count + d.other_count) + ")  ·  对方 "@
        + fmt::number_text(d.other_count as int) + " ("@
        + share_text(s.other@, d.my_count + d.other_count) + ")"@
}

/// The messages of either side.
fn ratio_line_of(d: &ConversationDetail, s: &DigShares) -> (r: String)
    ensures
        r@ == ratio_line(*d, *s),
{
    let mut r = "│ 发送比例      : 我 ".to_string();
    r.append(fmt::fmt_num(d.my_count).as_str());
    r.append(" (");
    r.append(share_text_of(s.my.as_str(), d.my_count, d.other_count).as_str());
    r.append(")  ·  对方 ");
    r.append(fmt::fmt_num(d.other_count).as_str());
    r.append(" (");
    r.append(share_text_of(s.other.as_str(), d.my_count, d.other_count).as_str());
    r.append(")");
    r
}

/// The larger side, at least one.
pub open spec fn larger_side(d: ConversationDetail) -> int {
    if d.my_count >= d.other_count && d.my_count >= 1 {
        d.my_count as int
    } else if d.other_count >= 1 {
        d.other_count as int
    } else {
        1
    }
}

/// The larger side, at least one.
fn larger_side_of(d: &ConversationDetail) -> (n: i64)
    ensures
        n == larger_side(*d),
{
    if d.my_count >= d.other_count && d.my_count >= 1 {
        d.my_count
    } else if d.other_count >= 1 {
        d.other_count
    } else {
        1
    }
}

/// One's own messages as a bar.
pub open spec fn my_bar_line(d: ConversationDetail) -> Seq<char> {
    "│   我   ▏"@ + text::pad_right(fmt::bar_text(d.my_count as int, larger_side(d), 20), 20) + " "@
        + fmt::number_text(d.my_count as int)
}

/// One's own messages as a bar.
fn my_bar_line_of(d: &ConversationDetail) -> (r: String)
    ensures
        r@ == my_bar_line(*d),
{
    let mut r = "│   我   ▏".to_string();
    r.append(text::padded_right(fmt::bar(d.my_count, larger_side_of(d), 20).as_str(), 20).as_str());
    r.append(" ");
    r.append(fmt::fmt_num(d.my_count).as_str());
    r
}

/// The others' messages as a bar.
pub open spec fn other_bar_line(d: ConversationDetail) -> Seq<char> {
    "│   对方▏"@ + text::pad_right(fmt::bar_text(d.other_count as int, larger_side(d), 20), 20) + " "@
        + fmt::number_text(d.other_count as int)
}

/// The others' messages as a bar.
fn other_bar_line_of(d: &ConversationDetail) -> (r: String)
    ensures
        r@ == other_bar_line(*d),
{
    let mut r = "│   对方▏".to_string();
    r.append(text::padded_right(fmt::bar(d.other_count, larger_side_of(d), 20).as_str(), 20).as_str());
    r.append(" ");
    r.append(fmt::fmt_num(d.other_count).as_str());
    r
}

/// One's own messages for each of the others'.
pub open spec fn times_line(s: DigShares) -> Seq<char> {
    "│   我:对方 ≈ "@ + s.ratio@ + " : 1"@
}

/// One's own messages for each of the others'.
fn times_line_of(s: &DigShares) -> (r: String)
    ensures
        r@ == times_line(*s),
{
    let mut r = "│   我:对方 ≈ ".to_string();
    r.append(s.ratio.as_str());
    r.append(" : 1");
    r
}

/// The messages of a type by one side.
pub open spec fn side_type_line(t: i64, n: i64, max: i64) -> Seq<char> {
    "│   "@ + text::pad_right(schema::label_of_type(t), 10) + " "@
        + text::pad_left(fmt::number_text(n as int), ' ', 10) + "  "@
        + fmt::bar_text(n as int, max as int, 16)
}

/// The messages of a type by one side.
fn side_type_line_of(t: i64, n: i64, max: i64) -> (r: String)
    ensures
        r@ == side_type_line(t, n, max),
{
    let mut r = "│   ".to_string();
    r.append(text::padded_right(schema::type_label(t), 10).as_str());
    r.append(" ");
    r.append(text::padded_left(fmt::fmt_num(n).as_str(), ' ', 10).as_str());
    r.append("  ");
    r.append(fmt::bar(n, max, 16).as_str());
    r
}

/// At most five.
pub open spec fn up_to_five(n: nat) -> nat {
    if n <= 5 {
        n
    } else {
        5
    }
}

/// The most frequent types of one side, at most five.
pub open spec fn side_type_lines(rows: Seq<(i64, i64)>, max: i64) -> Seq<Seq<char>> {
    Seq::new(up_to_five(rows.len()), |i: int| side_type_line(rows[i].0, rows[i].1, max))
}

/// The most frequent types of one side, at most five.
fn side_type_lines_of(rows: &Vec<(i64, i64)>, max: i64) -> (lines: Vec<String>)
    ensures
        text::texts(lines@) == side_type_lines(rows@, max),
{
    let ghost all = side_type_lines(rows@, max);
    let mut lines: Vec<String> = Vec::new();
    let mut i: usize = 0;
    assert(text::texts(lines@) =~= all.take(0));
    while i < rows.len() && i < 5
        invariant
            i <= rows@.len(),
            i <= 5,
            all == side_type_lines(rows@, max),
            text::texts(lines@) == all.take(i as int),
        decreases rows@.len() - i,
    {
        text::put(&mut lines, side_type_line_of(rows[i].0, rows[i].1, max));
        assert(all.take(i + 1) =~= all.take(i as int).push(all[i as int]));
        i = i + 1;
    }
    assert(all.take(all.len() as int) =~= all);
    lines
}

/// What is known of the latencies of one side.
pub open spec fn latency_text(label: Seq<char>, s: LatencyStats) -> Seq<char> {
    match (s.median_sec, s.mean_sec) {
        (Some(md), Some(mn)) => label + "：中位 "@ + fmt::duration_text(md as int) + " · 均值 "@ + fmt::duration_text(
            mn as int,
        ) + " · 共 "@ + fmt::number_text(s.samples as int) + " 次"@,
        _ => label + "：无样本"@,
    }
}

/// The latencies of one side as a line of text.
pub fn print_latency(label: &str, s: &LatencyStats) -> (r: String)
    ensures
        r@ == latency_text(label@, *s),
{
    let mut r = label.to_string();
    match (s.median_sec, s.mean_sec) {
        (Some(md), Some(mn)) => {
            r.append("：中位 ");
            r.append(fmt::fmt_duration(md).as_str());
            r.append(" · 均值 ");
            r.append(fmt::fmt_duration(mn).as_str());
            r.append(" · 共 ");
            r.append(fmt::fmt_num(s.samples).as_str());
            r.append(" 次");
        },
        _ => {
            r.append("：无样本");
        },
    }
    r
}

/// The replies that came too late.
pub open spec fn capped_line(d: ConversationDetail) -> Seq<char> {
    "│   （另有 "@ + fmt::number_text(d.capped_replies as int) + " 次超过 6h 的续聊未计入）"@
}

/// The replies that came too late.
fn capped_line_of(d: &ConversationDetail) -> (r: String)
    ensures
        r@ == capped_line(*d),
{
    let mut r = "│   （另有 ".to_string();
    r.append(fmt::fmt_num(d.capped_replies).as_str());
    r.append(" 次超过 6h 的续聊未计入）");
    r
}

/// Who opens the days.
pub open spec fn open_line(d: ConversationDetail, s: DigShares) -> Seq<char> {
    "│ 每日谁先开口：我主动 "@ + fmt::number_text(d.days_self_open as int) + " 天 ("@
        + share_text(s.open_self@, d.days_self_open + d.days_other_open) + ")  ·  对方先 "@
        + fmt::number_text(d.days_other_open as int) + " 天 ("@
        + share_text(s.open_other@, d.days_self_open + d.days_other_open) + ")"@
}

/// Who opens the days.
fn open_line_of(d: &ConversationDetail, s: &DigShares) -> (r: String)
    ensures
        r@ == open_line(*d, *s),
{
    let mut r = "│ 每日谁先开口：我主动 ".to_string();
    r.append(fmt::fmt_num(d.days_self_open).as_str());
    r.append(" 天 (");
    r.append(share_text_of(s.open_self.as_str(), d.days_self_open, d.days_other_open).as_str());
    r.append(")  ·  对方先 ");
    r.append(fmt::fmt_num(d.days_other_open).as_str());
    r.append(" 天 (");
    r.append(share_text_of(s.open_other.as_str(), d.days_self_open, d.days_other_open).as_str());
    r.append(")");
    r
}

/// Hour and minute of a reading.
pub open spec fn minute_text(t: Option<LocalTime>) -> Seq<char> {
    match t {
        Some(t) => text::zero_padded(t.hour as int, 2) + ":"@ + text::zero_padded(t.minute as int, 2),
        None => "?"@,
    }
}

/// Hour and minute of a reading.
fn minute_text_of(t: &Option<LocalTime>) -> (r: String)
    ensures
        r@ == minute_text(*t),
{
    match t {
        Some(t) => {
            let mut r = text::zero_padded_of(t.hour as i64, 2);
            r.append(":");
            r.append(text::zero_padded_of(t.minute as i64, 2).as_str());
            r
        },
        None => "?".to_string(),
    }
}

/// Oneself or the other side.
pub open spec fn opener_name(mine: bool) -> Seq<char> {
    if mine {
        "我"@
    } else {
        "对方"@
    }
}

/// Oneself or the other side.
pub fn opener_name_of(mine: bool) -> (r: &'static str)
    ensures
        r@ == opener_name(mine),
{
    if mine {
        "我"
    } else {
        "对方"
    }
}

/// Who opened a day, and when.
pub open spec fn opener_line(date: Seq<char>, mine: bool, t: Option<LocalTime>) -> Seq<char> {
    "│     "@ + date + "  "@ + opener_name(mine) + " 先开口  "@ + minute_text(t)
}

/// Who opened a day, and when.
fn opener_line_of(date: &str, mine: bool, t: &Option<LocalTime>) -> (r: String)
    ensures
        r@ == opener_line(date@, mine, *t),
{
    let mut r = "│     ".to_string();
    r.append(date);
    r.append("  ");
    r.append(opener_name_of(mine));
    r.append(" 先开口  ");
    r.append(minute_text_of(t).as_str());
    r
}

/// The heading of the latest days.
pub open spec fn recent_heading(n: nat) -> Seq<char> {
    "│   最近 "@ + text::digits(n) + " 天明细（最近在上）："@
}

/// The heading of the latest days.
fn recent_heading_of(n: usize) -> (r: String)
    ensures
        r@ == recent_heading(n as nat),
{
    let mut r = "│   最近 ".to_string();
    r.append(text::count_text(n).as_str());
    r.append(" 天明细（最近在上）：");
    r
}

/// At most fourteen.
pub open spec fn up_to_fourteen(n: nat) -> nat {
    if n <= 14 {
        n
    } else {
        14
    }
}

/// The latest days and who opened them, the latest first, at most fourteen.
pub open spec fn opener_lines(rows: Seq<(String, bool, i64)>, times: Seq<Option<LocalTime>>) -> Seq<Seq<char>> {
    Seq::new(
        up_to_fourteen(rows.len()),
        |i: int|
            opener_line(
                rows[rows.len() - 1 - i].0@,
                rows[rows.len() - 1 - i].1,
                times[rows.len() - 1 - i],
            ),
    )
}

/// The latest days with their heading, where there are any.
pub open spec fn recent_part(rows: Seq<(String, bool, i64)>, times: Seq<Option<LocalTime>>) -> Seq<Seq<char>> {
    if rows.len() == 0 {
        Seq::empty()
    } else {
        seq![recent_heading(rows.len())] + opener_lines(rows, times)
    }
}

/// The latest days with their heading, where there are any.
fn recent_part_of(rows: &Vec<(String, bool, i64)>, times: &Vec<Option<LocalTime>>) -> (lines: Vec<String>)
    requires
        times@.len() == rows@.len(),
    ensures
        text::texts(lines@) == recent_part(rows@, times@),
{
    let mut lines: Vec<String> = Vec::new();
    let n = rows.len();
    if n == 0 {
        assert(text::texts(lines@) =~= Seq::empty());
        return lines;
    }
    text::put(&mut lines, recent_heading_of(n));
    let ghost head = seq![recent_heading(n as nat)];
    assert(text::texts(lines@) =~= head);
    let ghost all = opener_lines(rows@, times@);
    let mut i: usize = 0;
    assert(head + all.take(0) =~= head);
    while i < n && i < 14
        invariant
            i <= n,
            i <= 14,
            n == rows@.len(),
            times@.len() == rows@.len(),
            all == opener_lines(rows@, times@),
            text::texts(lines@) == head + all.take(i as int),
        decreases n - i,
    {
        let at: usize = n - 1 - i;
        text::put(&mut lines, opener_line_of(rows[at].0.as_str(), rows[at].1, &times[at]));
        assert(head + all.take(i + 1) =~= (head + all.take(i as int)).push(all[i as int]));
        i = i + 1;
    }
    assert(all.take(all.len() as int) =~= all);
    lines
}

/// The time span, where it is known.
pub open spec fn span_part(d: ConversationDetail, t: DigTimes) -> Seq<Seq<char>> {
    match (d.time_min, d.time_max) {
        (Some(a), Some(b)) => seq![span_line(a, b, t.first, t.last)],
        _ => Seq::empty(),
    }
}

/// The late replies, where there are any.
pub open spec fn capped_part(d: ConversationDetail) -> Seq<Seq<char>> {
    if d.capped_replies > 0 {
        seq![capped_line(d)]
    } else {
        Seq::empty()
    }
}

/// At least one.
pub open spec fn at_least_one(n: i64) -> i64 {
    if n >= 1 {
        n
    } else {
        1
    }
}

/// A conversation in depth as lines.
pub open spec fn dig_text(name: Seq<char>, d: ConversationDetail, s: DigShares, t: DigTimes) -> Seq<Seq<char>> {
    seq![""@, dig_heading(name, d.is_group), volume::messages_line(d.total as int)] + span_part(d, t) + seq![
        ratio_line(d, s),
        my_bar_line(d),
        other_bar_line(d),
        times_line(s),
        "│ 对方最常发的类型："@,
    ] + side_type_lines(d.other_type_dist@, d.other_count) + seq!["│ 我最常发的类型："@]
        + side_type_lines(d.my_type_dist@, at_least_one(d.my_count)) + seq![
        "│ 回复时延（切换发送者算一次回复，上限 6h）："@,
        latency_text("│   我回对方"@, d.my_reply),
        latency_text("│   对方回我"@, d.other_reply),
    ] + capped_part(d) + seq![open_line(d, s)] + recent_part(d.recent_openers@, t.openers@) + seq![
        "╰─────────────────────────────────────────────────────────"@,
    ]
}

/// The time span, where it is known.
fn span_part_of(d: &ConversationDetail, t: &DigTimes) -> (r: Vec<String>)
    ensures
        text::texts(r@) == span_part(*d, *t),
{
    let mut r: Vec<String> = Vec::new();
    if let (Some(a), Some(b)) = (d.time_min, d.time_max) {
        text::put(&mut r, span_line_of(a, b, &t.first, &t.last));
    }
    assert(text::texts(r@) =~= span_part(*d, *t));
    r
}

/// The late replies, where there are any.
fn capped_part_of(d: &ConversationDetail) -> (r: Vec<String>)
    ensures
        text::texts(r@) == capped_part(*d),
{
    let mut r: Vec<String> = Vec::new();
    if d.capped_replies > 0 {
        text::put(&mut r, capped_line_of(d));
    }
    assert(text::texts(r@) =~= capped_part(*d));
    r
}

/// A conversation in depth as lines of text, given shares and local times.
pub fn print_dig_report_at(
    conv: &Conversation,
    d: &ConversationDetail,
    index: &ContactIndex,
    s: &DigShares,
    t: &DigTimes,
) -> (lines: Vec<String>)
    requires
        index.wf(),
        t.openers@.len() == d.recent_openers@.len(),
    ensures
        text::texts(lines@) == dig_text(report::name_of(index.contacts(), conv.username@), *d, *s, *t),
{
    let name = index.name_by_username(conv.username.as_str());
    let mut lines: Vec<String> = Vec::new();
    text::put(&mut lines, "".to_string());
    text::put(&mut lines, dig_heading_of(name.as_str(), d.is_group));
    text::put(&mut lines, volume::messages_line_of(d.total));
    let ghost mut sum = seq![""@, dig_heading(name@, d.is_group), volume::messages_line(d.total as int)];
    assert(text::texts(lines@) =~= sum);
    text::put_all(&mut lines, span_part_of(d, t));
    proof {
        sum = sum + span_part(*d, *t);
        assert(text::texts(lines@) =~= sum);
    }
    text::put(&mut lines, ratio_line_of(d, s));
    text::put(&mut lines, my_bar_line_of(d));
    text::put(&mut lines, other_bar_line_of(d));
    text::put(&mut lines, times_line_of(s));
    text::put(&mut lines, "│ 对方最常发的类型：".to_string());
    proof {
        sum = sum + seq![
            ratio_line(*d, *s),
            my_bar_line(*d),
            other_bar_line(*d),
            times_line(*s),
            "│ 对方最常发的类型："@,
        ];
        assert(text::texts(lines@) =~= sum);
    }
    text::put_all(&mut lines, side_type_lines_of(&d.other_type_dist, d.other_count));
    text::put(&mut lines, "│ 我最常发的类型：".to_string());
    let most: i64 = if d.my_count >= 1 {
        d.my_count
    } else {
        1
    };
    proof {
        sum = sum + side_type_lines(d.other_type_dist@, d.other_count) + seq!["│ 我最常发的类型："@];
        assert(text::texts(lines@) =~= sum);
    }
    text::put_all(&mut lines, side_type_lines_of(&d.my_type_dist, most));
    text::put(&mut lines, "│ 回复时延（切换发送者算一次回复，上限 6h）：".to_string());
    text::put(&mut lines, print_latency("│   我回对方", &d.my_reply));
    text::put(&mut lines, print_latency("│   对方回我", &d.other_reply));
    proof {
        sum = sum + side_type_lines(d.my_type_dist@, at_least_one(d.my_count)) + seq![
            "│ 回复时延（切换发送者算一次回复，上限 6h）："@,
            latency_text("│   我回对方"@, d.my_reply),
            latency_text("│   对方回我"@, d.other_reply),
        ];
        assert(text::texts(lines@) =~= sum);
    }
    text::put_all(&mut lines, capped_part_of(d));
    proof {
        sum = sum + capped_part(*d);
        assert(text::texts(lines@) =~= sum);
    }
    text::put(&mut lines, open_line_of(d, s));
    assert(text::texts(lines@) =~= sum + seq![open_line(*d, *s)]);
    text::put_all(&mut lines, recent_part_of(&d.recent_openers, &t.openers));
    text::put(&mut lines, "╰─────────────────────────────────────────────────────────".to_string());
    assert(text::texts(lines@) =~= dig_text(name@, *d, *s, *t));
    lines
}

/// Reads the local clock at an optional time.
fn read_at(secs: Option<i64>) -> (t: Option<LocalTime>)
    ensures
        secs matches Some(a) ==> calendar::clock_gives(a as int, t),
{
    match secs {
        Some(a) => calendar::local_dt(a),
        None => None,
    }
}

/// Reads the local clock at the times that a report shows.
fn read_times(d: &ConversationDetail) -> (t: DigTimes)
    ensures
        are_times(t, *d),
{
    let mut openers: Vec<Option<LocalTime>> = Vec::new();
    let mut i: usize = 0;
    while i < d.recent_openers.len()
        invariant
            i <= d.recent_openers@.len(),
            openers@.len() == i,
            forall|k: int|
                0 <= k < i ==> calendar::clock_gives(d.recent_openers@[k].2 as int, #[trigger] openers@[k]),
        decreases d.recent_openers@.len() - i,
    {
        openers.push(calendar::local_dt(d.recent_openers[i].2));
        i = i + 1;
    }
    DigTimes { first: read_at(d.time_min), last: read_at(d.time_max), openers }
}

/// A conversation in depth as lines of text, given shares.
pub fn print_dig_report(
    conv: &Conversation,
    d: &ConversationDetail,
    index: &ContactIndex,
    s: &DigShares,
) -> (lines: Vec<String>)
    requires
        index.wf(),
    ensures
        exists|t: DigTimes| #[trigger]
            are_times(t, *d) && text::texts(lines@) == dig_text(
                report::name_of(index.contacts(), conv.username@),
                *d,
                *s,
                t,
            ),
{
    let t = read_times(d);
    print_dig_report_at(conv, d, index, s, &t)
}

}
