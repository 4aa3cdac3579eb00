//! An overview of the data as lines of text.

use vstd::prelude::*;
use vstd::string::*;

use crate::calendar;
use crate::calendar::LocalTime;
use crate::fmt;
use crate::loader::ConvStats;
use crate::model::{Contact, Conversation};
use crate::ordered;
use crate::report;
use crate::seqs;
use crate::text;

verus! {

/// How many contacts are groups.
pub open spec fn group_count(contacts: Seq<Contact>) -> nat {
    seqs::count_if(contacts, |c: Contact| c.is_chatroom)
}

/// How many contacts are groups.
fn group_count_of(contacts: &Vec<Contact>) -> (n: usize)
    ensures
        n == group_count(contacts@),
{
    let ghost p = |c: Contact| c.is_chatroom;
    let mut n: usize = 0;
    let mut i: usize = 0;
    assert(contacts@.take(0) =~= Seq::empty());
    while i < contacts.len()
        invariant
            i <= contacts@.len(),
            n <= i,
            p == (|c: Contact| c.is_chatroom),
            n == seqs::count_if(contacts@.take(i as int), p),
        decreases contacts@.len() - i,
    {
        assert(contacts@.take(i + 1).drop_last() =~= contacts@.take(i as int));
        if contacts[i].is_chatroom {
            n = n + 1;
        }
        i = i + 1;
    }
    assert(contacts@.take(i as int) =~= contacts@);
    n
}

/// How many contacts there are.
pub open spec fn contacts_text(contacts: Seq<Contact>) -> Seq<char> {
    "✓ 联系人表解析成功：共 "@ + text::digits(contacts.len()) + " 个（其中群 "@ + text::digits(group_count(contacts))
        + "）"@
}

/// How many contacts there are.
pub fn contacts_line(contacts: &Vec<Contact>) -> (out: String)
    ensures
        out@ == contacts_text(contacts@),
{
    let mut out = "✓ 联系人表解析成功：共 ".to_string();
    out.append(text::count_text(contacts.len()).as_str());
    out.append(" 个（其中群 ");
    out.append(text::count_text(group_count_of(contacts)).as_str());
    out.append("）");
    out
}

/// How many conversations there are.
pub open spec fn mapped_text(n: nat) -> Seq<char> {
    "✓ 会话映射解析成功：共 "@ + text::digits(n) + " 个会话"@
}

/// How many conversations there are.
pub fn mapped_line(n: usize) -> (out: String)
    ensures
        out@ == mapped_text(n as nat),
{
    let mut out = "✓ 会话映射解析成功：共 ".to_string();
    out.append(text::count_text(n).as_str());
    out.append(" 个会话");
    out
}

/// How many messages there are.
pub open spec fn total_text(n: nat, total: int, top: nat) -> Seq<char> {
    "这 "@ + text::digits(n) + " 个会话合计约 "@ + text::numeral(total) + " 条消息。Top "@ + text::digits(top)
        + "："@
}

/// How many messages there are.
fn total_line(n: usize, total: i64, top: usize) -> (out: String)
    ensures
        out@ == total_text(n as nat, total as int, top as nat),
{
    let mut out = "这 ".to_string();
    out.append(text::count_text(n).as_str());
    out.append(" 个会话合计约 ");
    out.append(text::numeral_of(total).as_str());
    out.append(" 条消息。Top ");
    out.append(text::count_text(top).as_str());
    out.append("：");
    out
}

/// A conversation with its messages; `place` is its place from one on.
pub open spec fn overview_row(place: nat, c: Conversation, n: i64) -> Seq<char> {
    "  "@ + text::pad_left(text::digits(place), ' ', 2) + ". ["@ + report::kind_text(c.username@)
        + "] "@ + text::pad_right(report::masked(c.username@), 22) + " "@
        + text::pad_left(text::numeral(n as int), ' ', 8) + " 条  ("@
        + text::digits(c.db_stems@.len()) + " 分片 · "@ + c.table_name@ + ")"@
}

/// A conversation with its messages; `place` is its place from one on.
fn overview_row_of(place: usize, c: &Conversation, n: i64) -> (out: String)
    ensures
        out@ == overview_row(place as nat, *c, n),
{
    let mut out = "  ".to_string();
    out.append(text::padded_left(text::count_text(place).as_str(), ' ', 2).as_str());
    out.append(". [");
    out.append(report::conv_kind(c.username.as_str()));
    out.append("] ");
    out.append(text::padded_right(report::mask_user(c.username.as_str()).as_str(), 22).as_str());
    out.append(" ");
    out.append(text::padded_left(text::numeral_of(n).as_str(), ' ', 8).as_str());
    out.append(" 条  (");
    out.append(text::count_text(c.db_stems.len()).as_str());
    out.append(" 分片 · ");
    out.append(c.table_name.as_str());
    out.append(")");
    out
}

/// No more than `most`.
pub open spec fn at_most(n: nat, most: nat) -> nat {
    if n <= most {
        n
    } else {
        most
    }
}

/// The first `top` conversations in the given order.
pub open spec fn overview_rows(
    convs: Seq<Conversation>,
    counts: Seq<i64>,
    order: Seq<usize>,
    top: nat,
) -> Seq<Seq<char>> {
    Seq::new(
        at_most(order.len(), top),
        |i: int| overview_row((i + 1) as nat, convs[order[i] as int], counts[order[i] as int]),
    )
}

/// The conversations with the most messages.
pub open spec fn overview_text(
    convs: Seq<Conversation>,
    counts: Seq<i64>,
    order: Seq<usize>,
    top: nat,
) -> Seq<Seq<char>> {
    seq![""@, total_text(convs.len(), seqs::sum(counts), top)] + overview_rows(convs, counts, order, top)
}

/// Adds up counts.
fn sum_of(counts: &Vec<i64>) -> (r: i64)
    requires
        i64::MIN <= seqs::sum(counts@) <= i64::MAX,
        counts@.len() <= i64::MAX,
    ensures
        r == seqs::sum(counts@),
{
    let mut r: i128 = 0;
    let mut i: usize = 0;
    assert(counts@.take(0) =~= Seq::empty());
    while i < counts.len()
        invariant
            i <= counts@.len() <= i64::MAX,
            r == seqs::sum(counts@.take(i as int)),
            i64::MIN * i <= r <= i64::MAX * i,
        decreases counts@.len() - i,
    {
        proof {
            seqs::sum_step(counts@, i as int);
            let k = i as int;
            assert(i64::MIN * (k + 1) == i64::MIN * k + i64::MIN) by (nonlinear_arith);
            assert(i64::MAX * (k + 1) == i64::MAX * k + i64::MAX) by (nonlinear_arith);
            assert(i64::MIN * k >= i64::MIN * i64::MAX) by (nonlinear_arith)
                requires
                    0 <= k <= i64::MAX,
            ;
            assert(i64::MAX * k <= i64::MAX * i64::MAX) by (nonlinear_arith)
                requires
                    0 <= k <= i64::MAX,
            ;
        }
        r = r + counts[i] as i128;
        i = i + 1;
    }
    assert(counts@.take(i as int) =~= counts@);
    r as i64
}

/// The conversations with the most messages, the first `top` of them, given the order of all.
pub fn print_overview(convs: &Vec<Conversation>, counts: &Vec<i64>, order: &Vec<usize>, top: usize) -> (lines: Vec<String>)
    requires
        convs@.len() == counts@.len(),
        counts@.len() <= i64::MAX,
        i64::MIN <= seqs::sum(counts@) <= i64::MAX,
        forall|i: int| 0 <= i < order@.len() ==> #[trigger] order@[i] < convs@.len(),
    ensures
        text::texts(lines@) == overview_text(convs@, counts@, order@, top as nat),
{
    let mut lines: Vec<String> = Vec::new();
    text::put(&mut lines, "".to_string());
    text::put(&mut lines, total_line(convs.len(), sum_of(counts), top));
    let ghost head = seq![""@, total_text(convs@.len(), seqs::sum(counts@), top as nat)];
    let ghost all = overview_rows(convs@, counts@, order@, top as nat);
    let mut i: usize = 0;
    assert(text::texts(lines@) =~= head + all.take(0));
    while i < order.len() && i < top
        invariant
            i <= order@.len(),
            i <= top,
            convs@.len() == counts@.len(),
            forall|i: int| 0 <= i < order@.len() ==> #[trigger] order@[i] < convs@.len(),
            all == overview_rows(convs@, counts@, order@, top as nat),
            text::texts(lines@) == head + all.take(i as int),
        decreases order@.len() - i,
    {
        let p = order[i];
        text::put(&mut lines, overview_row_of(i + 1, &convs[p], counts[p]));
        assert(head + all.take(i + 1) =~= (head + all.take(i as int)).push(all[i as int]));
        i = i + 1;
    }
    assert(all.take(i as int) =~= all);
    lines
}

/// All messages.
pub open spec fn count_text(n: i64) -> Seq<char> {
    "  消息总数      : "@ + text::numeral(n as int)
}

/// All messages.
fn count_line(n: i64) -> (out: String)
    ensures
        out@ == count_text(n),
{
    let mut out = "  消息总数      : ".to_string();
    out.append(text::numeral_of(n).as_str());
    out
}

/// All senders.
pub open spec fn senders_text(n: i64) -> Seq<char> {
    "  不同发送者数  : "@ + text::numeral(n as int)
}

/// All senders.
fn senders_line(n: i64) -> (out: String)
    ensures
        out@ == senders_text(n),
{
    let mut out = "  不同发送者数  : ".to_string();
    out.append(text::numeral_of(n).as_str());
    out
}

/// The first and the last time.
pub open spec fn span_text(a: i64, b: i64, first: Option<LocalTime>, last: Option<LocalTime>) -> Seq<char> {
    "  时间跨度      : "@ + fmt::time_text(a as int, first) + " ~ "@ + fmt::time_text(b as int, last)
}

/// The first and the last time.
fn span_line(a: i64, b: i64, first: &Option<LocalTime>, last: &Option<LocalTime>) -> (out: String)
    ensures
        out@ == span_text(a, b, *first, *last),
{
    let mut out = "  时间跨度      : ".to_string();
    out.append(fmt::fmt_ts_at(a, first).as_str());
    out.append(" ~ ");
    out.append(fmt::fmt_ts_at(b, last).as_str());
    out
}

/// A type with its messages.
pub open spec fn type_text(t: i64, n: i64) -> Seq<char> {
    "    type "@ + text::pad_left(text::numeral(t as int), ' ', 6) + " : "@ + text::numeral(n as int)
}

/// A type with its messages.
fn type_line(t: i64, n: i64) -> (out: String)
    ensures
        out@ == type_text(t, n),
{
    let mut out = "    type ".to_string();
    out.append(text::padded_left(text::numeral_of(t).as_str(), ' ', 6).as_str());
    out.append(" : ");
    out.append(text::numeral_of(n).as_str());
    out
}

/// The counts of the rows.
pub open spec fn row_counts(rows: Seq<(i64, i64)>) -> Seq<i64> {
    rows.map_values(|p: (i64, i64)| p.1)
}

/// The rows in the given order.
pub open spec fn type_texts(rows: Seq<(i64, i64)>, order: Seq<usize>) -> Seq<Seq<char>> {
    Seq::new(order.len(), |i: int| type_text(rows[order[i] as int].0, rows[order[i] as int].1))
}

/// The first and the last time, where both are known.
pub open spec fn span_part(st: ConvStats, first: Option<LocalTime>, last: Option<LocalTime>) -> Seq<Seq<char>> {
    match (st.time_min, st.time_max) {
        (Some(a), Some(b)) => seq![span_text(a, b, first, last)],
        _ => Seq::empty(),
    }
}

/// `lines` shows the statistics of a conversation, the types by falling count.
pub open spec fn shows_stats(
    lines: Seq<Seq<char>>,
    st: ConvStats,
    first: Option<LocalTime>,
    last: Option<LocalTime>,
) -> bool {
    exists|order: Seq<usize>| #[trigger]
        ordered::falling_order(order, row_counts(st.type_dist@)) && lines == seq![
            ""@,
            "消息最多会话的聚合统计："@,
            count_text(st.count),
            senders_text(st.distinct_senders),
        ] + span_part(st, first, last) + seq!["  类型分布(local_type):"@] + type_texts(st.type_dist@, order)
}

/// The counts of the rows.
fn row_counts_of(rows: &Vec<(i64, i64)>) -> (r: Vec<i64>)
    ensures
        r@ == row_counts(rows@),
{
    let mut r: Vec<i64> = Vec::new();
    let mut i: usize = 0;
    assert(r@ =~= row_counts(rows@).take(0));
    while i < rows.len()
        invariant
            i <= rows@.len(),
            r@ == row_counts(rows@).take(i as int),
        decreases rows@.len() - i,
    {
        r.push(rows[i].1);
        assert(row_counts(rows@).take(i + 1) =~= row_counts(rows@).take(i as int).push(rows@[i as int].1));
        i = i + 1;
    }
    assert(row_counts(rows@).take(i as int) =~= row_counts(rows@));
    r
}

/// The rows in the given order.
fn type_lines(rows: &Vec<(i64, i64)>, order: &Vec<usize>) -> (lines: Vec<String>)
    requires
        forall|i: int| 0 <= i < order@.len() ==> #[trigger] order@[i] < rows@.len(),
    ensures
        text::texts(lines@) == type_texts(rows@, order@),
{
    let ghost all = type_texts(rows@, order@);
    let mut lines: Vec<String> = Vec::new();
    let mut i: usize = 0;
    assert(text::texts(lines@) =~= all.take(0));
    while i < order.len()
        invariant
            i <= order@.len(),
            forall|i: int| 0 <= i < order@.len() ==> #[trigger] order@[i] < rows@.len(),
            all == type_texts(rows@, order@),
            text::texts(lines@) == all.take(i as int),
        decreases order@.len() - i,
    {
        let p = order[i];
        text::put(&mut lines, type_line(rows[p].0, rows[p].1));
        assert(all.take(i + 1) =~= all.take(i as int).push(all[i as int]));
        i = i + 1;
    }
    assert(all.take(i as int) =~= all);
    lines
}

/// The statistics of a conversation, given the local times of its first and last message.
pub fn print_conv_stats_at(st: &ConvStats, first: &Option<LocalTime>, last: &Option<LocalTime>) -> (lines: Vec<String>)
    ensures
        shows_stats(text::texts(lines@), *st, *first, *last),
{
    let mut lines: Vec<String> = Vec::new();
    text::put(&mut lines, "".to_string());
    text::put(&mut lines, "消息最多会话的聚合统计：".to_string());
    text::put(&mut lines, count_line(st.count));
    text::put(&mut lines, senders_line(st.distinct_senders));
    if let (Some(a), Some(b)) = (st.time_min, st.time_max) {
        text::put(&mut lines, span_line(a, b, first, last));
    }
    let ghost head = seq![
        ""@,
        "消息最多会话的聚合统计："@,
        count_text(st.count),
        senders_text(st.distinct_senders),
    ] + span_part(*st, *first, *last);
    assert(text::texts(lines@) =~= head);
    text::put(&mut lines, "  类型分布(local_type):".to_string());
    assert(text::texts(lines@) =~= head + seq!["  类型分布(local_type):"@]);
    let order = ordered::falling(&row_counts_of(&st.type_dist));
    text::put_all(&mut lines, type_lines(&st.type_dist, &order));
    assert(ordered::falling_order(order@, row_counts(st.type_dist@)));
    lines
}

/// `t` is what a local clock may show at `secs`, where that is known.
pub open spec fn may_show(secs: Option<i64>, t: Option<LocalTime>) -> bool {
    match secs {
        Some(s) => calendar::clock_gives(s as int, t),
        None => t is None,
    }
}

/// Reads the local clock at a time, where that is known.
fn read_at(secs: Option<i64>) -> (t: Option<LocalTime>)
    ensures
        may_show(secs, t),
{
    match secs {
        Some(s) => calendar::local_dt(s),
        None => None,
    }
}

/// The statistics of a conversation.
pub fn print_conv_stats(st: &ConvStats) -> (lines: Vec<String>)
    ensures
        exists|first: Option<LocalTime>, last: Option<LocalTime>|
            #![trigger may_show(st.time_min, first), may_show(st.time_max, last)]
            may_show(st.time_min, first) && may_show(st.time_max, last) && shows_stats(
                text::texts(lines@),
                *st,
                first,
                last,
            ),
{
    let first = read_at(st.time_min);
    let last = read_at(st.time_max);
    print_conv_stats_at(st, &first, &last)
}

}
