//! Charts.

use vstd::prelude::*;
use vstd::string::*;

use crate::render::figures;
use crate::render::figures::{Figures, RhythmMarks, TrendMarks};
use crate::render::markup;
use crate::text;
use crate::trend;
use crate::trend::{Heatmap, TrendPoint, TrendSeries};

verus! {

/// The style of a tag.
pub open spec fn tag_style(tag: Seq<char>) -> Seq<char> {
    if tag == "升温"@ {
        "up"@
    } else if tag == "降温"@ {
        "down"@
    } else if tag == "平稳"@ {
        "flat"@
    } else {
        "unk"@
    }
}

/// The style of a tag.
pub fn tag_cls(tag: &str) -> (r: &'static str)
    ensures
        r@ == tag_style(tag@),
{
    if text::same(tag, "升温") {
        "up"
    } else if text::same(tag, "降温") {
        "down"
    } else if text::same(tag, "平稳") {
        "flat"
    } else {
        "unk"
    }
}

/// How a point of a line is reached: the first by a move, the others by a stroke.
pub open spec fn pen(i: int) -> Seq<char> {
    if i == 0 {
        "M"@
    } else {
        "L"@
    }
}

/// How a point of a line is reached: the first by a move, the others by a stroke.
fn pen_of(i: usize) -> (r: &'static str)
    ensures
        r@ == pen(i as int),
{
    if i == 0 {
        "M"
    } else {
        "L"
    }
}

/// One point of a line.
pub open spec fn step(i: int, x: Seq<char>, y: Seq<char>) -> Seq<char> {
    pen(i) + x + " "@ + y
}

/// One point of a line.
fn step_of(i: usize, x: &str, y: &str) -> (out: String)
    ensures
        out@ == step(i as int, x@, y@),
{
    let mut out = pen_of(i).to_string();
    out.append(x);
    out.append(" ");
    out.append(y);
    out
}

/// The points of a line.
pub open spec fn steps(x: Seq<String>, y: Seq<String>) -> Seq<Seq<char>> {
    Seq::new(x.len(), |i: int| step(i, x[i]@, y[i]@))
}

/// The points of a line.
fn steps_of(x: &Vec<String>, y: &Vec<String>) -> (r: Vec<String>)
    requires
        x@.len() == y@.len(),
    ensures
        text::texts(r@) == steps(x@, y@),
{
    let ghost all = steps(x@, y@);
    let mut r: Vec<String> = Vec::new();
    let mut i: usize = 0;
    assert(text::texts(r@) =~= all.take(0));
    while i < x.len()
        invariant
            i <= all.len(),
            all == steps(x@, y@),
            x@.len() == y@.len(),
            text::texts(r@) == all.take(i as int),
        decreases all.len() - i,
    {
        text::put(&mut r, step_of(i, x[i].as_str(), y[i].as_str()));
        assert(all.take(i + 1) =~= all.take(i as int).push(all[i as int]));
        i = i + 1;
    }
    assert(all.take(i as int) =~= all);
    r
}

/// A line through points.
pub open spec fn line_path(x: Seq<String>, y: Seq<String>) -> Seq<char> {
    text::joined(steps(x, y), " "@)
}

/// A line through points.
fn line_path_of(x: &Vec<String>, y: &Vec<String>) -> (r: String)
    requires
        x@.len() == y@.len(),
    ensures
        r@ == line_path(x@, y@),
{
    text::join(&steps_of(x, y), " ")
}

/// The area below a line, down to the base of the chart.
pub open spec fn area_path(m: TrendMarks) -> Seq<char> {
    line_path(m.x@, m.y@) + " L "@ + m.x@.last()@ + " 152.0 L "@ + m.x@[0]@ + " 152.0 Z"@
}

/// The area below a line, down to the base of the chart.
fn area_path_of(m: &TrendMarks) -> (out: String)
    requires
        m.x@.len() == m.y@.len(),
        m.x@.len() > 0,
    ensures
        out@ == area_path(*m),
{
    let mut out = line_path_of(&m.x, &m.y);
    out.append(" L ");
    out.append(m.x[m.x.len() - 1].as_str());
    out.append(" 152.0 L ");
    out.append(m.x[0].as_str());
    out.append(" 152.0 Z");
    out
}

/// The position of the highest count, the last of them where there are several.
pub open spec fn peak_index(counts: Seq<i64>) -> int
    decreases counts.len(),
{
    if counts.len() <= 1 {
        0
    } else {
        let p = peak_index(counts.drop_last());
        if counts.last() >= counts[p] {
            counts.len() - 1
        } else {
            p
        }
    }
}

/// The position of the highest count is that of no lower one than any other.
pub proof fn peak_is_highest(counts: Seq<i64>)
    requires
        counts.len() > 0,
    ensures
        0 <= peak_index(counts) < counts.len(),
        forall|i: int| 0 <= i < counts.len() ==> #[trigger] counts[i] <= counts[peak_index(counts)],
        forall|i: int| peak_index(counts) < i < counts.len() ==> #[trigger] counts[i] < counts[peak_index(counts)],
    decreases counts.len(),
{
    if counts.len() > 1 {
        let less = counts.drop_last();
        peak_is_highest(less);
        assert forall|i: int| 0 <= i < counts.len() - 1 implies #[trigger] counts[i] <= less[peak_index(less)] by {
            assert(counts[i] == less[i]);
        }
        assert forall|i: int| peak_index(less) < i < counts.len() - 1 implies #[trigger] counts[i] < less[peak_index(
            less,
        )] by {
            assert(counts[i] == less[i]);
        }
    }
}

/// The position of the highest count, the last of them where there are several.
fn peak_index_of(points: &Vec<TrendPoint>) -> (p: usize)
    requires
        points@.len() > 0,
    ensures
        p == peak_index(trend::counts(points@)),
        p < points@.len(),
{
    let ghost all = trend::counts(points@);
    let mut p: usize = 0;
    let mut i: usize = 1;
    while i < points.len()
        invariant
            1 <= i <= points@.len(),
            all == trend::counts(points@),
            p == peak_index(all.take(i as int)),
            p < i,
        decreases points@.len() - i,
    {
        assert(all.take(i + 1).drop_last() =~= all.take(i as int));
        if points[i].count >= points[p].count {
            p = i;
        }
        i = i + 1;
    }
    assert(all.take(i as int) =~= all);
    p
}

/// The mark of the highest point.
pub open spec fn peak_mark(p: TrendPoint, x: Seq<char>, y: Seq<char>, label_y: Seq<char>) -> Seq<char> {
    "<circle cx=\""@ + x + "\" cy=\""@ + y + "\" r=\"3\" class=\"pk\"/><text x=\""@ + x + "\" y=\""@
        + label_y + "\" class=\"pk-l\">"@ + markup::escaped(p.label@) + " · "@
        + text::numeral(p.count as int) + "</text>"@
}

/// The mark of the highest point.
fn peak_mark_of(p: &TrendPoint, x: &str, y: &str, label_y: &str) -> (out: String)
    ensures
        out@ == peak_mark(*p, x@, y@, label_y@),
{
    let mut out = "<circle cx=\"".to_string();
    out.append(x);
    out.append("\" cy=\"");
    out.append(y);
    out.append("\" r=\"3\" class=\"pk\"/><text x=\"");
    out.append(x);
    out.append("\" y=\"");
    out.append(label_y);
    out.append("\" class=\"pk-l\">");
    out.append(markup::esc(p.label.as_str()).as_str());
    out.append(" · ");
    out.append(text::numeral_of(p.count).as_str());
    out.append("</text>");
    out
}

/// What is shown of a point.
pub open spec fn point_tip(p: TrendPoint) -> Seq<char> {
    p.label@ + " · "@ + text::numeral(p.count as int) + " 条"@
}

/// What is shown of a point.
fn point_tip_of(p: &TrendPoint) -> (out: String)
    ensures
        out@ == point_tip(*p),
{
    let mut out = p.label.as_str().to_string();
    out.append(" · ");
    out.append(text::numeral_of(p.count).as_str());
    out.append(" 条");
    out
}

/// The mark of a point.
pub open spec fn dot(p: TrendPoint, x: Seq<char>, y: Seq<char>) -> Seq<char> {
    "<circle class=\"dot\" cx=\""@ + x + "\" cy=\""@ + y + "\" r=\"9\" data-tip=\""@
        + markup::escaped(point_tip(p)) + "\"/>"@
}

/// The mark of a point.
fn dot_of(p: &TrendPoint, x: &str, y: &str) -> (out: String)
    ensures
        out@ == dot(*p, x@, y@),
{
    let mut out = "<circle class=\"dot\" cx=\"".to_string();
    out.append(x);
    out.append("\" cy=\"");
    out.append(y);
    out.append("\" r=\"9\" data-tip=\"");
    out.append(markup::esc(point_tip_of(p).as_str()).as_str());
    out.append("\"/>");
    out
}

/// The marks of all points.
pub open spec fn dots(t: TrendSeries, m: TrendMarks) -> Seq<Seq<char>> {
    Seq::new(t.points@.len(), |i: int| dot(t.points@[i], m.x@[i]@, m.y@[i]@))
}

/// The marks of all points.
fn dots_of(t: &TrendSeries, m: &TrendMarks) -> (r: Vec<String>)
    requires
        figures::marks_fit(*t, *m),
    ensures
        text::texts(r@) == dots(*t, *m),
{
    let ghost all = dots(*t, *m);
    let mut r: Vec<String> = Vec::new();
    let mut i: usize = 0;
    assert(text::texts(r@) =~= all.take(0));
    while i < t.points.len()
        invariant
            i <= all.len(),
            all == dots(*t, *m),
            figures::marks_fit(*t, *m),
            text::texts(r@) == all.take(i as int),
        decreases all.len() - i,
    {
        text::put(&mut r, dot_of(&t.points[i], m.x[i].as_str(), m.y[i].as_str()));
        assert(all.take(i + 1) =~= all.take(i as int).push(all[i as int]));
        i = i + 1;
    }
    assert(all.take(i as int) =~= all);
    r
}

/// The labels below the first and the last point.
pub open spec fn axis(first: Seq<char>, last: Seq<char>, from: Seq<char>, to: Seq<char>) -> Seq<char> {
    "<text x=\""@ + from + "\" y=\"170.0\" class=\"ax\">"@ + markup::escaped(first)
        + "</text><text x=\""@ + to + "\" y=\"170.0\" class=\"ax\" text-anchor=\"end\">"@
        + markup::escaped(last) + "</text>"@
}

/// The labels below the first and the last point.
fn axis_of(first: &str, last: &str, from: &str, to: &str) -> (out: String)
    ensures
        out@ == axis(first@, last@, from@, to@),
{
    let mut out = "<text x=\"".to_string();
    out.append(from);
    out.append("\" y=\"170.0\" class=\"ax\">");
    out.append(markup::esc(first).as_str());
    out.append("</text><text x=\"");
    out.append(to);
    out.append("\" y=\"170.0\" class=\"ax\" text-anchor=\"end\">");
    out.append(markup::esc(last).as_str());
    out.append("</text>");
    out
}

/// The marks of the chart above its line: all points, the highest, and the labels of the axis.
pub open spec fn trend_marks(t: TrendSeries, m: TrendMarks) -> Seq<char> {
    let p = peak_index(trend::counts(t.points@));
    text::joined(dots(t, m), ""@) + peak_mark(t.points@[p], m.x@[p]@, m.y@[p]@, m.label_y@) + axis(
        t.points@[0].label@,
        t.points@.last().label@,
        m.x@[0]@,
        m.x@.last()@,
    )
}

/// The marks of the chart above its line: all points, the highest, and the labels of the axis.
fn trend_marks_of(t: &TrendSeries, m: &TrendMarks) -> (r: String)
    requires
        figures::marks_fit(*t, *m),
        t.points@.len() > 0,
    ensures
        r@ == trend_marks(*t, *m),
{
    let p = peak_index_of(&t.points);
    let n = t.points.len();
    let mut r = text::join(&dots_of(t, m), "");
    r.append(peak_mark_of(&t.points[p], m.x[p].as_str(), m.y[p].as_str(), m.label_y.as_str()).as_str());
    r.append(
        axis_of(
            t.points[0].label.as_str(),
            t.points[n - 1].label.as_str(),
            m.x[0].as_str(),
            m.x[n - 1].as_str(),
        ).as_str(),
    );
    r
}

/// The chart of a series of two points or more.
pub open spec fn chart(t: TrendSeries, suffix: Seq<char>, m: TrendMarks) -> Seq<char> {
    "<div class=\"tr-cap\">按"@ + t.kind@ + "看 · <span class=\"tag tag-"@ + tag_style(t.tag@) + "\">"@
        + t.tag@
        + "</span></div><svg class=\"trend\" viewBox=\"0 0 740 180\" preserveAspectRatio=\"xMidYMid meet\"><defs><linearGradient id=\"tg-"@
        + suffix
        + "\" x1=\"0\" y1=\"0\" x2=\"0\" y2=\"1\"><stop offset=\"0\" stop-color=\"var(--me)\" stop-opacity=\"0.4\"/><stop offset=\"1\" stop-color=\"var(--me)\" stop-opacity=\"0.04\"/></linearGradient></defs><path d=\""@
        + area_path(m) + "\" fill=\"url(#tg-"@ + suffix + ")\"/><path d=\""@ + line_path(m.x@, m.y@)
        + "\" fill=\"none\" stroke=\"var(--me)\" stroke-width=\"2\" stroke-linejoin=\"round\"/>"@
        + trend_marks(t, m) + "</svg>"@
}

/// The chart of a series of two points or more.
fn chart_of(t: &TrendSeries, suffix: &str, m: &TrendMarks) -> (out: String)
    requires
        figures::marks_fit(*t, *m),
        t.points@.len() > 0,
    ensures
        out@ == chart(*t, suffix@, *m),
{
    let mut out = "<div class=\"tr-cap\">按".to_string();
    out.append(t.kind);
    out.append("看 · <span class=\"tag tag-");
    out.append(tag_cls(t.tag));
    out.append("\">");
    out.append(t.tag);
    out.append("</span></div><svg class=\"trend\" viewBox=\"0 0 740 180\" preserveAspectRatio=\"xMidYMid meet\"><defs><linearGradient id=\"tg-");
    out.append(suffix);
    out.append("\" x1=\"0\" y1=\"0\" x2=\"0\" y2=\"1\"><stop offset=\"0\" stop-color=\"var(--me)\" stop-opacity=\"0.4\"/><stop offset=\"1\" stop-color=\"var(--me)\" stop-opacity=\"0.04\"/></linearGradient></defs><path d=\"");
    out.append(area_path_of(m).as_str());
    out.append("\" fill=\"url(#tg-");
    out.append(suffix);
    out.append(")\"/><path d=\"");
    out.append(line_path_of(&m.x, &m.y).as_str());
    out.append("\" fill=\"none\" stroke=\"var(--me)\" stroke-width=\"2\" stroke-linejoin=\"round\"/>");
    out.append(trend_marks_of(t, m).as_str());
    out.append("</svg>");
    out
}

/// The chart of a series, where it has two points or more.
pub open spec fn trend_markup(t: TrendSeries, suffix: Seq<char>, m: TrendMarks) -> Seq<char> {
    if t.points@.len() < 2 {
        ""@
    } else {
        chart(t, suffix, m)
    }
}

/// The chart of a series, where it has two points or more.
pub fn one_trend_svg(t: &TrendSeries, suffix: &str, m: &TrendMarks) -> (r: String)
    requires
        figures::marks_fit(*t, *m),
    ensures
        r@ == trend_markup(*t, suffix@, *m),
{
    if t.points.len() < 2 {
        "".to_string()
    } else {
        chart_of(t, suffix, m)
    }
}

/// The chart of a series, where there is one.
pub open spec fn pane(t: Option<TrendSeries>, suffix: Seq<char>, m: TrendMarks) -> Seq<char> {
    match t {
        Some(t) => trend_markup(t, suffix, m),
        None => ""@,
    }
}

/// The chart of a series, where there is one.
fn pane_of(t: &Option<TrendSeries>, suffix: &str, m: &TrendMarks) -> (r: String)
    requires
        figures::trend_fits(*t, *m),
    ensures
        r@ == pane(*t, suffix@, *m),
{
    match t {
        Some(t) => one_trend_svg(t, suffix, m),
        None => "".to_string(),
    }
}

/// The charts by week and by month, one shown at a time.
pub open spec fn panes(w: Seq<char>, m: Seq<char>) -> Seq<char> {
    "<section><h2>📈 热度趋势<span class=\"tr-toggle\"><button type=\"button\" class=\"tr-btn active\" data-show=\"tr-w\">按周</button><button type=\"button\" class=\"tr-btn\" data-show=\"tr-m\">按月</button></span></h2><div id=\"tr-w\" class=\"tr-pane\">"@
        + w + "</div><div id=\"tr-m\" class=\"tr-pane\" style=\"display:none\">"@ + m
        + "</div></section>"@
}

/// The charts by week and by month, one shown at a time.
fn panes_of(w: &str, m: &str) -> (out: String)
    ensures
        out@ == panes(w@, m@),
{
    let mut out = "<section><h2>📈 热度趋势<span class=\"tr-toggle\"><button type=\"button\" class=\"tr-btn active\" data-show=\"tr-w\">按周</button><button type=\"button\" class=\"tr-btn\" data-show=\"tr-m\">按月</button></span></h2><div id=\"tr-w\" class=\"tr-pane\">".to_string();
    out.append(w);
    out.append("</div><div id=\"tr-m\" class=\"tr-pane\" style=\"display:none\">");
    out.append(m);
    out.append("</div></section>");
    out
}

/// There is a chart to show.
pub open spec fn is_charted(t: Option<TrendSeries>) -> bool {
    match t {
        Some(t) => t.points@.len() >= 2,
        None => false,
    }
}

/// The charts by week and by month, where there is one to show.
pub open spec fn trend_section_markup(weekly: Option<TrendSeries>, monthly: Option<TrendSeries>, f: Figures) -> Seq<char> {
    if is_charted(weekly) || is_charted(monthly) {
        panes(pane(weekly, "w"@, f.weekly), pane(monthly, "m"@, f.monthly))
    } else {
        ""@
    }
}

/// There is a chart to show.
fn is_charted_of(t: &Option<TrendSeries>) -> (b: bool)
    ensures
        b == is_charted(*t),
{
    match t {
        Some(t) => t.points.len() >= 2,
        None => false,
    }
}

/// The charts by week and by month, where there is one to show.
pub fn trend_section(weekly: &Option<TrendSeries>, monthly: &Option<TrendSeries>, f: &Figures) -> (r: String)
    requires
        figures::trend_fits(*weekly, f.weekly),
        figures::trend_fits(*monthly, f.monthly),
    ensures
        r@ == trend_section_markup(*weekly, *monthly, *f),
{
    if is_charted_of(weekly) || is_charted_of(monthly) {
        panes_of(pane_of(weekly, "w", &f.weekly).as_str(), pane_of(monthly, "m", &f.monthly).as_str())
    } else {
        "".to_string()
    }
}

/// The label below an hour.
pub open spec fn hour_label(x: Seq<char>, hour: Seq<char>) -> Seq<char> {
    "<text x=\""@ + x + "\" y=\"112.0\" class=\"ax\">"@ + hour + "</text>"@
}

/// The label below an hour.
fn hour_label_of(x: &str, hour: &str) -> (out: String)
    ensures
        out@ == hour_label(x@, hour@),
{
    let mut out = "<text x=\"".to_string();
    out.append(x);
    out.append("\" y=\"112.0\" class=\"ax\">");
    out.append(hour);
    out.append("</text>");
    out
}

/// The messages of either side by the hour, as two lines.
pub open spec fn rhythm_markup(m: RhythmMarks) -> Seq<char> {
    "<div class=\"bio\"><h4>🕐 聊天生物钟（0–23 点）<span class=\"lg\"><button class=\"lg-i me\" data-line=\"me\" type=\"button\">● 我</button><button class=\"lg-i them\" data-line=\"them\" type=\"button\">● ta</button></span></h4><svg class=\"trend\" viewBox=\"0 0 720 120\" preserveAspectRatio=\"xMidYMid meet\"><path class=\"bio-me\" d=\""@
        + line_path(m.x@, m.me@)
        + "\" fill=\"none\" stroke=\"var(--me)\" stroke-width=\"2\" stroke-linejoin=\"round\"/><path class=\"bio-them\" d=\""@
        + line_path(m.x@, m.them@)
        + "\" fill=\"none\" stroke=\"var(--them)\" stroke-width=\"2\" stroke-linejoin=\"round\"/>"@
        + hour_label(m.x@[0]@, "0"@) + hour_label(m.x@[6]@, "6"@) + hour_label(m.x@[12]@, "12"@)
        + hour_label(m.x@[18]@, "18"@) + hour_label(m.x@[23]@, "23"@) + "</svg></div>"@
}

/// The messages of either side by the hour, as two lines.
pub fn biorhythm_svg(m: &RhythmMarks) -> (out: String)
    requires
        figures::rhythm_fits(*m),
    ensures
        out@ == rhythm_markup(*m),
{
    let mut out = "<div class=\"bio\"><h4>🕐 聊天生物钟（0–23 点）<span class=\"lg\"><button class=\"lg-i me\" data-line=\"me\" type=\"button\">● 我</button><button class=\"lg-i them\" data-line=\"them\" type=\"button\">● ta</button></span></h4><svg class=\"trend\" viewBox=\"0 0 720 120\" preserveAspectRatio=\"xMidYMid meet\"><path class=\"bio-me\" d=\"".to_string();
    out.append(line_path_of(&m.x, &m.me).as_str());
    out.append("\" fill=\"none\" stroke=\"var(--me)\" stroke-width=\"2\" stroke-linejoin=\"round\"/><path class=\"bio-them\" d=\"");
    out.append(line_path_of(&m.x, &m.them).as_str());
    out.append("\" fill=\"none\" stroke=\"var(--them)\" stroke-width=\"2\" stroke-linejoin=\"round\"/>");
    out.append(hour_label_of(m.x[0].as_str(), "0").as_str());
    out.append(hour_label_of(m.x[6].as_str(), "6").as_str());
    out.append(hour_label_of(m.x[12].as_str(), "12").as_str());
    out.append(hour_label_of(m.x[18].as_str(), "18").as_str());
    out.append(hour_label_of(m.x[23].as_str(), "23").as_str());
    out.append("</svg></div>");
    out
}

/// The count of a day, or that there is none.
pub open spec fn count_or_none(n: i64) -> Seq<char> {
    if n > 0 {
        text::numeral(n as int)
    } else {
        "无"@
    }
}

/// The count of a day, or that there is none.
fn count_or_none_of(n: i64) -> (r: String)
    ensures
        r@ == count_or_none(n),
{
    if n > 0 {
        text::numeral_of(n)
    } else {
        "无".to_string()
    }
}

/// What is shown of a day.
pub open spec fn day_tip(date: Seq<char>, n: i64) -> Seq<char> {
    markup::month_day(date) + " · "@ + count_or_none(n) + " 条"@
}

/// What is shown of a day.
fn day_tip_of(date: &str, n: i64) -> (out: String)
    ensures
        out@ == day_tip(date@, n),
{
    let mut out = markup::cn_date(date);
    out.append(" · ");
    out.append(count_or_none_of(n).as_str());
    out.append(" 条");
    out
}

/// The cell of a day.
pub open spec fn cell(date: Seq<char>, n: i64, max: i64) -> Seq<char> {
    "<i class=\"hm-c lv"@ + text::numeral(markup::shade(n as int, max as int)) + "\" data-tip=\""@
        + markup::escaped(day_tip(date, n)) + "\" data-date=\""@ + date + "\" data-count=\""@
        + text::numeral(n as int) + "\"></i>"@
}

/// The cell of a day.
fn cell_of(date: &str, n: i64, max: i64) -> (out: String)
    ensures
        out@ == cell(date@, n, max),
{
    let mut out = "<i class=\"hm-c lv".to_string();
    out.append(text::numeral_of(markup::level(n, max)).as_str());
    out.append("\" data-tip=\"");
    out.append(markup::esc(day_tip_of(date, n).as_str()).as_str());
    out.append("\" data-date=\"");
    out.append(date);
    out.append("\" data-count=\"");
    out.append(text::numeral_of(n).as_str());
    out.append("\"></i>");
    out
}

/// The cells of all days.
pub open spec fn cells(h: Heatmap) -> Seq<Seq<char>> {
    Seq::new(h.cells@.len(), |i: int| cell(h.cells@[i].0@, h.cells@[i].1, h.max))
}

/// The cells of all days.
fn cells_of(h: &Heatmap) -> (r: Vec<String>)
    ensures
        text::texts(r@) == cells(*h),
{
    let ghost all = cells(*h);
    let mut r: Vec<String> = Vec::new();
    let mut i: usize = 0;
    assert(text::texts(r@) =~= all.take(0));
    while i < h.cells.len()
        invariant
            i <= all.len(),
            all == cells(*h),
            text::texts(r@) == all.take(i as int),
        decreases all.len() - i,
    {
        text::put(&mut r, cell_of(h.cells[i].0.as_str(), h.cells[i].1, h.max));
        assert(all.take(i + 1) =~= all.take(i as int).push(all[i as int]));
        i = i + 1;
    }
    assert(all.take(i as int) =~= all);
    r
}

/// The label above each of `n` columns: those given, the last one given for a column, else none.
pub open spec fn month_row(labels: Seq<(usize, String)>, n: nat) -> Seq<Seq<char>>
    decreases labels.len(),
{
    if labels.len() == 0 {
        Seq::new(n, |i: int| ""@)
    } else {
        let before = month_row(labels.drop_last(), n);
        let (column, label) = labels.last();
        if column < n {
            before.update(column as int, label@)
        } else {
            before
        }
    }
}

/// A row of `n` empty labels.
fn empty_row(n: usize) -> (r: Vec<String>)
    ensures
        text::texts(r@) == Seq::new(n as nat, |i: int| ""@),
{
    let ghost all = Seq::new(n as nat, |i: int| ""@);
    let mut r: Vec<String> = Vec::new();
    let mut i: usize = 0;
    assert(text::texts(r@) =~= all.take(0));
    while i < n
        invariant
            i <= n,
            all == Seq::new(n as nat, |i: int| ""@),
            text::texts(r@) == all.take(i as int),
        decreases n - i,
    {
        text::put(&mut r, "".to_string());
        assert(all.take(i + 1) =~= all.take(i as int).push(all[i as int]));
        i = i + 1;
    }
    assert(all.take(i as int) =~= all);
    r
}

/// The label above each of `n` columns.
fn month_row_of(labels: &Vec<(usize, String)>, n: usize) -> (r: Vec<String>)
    ensures
        text::texts(r@) == month_row(labels@, n as nat),
{
    let mut r = empty_row(n);
    let mut i: usize = 0;
    assert(r@.len() == text::texts(r@).len());
    assert(labels@.take(0) =~= Seq::empty());
    while i < labels.len()
        invariant
            i <= labels@.len(),
            r@.len() == n,
            text::texts(r@) == month_row(labels@.take(i as int), n as nat),
        decreases labels@.len() - i,
    {
        let column = labels[i].0;
        assert(labels@.take(i + 1).drop_last() =~= labels@.take(i as int));
        if column < n {
            let ghost before = r@;
            let label = labels[i].1.clone();
            r.set(column, label);
            assert(text::texts(r@) =~= text::texts(before).update(column as int, label@));
        }
        i = i + 1;
    }
    assert(labels@.take(i as int) =~= labels@);
    r
}

/// The label above a column.
pub open spec fn month_cell(label: Seq<char>) -> Seq<char> {
    "<i class=\"hm-m\">"@ + markup::escaped(label) + "</i>"@
}

/// The label above a column.
fn month_cell_of(label: &str) -> (out: String)
    ensures
        out@ == month_cell(label@),
{
    let mut out = "<i class=\"hm-m\">".to_string();
    out.append(markup::esc(label).as_str());
    out.append("</i>");
    out
}

/// The labels above all columns.
pub open spec fn month_cells(labels: Seq<Seq<char>>) -> Seq<Seq<char>> {
    Seq::new(labels.len(), |i: int| month_cell(labels[i]))
}

/// The labels above all columns.
fn month_cells_of(labels: &Vec<String>) -> (r: Vec<String>)
    ensures
        text::texts(r@) == month_cells(text::texts(labels@)),
{
    let ghost all = month_cells(text::texts(labels@));
    let mut r: Vec<String> = Vec::new();
    let mut i: usize = 0;
    assert(text::texts(r@) =~= all.take(0));
    while i < labels.len()
        invariant
            i <= labels@.len(),
            all == month_cells(text::texts(labels@)),
            text::texts(r@) == all.take(i as int),
        decreases labels@.len() - i,
    {
        text::put(&mut r, month_cell_of(labels[i].as_str()));
        assert(all.take(i + 1) =~= all.take(i as int).push(all[i as int]));
        i = i + 1;
    }
    assert(all.take(i as int) =~= all);
    r
}

/// The grid of days.
pub open spec fn heat_box(h: Heatmap) -> Seq<char> {
    "<section><h2>🗓️ 全年热力图（"@ + text::numeral(h.active_days as int) + " / "@
        + text::numeral(h.span_days as int)
        + " 天有聊天）</h2><div class=\"hm\"><div class=\"hm-wdc\"><i class=\"hm-wd\">一</i><i class=\"hm-wd\">二</i><i class=\"hm-wd\">三</i><i class=\"hm-wd\">四</i><i class=\"hm-wd\">五</i><i class=\"hm-wd\">六</i><i class=\"hm-wd\">日</i></div><div class=\"hm-right\"><div class=\"hm-months\">"@
        + text::joined(month_cells(month_row(h.month_labels@, h.weeks as nat)), ""@)
        + "</div><div class=\"hm-grid\">"@ + text::joined(cells(h), ""@)
        + "</div></div></div><div class=\"hm-leg\">少 <i class=\"hm-c lv0\"></i><i class=\"hm-c lv1\"></i><i class=\"hm-c lv2\"></i><i class=\"hm-c lv3\"></i><i class=\"hm-c lv4\"></i> 多</div><div class=\"hm-info\" id=\"hm-info\">点击任意格子查看那一天 →</div></section>"@
}

/// The grid of days.
fn heat_box_of(h: &Heatmap) -> (out: String)
    ensures
        out@ == heat_box(*h),
{
    let mut out = "<section><h2>🗓️ 全年热力图（".to_string();
    out.append(text::numeral_of(h.active_days).as_str());
    out.append(" / ");
    out.append(text::numeral_of(h.span_days).as_str());
    out.append(" 天有聊天）</h2><div class=\"hm\"><div class=\"hm-wdc\"><i class=\"hm-wd\">一</i><i class=\"hm-wd\">二</i><i class=\"hm-wd\">三</i><i class=\"hm-wd\">四</i><i class=\"hm-wd\">五</i><i class=\"hm-wd\">六</i><i class=\"hm-wd\">日</i></div><div class=\"hm-right\"><div class=\"hm-months\">");
    out.append(text::join(&month_cells_of(&month_row_of(&h.month_labels, h.weeks)), "").as_str());
    out.append("</div><div class=\"hm-grid\">");
    out.append(text::join(&cells_of(h), "").as_str());
    out.append("</div></div></div><div class=\"hm-leg\">少 <i class=\"hm-c lv0\"></i><i class=\"hm-c lv1\"></i><i class=\"hm-c lv2\"></i><i class=\"hm-c lv3\"></i><i class=\"hm-c lv4\"></i> 多</div><div class=\"hm-info\" id=\"hm-info\">点击任意格子查看那一天 →</div></section>");
    out
}

/// The grid of days, where it has any.
pub open spec fn heatmap_markup(h: Heatmap) -> Seq<char> {
    if h.cells@.len() == 0 {
        ""@
    } else {
        heat_box(h)
    }
}

/// The grid of days, where it has any.
pub fn heatmap_html(h: &Heatmap) -> (r: String)
    ensures
        r@ == heatmap_markup(*h),
{
    if h.cells.len() == 0 {
        "".to_string()
    } else {
        heat_box_of(h)
    }
}

}
