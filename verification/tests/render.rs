use wechat_statistics::couple::{compute, CoupleReport, TextMetrics};
use wechat_statistics::curios::{self, Curios, First, ScoreInputs, Share};
use wechat_statistics::lexical::WordFreq;
use wechat_statistics::model::Conversation;
use wechat_statistics::render::charts::{biorhythm_svg, heatmap_html, one_trend_svg, tag_cls, trend_section};
use wechat_statistics::render::curios::curios_html;
use wechat_statistics::render::figures::{Figures, RhythmMarks, TrendMarks};
use wechat_statistics::render::markup::{cn_date, esc, level, percent_filled};
use wechat_statistics::render::parts::{
    bar_line, bar_row, card, cards_html, chips, cloud_html, dig_html, keywords_html, reply_html, topwords_html,
};
use wechat_statistics::render::slides::build_slides;
use wechat_statistics::render::{couple_html, couple_slides};
use wechat_statistics::trend::{Heatmap, TrendPoint, TrendSeries};

fn texts(n: usize, t: &str) -> Vec<String> {
    vec![t.to_string(); n]
}

fn no_marks() -> TrendMarks {
    TrendMarks { x: vec![], y: vec![], label_y: String::new() }
}

fn figures() -> Figures {
    Figures {
        my_share: "60.0".to_string(),
        other_share: "40.0".to_string(),
        active: "50".to_string(),
        my_quick: "1.0".to_string(),
        other_quick: "2.0".to_string(),
        my_fast: "3.0".to_string(),
        other_fast: "4.0".to_string(),
        my_open: "5.0".to_string(),
        other_open: "95.0".to_string(),
        cloud: vec![],
        weekly: no_marks(),
        monthly: no_marks(),
        rhythm: RhythmMarks { x: texts(24, "1.0"), me: texts(24, "2.0"), them: texts(24, "3.0") },
    }
}

fn report() -> CoupleReport {
    let mut r = compute(&[], Some(0), None);
    r.total = 5;
    r.my_count = 3;
    r.other_count = 2;
    r
}

fn facts() -> Curios {
    let sc = ScoreInputs {
        total: 4000,
        my_count: 2000,
        other_count: 2000,
        longest_streak: 10,
        active_ratio: Share { part: 5, whole: 10 },
        my_quick: Share { part: 7, whole: 10 },
        other_quick: Share { part: 7, whole: 10 },
    };
    curios::compute(&[], &[], Some(0), &sc)
}

fn conv() -> Conversation {
    Conversation { username: "a".to_string(), db_stems: vec![], table_name: "t".to_string(), msg_count: None }
}

fn point(label: &str, count: i64) -> TrendPoint {
    TrendPoint { label: label.to_string(), count }
}

#[test]
fn escaped_text_is_inert_in_a_page() {
    assert_eq!(esc("a<b>&\"c\""), "a&lt;b&gt;&amp;&quot;c&quot;");
    assert_eq!(esc("&lt;"), "&amp;lt;");
    assert_eq!(esc(""), "");
}

#[test]
fn months_and_days() {
    assert_eq!(cn_date("2025-06-22"), "6月22日");
    assert_eq!(cn_date("2025"), "0月0日");
    assert_eq!(cn_date("2025-x-7"), "0月7日");
}

#[test]
fn shades_by_quarters() {
    assert_eq!([0, 1, 24, 25, 49, 50, 74, 75, 100].map(|c| level(c, 100)), [0, 1, 1, 2, 2, 3, 3, 4, 4]);
    assert_eq!(level(3, 0), 0);
}

#[test]
fn styles_of_tags() {
    assert_eq!(["升温", "降温", "平稳", "未知"].map(tag_cls), ["up", "down", "flat", "unk"]);
}

#[test]
fn cards_and_bars() {
    assert_eq!(
        card("l", "v", "s"),
        "<div class=\"card\"><div class=\"card-val\">v</div><div class=\"card-label\">l</div>s</div>"
    );
    assert_eq!(
        bar_line("me", "我", "12.5"),
        "<div class=\"rbi\"><span class=\"who me\">我</span><div class=\"rb\"><span class=\"me\" style=\"width:12.5%\"></span></div><i>12.5%</i></div>"
    );
    assert!(bar_row("a<b", "1.0", "2.0").starts_with("<div class=\"reply-row\"><div class=\"reply-label\">a&lt;b</div>"));
    let mut r = report();
    r.longest_streak = 7;
    r.peak_day = Some(("2024-01-01".to_string(), 9));
    let html = cards_html(&r, &figures());
    assert!(html.starts_with("<div class=\"cards\"><div class=\"card\"><div class=\"card-val\">7</div><div class=\"card-label\">🔥 最长连续</div><div class=\"card-sub\">当前已中断</div></div>"));
    assert!(html.contains("<div class=\"card-val\">2024-01-01</div><div class=\"card-label\">🎉 最嗨一天</div><div class=\"card-sub\">9 条</div>"));
    assert!(html.ends_with("<div class=\"card-val\">0 / 0</div><div class=\"card-label\">📅 活跃</div><div class=\"card-sub\">50% 有交流</div></div></div>"));
}

#[test]
fn replies_need_a_sample() {
    let mut r = report();
    assert_eq!(reply_html(&r, &figures()), "<p class='muted'>无回复样本</p>");
    r.my_reply_count = 1;
    assert!(reply_html(&r, &figures()).contains("秒回率（30s）"));
}

#[test]
fn words_of_the_cloud() {
    let mut r = report();
    assert_eq!(cloud_html(&r, &figures()), "<p class='muted'>未计算高频词（加 --words N）</p>");
    assert_eq!(topwords_html(&r), "");
    r.words = Some(WordFreq { overall: vec![], mine: vec![], theirs: vec![] });
    assert_eq!(cloud_html(&r, &figures()), "<p class='muted'>无文本</p>");
    r.words = Some(WordFreq {
        overall: vec![("爬山".to_string(), 4), ("<b>".to_string(), 1)],
        mine: vec![("爬山".to_string(), 4)],
        theirs: vec![],
    });
    let mut f = figures();
    f.cloud = vec![("46".to_string(), "1.00".to_string()), ("22".to_string(), "0.66".to_string())];
    assert_eq!(
        cloud_html(&r, &f),
        "<div class=\"cloud\"><span style=\"font-size:46px;opacity:1.00\">爬山 <i>4</i></span>\n<span style=\"font-size:22px;opacity:0.66\">&lt;b&gt; <i>1</i></span></div>"
    );
    assert_eq!(chips(&vec![("a".to_string(), 1), ("b".to_string(), 2)]), "<span class=\"chip\">a<i>1</i></span><span class=\"chip\">b<i>2</i></span>");
    assert!(topwords_html(&r).contains("<span class='muted'>无</span>"));
}

#[test]
fn at_most_twelve_keywords() {
    let mut r = report();
    assert_eq!(keywords_html(&r), "");
    let keywords = (0..15).map(|i| (format!("k{i}"), i, 1)).collect();
    r.text = Some(TextMetrics { my_chars: 1, other_chars: 2, longest: None, keywords });
    let html = keywords_html(&r);
    assert_eq!(html.matches("<tr><td>").count(), 12);
    assert!(html.contains("<tr><td>k11</td><td class=\"me\">11</td><td class=\"them\">1</td></tr></tbody>"));
}

#[test]
fn in_depth_or_not() {
    let mut r = report();
    assert_eq!(dig_html(&r, &figures()), "");
    r.dig = Some(wechat_statistics::dig::compute(&[], 0, false));
    let html = dig_html(&r, &figures());
    assert!(html.contains("style=\"width:5.0%\"") && html.contains("style=\"width:95.0%\""));
    assert_eq!(html.matches("<span class='muted'>无样本</span>").count(), 2);
    assert_eq!(html.matches("<span class='muted'>—</span>").count(), 2);
}

fn series() -> TrendSeries {
    TrendSeries {
        kind: "周",
        points: vec![point("01-01", 2), point("01-08", 4), point("01-15", 4), point("01-22", 1)],
        total: 11,
        peak: Some(point("01-15", 4)),
        tag: "平稳",
    }
}

fn marks() -> TrendMarks {
    TrendMarks {
        x: ["16.0", "252.0", "488.0", "724.0"].map(|t| t.to_string()).to_vec(),
        y: ["85.0", "18.0", "18.0", "118.5"].map(|t| t.to_string()).to_vec(),
        label_y: "10.0".to_string(),
    }
}

#[test]
fn the_chart_of_a_series() {
    let svg = one_trend_svg(&series(), "w", &marks());
    assert!(svg.starts_with("<div class=\"tr-cap\">按周看 · <span class=\"tag tag-flat\">平稳</span></div>"));
    assert!(svg.contains("<path d=\"M16.0 85.0 L252.0 18.0 L488.0 18.0 L724.0 118.5\" fill=\"none\""));
    assert!(svg.contains("L724.0 118.5 L 724.0 152.0 L 16.0 152.0 Z\" fill=\"url(#tg-w)\"/>"));
    assert!(svg.contains("<circle cx=\"488.0\" cy=\"18.0\" r=\"3\" class=\"pk\"/><text x=\"488.0\" y=\"10.0\" class=\"pk-l\">01-15 · 4</text>"));
    assert!(svg.contains("data-tip=\"01-22 · 1 条\"/>"));
    assert!(svg.ends_with("<text x=\"16.0\" y=\"170.0\" class=\"ax\">01-01</text><text x=\"724.0\" y=\"170.0\" class=\"ax\" text-anchor=\"end\">01-22</text></svg>"));
}

#[test]
fn a_chart_needs_two_points() {
    let mut short = series();
    short.points.truncate(1);
    let one = TrendMarks { x: texts(1, "16.0"), y: texts(1, "18.0"), label_y: "10.0".to_string() };
    assert_eq!(one_trend_svg(&short, "w", &one), "");
    let mut f = figures();
    f.weekly = one;
    assert_eq!(trend_section(&Some(short), &None, &f), "");
    f.weekly = marks();
    let html = trend_section(&Some(series()), &None, &f);
    assert!(html.starts_with("<section><h2>📈 热度趋势") && html.contains("id=\"tg-w\""));
    assert!(html.ends_with("style=\"display:none\"></div></section>"));
}

#[test]
fn two_lines_over_the_hours() {
    let svg = biorhythm_svg(&figures().rhythm);
    assert!(svg.contains("<path class=\"bio-me\" d=\"M1.0 2.0 L1.0 2.0"));
    assert!(svg.contains("<path class=\"bio-them\" d=\"M1.0 3.0 L1.0 3.0"));
    assert_eq!(svg.matches("y=\"112.0\"").count(), 5);
    assert!(svg.contains("class=\"ax\">23</text></svg></div>"));
}

#[test]
fn the_grid_of_days() {
    let h = Heatmap {
        weeks: 2,
        cells: vec![("2024-01-01".to_string(), 4), ("2024-01-02".to_string(), 0)],
        max: 4,
        month_labels: vec![(0, "1月".to_string()), (5, "9月".to_string())],
        active_days: 1,
        span_days: 2,
    };
    let html = heatmap_html(&h);
    assert!(html.starts_with("<section><h2>🗓️ 全年热力图（1 / 2 天有聊天）</h2>"));
    assert!(html.contains("<i class=\"hm-m\">1月</i><i class=\"hm-m\"></i></div>"));
    assert!(html.contains("<i class=\"hm-c lv4\" data-tip=\"1月1日 · 4 条\" data-date=\"2024-01-01\" data-count=\"4\"></i>"));
    assert!(html.contains("<i class=\"hm-c lv0\" data-tip=\"1月2日 · 无 条\" data-date=\"2024-01-02\" data-count=\"0\"></i>"));
    assert!(!html.contains("9月"));
    let none = Heatmap { weeks: 0, cells: vec![], max: 0, month_labels: vec![], active_days: 0, span_days: 0 };
    assert_eq!(heatmap_html(&none), "");
}

#[test]
fn curious_facts_in_a_page() {
    let mut c = facts();
    c.firsts = vec![
        First { label: "第一<次>".to_string(), when: Some("2024-01-01".to_string()), who: Some("我"), snippet: Some("想你\"".to_string()) },
        First { label: "没有".to_string(), when: None, who: None, snippet: None },
    ];
    let html = curios_html(&c, &figures());
    assert!(html.starts_with("<section><h2>✨ 趣味统计</h2><div class=\"score\"><div class=\"score-num\">76</div>"));
    assert!(html.contains("<div class=\"sb\"><span>活跃度</span><div class=\"sbb\"><i style=\"width:80%\"></i></div><u>20/25</u></div>"));
    assert!(html.contains("<div class=\"mi\"><span class=\"ml\">第一&lt;次&gt;</span><span class=\"md\">2024-01-01 我 「想你&quot;」</span></div></div>"));
    assert!(html.contains("<div class=\"ccard\"><div class=\"ct\">⏳ 被晾 >6h</div><div class=\"cb\">我 0 · ta 0</div></div>"));
    assert!(!html.contains("没有") && !html.contains("口癖"));
    assert!(html.ends_with("</section>"));
}

#[test]
fn fourteen_slides() {
    let s = build_slides("a<b", &report(), &facts(), &figures());
    assert_eq!(s.len(), 14);
    assert!(s[0].contains("<h1>a&lt;b 的情侣报告</h1><p class=\"sub\">— ~ — · 第 0 天</p><p class=\"big\">5 条消息</p>"));
    assert!(s[1].contains("<div class=\"s-score\">76<span>/100</span></div>"));
    assert!(s[13].contains("5 条消息 · — 字 · 最长连续 0 天 · 温度 76/100"));
    let page = couple_slides(&conv(), "a<b", &report(), &facts(), &figures());
    assert_eq!(page.matches("<div class=\"slide\">").count(), 14);
    assert!(page.contains(&format!("<div class=\"dots\" id=\"dots\">{}</div>", "<i></i>".repeat(14))));
    assert!(page.contains("<title>💑 a&lt;b · 情侣报告</title>"));
    assert!(!page.contains("{{"));
}

#[test]
fn the_whole_page() {
    let page = couple_html(&conv(), "老<王>", &report(), &facts(), &figures());
    assert!(page.starts_with("<!DOCTYPE html>"));
    assert!(page.ends_with("</body></html>"));
    assert!(!page.contains("{{"));
    assert!(page.contains("<title>💑 老&lt;王&gt; 的情侣报告</title>"));
    assert!(page.contains("<span class=\"pill\">💌 5 条消息</span>"));
    assert!(page.contains("style=\"width:60.0%\"></span><span class=\"them\" style=\"width:40.0%\"></span></div><div class=\"bar-legend\"><span>我 3</span><span>ta 2</span></div>"));
    assert!(!page.contains("http"));
}

#[test]
fn pages_hold_no_marks_and_no_addresses() {
    let mut r = report();
    r.first_day = Some("2024-01-02".to_string());
    r.last_day = Some("2024-03-04".to_string());
    for name in ["老王", "a{b}", "{", "/", "a/b"] {
        for page in [
            couple_html(&conv(), name, &r, &facts(), &figures()),
            couple_slides(&conv(), name, &r, &facts(), &figures()),
        ] {
            assert!(!page.contains("{{"), "{name}");
            assert!(!page.contains("//"), "{name}");
        }
    }
    // A name with a mark in it is put in after that mark was replaced.
    assert!(couple_html(&conv(), "{{CSS}}", &r, &facts(), &figures()).contains("<h1>💑 {{CSS}} 的情侣报告</h1>"));
}

/// Counts with few and with many bits.
fn counts() -> Vec<i64> {
    let far = [(1 << 53) - 1, (1 << 53) + 1, (1 << 54) + 3, i64::MAX / 3, i64::MAX / 4, i64::MAX - 1, i64::MAX, i64::MIN];
    (-40..=130).chain(far).collect()
}

#[test]
fn shades_are_those_of_double_precision() {
    for a in counts() {
        for b in counts() {
            let r = a as f64 / b as f64;
            let shade = if a == 0 || b == 0 {
                0
            } else if r < 0.25 {
                1
            } else if r < 0.5 {
                2
            } else if r < 0.75 {
                3
            } else {
                4
            };
            assert_eq!(level(a, b), shade, "{a} {b}");
        }
    }
}

#[test]
fn percents_are_those_of_double_precision() {
    for a in counts() {
        for b in counts() {
            let filled = if b > 0 { (a as f64 / b as f64 * 100.0) as i64 } else { 0 };
            assert_eq!(percent_filled(a, b), filled, "{a} {b}");
        }
    }
    // One short of the exact share.
    assert_eq!(percent_filled(29, 100), 28);
}
