use wechat_statistics::couple::{compute, compute_text, keywords, quick_reply, streaks, CoupleReport};
use wechat_statistics::dig::compute as detail;
use wechat_statistics::model::{MessageFact, TextMessage};
use wechat_statistics::calendar::utc_dt;
use wechat_statistics::story::{whole_story, whole_story_at};
use wechat_statistics::trend::{heatmap, monthly, weekly};

fn f(time: i64, sender: i64, bt: i64) -> MessageFact {
    MessageFact { create_time: time, sender_id: sender, base_type: bt }
}

fn ratio(part: i64, whole: i64) -> f64 {
    if whole > 0 {
        part as f64 / whole as f64
    } else {
        0.0
    }
}

#[test]
fn streak_and_silence() {
    let base = 1735660800;
    let day = 86400;
    let facts = vec![
        f(base, 1, 1),
        f(base + day, 1, 1),
        f(base + 2 * day, 1, 1),
        f(base + 5 * day, 1, 1),
    ];
    let r = compute(&facts, Some(1), None);
    assert_eq!(r.active_days, 4);
    assert_eq!(r.longest_streak, 3);
    assert_eq!(r.longest_silence_days, 2);
    let range = r.longest_silence_range.expect("a silence");
    assert!(range.0 < range.1);
}

#[test]
fn peak_day_and_late_night() {
    let facts = vec![f(1735660800, 1, 1), f(1735660800, 2, 1), f(1735660900, 1, 50)];
    let r = compute(&facts, Some(1), None);
    assert_eq!(r.total, 3);
    assert_eq!(r.call_count, 1);
    assert!(r.late_night_count <= 3);
    assert!(r.peak_day.is_some());
}

#[test]
fn quick_reply_ratios() {
    let facts = vec![f(1000, 2, 1), f(1020, 1, 1), f(1060, 2, 1), f(1180, 1, 1)];
    let r = compute(&facts, Some(1), None);
    assert_eq!(r.my_reply_count, 2);
    assert!((ratio(r.my_quick_replies, r.my_reply_count) - 0.5).abs() < 1e-9);
    assert!((ratio(r.my_fast_replies, r.my_reply_count) - 0.5).abs() < 1e-9);
    assert_eq!(r.other_reply_count, 1);
    assert!((ratio(r.other_fast_replies, r.other_reply_count) - 1.0).abs() < 1e-9);
}

fn sample_texts() -> Vec<TextMessage> {
    vec![
        TextMessage { create_time: 1, sender_id: 1, text: Some("早安宝宝，昨晚想你啦".into()) },
        TextMessage { create_time: 2, sender_id: 2, text: Some("爱你哟".into()) },
        TextMessage { create_time: 3, sender_id: 1, text: Some("哈哈哈".into()) },
        TextMessage { create_time: 4, sender_id: 2, text: None },
    ]
}

#[test]
fn text_metrics_chars_and_keywords() {
    let texts = sample_texts();
    let t = compute_text(&texts, Some(1));
    assert_eq!(t.my_chars, "早安宝宝，昨晚想你啦".chars().count() as i64 + "哈哈哈".chars().count() as i64);
    assert_eq!(t.other_chars, "爱你哟".chars().count() as i64);
    assert_eq!(t.longest.unwrap().0, "早安宝宝，昨晚想你啦".chars().count() as i64);
    let kw_map: std::collections::HashMap<&str, (i64, i64)> =
        t.keywords.iter().map(|(k, me, o)| (k.as_str(), (*me, *o))).collect();
    assert_eq!(kw_map["早安"], (1, 0));
    assert_eq!(kw_map["爱你"], (0, 1));
    assert_eq!(kw_map["哈哈"], (1, 0));
    assert!(!kw_map.contains_key("晚安"));
}

#[test]
fn keywords_come_by_falling_count() {
    let texts: Vec<TextMessage> = ["晚安", "早安", "晚安", "早安晚安"]
        .iter()
        .map(|t| TextMessage { create_time: 1, sender_id: 1, text: Some(t.to_string()) })
        .collect();
    let t = compute_text(&texts, Some(1));
    assert_eq!(t.keywords, vec![("晚安".to_string(), 3, 0), ("早安".to_string(), 2, 0)]);
    assert!(keywords().contains(&"早安"));
}

#[test]
fn the_chars_of_both_sides_are_all_chars() {
    let texts = sample_texts();
    let t = compute_text(&texts, Some(1));
    assert_eq!(t.my_chars + t.other_chars, 10 + 3 + 3);
    let none = compute_text(&texts, None);
    assert_eq!(none.my_chars + none.other_chars, 10 + 3 + 3);
}

#[test]
fn the_first_of_the_longest_texts_counts() {
    let texts: Vec<TextMessage> = (1..4)
        .map(|i| TextMessage { create_time: i, sender_id: i, text: Some("一二三".into()) })
        .collect();
    let (chars, mine, at) = compute_text(&texts, Some(2)).longest.unwrap();
    assert_eq!(chars, 3);
    assert_eq!((mine, at), (false, 1));
}

#[test]
fn nothing_was_said() {
    let r = compute(&[], Some(1), None);
    assert_eq!((r.total, r.active_days, r.longest_streak, r.nth_day_today), (0, 0, 0, 0));
    assert!(r.first_day.is_none() && r.peak_day.is_none() && r.longest_silence_range.is_none());
    assert!(r.text.is_none());
    assert_eq!(compute_text(&[], Some(1)).longest, None);
}

#[test]
fn a_row_of_days_lasts_until_yesterday() {
    let days = |v: &[&str]| v.iter().map(|d| (d.to_string(), 1)).collect::<Vec<(String, i64)>>();
    // 2024-03-01 is day 738946 of the calendar.
    let today = 738946;
    let s = streaks(&days(&["2024-02-28", "2024-02-29", "2024-03-01"]), today);
    assert_eq!((s.longest_streak, s.current_streak, s.longest_silence_days), (3, 3, 0));
    let s = streaks(&days(&["2024-02-28", "2024-02-29"]), today);
    assert_eq!(s.current_streak, 2);
    let s = streaks(&days(&["2024-02-27", "2024-02-28"]), today);
    assert_eq!(s.current_streak, 0);
    let s = streaks(&days(&["2024-01-01", "2024-01-11", "2024-01-12", "2024-01-22"]), today);
    assert_eq!(s.longest_streak, 2);
    assert_eq!(s.longest_silence_days, 9);
    assert_eq!(s.longest_silence_range, Some(("2024-01-01".to_string(), "2024-01-11".to_string())));
}

#[test]
fn days_fit_between_the_first_and_today() {
    let day = 86400;
    let facts: Vec<MessageFact> = [0, 1, 2, 9, 10].iter().map(|d| f(1735660800 + d * day, 1, 1)).collect();
    let r = compute(&facts, Some(1), None);
    assert_eq!((r.active_days, r.span_days), (5, 11));
    assert_eq!((r.longest_streak, r.longest_silence_days), (3, 6));
    assert!(r.current_streak <= r.longest_streak);
    assert!(r.active_days + r.longest_silence_days <= r.span_days);
    assert!(r.nth_day_today > r.span_days);
    let h = heatmap(&facts);
    assert_eq!((h.active_days, h.span_days), (r.active_days, r.span_days));
    assert_eq!(h.cells.iter().map(|c| c.1).sum::<i64>(), weekly(&facts).total);
    assert_eq!(weekly(&facts).total, monthly(&facts).total);
    let d = detail(&facts, 1, false);
    assert_eq!(d.days_self_open + d.days_other_open, r.active_days);
    assert_eq!(d.my_reply.samples, r.my_reply_count);
}

#[test]
fn quick_replies_are_among_the_fast_ones() {
    let facts = vec![f(1000, 2, 1), f(1030, 1, 1), f(1090, 2, 1), f(1151, 1, 1)];
    let q = quick_reply(&facts, Some(1));
    assert_eq!((q.my_quick, q.my_fast, q.my_total), (1, 1, 2));
    assert_eq!((q.other_quick, q.other_fast, q.other_total), (0, 1, 1));
}

#[test]
fn without_oneself_all_are_others() {
    let facts = vec![f(1735660800, 1, 1), f(1735660810, 2, 1)];
    let r = CoupleReport::without_self(&facts);
    assert_eq!(r.total, 2);
    assert_eq!(r.my_count, 0);
}

#[test]
fn the_parts_of_a_story_agree() {
    let facts = vec![f(1699920000, 1, 1), f(1699920010, 0, 1), f(1699920000 + 8 * 86400, 0, 3)];
    let texts = vec![TextMessage { create_time: 1699920000, sender_id: 1, text: Some("爬山爬山".into()) }];
    let times: Vec<_> = facts.iter().map(|x| utc_dt(x.create_time)).collect();
    let r = whole_story_at(&facts, &times, 738946, &texts, 3, false);
    let d = r.dig.as_ref().unwrap();
    assert_eq!((r.total, r.my_count, r.other_count), (3, 2, 1));
    assert_eq!((r.my_reply_count, d.my_reply.samples), (1, 1));
    assert_eq!((r.active_days, d.days_self_open, d.days_other_open), (2, 1, 1));
    assert_eq!(r.words.as_ref().unwrap().overall, vec![("爬山".to_string(), 2)]);
    assert_eq!(r.trend.as_ref().unwrap().points.len(), 2);
    assert_eq!(r.trend_monthly.as_ref().unwrap().points.len(), 1);
    assert_eq!(r.trend.as_ref().unwrap().total, r.trend_monthly.as_ref().unwrap().total);
    assert_eq!(r.first_day.as_deref(), Some("2023-11-14"));
    assert_eq!(r.nth_day_today, 738946 - 738838 + 1);
    assert!(whole_story(&facts, &texts, 0, false).words.is_none());
}
