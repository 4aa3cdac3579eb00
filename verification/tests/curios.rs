use wechat_statistics::calendar::utc_dt;
use wechat_statistics::curios::{
    biorhythm_at, bucket_idx, compute, ending, firsts, firsts_at, haha, late_emo, late_emo_at, perfunctory, rally, rally_at,
    relation_score, says_nothing, ScoreInputs, Share,
};
use wechat_statistics::model::{MessageFact, TextMessage};

fn mf(time: i64, sender: i64, bt: i64) -> MessageFact {
    MessageFact { create_time: time, sender_id: sender, base_type: bt }
}

fn tm(time: i64, sender: i64, text: &str) -> TextMessage {
    TextMessage { create_time: time, sender_id: sender, text: Some(text.into()) }
}

fn share(part: i64, whole: i64) -> Share {
    Share { part, whole }
}

fn sc() -> ScoreInputs {
    ScoreInputs {
        total: 4000,
        my_count: 2000,
        other_count: 2000,
        longest_streak: 10,
        active_ratio: share(5, 10),
        my_quick: share(7, 10),
        other_quick: share(7, 10),
    }
}

#[test]
fn score_in_range_and_balanced() {
    let s = relation_score(&sc());
    assert!((0..=100).contains(&s.score));
    assert_eq!(s.breakdown.iter().find(|(k, _, _)| k == "互动均衡").unwrap().1, 20);
}

#[test]
fn rally_finds_longest_burst() {
    let facts = vec![mf(1000, 1, 1), mf(1060, 2, 1), mf(1120, 1, 1), mf(2500, 2, 1), mf(2560, 1, 1)];
    let r = rally(&facts);
    assert_eq!(r.max_len, 3);
}

#[test]
fn haha_buckets_runs() {
    let texts = vec![tm(1, 1, "哈哈哈"), tm(2, 2, "哈哈哈哈 哈哈")];
    let h = haha(&texts, Some(1));
    assert_eq!(h.me[1], 1);
    assert_eq!(h.them[2], 1);
    assert_eq!(h.them[0], 1);
}

#[test]
fn perfunctory_counts_single_words() {
    let texts = vec![tm(1, 1, "嗯"), tm(2, 2, "好的"), tm(3, 1, "在吗？")];
    let p = perfunctory(&texts, Some(1));
    assert_eq!(p.my_count, 1);
    assert_eq!(p.other_count, 1);
}

#[test]
fn firsts_records_milestones() {
    let facts = vec![mf(1700000000, 2, 1), mf(1700000100, 1, 3), mf(1700000200, 2, 50)];
    let texts = vec![tm(1700000300, 1, "今晚好想你呀")];
    let f = firsts(&facts, &texts, Some(1));
    assert_eq!(f[0].who, Some("ta"));
    assert!(f.iter().any(|x| x.label.contains("图片") && x.who == Some("我")));
    assert!(f.iter().any(|x| x.label.contains("通话")));
    let love = f.iter().find(|x| x.label.contains("爱你")).unwrap();
    assert!(love.when.is_some());
}

#[test]
fn a_score_adds_up_its_parts() {
    let s = relation_score(&sc());
    let parts: Vec<(&str, i64, i64)> = s.breakdown.iter().map(|(k, p, m)| (k.as_str(), *p, *m)).collect();
    assert_eq!(
        parts,
        vec![("活跃度", 20, 25), ("互动均衡", 20, 20), ("秒回率", 18, 25), ("最长连续", 10, 15), ("活跃覆盖", 8, 15)]
    );
    assert_eq!(s.score, 76);
    assert_eq!(s.label, "甜度爆表");
}

#[test]
fn every_score_has_a_label() {
    // The longest row of days brings up to 15 points, here with 75 or none from the rest.
    let at = |rest: bool, days: i64| {
        let part = if rest { 1 } else { 0 };
        relation_score(&ScoreInputs {
            total: 5000 * part,
            my_count: 10 * part,
            other_count: 10 * part,
            longest_streak: days,
            active_ratio: share(part, 3),
            my_quick: share(part, 1),
            other_quick: share(part, 1),
        })
    };
    for (rest, days, n, label) in [
        (true, 15, 90, "如胶似漆"),
        (true, 14, 89, "甜度爆表"),
        (true, 0, 75, "甜度爆表"),
        (true, -1, 74, "稳中有甜"),
        (true, -15, 60, "稳中有甜"),
        (true, -16, 59, "不温不火"),
        (true, -30, 45, "不温不火"),
        (true, -31, 44, "有点冷淡"),
        (true, -45, 30, "有点冷淡"),
        (true, -46, 29, "需要加温"),
        (false, 0, 0, "需要加温"),
        (false, -3, 0, "需要加温"),
    ] {
        assert_eq!(at(rest, days).score, n);
        assert_eq!(at(rest, days).label, label);
    }
    let all = ScoreInputs { active_ratio: share(9, 1), ..sc() };
    assert_eq!(relation_score(&all).score, 100);
}

fn points(sc: &ScoreInputs) -> Vec<i64> {
    relation_score(sc).breakdown.iter().map(|(_, p, _)| *p).collect()
}

/// The points in double precision, by the machine.
fn measured(sc: &ScoreInputs) -> Vec<i64> {
    let ratio = |s: &Share| if s.whole > 0 { s.part as f64 / s.whole as f64 } else { 0.0 };
    let total = (sc.my_count + sc.other_count).max(1) as f64;
    let my_pct = sc.my_count as f64 / total * 100.0;
    vec![
        ((sc.total as f64) / 200.0).min(25.0) as i64,
        ((1.0 - (my_pct - 50.0).abs() / 50.0) * 20.0).round() as i64,
        ((ratio(&sc.my_quick) + ratio(&sc.other_quick)) / 2.0 * 25.0).round() as i64,
        sc.longest_streak.min(15),
        (ratio(&sc.active_ratio) * 15.0).round() as i64,
    ]
}

#[test]
fn points_are_those_of_double_precision() {
    let with = |a: i64, b: i64, c: i64, d: i64| ScoreInputs {
        total: a,
        my_count: a,
        other_count: b,
        longest_streak: 3,
        active_ratio: share(a, b),
        my_quick: share(c, d),
        other_quick: share(a, d),
    };
    for a in 0..60 {
        for b in 0..60 {
            let x = with(a, b, b, a + b);
            assert_eq!(points(&x), measured(&x), "{a} {b}");
        }
    }
    let far = [0, 1, -1, 3, -7, 1 << 40, (1 << 53) + 1, -(1 << 54) - 1, i64::MAX / 2 - 3, i64::MIN / 2 + 5];
    for a in far {
        for b in far {
            for c in [1, 3, -5, i64::MAX, i64::MIN] {
                for d in [0, 1, 7, (1 << 53) + 1, i64::MAX] {
                    let x = with(a, b, c, d);
                    assert_eq!(points(&x), measured(&x), "{a} {b} {c} {d}");
                }
            }
        }
    }
}

#[test]
fn even_sides_and_limits() {
    for n in [1, 2, 3, 7, 1000, (1 << 53) + 1, i64::MAX / 2] {
        assert_eq!(points(&ScoreInputs { my_count: n, other_count: n, ..sc() })[1], 20);
    }
    for (mine, theirs) in [(0, 0), (1, 0), (0, 1), (3, 1), (1, 99)] {
        let all = points(&ScoreInputs { my_count: mine, other_count: theirs, ..sc() });
        for (p, most) in all.iter().zip([25, 20, 25, 15, 15]) {
            assert!((0..=most).contains(p), "{mine} {theirs}");
        }
    }
    assert_eq!(points(&ScoreInputs { my_count: 0, other_count: 5, ..sc() })[1], 0);
}

#[test]
fn runs_of_laughter_fall_into_five_buckets() {
    assert_eq!([2, 3, 4, 5, 6, 60].map(bucket_idx), [0, 1, 2, 3, 4, 4]);
    let h = haha(&[tm(1, 1, "哈哈哈哈哈哈哈，哈，哈哈")], Some(1));
    assert_eq!(h.me, [1, 0, 0, 0, 1]);
    assert_eq!((h.me_total, h.them_total), (2, 0));
    assert_eq!(h.me.iter().sum::<i64>(), h.me_total);
}

#[test]
fn short_answers_are_taken_without_their_ends() {
    assert!(says_nothing("嗯"));
    assert!(!says_nothing("好的呀老板"));
    assert!(!says_nothing(""));
    let p = perfunctory(&[tm(1, 1, "  好的\n"), tm(2, 2, " 嗯 嗯 ")], Some(1));
    assert_eq!((p.my_count, p.other_count), (1, 0));
}

#[test]
fn the_first_love_is_quoted() {
    let long = "我爱你".repeat(20);
    let facts = vec![mf(1700000000, 2, 47)];
    let texts = vec![tm(1700000300, 2, "早"), tm(1700000400, 1, &long)];
    let times = vec![utc_dt(1700000000)];
    let text_times = vec![utc_dt(1700000300), utc_dt(1700000400)];
    let f = firsts_at(&facts, &times, &texts, &text_times, Some(1));
    let love = f.iter().find(|x| x.label.contains("爱你")).unwrap();
    assert_eq!(love.who, Some("我"));
    assert_eq!(love.snippet.as_deref(), Some(format!("{}…", "我爱你".repeat(8)).as_str()));
    assert!(f.iter().any(|x| x.label.contains("图片") && x.when.is_none()));
    let sticker = f.iter().find(|x| x.label.contains("表情")).unwrap();
    assert!(sticker.when.as_deref().unwrap().starts_with("2023-11-14"));
}

#[test]
fn long_texts_at_night() {
    let long = "夜".repeat(50);
    let longer = "晚".repeat(60);
    // 00:00, 04:59 and 05:00 of one day.
    let texts = vec![tm(1699920000, 1, &long), tm(1699920000 + 17940, 2, &longer), tm(1699920000 + 18000, 2, &longer), tm(1699920000, 2, "短")];
    let times: Vec<_> = texts.iter().map(|t| utc_dt(t.create_time)).collect();
    let e = late_emo_at(&texts, &times, Some(1));
    assert_eq!((e.my_count, e.other_count), (1, 1));
    let l = e.longest.unwrap();
    assert_eq!((l.chars, l.is_self), (60, false));
    assert_eq!(l.snippet, format!("{}…", "晚".repeat(40)));
    // Whatever the time zone, no text is long enough here.
    assert!(late_emo(&[tm(1699920000, 1, "短")], Some(1)).longest.is_none());
}

#[test]
fn hours_of_either_side() {
    let facts = vec![mf(1699920000, 1, 1), mf(1699920000 + 7200, 2, 1), mf(1699920000 + 7201, 2, 1)];
    let times: Vec<_> = facts.iter().map(|f| utc_dt(f.create_time)).collect();
    let b = biorhythm_at(&facts, &times, Some(1));
    assert_eq!(b.me[0], 1);
    assert_eq!(b.them[2], 2);
    assert_eq!(b.me.iter().sum::<i64>() + b.them.iter().sum::<i64>(), 3);
}

#[test]
fn last_words_and_waiting() {
    // Six hours and a second, then half a day and a second.
    let facts = vec![mf(1000, 1, 1), mf(1000 + 21601, 2, 1), mf(1000 + 21601 + 43201, 1, 1)];
    let e = ending(&facts, Some(1));
    assert_eq!(e.my_last_word + e.other_last_word, 2);
    assert_eq!(e.other_last_word, 1);
    assert_eq!(e.my_last_word, 1);
    assert_eq!(e.my_left_on_read, 1);
    assert_eq!(e.other_left_on_read, 1);
}

#[test]
fn an_exchange_has_a_length_in_minutes() {
    let facts = vec![mf(1000, 1, 1), mf(1600, 2, 1), mf(2200, 1, 1), mf(2801, 1, 1)];
    let times: Vec<_> = facts.iter().map(|f| utc_dt(f.create_time)).collect();
    let r = rally_at(&facts, &times);
    assert_eq!((r.max_len, r.duration_min), (3, 20));
    assert_eq!(rally(&[]).max_len, 0);
}

#[test]
fn all_facts_come_together() {
    let facts = vec![mf(1700000000, 2, 1), mf(1700000100, 1, 3)];
    let texts = vec![tm(1700000000, 2, "哈哈哈爬山爬山爬山")];
    let c = compute(&facts, &texts, Some(1), &sc());
    assert_eq!(c.score.score, 76);
    assert_eq!(c.rally.max_len, 2);
    assert_eq!(c.haha.them_total, 1);
    assert_eq!(c.heatmap.active_days, 1);
}
