use wechat_statistics::calendar::utc_dt;
use wechat_statistics::model::MessageFact;
use wechat_statistics::trend::{
    heatmap, heatmap_at, monthly, series_at, sparkline, trajectory, trim_zero_ends, weekly, Bucket, TrendPoint,
};

fn f(time: i64) -> MessageFact {
    MessageFact { create_time: time, sender_id: 1, base_type: 1 }
}

fn points(counts: &[i64]) -> Vec<TrendPoint> {
    counts.iter().enumerate().map(|(i, c)| TrendPoint { label: format!("w{i}"), count: *c }).collect()
}

#[test]
fn weekly_buckets_and_peak() {
    let base = 1704067200;
    let day = 86400;
    let facts = vec![
        f(base),
        f(base + 7 * day),
        f(base + 7 * day),
        f(base + 14 * day),
        f(base + 14 * day),
        f(base + 14 * day),
    ];
    let s = weekly(&facts);
    assert!(s.points.len() >= 3);
    assert_eq!(s.peak.as_ref().unwrap().count, 3);
    assert_eq!(s.total, 6);
}

#[test]
fn trajectory_detects_decline() {
    let pts: Vec<TrendPoint> = (0..10)
        .map(|i| TrendPoint { label: format!("w{i}"), count: if i < 5 { 10 } else { 1 } })
        .collect();
    assert_eq!(trajectory(&pts), "降温");
}

#[test]
fn sparkline_scales_to_blocks() {
    let s = sparkline(&[0, 1, 5, 10]);
    assert!(s.starts_with('·'));
    assert!(s.ends_with('█'));
    assert_eq!(s.chars().count(), 4);
}

#[test]
fn the_course_of_the_points() {
    assert_eq!(trajectory(&points(&[1, 1, 1, 1, 1, 10, 10, 10, 10, 10])), "升温");
    assert_eq!(trajectory(&points(&[5; 10])), "平稳");
}

#[test]
fn weeks_without_messages_count_zero() {
    let day = 86400;
    // Monday 2024-01-01 and Sunday 2024-01-21.
    let facts = vec![f(1704067200), f(1704067200 + 20 * day)];
    let times: Vec<_> = facts.iter().map(|x| utc_dt(x.create_time)).collect();
    let s = series_at(&facts, &times, Bucket::Week);
    let shown: Vec<(&str, i64)> = s.points.iter().map(|p| (p.label.as_str(), p.count)).collect();
    assert_eq!(shown, vec![("01-01", 1), ("01-08", 0), ("01-15", 1)]);
    assert_eq!(s.kind, "周");
    assert_eq!(s.total, s.points.iter().map(|p| p.count).sum::<i64>());
}

#[test]
fn months_run_over_the_end_of_a_year() {
    let facts = vec![f(1701388800), f(1706745600), f(0)];
    let times: Vec<_> = facts.iter().map(|x| utc_dt(x.create_time)).collect();
    let s = series_at(&facts, &times, Bucket::Month);
    let shown: Vec<(&str, i64)> = s.points.iter().map(|p| (p.label.as_str(), p.count)).collect();
    assert_eq!(shown, vec![("2023-12", 1), ("2024-01", 0), ("2024-02", 1)]);
    assert_eq!(monthly(&[]).points.len(), 0);
    assert!(weekly(&[f(-5)]).peak.is_none());
}

#[test]
fn empty_ends_are_cut_off() {
    let kept = trim_zero_ends(points(&[0, 0, 3, 0, 2, 0]));
    let counts: Vec<i64> = kept.iter().map(|p| p.count).collect();
    assert_eq!(counts, vec![3, 0, 2]);
    assert!(trim_zero_ends(points(&[0, 0])).is_empty());
}

#[test]
fn blocks_for_every_eighth() {
    assert_eq!(sparkline(&[]), "");
    assert_eq!(sparkline(&[0, 0]), "··");
    assert_eq!(sparkline(&[7, 6, 5, 4, 3, 2, 1, 0]), "█▇▆▅▄▃▂·");
    assert_eq!(sparkline(&[100, 1]), "█▁");
}

#[test]
fn a_heatmap_starts_on_a_monday() {
    let day = 86400;
    // Wednesday 2024-01-31 and the Friday after it.
    let facts = vec![f(1706659200), f(1706659200 + 2 * day), f(1706659200 + 2 * day)];
    let times: Vec<_> = facts.iter().map(|x| utc_dt(x.create_time)).collect();
    let h = heatmap_at(&facts, &times);
    assert_eq!(h.weeks, 1);
    assert_eq!(h.cells.len(), 7);
    assert_eq!(h.cells[0], ("2024-01-29".to_string(), 0));
    assert_eq!(h.cells[2], ("2024-01-31".to_string(), 1));
    assert_eq!(h.cells[4], ("2024-02-02".to_string(), 2));
    assert_eq!((h.max, h.active_days, h.span_days), (2, 2, 3));
    assert_eq!(h.month_labels, vec![(0, "2月".to_string())]);
    assert!(heatmap(&[]).cells.is_empty());
}

/// Counts with few and with many bits.
fn counts() -> Vec<i64> {
    let far = [(1 << 52) + 1, (1 << 53) + 1, (1 << 54) + 3, i64::MAX / 5 * 3, i64::MAX / 7 * 5, i64::MAX, i64::MIN];
    (-12..=120).chain(far).collect()
}

#[test]
fn sparks_are_those_of_double_precision() {
    let blocks = ['▁', '▂', '▃', '▄', '▅', '▆', '▇', '█'];
    for a in counts() {
        for b in counts() {
            let max = a.max(b);
            let one = |c: i64| {
                if c == 0 || max == 0 {
                    '·'
                } else {
                    blocks[(((c as f64 / max as f64) * 7.0).round() as usize).min(7)]
                }
            };
            assert_eq!(sparkline(&[a, b]), [one(a), one(b)].iter().collect::<String>(), "{a} {b}");
        }
    }
}

#[test]
fn tags_are_those_of_double_precision() {
    for a in counts() {
        for b in counts() {
            let r = b as f64 / a as f64;
            let tag = if a == 0 {
                if b > 0 {
                    "升温"
                } else {
                    "未知"
                }
            } else if r < 0.6 {
                "降温"
            } else if r > 1.4 {
                "升温"
            } else {
                "平稳"
            };
            assert_eq!(trajectory(&points(&[a, 0, 0, b])), tag, "{a} {b}");
        }
    }
}
