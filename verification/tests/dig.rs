use wechat_statistics::calendar::utc_dt;
use wechat_statistics::dig::{
    compute, compute_at, daily_openers, daily_openers_at, latency_stats, reply_latencies, time_span, type_dist,
    ConversationDetail,
};
use wechat_statistics::model::MessageFact;
use wechat_statistics::timeline::REPLY_CAP_SEC;

fn f(time: i64, sender: i64, bt: i64) -> MessageFact {
    MessageFact { create_time: time, sender_id: sender, base_type: bt }
}

#[test]
fn send_ratio_and_types() {
    let facts = vec![f(1000, 1, 1), f(2000, 1, 3), f(3000, 2, 1), f(4000, 2, 1)];
    let d = compute(&facts, 1, false);
    assert_eq!(d.my_count, 2);
    assert_eq!(d.other_count, 2);
    assert_eq!(d.my_type_dist, vec![(1, 1), (3, 1)]);
    assert_eq!(d.other_type_dist, vec![(1, 2)]);
}

#[test]
fn reply_latency_switches_only() {
    let facts = vec![f(100, 2, 1), f(110, 1, 1), f(130, 2, 1), f(135, 2, 1), f(165, 1, 1)];
    let (mine, theirs, capped) = reply_latencies(&facts, 1);
    assert_eq!(mine, vec![10, 30]);
    assert_eq!(theirs, vec![20]);
    assert_eq!(capped, 0);
}

#[test]
fn reply_cap_drops_long_gaps() {
    let big = REPLY_CAP_SEC + 1;
    let base = 1_000_000;
    let facts = vec![f(base, 2, 1), f(base + big, 1, 1), f(base + 2 * big, 2, 1)];
    let (mine, theirs, capped) = reply_latencies(&facts, 1);
    assert!(mine.is_empty());
    assert!(theirs.is_empty());
    assert_eq!(capped, 2);
}

#[test]
fn latency_median_and_mean() {
    let s = latency_stats(vec![10, 20, 30, 40]);
    assert_eq!(s.samples, 4);
    assert_eq!(s.median_sec, Some(30));
    assert_eq!(s.mean_sec, Some(25));
}

#[test]
fn daily_openers_count_by_first_sender() {
    let facts = vec![f(1700000000, 2, 1), f(1700001000, 1, 1), f(1700200000, 1, 1), f(1700201000, 2, 1)];
    let (self_open, other_open, recent) = daily_openers(&facts, Some(1));
    assert_eq!(self_open, 1);
    assert_eq!(other_open, 1);
    assert_eq!(recent.len(), 2);
    assert!(recent.iter().any(|(d, is_self, _)| *is_self && d.starts_with("20")));
    assert!(recent.iter().any(|(_, is_self, _)| !*is_self));
}

#[test]
fn latencies_need_not_be_sorted() {
    let s = latency_stats(vec![40, 10, 30]);
    assert_eq!((s.samples, s.median_sec, s.mean_sec), (3, Some(30), Some(26)));
    let none = latency_stats(vec![]);
    assert_eq!((none.samples, none.median_sec, none.mean_sec), (0, None, None));
}

#[test]
fn every_latency_is_within_the_cap() {
    let facts = vec![f(100, 2, 1), f(100 + REPLY_CAP_SEC, 1, 1), f(101 + 2 * REPLY_CAP_SEC, 2, 1)];
    let (mine, theirs, capped) = reply_latencies(&facts, 1);
    assert_eq!(mine, vec![REPLY_CAP_SEC]);
    assert!(theirs.is_empty());
    assert_eq!(capped, 1);
}

#[test]
fn openers_come_newest_first_and_at_most_fourteen() {
    let day = 86400;
    let base = 1699920000;
    let facts: Vec<MessageFact> = (0..20).map(|i| f(base + i * day, 1 + i % 2, 1)).collect();
    let times: Vec<_> = facts.iter().map(|x| utc_dt(x.create_time)).collect();
    let (mine, theirs, recent) = daily_openers_at(&facts, &times, Some(1));
    assert_eq!((mine, theirs), (10, 10));
    assert_eq!(recent.len(), 14);
    assert_eq!(recent[0], ("2023-12-03".to_string(), false, base + 19 * day));
    assert_eq!(recent[13].0, "2023-11-20");
}

#[test]
fn details_keep_the_openers_in_order_of_the_days() {
    let day = 86400;
    let base = 1699920000;
    let facts: Vec<MessageFact> = (0..3).map(|i| f(base + i * day, 1, 1)).collect();
    let times: Vec<_> = facts.iter().map(|x| utc_dt(x.create_time)).collect();
    let d = compute_at(&facts, &times, 1, true);
    assert!(d.is_group);
    let days: Vec<&str> = d.recent_openers.iter().map(|o| o.0.as_str()).collect();
    assert_eq!(days, vec!["2023-11-14", "2023-11-15", "2023-11-16"]);
    assert_eq!(d.days_self_open + d.days_other_open, 3);
    assert_eq!(d.my_count + d.other_count, d.total);
}

#[test]
fn spans_and_types_of_one_side() {
    let facts = vec![f(0, 1, 1), f(500, 2, 3), f(300, 1, 3), f(400, 1, 3), f(200, 1, 1)];
    assert_eq!(time_span(&facts), (Some(200), Some(500)));
    assert_eq!(time_span(&[f(0, 1, 1)]), (None, None));
    assert_eq!(type_dist(&facts, 1, true), vec![(1, 2), (3, 2)]);
    assert_eq!(type_dist(&facts, 1, false), vec![(3, 1)]);
}

#[test]
fn nobody_is_oneself() {
    let d = ConversationDetail::without_self(&[f(1700000000, 1, 1), f(1700000010, 2, 1)]);
    assert_eq!((d.total, d.my_count, d.other_count), (2, 0, 2));
    assert_eq!(d.my_reply.samples, 0);
}
