use wechat_statistics::calendar::utc_dt;
use wechat_statistics::couple::{compute, CoupleReport, TextMetrics};
use wechat_statistics::curios::{self, ScoreInputs, Share};
use wechat_statistics::dig::{compute_at, LatencyStats};
use wechat_statistics::lexical::WordFreq;
use wechat_statistics::loader::ConvStats;
use wechat_statistics::model::{Contact, Conversation, MessageFact};
use wechat_statistics::ordered::falling;
use wechat_statistics::report::couple::{print_couple_report_at, CoupleShares};
use wechat_statistics::report::dig::{print_dig_report_at, DigShares, DigTimes};
use wechat_statistics::report::inspect::{
    contacts_line, mapped_line, print_conv_stats, print_conv_stats_at, print_overview,
};
use wechat_statistics::report::volume::{classes, VolumeShares};
use wechat_statistics::report::{
    conv_kind, locate_conversation, mask_user, needs_counts, print_couple_report, print_curios, print_dig_report,
    print_latency, print_temporal_report, print_volume_report, truncate_display, ContactIndex, LocateError,
};
use wechat_statistics::stats::temporal::TemporalStats;
use wechat_statistics::stats::volume::VolumeStats;
use wechat_statistics::trend::{TrendPoint, TrendSeries};

const END: &str = "╰─────────────────────────────────────────────────────────";

fn contact(username: &str, remark: &str) -> Contact {
    Contact {
        id: 1,
        username: username.to_string(),
        nickname: None,
        remark: Some(remark.to_string()),
        alias: None,
        is_chatroom: username.contains("@chatroom"),
    }
}

fn conv(username: &str) -> Conversation {
    Conversation {
        username: username.to_string(),
        db_stems: vec!["message_0".to_string(), "message_1".to_string()],
        table_name: "Msg_x".to_string(),
        msg_count: None,
    }
}

fn index() -> ContactIndex {
    ContactIndex::build(vec![contact("wxid_wang", "老王"), contact("wxid_Li", "小李"), contact("g@chatroom", "老友群")])
}

fn convs() -> Vec<Conversation> {
    vec![conv("wxid_wang"), conv("wxid_Li"), conv("g@chatroom"), conv("wxid_unknown")]
}

fn f(time: i64, sender: i64, bt: i64) -> MessageFact {
    MessageFact { create_time: time, sender_id: sender, base_type: bt }
}

#[test]
fn kinds_and_masks() {
    assert_eq!(conv_kind("g@chatroom"), "群");
    assert_eq!(conv_kind("wxid_a"), "好友");
    assert_eq!(mask_user("wxid_abcdef"), "wxi…def");
    assert_eq!(mask_user("abcd"), "*");
    assert_eq!(truncate_display("一二三四", 3), "一二…");
    assert_eq!(truncate_display("一二三", 3), "一二三");
    assert_eq!(truncate_display("一二三", 0), "…");
}

#[test]
fn names_of_contacts() {
    let ix = index();
    assert_eq!(ix.name_by_username("wxid_wang"), "老王");
    assert_eq!(ix.name_by_username("wxid_unknown"), "wxi…own");
}

#[test]
fn a_contact_without_a_name_is_masked() {
    let nameless = |remark: Option<&str>, nickname: Option<&str>| {
        let mut c = contact("wxid_abcdef", "");
        c.remark = remark.map(|t| t.to_string());
        c.nickname = nickname.map(|t| t.to_string());
        ContactIndex::build(vec![c]).name_by_username("wxid_abcdef")
    };
    assert_eq!(nameless(None, None), "wxi…def");
    assert_eq!(nameless(Some(""), Some("")), "wxi…def");
    assert_eq!(nameless(None, Some("阿明")), "阿明");
    assert_eq!(nameless(Some("明"), Some("阿明")), "明");
    assert_eq!(nameless(None, Some("wxid_abcdef")), "wxid_abcdef");
    let mut short = contact("abcd", "");
    short.remark = None;
    short.nickname = None;
    assert_eq!(ContactIndex::build(vec![short]).name_by_username("abcd"), "*");
}

#[test]
fn the_last_contact_of_a_name_counts() {
    let ix = ContactIndex::build(vec![contact("a_user", "旧"), contact("a_user", "新")]);
    assert_eq!(ix.name_by_username("a_user"), "新");
}

#[test]
fn conversations_by_account_name() {
    let r = locate_conversation(&convs(), &index(), Some("老王"), Some(1), Some("wxid_Li"), &vec![]);
    assert!(matches!(r, Ok(1)));
    let r = locate_conversation(&convs(), &index(), None, None, Some("wxid_li"), &vec![]);
    assert!(matches!(r, Err(LocateError::UserNotFound)));
}

#[test]
fn conversations_by_a_part_of_a_name() {
    let find = |q: &str| locate_conversation(&convs(), &index(), Some(q), None, None, &vec![]);
    assert!(matches!(find("王"), Ok(0)));
    assert!(matches!(find("WXID_LI"), Ok(1)));
    assert!(matches!(find("没有"), Err(LocateError::NoMatch)));
    match find("老") {
        Err(LocateError::NotUnique(hits)) => assert_eq!(hits, vec![0, 2]),
        _ => panic!("not unique"),
    }
}

#[test]
fn conversations_by_rank() {
    let counts = vec![5, 9, 9, 1];
    let find = |n: usize| locate_conversation(&convs(), &index(), None, Some(n), None, &counts);
    assert!(matches!(find(1), Ok(1)));
    assert!(matches!(find(2), Ok(2)));
    assert!(matches!(find(4), Ok(3)));
    assert!(matches!(find(0), Err(LocateError::RankZero)));
    assert!(matches!(find(5), Err(LocateError::RankOutOfRange)));
    let none = locate_conversation(&convs(), &index(), None, None, None, &vec![]);
    assert!(matches!(none, Err(LocateError::NoTarget)));
    assert!(needs_counts(None, Some(1), None));
    assert!(!needs_counts(Some("x"), Some(1), None) && !needs_counts(None, Some(0), None));
}

#[test]
fn an_overview() {
    assert_eq!(contacts_line(&vec![contact("a", "x"), contact("g@chatroom", "y")]), "✓ 联系人表解析成功：共 2 个（其中群 1）");
    assert_eq!(mapped_line(4), "✓ 会话映射解析成功：共 4 个会话");
    let counts = vec![5, 1200, 9, 1];
    let lines = print_overview(&convs(), &counts, &falling(&counts), 2);
    assert_eq!(
        lines,
        vec![
            "".to_string(),
            "这 4 个会话合计约 1215 条消息。Top 2：".to_string(),
            format!("   1. [好友] {:<22} {:>8} 条  (2 分片 · Msg_x)", "wxi…_Li", 1200),
            format!("   2. [群] {:<22} {:>8} 条  (2 分片 · Msg_x)", "g@c…oom", 9),
        ]
    );
}

#[test]
fn statistics_of_a_conversation() {
    let st = ConvStats {
        count: 7,
        distinct_senders: 2,
        time_min: Some(1700000000),
        time_max: Some(1700000060),
        type_dist: vec![(1, 2), (3, 4), (49, 2)],
    };
    let lines = print_conv_stats_at(&st, &utc_dt(1700000000), &utc_dt(1700000060));
    assert_eq!(
        lines,
        vec![
            "",
            "消息最多会话的聚合统计：",
            "  消息总数      : 7",
            "  不同发送者数  : 2",
            "  时间跨度      : 2023-11-14 22:13:20 ~ 2023-11-14 22:14:20",
            "  类型分布(local_type):",
            "    type      3 : 4",
            "    type      1 : 2",
            "    type     49 : 2",
        ]
    );
    assert_eq!(print_conv_stats(&st).len(), 9);
}

#[test]
fn the_volume_report() {
    let v = VolumeStats {
        conversations: 2,
        total_messages: 1500,
        type_dist: vec![(1, 1000), (3, 300), (10000, 150), (2, 50)],
        top: vec![("wxid_wang".to_string(), 1200, 700, 500), ("g@chatroom".to_string(), 300, 0, 300)],
    };
    let c = classes(&v.type_dist);
    assert_eq!((c.text, c.media, c.system, c.other, c.img), (1000, 300, 150, 50, 300));
    assert_eq!(c.text + c.media + c.system + c.other, 1500);
    let shares = VolumeShares {
        text: " 66.7%".to_string(),
        media: " 20.0%".to_string(),
        system: " 10.0%".to_string(),
        other: "  3.3%".to_string(),
    };
    let lines = print_volume_report(&v, &shares, &index());
    assert_eq!(lines[1], "╭─ 微信消息统计 ──────────────────────────────────────────");
    assert_eq!(lines[2], "│ 会话总数      : 2");
    assert_eq!(lines[3], "│ 消息总数      : 1,500");
    assert_eq!(lines[4], format!("│   ├ 文本      : {:>14}  ( 66.7%)", "1,000"));
    assert_eq!(lines[8], "│ 媒体拆分      : 图片 300 · 语音 0 · 视频 0 · 表情 0 · 文件 0 · 通话 0");
    assert_eq!(lines[10], format!("│   {:>6} {:<10} {:>12}", 1, "文本", "1,000"));
    assert_eq!(lines[14], "│ 消息数 Top 2 会话（名称为我 / 对方）：");
    assert_eq!(
        lines[15],
        format!("│ {:>2}. [{}] {:<22} {:>10}  我 {:>6} · 对方 {:>6}  {}", 1, "好友", "老王", "1,200", "700", "500", "▇".repeat(16))
    );
    assert_eq!(
        lines[16],
        format!("│ {:>2}. [{}] {:<22} {:>10}  我 {:>6} · 对方 {:>6}  {}", 2, "群", "老友群", "300", "0", "300", "▇".repeat(4))
    );
    assert_eq!(lines[17], END);
    assert_eq!(lines.len(), 18);
}

#[test]
fn the_temporal_report() {
    let mut hour = [0i64; 24];
    hour[8] = 1500;
    let months: Vec<(String, i64)> = (0..30).map(|i| (format!("20{:04}", i), 50)).collect();
    let t = TemporalStats { hour, weekday: [1500, 0, 0, 0, 0, 0, 0], month: months };
    let lines = print_temporal_report(&t);
    assert_eq!(lines[1], "╭─ 活跃时段（本地时间）  共 1,500 条 ──────────────────────");
    assert_eq!(lines[10], format!("│ 08:00 ▏{:<28} {:>12}", "▇".repeat(28), "1,500"));
    assert_eq!(lines[11], format!("│ 09:00 ▏{:<28} {:>12}", "", "0"));
    assert_eq!(lines[27], "│ 星期分布：");
    assert_eq!(lines[28], format!("│ 周一 ▏{:<28} {:>12}", "▇".repeat(28), "1,500"));
    assert_eq!(lines[36], "│ 月份趋势（最近 24 个月）：");
    assert_eq!(lines[37], format!("│   200006 ▏{:<24} {:>12}", "▇".repeat(24), "50"));
    assert_eq!(lines.len(), 37 + 24 + 1);
    assert_eq!(lines.last().unwrap(), END);
}

#[test]
fn latencies_in_a_line() {
    let s = LatencyStats { samples: 1200, median_sec: Some(61), mean_sec: Some(3600) };
    assert_eq!(print_latency("│   我回对方", &s), "│   我回对方：中位 1 分 1 秒 · 均值 1 时 0 分 · 共 1,200 次");
    let none = LatencyStats { samples: 0, median_sec: None, mean_sec: None };
    assert_eq!(print_latency("x", &none), "x：无样本");
}

#[test]
fn the_report_in_depth() {
    let facts = vec![f(1700000000, 1, 1), f(1700000010, 0, 1), f(1700086400, 0, 3), f(1700200000, 1, 1)];
    let times: Vec<_> = facts.iter().map(|x| utc_dt(x.create_time)).collect();
    let d = compute_at(&facts, &times, 0, false);
    let shares = DigShares {
        my: "50.0%".to_string(),
        other: "50.0%".to_string(),
        ratio: "1.00".to_string(),
        open_self: "33.3%".to_string(),
        open_other: "66.7%".to_string(),
    };
    let openers = d.recent_openers.iter().map(|o| utc_dt(o.2)).collect();
    let t = DigTimes { first: utc_dt(1700000000), last: utc_dt(1700200000), openers };
    let lines = print_dig_report_at(&conv("wxid_wang"), &d, &index(), &shares, &t);
    assert_eq!(
        lines,
        vec![
            "".to_string(),
            "╭─ 单会话深挖 · 老王 [单聊] ──────────────────────────────".to_string(),
            "│ 消息总数      : 4".to_string(),
            "│ 时间跨度      : 2023-11-14 22:13:20 ~ 2023-11-17 05:46:40".to_string(),
            "│ 发送比例      : 我 2 (50.0%)  ·  对方 2 (50.0%)".to_string(),
            format!("│   我   ▏{} 2", "▇".repeat(20)),
            format!("│   对方▏{} 2", "▇".repeat(20)),
            "│   我:对方 ≈ 1.00 : 1".to_string(),
            "│ 对方最常发的类型：".to_string(),
            format!("│   {:<10} {:>10}  {}", "文本", "2", "▇".repeat(16)),
            "│ 我最常发的类型：".to_string(),
            format!("│   {:<10} {:>10}  {}", "文本", "1", "▇".repeat(8)),
            format!("│   {:<10} {:>10}  {}", "图片", "1", "▇".repeat(8)),
            "│ 回复时延（切换发送者算一次回复，上限 6h）：".to_string(),
            "│   我回对方：中位 10 秒 · 均值 10 秒 · 共 1 次".to_string(),
            "│   对方回我：无样本".to_string(),
            "│   （另有 1 次超过 6h 的续聊未计入）".to_string(),
            "│ 每日谁先开口：我主动 1 天 (33.3%)  ·  对方先 2 天 (66.7%)".to_string(),
            "│   最近 3 天明细（最近在上）：".to_string(),
            "│     2023-11-17  对方 先开口  05:46".to_string(),
            "│     2023-11-15  我 先开口  22:13".to_string(),
            "│     2023-11-14  对方 先开口  22:13".to_string(),
            END.to_string(),
        ]
    );
    assert_eq!(print_dig_report(&conv("wxid_wang"), &d, &index(), &shares).len(), lines.len());
}

fn shares() -> CoupleShares {
    CoupleShares {
        active: "50.0%".to_string(),
        my_quick: "10.0%".to_string(),
        other_quick: "20.0%".to_string(),
        my_fast: "30.0%".to_string(),
        other_fast: "40.0%".to_string(),
    }
}

fn story() -> CoupleReport {
    let mut r = compute(&[], Some(0), None);
    r.total = 1234;
    r.my_count = 1000;
    r.other_count = 234;
    r.first_day = Some("2023-11-14".to_string());
    r.last_day = Some("2023-12-14".to_string());
    r.nth_day_today = 100;
    r.active_days = 50;
    r.longest_streak = 7;
    r.longest_silence_days = 3;
    r.longest_silence_range = Some(("2023-11-20".to_string(), "2023-11-24".to_string()));
    r.peak_day = Some(("2023-12-01".to_string(), 321));
    r.call_count = 2;
    r.my_reply_count = 10;
    r.text = Some(TextMetrics {
        my_chars: 5000,
        other_chars: 60,
        longest: Some((99, false, 1700000000)),
        keywords: vec![("晚安".to_string(), 3, 1)],
    });
    r.words = Some(WordFreq { overall: vec![("爬山".to_string(), 1200), ("天气".to_string(), 2)], mine: vec![], theirs: vec![("山".to_string(), 1)] });
    r.trend = Some(TrendSeries {
        kind: "周",
        points: vec![TrendPoint { label: "11-13".to_string(), count: 1 }, TrendPoint { label: "11-20".to_string(), count: 8 }],
        total: 9,
        peak: Some(TrendPoint { label: "11-20".to_string(), count: 8 }),
        tag: "未知",
    });
    r
}

#[test]
fn the_story_of_two() {
    let lines = print_couple_report_at(&conv("wxid_wang"), &story(), &index(), &shares(), &utc_dt(1700000000));
    assert_eq!(
        lines,
        vec![
            "".to_string(),
            "╭─ 💑 情侣报告 · 老王 ─────────────────────────────────".to_string(),
            "│ 📅 故事开始于 2023-11-14，今天是第 100 天".to_string(),
            "│    共聊了 1,234 条消息（我 1,000 · 对方 234），分布在 50 / 100 天里（50.0%）".to_string(),
            "│".to_string(),
            "│ 🔥 最长连续聊天：7 天不间断".to_string(),
            "│    （当前连续已中断）".to_string(),
            "│ 🤫 最长沉默：3 天没说话".to_string(),
            "│    （2023-11-20 之后，直到 2023-11-24 才再说话）".to_string(),
            "│ 🎉 最嗨的一天：2023-12-01，聊了 321 条".to_string(),
            "│ 🌙 一起熬过的夜：0 条凌晨消息（0–4 点）".to_string(),
            "│ 📞 语音/视频通话：2 次".to_string(),
            "│".to_string(),
            "│ ⚡ 秒回率（30 秒内回复）：我 10.0% · 对方 20.0%".to_string(),
            "│    1 分钟内回复率     ：我 30.0% · 对方 40.0%".to_string(),
            "│".to_string(),
            "│ 💌 最近一次聊天：2023-12-14".to_string(),
            "│".to_string(),
            "│ ✍️ 总字数：我 5,000 · 对方 60".to_string(),
            "│ 📝 最长一条：99 字（对方 发，2023-11-14）".to_string(),
            "│ 💬 关键词（消息条数，我 / 对方）：".to_string(),
            format!("│    {:<6} 我 {:>4} · 对方 {:>4}", "晚安", "3", "1"),
            "│".to_string(),
            "│ ☁️ 总体高频词：爬山(1,200)  天气(2)".to_string(),
            "│    ta 最常说：山(1)".to_string(),
            "│".to_string(),
            "│ 📈 趋势（按周，共 2 个，未知）".to_string(),
            "│    ▂█".to_string(),
            "│    11-13 ─────────────────→ 11-20".to_string(),
            "│    最热烈的一周：11-20（8 条）".to_string(),
            END.to_string(),
        ]
    );
    assert_eq!(print_couple_report(&conv("wxid_wang"), &story(), &index(), &shares()).len(), lines.len());
}

#[test]
fn the_story_in_depth() {
    let mut r = story();
    let facts = vec![f(1700000000, 1, 1), f(1700000010, 0, 1)];
    let times: Vec<_> = facts.iter().map(|x| utc_dt(x.create_time)).collect();
    r.dig = Some(compute_at(&facts, &times, 0, false));
    r.current_streak = 2;
    r.trend = None;
    let lines = print_couple_report_at(&conv("wxid_wang"), &r, &index(), &shares(), &None);
    assert!(lines.contains(&"│    当前已连续 2 天 ✨".to_string()));
    assert!(lines.contains(&"│ 📝 最长一条：99 字（对方 发，?）".to_string()));
    let at = lines.iter().position(|l| l == "│ 🔎 深挖").unwrap();
    assert_eq!(
        lines[at + 1..],
        [
            "│    回复时延：我 中位 10 秒 · 均值 10 秒（1 次） · ta 无样本",
            "│    每日首发：我开口 0 天 · ta 开口 1 天",
            "│    我常发：文本 1",
            "│    ta常发：文本 1",
            END,
        ]
    );
}

#[test]
fn curious_facts_in_lines() {
    let sc = ScoreInputs {
        total: 4000,
        my_count: 2000,
        other_count: 2000,
        longest_streak: 10,
        active_ratio: Share { part: 5, whole: 10 },
        my_quick: Share { part: 7, whole: 10 },
        other_quick: Share { part: 7, whole: 10 },
    };
    let c = curios::compute(&[f(1700000000, 1, 1), f(1700000030, 0, 1)], &[], Some(0), &sc);
    let lines = print_curios(&c);
    assert_eq!(lines[1], "╭─ ✨ 趣味统计 ────────────────────────────────────────────");
    assert_eq!(lines[2], "│ 🌡️ 关系温度：76/100 · 甜度爆表");
    assert_eq!(lines[3], "│    活跃度 20/25  互动均衡 20/20  秒回率 18/25  最长连续 10/15  活跃覆盖 8/15");
    assert_eq!(lines[4], "│ 🏁 第一次纪念日：");
    assert!(lines[5].starts_with("│    💬 第一条消息 · 2023-11-1"));
    assert!(lines[5].ends_with(" ta "));
    assert!(lines.contains(&"│ 💤 谁先消失：最后一句 我 1 · ta 0".to_string()));
    assert!(lines.iter().any(|l| l.starts_with("│ 🔁 最长对线：2 条（2023-11-1") && l.ends_with("，约 0 分钟）")));
    assert!(!lines.iter().any(|l| l.contains("哈哈指数")));
    assert_eq!(lines.last().unwrap(), END);
}
