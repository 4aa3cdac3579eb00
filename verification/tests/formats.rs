use wechat_statistics::calendar::{
    clock_text_of, date_key_of, date_of_number, date_text_of, local_dt, parse_date, utc_dt, year_text_of, Date,
};
use wechat_statistics::fmt::{
    bar, fmt_date, fmt_date_at, fmt_duration, fmt_num, fmt_ts, fmt_ts_at, sort_by_value_desc, truncate,
};
use wechat_statistics::ordered::{falling, ranked, rising, rising_positions, sorted_by_rank, SortedMap};
use wechat_statistics::text::{
    contains, count_text, join, numeral_of, padded_left, padded_right, parse_number, repeat, replaced_char,
    replaced_text, same, split, zero_padded_of,
};
use wechat_statistics::unicode::{is_white, trimmed};

#[test]
fn numbers_in_groups_of_three() {
    assert_eq!(fmt_num(0), "0");
    assert_eq!(fmt_num(999), "999");
    assert_eq!(fmt_num(1000), "1,000");
    assert_eq!(fmt_num(1234567), "1,234,567");
    assert_eq!(fmt_num(-123456), "-123,456");
    assert_eq!(fmt_num(i64::MIN), "-9,223,372,036,854,775,808");
    assert_eq!(fmt_num(1234567).replace(',', ""), "1234567");
}

#[test]
fn durations_in_two_units() {
    assert_eq!(fmt_duration(0), "0 秒");
    assert_eq!(fmt_duration(59), "59 秒");
    assert_eq!(fmt_duration(61), "1 分 1 秒");
    assert_eq!(fmt_duration(3599), "59 分 59 秒");
    assert_eq!(fmt_duration(3600), "1 时 0 分");
    assert_eq!(fmt_duration(7384), "2 时 3 分");
}

#[test]
fn times_and_dates() {
    let t = utc_dt(1700000000);
    assert_eq!(fmt_ts_at(1700000000, &t), "2023-11-14 22:13:20");
    assert_eq!(fmt_date_at(&t), "2023-11-14");
    assert_eq!(fmt_ts_at(7, &None), "7(无法解析)");
    assert_eq!(fmt_date_at(&None), "");
    assert_eq!(fmt_ts(i64::MAX), format!("{}(无法解析)", i64::MAX));
    assert_eq!(fmt_date(i64::MIN), "");
    assert_eq!(fmt_ts(1700000000).len(), 19);
}

#[test]
fn the_local_clock_is_less_than_a_day_off() {
    let local = local_dt(1700000000).unwrap();
    let utc = utc_dt(1700000000).unwrap();
    let days = parse_date(&date_key_of(&local.date)).unwrap() - parse_date(&date_key_of(&utc.date)).unwrap();
    assert!((-1..=1).contains(&days));
    assert!(local.hour < 24 && local.minute < 60 && local.second < 60);
    assert!(local_dt(i64::MAX).is_none());
}

#[test]
fn dates_have_numbers() {
    assert_eq!(parse_date("0001-01-01"), Some(1));
    assert_eq!(parse_date("1970-01-01"), Some(719163));
    assert_eq!(parse_date("2024-02-29"), Some(738945));
    assert_eq!(parse_date("2023-02-29"), None);
    let d = date_of_number(738945).unwrap();
    assert_eq!((d.year, d.month, d.day), (2024, 2, 29));
    assert!(date_of_number(i64::MAX).is_none());
}

#[test]
fn a_date_reads_back_from_its_key() {
    let d = Date { year: 2024, month: 3, day: 1 };
    assert_eq!(date_key_of(&d), "2024-03-01");
    assert_eq!(parse_date("2024-03-01"), Some(738946));
    assert_eq!(parse_date(&date_key_of(&Date { year: 1, month: 12, day: 31 })), Some(365));
    assert_eq!(parse_date("2024-13-01"), None);
    assert_eq!(parse_date("2024-03"), None);
    assert_eq!(parse_date("gestern"), None);
    assert!(date_key_of(&Date { year: 2024, month: 3, day: 1 }) > date_key_of(&Date { year: 2024, month: 2, day: 29 }));
}

#[test]
fn shown_dates() {
    assert_eq!(date_text_of(&Date { year: 2024, month: 3, day: 1 }), "2024-03-01");
    assert_eq!(year_text_of(987), "0987");
    assert_eq!(clock_text_of(&utc_dt(3661).unwrap()), "01:01:01");
}

#[test]
fn bars_fill_their_width() {
    assert_eq!(bar(3, 10, 5), "▇▇");
    assert_eq!(bar(29, 100, 5), "▇");
    assert_eq!(bar(10, 10, 5), "▇▇▇▇▇");
    assert_eq!(bar(99, 10, 5), "▇▇▇▇▇");
    assert_eq!(bar(0, 10, 5), "");
    assert_eq!(bar(-3, 10, 5), "");
    assert_eq!(bar(3, 0, 5), "");
    assert_eq!(bar(3, -1, 5), "");
    assert_eq!(bar(i64::MAX - 1, i64::MAX, 3), "▇▇▇");
}

#[test]
fn texts_are_cut_by_characters() {
    assert_eq!(truncate("你好世界", 4), "你好世界");
    assert_eq!(truncate("你好世界", 3), "你好世…");
    assert_eq!(truncate("你好", 0), "…");
}

#[test]
fn pairs_by_falling_value_and_rising_key() {
    let mut v = vec![(3i64, 1i64), (1, 5), (2, 5), (9, 0)];
    sort_by_value_desc(&mut v);
    assert_eq!(v, vec![(1, 5), (2, 5), (3, 1), (9, 0)]);
    let mut w = vec![("b".to_string(), 1i64), ("a".to_string(), 1)];
    sort_by_value_desc(&mut w);
    assert_eq!(w[0].0, "a");
    assert_eq!(sorted_by_rank(vec![(2i64, 1i64), (1, 1)]), vec![(1, 1), (2, 1)]);
}

#[test]
fn sorted_maps_and_orders() {
    let mut m: SortedMap<String, i64> = SortedMap::new();
    m.set("b".to_string(), 2);
    m.set("a".to_string(), 2);
    m.set("c".to_string(), 7);
    m.set("b".to_string(), 3);
    assert_eq!(m.len(), 3);
    assert_eq!(m.get(&"b".to_string()), Some(&3));
    assert_eq!(m.get(&"x".to_string()), None);
    assert_eq!(m.pairs()[0].0, "a");
    assert_eq!(ranked(m), vec![("c".to_string(), 7), ("b".to_string(), 3), ("a".to_string(), 2)]);
    assert_eq!(falling(&vec![1, 5, 5, 9]), vec![3, 1, 2, 0]);
    assert_eq!(rising_positions(&vec![5, 1, 5, 0]), vec![3, 1, 0, 2]);
    assert_eq!(rising(vec!["山".to_string(), "a".to_string(), "".to_string()]), vec!["", "a", "山"]);
}

#[test]
fn pieces_of_text() {
    assert_eq!(split("2024-03-01", '-'), vec!["2024", "03", "01"]);
    assert_eq!(split("", '-'), vec![""]);
    assert_eq!(join(&vec!["a".to_string(), "b".to_string()], ", "), "a, b");
    assert_eq!(join(&vec![], ", "), "");
    assert_eq!(repeat("ab", 3), "ababab");
    assert_eq!(replaced_char("a\"b", '"', "\"\""), "a\"\"b");
    assert_eq!(replaced_text("aaa", "aa", "b"), "ba");
    assert!(contains("你好世界", "好世"));
    assert!(!contains("你好", "好世"));
    assert!(same("早", "早") && !same("早", "早安"));
    assert_eq!(padded_left("7", '0', 3), "007");
    assert_eq!(padded_right("山", 3), "山  ");
    assert_eq!(padded_left("1234", '0', 3), "1234");
}

#[test]
fn numerals_read_back() {
    for n in [0, 7, -7, i64::MAX, i64::MIN] {
        assert_eq!(parse_number(&numeral_of(n), i64::MIN, i64::MAX), Some(n));
    }
    assert_eq!(zero_padded_of(5, 2), "05");
    assert_eq!(parse_number("+5", 0, 9), Some(5));
    assert_eq!(parse_number("-5", 0, 9), None);
    assert_eq!(parse_number("10", 0, 9), None);
    assert_eq!(parse_number("", 0, 9), None);
    assert_eq!(count_text(120), "120");
}

#[test]
fn white_space_at_the_ends() {
    assert_eq!(trimmed(" \t　好 的\n"), "好 的");
    assert_eq!(trimmed("   "), "");
}

#[test]
fn white_space_is_that_of_the_standard_library() {
    for c in '\0'..=char::MAX {
        assert_eq!(is_white(c), c.is_whitespace(), "{c:?}");
    }
    assert_eq!(trimmed("\u{a0}\u{2003}嗯\u{3000}\u{85}"), "嗯");
    assert_eq!(trimmed("\u{200b}嗯\u{feff}"), "\u{200b}嗯\u{feff}");
}

#[test]
fn bars_are_those_of_double_precision() {
    let blocks = |a: i64, b: i64, w: usize| {
        if b <= 0 {
            return 0;
        }
        ((a as f64 / b as f64 * w as f64).round() as usize).min(w)
    };
    assert_eq!(bar(1, 98, 49), "");
    assert_eq!(bar(29, 200, 100).chars().count(), 14);
    let far = [(1 << 53) - 1, (1 << 53) + 1, i64::MAX / 3, i64::MAX - 1, i64::MAX, i64::MIN];
    let counts: Vec<i64> = (-3..=210).chain(far).collect();
    for w in [0, 1, 5, 16, 20, 24, 28, 49, 100] {
        for a in &counts {
            for b in &counts {
                assert_eq!(bar(*a, *b, w).chars().count(), blocks(*a, *b, w), "{a} {b} {w}");
            }
        }
    }
}
