use wechat_statistics::probe::{
    group_lines, group_queries, group_tables, guess_from, guess_times, has_database_ext, interpret_ts, is_time_candidate,
    is_time_column, plausible, render_value, sample_query, signature, table_group, time_query, CellValue,
    ColumnReport, ProbeOptions, TableInfo,
};

fn col(name: &str, sql_type: &str, not_null: bool, pk: bool) -> ColumnReport {
    ColumnReport { name: name.to_string(), sql_type: sql_type.to_string(), not_null, pk }
}

fn table(name: &str, cols: &[(&str, &str)]) -> TableInfo {
    TableInfo { name: name.to_string(), columns: cols.iter().map(|(n, t)| col(n, t, false, false)).collect() }
}

#[test]
fn files_of_databases() {
    assert!(has_database_ext("db") && has_database_ext("DB") && has_database_ext("SQLite"));
    assert!(!has_database_ext("db3") && !has_database_ext(""));
}

#[test]
fn usual_options() {
    let o = ProbeOptions::default();
    assert!(!o.no_count && !o.no_samples);
    assert_eq!((o.sample_limit, o.text_truncate, o.max_table_names), (3, 200, 50));
}

#[test]
fn signatures_do_not_mind_the_order_of_columns() {
    let a = vec![col("id", "INTEGER", true, true), col("name", "TEXT", false, false)];
    let b = vec![col("name", "TEXT", false, false), col("id", "INTEGER", true, true)];
    assert_eq!(signature(&a), "id:INTEGERPN,name:TEXT--");
    assert_eq!(signature(&a), signature(&b));
}

#[test]
fn the_largest_group_comes_first() {
    let one: &[(&str, &str)] = &[("x", "TEXT")];
    let two: &[(&str, &str)] = &[("y", "TEXT")];
    let tables = vec![table("a", one), table("b", two), table("c", one), table("d", two), table("e", two)];
    assert_eq!(group_tables(&tables), vec![vec![1, 3, 4], vec![0, 2]]);
    assert!(group_tables(&vec![]).is_empty());
}

#[test]
fn columns_that_may_hold_times() {
    assert!(is_time_candidate("mesCreateTime") && is_time_candidate("UPDATED") && is_time_candidate("timestamp"));
    assert!(!is_time_candidate("name"));
    assert!(is_time_column(&col("create_time", "BIGINT", false, false)));
    assert!(!is_time_column(&col("create_time", "TEXT", false, false)));
}

#[test]
fn seconds_and_milliseconds() {
    assert_eq!(plausible(1700000000), Some(("Unix秒", 1700000000)));
    assert_eq!(plausible(1700000000123), Some(("Unix毫秒", 1700000000)));
    assert_eq!(plausible(946684799), None);
    assert_eq!(plausible(-1), None);
    let (unit, shown) = interpret_ts(1700000000).unwrap();
    assert_eq!(unit, "Unix秒");
    assert!(shown.starts_with("2023-11-14 22:13:20 | 本地 2023-11-1"), "{shown}");
    assert_eq!(interpret_ts(5), None);
}

#[test]
fn guesses_name_the_unit() {
    let found = vec![None, Some(("Unix秒", "t".to_string()))];
    let g = guess_from("c", vec![1, 1700000000], &found).unwrap();
    assert_eq!((g.column.as_str(), g.unit), ("c", "Unix秒"));
    assert_eq!(g.sample_values, vec![1, 1700000000]);
    assert_eq!(g.interpreted, vec!["1700000000 → t"]);
    let none = guess_times("c", vec![7]).unwrap();
    assert_eq!(none.unit, "未知");
    assert_eq!(none.interpreted, vec!["7 无法解释为合理时间戳（是否带 2000 年偏移？）"]);
    assert!(guess_times("c", vec![]).is_none());
}

#[test]
fn values_as_they_are_shown() {
    assert_eq!(render_value(&CellValue::Null, 9), "NULL");
    assert_eq!(render_value(&CellValue::Integer(-5), 9), "-5");
    assert_eq!(render_value(&CellValue::Real("1.5".to_string()), 9), "1.5");
    assert_eq!(render_value(&CellValue::Text("你好世界".as_bytes().to_vec()), 2), "你好…");
    assert_eq!(render_value(&CellValue::Text(vec![b'a', 0xFF]), 9), "a\u{FFFD}");
    assert_eq!(render_value(&CellValue::Blob(12), 9), "<BLOB 12 bytes>");
}

#[test]
fn queries_for_samples() {
    assert_eq!(sample_query("t", 3), "SELECT * FROM \"t\" LIMIT 3");
    assert_eq!(time_query("c", "t", 3), "SELECT \"c\" FROM \"t\" LIMIT 5");
    assert_eq!(time_query("c", "t", 8), "SELECT \"c\" FROM \"t\" LIMIT 8");
}

#[test]
fn a_group_in_lines() {
    let names = vec!["Msg_a".to_string(), "Msg_b".to_string()];
    let cols = vec![col("id", "INTEGER", true, true)];
    let samples = vec![vec![("id".to_string(), "1".to_string()), ("x".to_string(), "y".to_string())]];
    let lines = group_lines(1, 4, &names, &cols, Some(9), Some(&samples), &vec![]);
    assert_eq!(
        lines,
        vec![
            "---- 结构 1/4 ：被 2 张表共享，代表表 [Msg_a] ----",
            "  表名: Msg_a, Msg_b",
            "  · id                       INTEGER      PK NOTNULL",
            "  代表表行数: 9",
            "  样本[0]: id=1  x=y",
            "",
        ]
    );
    let short = group_lines(1, 1, &names, &vec![], None, None, &vec![]);
    assert_eq!(short[2], "  代表表行数: (已跳过 --no-count)");
    assert_eq!(short[3], "  采样: (已跳过 --no-samples)");
}

#[test]
fn a_group_keeps_some_names() {
    let names = vec!["a".to_string(), "b".to_string(), "c".to_string()];
    let g = table_group(&names, vec![], Some(1), vec![], vec![], 2);
    assert_eq!(g.shared_by, 3);
    assert_eq!(g.table_names, vec!["a", "b"]);
}

#[test]
fn signatures_tell_tables_apart() {
    let base = vec![col("id", "INTEGER", true, true), col("name", "TEXT", false, false)];
    for other in [
        vec![col("id", "INTEGER", true, true)],
        vec![],
        vec![col("id", "INTEGER", false, true), col("name", "TEXT", false, false)],
        vec![col("id", "INTEGER", true, false), col("name", "TEXT", false, false)],
        vec![col("ID", "INTEGER", true, true), col("name", "TEXT", false, false)],
        vec![col("id", "INT", true, true), col("name", "TEXT", false, false)],
        vec![col("id", "INTEGER", true, true), col("name", "TEXT", false, false), col("name", "TEXT", false, false)],
    ] {
        assert_ne!(signature(&base), signature(&other));
    }
    // A comma in a type can pass for another column.
    assert_eq!(
        signature(&vec![col("a", "X--,b:Y", false, false)]),
        signature(&vec![col("a", "X", false, false), col("b", "Y", false, false)])
    );
}

#[test]
fn only_what_is_wanted_is_asked() {
    let cols = vec![
        col("create_time", "BIGINT", false, false),
        col("name", "TEXT", false, false),
        col("update_date", "INTEGER", false, false),
    ];
    let all = group_queries("Msg\"a", &cols, &ProbeOptions::default());
    assert_eq!(all.count.as_deref(), Some("SELECT count(*) FROM \"Msg\"\"a\""));
    assert_eq!(all.samples.as_deref(), Some("SELECT * FROM \"Msg\"\"a\" LIMIT 3"));
    assert_eq!(
        all.times,
        vec![
            ("create_time".to_string(), "SELECT \"create_time\" FROM \"Msg\"\"a\" LIMIT 5".to_string()),
            ("update_date".to_string(), "SELECT \"update_date\" FROM \"Msg\"\"a\" LIMIT 5".to_string()),
        ]
    );
    let few = ProbeOptions { no_count: true, no_samples: true, ..ProbeOptions::default() };
    let some = group_queries("t", &cols[1..2].to_vec(), &few);
    assert!(some.count.is_none() && some.samples.is_none() && some.times.is_empty());
    let no_count = ProbeOptions { no_count: true, sample_limit: 7, ..ProbeOptions::default() };
    let rest = group_queries("t", &cols[..1].to_vec(), &no_count);
    assert!(rest.count.is_none());
    assert_eq!(rest.samples.as_deref(), Some("SELECT * FROM \"t\" LIMIT 7"));
    assert_eq!(rest.times[0].1, "SELECT \"create_time\" FROM \"t\" LIMIT 7");
}
