use rusqlite::Connection;
use std::collections::HashMap;
use wechat_statistics::model::Conversation;
use wechat_statistics::stats::temporal::{temporal_query, weekday_sql_to_idx, TemporalAccum, TemporalRow};
use wechat_statistics::stats::volume::{sides_query, types_query, VolumeAccum};

fn make_msg_table() -> Connection {
    let conn = Connection::open_in_memory().unwrap();
    conn.execute_batch(
        "CREATE TABLE \"Msg_a\" (\
            local_id INTEGER PRIMARY KEY,\
            local_type INTEGER,\
            create_time INTEGER,\
            real_sender_id INTEGER,\
            message_content TEXT)",
    )
    .unwrap();
    conn
}

fn conv() -> Conversation {
    Conversation {
        username: "wxid_test".into(),
        db_stems: vec!["message_0".into()],
        table_name: "Msg_a".into(),
        msg_count: None,
    }
}

fn temporal_rows(conn: &Connection, table: &str) -> Vec<TemporalRow> {
    let mut stmt = conn.prepare(&temporal_query(table)).unwrap();
    let rows = stmt
        .query_map([], |r| {
            Ok(TemporalRow { hour: r.get(0)?, weekday: r.get(1)?, month: r.get(2)?, count: r.get(3)? })
        })
        .unwrap();
    rows.map(|r| r.unwrap()).collect()
}

fn type_rows(conn: &Connection, table: &str) -> Vec<(i64, i64)> {
    let mut stmt = conn.prepare(&types_query(table)).unwrap();
    let rows = stmt.query_map([], |r| Ok((r.get(0)?, r.get(1)?))).unwrap();
    rows.map(|r| r.unwrap()).collect()
}

fn sides(conn: &Connection, table: &str, self_id: i64) -> (Option<i64>, Option<i64>) {
    conn.query_row(&sides_query(table, self_id), [], |r| Ok((r.get(0)?, r.get(1)?))).unwrap()
}

#[test]
fn weekday_mapping_is_monday_first() {
    assert_eq!(weekday_sql_to_idx(1), 0);
    assert_eq!(weekday_sql_to_idx(6), 5);
    assert_eq!(weekday_sql_to_idx(0), 6);
    assert_eq!(weekday_sql_to_idx(9), 6);
}

#[test]
fn sums_match_filtered_row_count() {
    let conn = make_msg_table();
    conn.execute(
        "INSERT INTO \"Msg_a\" (local_type, create_time, real_sender_id) VALUES \
         (1, 1700000000, 1), (1, 1700003600, 1), (1, 1700090000, 1), (1, 0, 1)",
        [],
    )
    .unwrap();
    let mut a = TemporalAccum::new();
    a.observe_table(&temporal_rows(&conn, "Msg_a"));
    let s = a.finalize();
    assert_eq!(s.hour.iter().sum::<i64>(), 3);
    assert_eq!(s.weekday.iter().sum::<i64>(), 3);
    assert_eq!(s.month.iter().map(|(_, n)| n).sum::<i64>(), 3);
}

#[test]
fn groups_by_base_type() {
    let conn = make_msg_table();
    conn.execute(
        "INSERT INTO \"Msg_a\" (local_type, create_time, real_sender_id, message_content) VALUES \
         (1, 1700000000, 1, 'a'),\
         (21474836481, 1700000001, 1, 'b'),\
         (3, 1700000002, 1, 'c'),\
         (21474836529, 1700000003, 1, 'd'),\
         (49, 1700000004, 1, 'e')",
        [],
    )
    .unwrap();
    let mut a = VolumeAccum::new(10);
    a.observe_table(&conv(), &type_rows(&conn, "Msg_a"), Some(sides(&conn, "Msg_a", 1)));
    let s = a.finalize(1);
    assert_eq!(s.total_messages, 5);
    let map: HashMap<i64, i64> = s.type_dist.into_iter().collect();
    assert_eq!(map[&1], 2);
    assert_eq!(map[&3], 1);
    assert_eq!(map[&49], 2);
    assert_eq!(s.top[0].1, 5);
    assert_eq!(s.top[0].2, 5);
    assert_eq!(s.top[0].3, 0);
}

#[test]
fn hours_weekdays_and_months_agree() {
    let rows = vec![
        TemporalRow { hour: 3, weekday: 0, month: "2024-01".into(), count: 2 },
        TemporalRow { hour: 23, weekday: 1, month: "2023-12".into(), count: 5 },
        TemporalRow { hour: 3, weekday: 6, month: "2024-01".into(), count: 1 },
    ];
    let mut a = TemporalAccum::new();
    a.observe_table(&rows);
    a.observe_table(&vec![]);
    let s = a.finalize();
    assert_eq!((s.hour[3], s.hour[23]), (3, 5));
    assert_eq!(s.weekday, [5, 0, 0, 0, 0, 1, 2]);
    assert_eq!(s.month, vec![("2023-12".to_string(), 5), ("2024-01".to_string(), 3)]);
}

#[test]
fn one_table_of_several_databases_is_one_conversation() {
    let mut a = VolumeAccum::new(1);
    let mut big = conv();
    big.username = "big".into();
    a.observe_table(&conv(), &vec![(1, 3)], Some((Some(1), Some(2))));
    a.observe_table(&big, &vec![(1, 10)], None);
    a.observe_table(&conv(), &vec![(3, 4)], Some((None, Some(4))));
    let s = a.finalize(2);
    assert_eq!(s.total_messages, 17);
    assert_eq!(s.conversations, 2);
    assert_eq!(s.type_dist, vec![(1, 13), (3, 4)]);
    assert_eq!(s.top.len(), 1);
    assert_eq!(s.top[0].0, "big");
    assert_eq!(s.top[0].1, 10);
}

#[test]
fn tables_are_quoted_in_queries() {
    for q in [temporal_query("a\"b"), types_query("a\"b"), sides_query("a\"b", 7)] {
        assert!(q.contains("\"a\"\"b\""), "{q}");
    }
}

#[test]
fn volumes_add_up_and_come_in_order() {
    let mut a = VolumeAccum::new(3);
    let tables: Vec<(&str, Vec<(i64, i64)>)> = vec![
        ("b", vec![(1, 5), (3, 2)]),
        ("a", vec![(49, 2), (1, 5)]),
        ("c", vec![(3, 1)]),
        ("d", vec![(34, 3)]),
        ("c", vec![(34, 1), (1, 4)]),
    ];
    for (u, rows) in &tables {
        let mut c = conv();
        c.username = u.to_string();
        a.observe_table(&c, rows, None);
    }
    let s = a.finalize(4);
    assert_eq!(s.total_messages, 23);
    assert_eq!(s.type_dist, vec![(1, 14), (34, 4), (3, 3), (49, 2)]);
    assert_eq!(s.type_dist.iter().map(|r| r.1).sum::<i64>(), s.total_messages);
    let top: Vec<(&str, i64)> = s.top.iter().map(|r| (r.0.as_str(), r.1)).collect();
    assert_eq!(top, vec![("a", 7), ("b", 7), ("c", 6)]);

    let none = VolumeAccum::new(3).finalize(0);
    assert!(none.type_dist.is_empty() && none.top.is_empty() && none.total_messages == 0);
}
