use rusqlite::Connection;
use wechat_statistics::loader::{
    contacts_query, count_query, facts_query, local_types_query, normal_sender, self_query, senders_query,
    sessions_query, span_query, sum_given, texts_query, ContactRow, FactRow, FactShard, SessionRow, ShardStats,
    TextRow, TextShard, WeChatData,
};

fn data() -> WeChatData {
    WeChatData::open("/data/wxid_me".to_string(), true).ok().unwrap()
}

#[test]
fn a_directory_needs_its_contacts() {
    assert_eq!(data().root, "/data/wxid_me");
    let e = WeChatData::open("/x".to_string(), false).err().unwrap();
    assert_eq!(e.root, "/x");
    assert_eq!(data().db_file("message_0"), "message_0.db");
}

#[test]
fn contacts_keep_their_order_and_names() {
    let row = |id: i64, remark: Option<&str>, nick: Option<&str>, room: i64| ContactRow {
        id,
        username: format!("wxid_{id}"),
        nickname: nick.map(|n| n.to_string()),
        remark: remark.map(|r| r.to_string()),
        alias: None,
        room,
    };
    let cs = data().load_contacts(vec![
        row(1, Some("老王"), Some("王"), 0),
        row(2, Some(""), Some("李"), 0),
        row(3, None, None, 1),
    ]);
    let shown: Vec<&str> = cs.iter().map(|c| c.display_name()).collect();
    assert_eq!(shown, vec!["老王", "李", "wxid_3"]);
    assert_eq!(cs.iter().map(|c| c.is_chatroom).collect::<Vec<bool>>(), vec![false, false, true]);
}

#[test]
fn rows_of_one_name_are_one_conversation() {
    let row = |u: &str, d: &str| SessionRow {
        username: u.to_string(),
        db_stem: d.to_string(),
        table_name: format!("Msg_{u}"),
    };
    let cs = data().load_conversations(&vec![row("a", "m0"), row("b", "m0"), row("a", "m1"), row("a", "m0")]);
    assert_eq!(cs.len(), 2);
    assert_eq!((cs[0].username.as_str(), cs[0].table_name.as_str()), ("a", "Msg_a"));
    assert_eq!(cs[0].db_stems, vec!["m0", "m1"]);
    assert_eq!(cs[1].db_stems, vec!["m0"]);
    assert!(cs[0].msg_count.is_none());
}

#[test]
fn missing_databases_count_nothing() {
    assert_eq!(data().count_messages_batch(&vec![vec![Some(3), None, Some(4)], vec![]]), vec![7, 0]);
    assert_eq!(sum_given(&vec![None, Some(2)]), 2);
}

#[test]
fn senders_are_told_apart_within_a_database() {
    assert_eq!(normal_sender(Some(5), 5), 0);
    assert_eq!(normal_sender(Some(5), 6), 1);
    assert_eq!(normal_sender(None, 5), 1);
}

#[test]
fn databases_are_merged_by_time() {
    let fact = |t: i64, s: i64, lt: i64| FactRow { create_time: t, sender: s, local_type: lt };
    let shards = vec![
        FactShard { self_rowid: Some(2), rows: vec![fact(10, 2, 1), fact(30, 1, (5 << 32) | 49)] },
        FactShard { self_rowid: Some(7), rows: vec![fact(20, 7, 3), fact(30, 2, 1)] },
    ];
    let facts = data().message_facts(&shards);
    let shown: Vec<(i64, i64, i64)> = facts.iter().map(|f| (f.create_time, f.sender_id, f.base_type)).collect();
    assert_eq!(shown, vec![(10, 0, 1), (20, 0, 3), (30, 1, 49), (30, 1, 1)]);
}

#[test]
fn only_texts_are_decoded() {
    let row = |t: i64, s: i64, lt: i64, c: &[u8], z: &[u8]| TextRow {
        create_time: t,
        sender: s,
        local_type: lt,
        content: c.to_vec(),
        compressed: z.to_vec(),
    };
    let packed = zstd::encode_all("晚安".as_bytes(), 3).unwrap();
    let shards = vec![
        TextShard {
            self_rowid: Some(1),
            rows: vec![row(50, 1, 1, "早安".as_bytes(), &[]), row(60, 2, 3, b"image", &[])],
        },
        TextShard {
            self_rowid: None,
            rows: vec![row(40, 1, (7 << 32) | 1, &[], &packed), row(70, 1, 1, &[0xFF], &[0xFF])],
        },
    ];
    let texts = data().text_messages(&shards);
    let shown: Vec<(i64, i64, Option<&str>)> =
        texts.iter().map(|t| (t.create_time, t.sender_id, t.text.as_deref())).collect();
    assert_eq!(shown, vec![(40, 1, Some("晚安")), (50, 0, Some("早安")), (70, 1, None)]);
}

#[test]
fn statistics_of_all_databases() {
    let s = data().conversation_stats(&vec![
        ShardStats {
            count: 3,
            senders: vec!["a".to_string(), "b".to_string()],
            time_min: Some(5),
            time_max: Some(9),
            type_dist: vec![(3, 1), (1, 2)],
        },
        ShardStats { count: 0, senders: vec![], time_min: None, time_max: None, type_dist: vec![] },
        ShardStats {
            count: 2,
            senders: vec!["b".to_string(), "c".to_string()],
            time_min: Some(2),
            time_max: Some(4),
            type_dist: vec![(1, 2)],
        },
    ]);
    assert_eq!((s.count, s.distinct_senders), (5, 3));
    assert_eq!((s.time_min, s.time_max), (Some(2), Some(9)));
    assert_eq!(s.type_dist, vec![(1, 4), (3, 1)]);
}

#[test]
fn the_queries_fit_the_tables() {
    let conn = Connection::open_in_memory().unwrap();
    conn.execute_batch(
        "CREATE TABLE contact (id INTEGER, username TEXT, nick_name TEXT, remark TEXT, alias TEXT, is_in_chat_room INTEGER);\
         CREATE TABLE session_last_message (username TEXT, db_stem TEXT, table_name TEXT);\
         CREATE TABLE Name2Id (user_name TEXT);\
         CREATE TABLE \"Msg_a\" (local_id INTEGER, local_type INTEGER, create_time INTEGER, real_sender_id INTEGER,\
            sort_seq INTEGER, message_content BLOB, compress_content BLOB);\
         INSERT INTO Name2Id VALUES ('wxid_me'), ('wxid_you');\
         INSERT INTO \"Msg_a\" VALUES (1, 1, 20, 1, 2, 'b', NULL), (2, 1, 10, 2, 1, 'a', NULL), (3, 3, 30, 9, 3, 'c', NULL);",
    )
    .unwrap();
    conn.prepare(&contacts_query()).unwrap();
    conn.prepare(&sessions_query()).unwrap();
    let n: i64 = conn.query_row(&count_query("Msg_a"), [], |r| r.get(0)).unwrap();
    assert_eq!(n, 3);
    let span: (i64, i64) = conn.query_row(&span_query("Msg_a"), [], |r| Ok((r.get(0)?, r.get(1)?))).unwrap();
    assert_eq!(span, (10, 30));
    let me: i64 = conn.query_row(&self_query(), ["wxid_me"], |r| r.get(0)).unwrap();
    assert_eq!(me, 1);
    let mut stmt = conn.prepare(&facts_query("Msg_a")).unwrap();
    let times: Vec<i64> = stmt.query_map([], |r| r.get(0)).unwrap().map(|r| r.unwrap()).collect();
    assert_eq!(times, vec![10, 20, 30]);
    let mut stmt = conn.prepare(&texts_query("Msg_a")).unwrap();
    let texts: Vec<String> = stmt.query_map([], |r| r.get(3)).unwrap().map(|r| r.unwrap()).collect();
    assert_eq!(texts, vec!["a", "b", "c"]);
    let mut stmt = conn.prepare(&senders_query("Msg_a")).unwrap();
    let mut senders: Vec<String> = stmt.query_map([], |r| r.get(0)).unwrap().map(|r| r.unwrap()).collect();
    senders.sort();
    assert_eq!(senders, vec!["#9", "wxid_me", "wxid_you"]);
    let mut stmt = conn.prepare(&local_types_query("Msg_a")).unwrap();
    let mut types: Vec<(i64, i64)> =
        stmt.query_map([], |r| Ok((r.get(0)?, r.get(1)?))).unwrap().map(|r| r.unwrap()).collect();
    types.sort();
    assert_eq!(types, vec![(1, 2), (3, 1)]);
}
