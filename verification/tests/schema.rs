use wechat_statistics::schema::{
    base_type, columns_query, quote_ident, sub_type, to_ascii_lowercase, type_label, verify_columns, ContactCols,
    MessageCols, SessionCols,
};

fn names(list: &[&str]) -> Vec<String> {
    list.iter().map(|n| n.to_string()).collect()
}

#[test]
fn quotes_are_doubled() {
    assert_eq!(quote_ident("Msg_a"), "\"Msg_a\"");
    assert_eq!(quote_ident("a\"b"), "\"a\"\"b\"");
    assert_eq!(columns_query("a\"b"), "PRAGMA table_info(\"a\"\"b\")");
}

#[test]
fn a_quoted_name_reaches_its_table() {
    let conn = rusqlite::Connection::open_in_memory().unwrap();
    let odd = "odd \"name\"; --";
    conn.execute_batch(&format!("CREATE TABLE {} (x INTEGER)", quote_ident(odd))).unwrap();
    let name: String = conn.query_row("SELECT name FROM sqlite_master", [], |r| r.get(0)).unwrap();
    assert_eq!(name, odd);
    let mut stmt = conn.prepare(&columns_query(odd)).unwrap();
    let cols: Vec<String> = stmt.query_map([], |r| r.get(1)).unwrap().map(|r| r.unwrap()).collect();
    assert_eq!(cols, vec!["x"]);
}

#[test]
fn missing_columns_are_named() {
    let required = SessionCols::v4().required();
    assert_eq!(required, vec!["username", "db_stem", "table_name"]);
    assert!(verify_columns("t", names(&["USERNAME", "Db_Stem", "table_name", "more"]), &required).is_ok());
    let e = verify_columns("t", names(&["username"]), &required).err().unwrap();
    assert_eq!(e.table, "t");
    assert_eq!(e.missing, vec!["db_stem", "table_name"]);
    assert_eq!(e.actual, names(&["username"]));
}

#[test]
fn columns_of_the_tables() {
    assert_eq!(
        MessageCols::v4().required(),
        vec!["local_id", "local_type", "create_time", "real_sender_id", "message_content"]
    );
    assert_eq!(
        ContactCols::v4().required(),
        vec!["id", "username", "nick_name", "remark", "alias", "is_in_chat_room"]
    );
}

#[test]
fn packed_types() {
    let packed = (5i64 << 32) | 49;
    assert_eq!(packed, 21474836529);
    assert_eq!((base_type(packed), sub_type(packed)), (49, 5));
    assert_eq!((base_type(1), sub_type(1)), (1, 0));
    assert_eq!((base_type(-1), sub_type(-1)), (0xFFFF_FFFF, 0xFFFF_FFFF));
}

#[test]
fn types_have_labels() {
    let known = [
        (1, "文本"),
        (3, "图片"),
        (34, "语音"),
        (42, "名片"),
        (43, "视频"),
        (47, "表情"),
        (48, "位置"),
        (49, "文件"),
        (50, "通话"),
        (10000, "系统"),
    ];
    for (t, label) in known {
        assert_eq!(type_label(t), label);
    }
    assert_eq!(type_label(2), "其他");
}

#[test]
fn only_ascii_is_lowered() {
    assert_eq!(to_ascii_lowercase("AbÇ山Z"), "abÇ山z");
}
