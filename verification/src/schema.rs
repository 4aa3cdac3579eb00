//! How the databases name tables, columns and message types.

use vstd::prelude::*;
use vstd::string::*;

use crate::text;

verus! {

/// The columns of a message table.
pub struct MessageCols {
    pub local_id: &'static str,
    pub local_type: &'static str,
    pub create_time: &'static str,
    /// The row of the sender in the name table of the same database.
    pub real_sender_id: &'static str,
    pub message_content: &'static str,
}

impl MessageCols {
    /// The columns of version 4.
    pub fn v4() -> (c: Self)
        ensures
            c.local_id@ == "local_id"@,
            c.local_type@ == "local_type"@,
            c.create_time@ == "create_time"@,
            c.real_sender_id@ == "real_sender_id"@,
            c.message_content@ == "message_content"@,
    {
        MessageCols {
            local_id: "local_id",
            local_type: "local_type",
            create_time: "create_time",
            real_sender_id: "real_sender_id",
            message_content: "message_content",
        }
    }

    /// The columns that a message table has to have.
    pub fn required(&self) -> (r: Vec<&'static str>)
        ensures
            r@ == seq![
                self.local_id,
                self.local_type,
                self.create_time,
                self.real_sender_id,
                self.message_content,
            ],
    {
        let r: Vec<&'static str> = vec![
            self.local_id,
            self.local_type,
            self.create_time,
            self.real_sender_id,
            self.message_content,
        ];
        r
    }
}

/// The columns of the contact table.
pub struct ContactCols {
    pub id: &'static str,
    pub username: &'static str,
    pub nick_name: &'static str,
    pub remark: &'static str,
    pub alias: &'static str,
    pub is_in_chat_room: &'static str,
}

impl ContactCols {
    /// The columns of version 4.
    pub fn v4() -> (c: Self)
        ensures
            c.id@ == "id"@,
            c.username@ == "username"@,
            c.nick_name@ == "nick_name"@,
            c.remark@ == "remark"@,
            c.alias@ == "alias"@,
            c.is_in_chat_room@ == "is_in_chat_room"@,
    {
        ContactCols {
            id: "id",
            username: "username",
            nick_name: "nick_name",
            remark: "remark",
            alias: "alias",
            is_in_chat_room: "is_in_chat_room",
        }
    }

    /// The columns that the contact table has to have.
    pub fn required(&self) -> (r: Vec<&'static str>)
        ensures
            r@ == seq![self.id, self.username, self.nick_name, self.remark, self.alias, self.is_in_chat_room],
    {
        let r: Vec<&'static str> = vec![
            self.id,
            self.username,
            self.nick_name,
            self.remark,
            self.alias,
            self.is_in_chat_room,
        ];
        r
    }
}

/// The columns of the session table.
pub struct SessionCols {
    pub username: &'static str,
    pub db_stem: &'static str,
    pub table_name: &'static str,
}

impl SessionCols {
    /// The columns of version 4.
    pub fn v4() -> (c: Self)
        ensures
            c.username@ == "username"@,
            c.db_stem@ == "db_stem"@,
            c.table_name@ == "table_name"@,
    {
        SessionCols { username: "username", db_stem: "db_stem", table_name: "table_name" }
    }

    /// The columns that the session table has to have.
    pub fn required(&self) -> (r: Vec<&'static str>)
        ensures
            r@ == seq![self.username, self.db_stem, self.table_name],
    {
        let r: Vec<&'static str> = vec![self.username, self.db_stem, self.table_name];
        r
    }
}

/// A name in double quotes, each double quote in it doubled.
pub open spec fn quoted(name: Seq<char>) -> Seq<char> {
    seq!['"'] + text::replace_char(name, '"', seq!['"', '"']) + seq!['"']
}

/// The name between the quotes, with doubled quotes taken as one.
pub open spec fn unquoted(t: Seq<char>) -> Seq<char>
    decreases t.len(),
{
    if t.len() == 0 {
        Seq::empty()
    } else if t.last() == '"' && t.len() >= 2 && t[t.len() - 2] == '"' {
        unquoted(t.take(t.len() - 2)).push('"')
    } else {
        unquoted(t.drop_last()).push(t.last())
    }
}

/// Puts a table or column name in quotes.
pub fn quote_ident(name: &str) -> (r: String)
    ensures
        r@ == quoted(name@),
{
    let inner = text::replaced_char(name, '"', "\"\"");
    let mut r = "\"".to_string();
    r.append(inner.as_str());
    r.append("\"");
    proof {
        reveal_strlit("\"");
        reveal_strlit("\"\"");
        assert("\"\""@ =~= seq!['"', '"']);
        assert("\""@ =~= seq!['"']);
    }
    r
}

/// What stands between the quotes reads back as the name.
pub proof fn quoted_name_reads_back(name: Seq<char>)
    ensures
        quoted(name).first() == '"',
        quoted(name).last() == '"',
        unquoted(quoted(name).subrange(1, quoted(name).len() - 1)) == name,
{
    let inner = text::replace_char(name, '"', seq!['"', '"']);
    assert(quoted(name).subrange(1, quoted(name).len() - 1) =~= inner);
    escaped_reads_back(name);
}

proof fn escaped_reads_back(name: Seq<char>)
    ensures
        unquoted(text::replace_char(name, '"', seq!['"', '"'])) == name,
    decreases name.len(),
{
    let pair = seq!['"', '"'];
    if name.len() > 0 {
        let before = text::replace_char(name.drop_last(), '"', pair);
        escaped_reads_back(name.drop_last());
        let inner = text::replace_char(name, '"', pair);
        if name.last() == '"' {
            assert(inner.take(inner.len() - 2) =~= before);
        } else {
            assert(inner.drop_last() =~= before);
        }
        assert(unquoted(inner) =~= name);
    }
}

/// A capital ASCII letter as a small one; other characters stay.
pub open spec fn ascii_lower(c: char) -> char {
    if 'A' <= c <= 'Z' {
        (c as int + 32) as char
    } else {
        c
    }
}

/// The text with its ASCII letters small.
pub open spec fn lower(t: Seq<char>) -> Seq<char> {
    t.map_values(|c: char| ascii_lower(c))
}

/// Makes the ASCII letters of a text small.
pub fn to_ascii_lowercase(t: &str) -> (r: String)
    ensures
        r@ == lower(t@),
{
    let chars = text::chars_of(t);
    let mut out: Vec<char> = Vec::new();
    let mut i: usize = 0;
    while i < chars.len()
        invariant
            i <= chars@.len(),
            out@ == lower(chars@.take(i as int)),
        decreases chars@.len() - i,
    {
        let c: char = chars[i];
        let d: char = if 'A' <= c && c <= 'Z' {
            (c as u8 + 32) as char
        } else {
            c
        };
        out.push(d);
        assert(lower(chars@.take(i + 1)) =~= lower(chars@.take(i as int)).push(d));
        i = i + 1;
    }
    assert(chars@.take(i as int) =~= chars@);
    text::text_of(&out)
}

/// A table lacks columns.
pub struct MissingColumns {
    pub table: String,
    pub missing: Vec<&'static str>,
    pub actual: Vec<String>,
}

/// One of the columns has the name, whatever the case of its ASCII letters.
pub open spec fn has_column(actual: Seq<String>, name: Seq<char>) -> bool {
    exists|i: int| 0 <= i < actual.len() && lower((#[trigger] actual[i])@) == lower(name)
}

/// The required names that no column has.
pub open spec fn lacking(actual: Seq<String>, required: Seq<&'static str>) -> Seq<&'static str>
    decreases required.len(),
{
    if required.len() == 0 {
        Seq::empty()
    } else {
        let before = lacking(actual, required.drop_last());
        if has_column(actual, required.last()@) {
            before
        } else {
            before.push(required.last())
        }
    }
}

/// Whether one of the columns has the name.
fn finds_column(actual: &Vec<String>, name: &str) -> (r: bool)
    ensures
        r == has_column(actual@, name@),
{
    let wanted = to_ascii_lowercase(name);
    let mut i: usize = 0;
    while i < actual.len()
        invariant
            i <= actual@.len(),
            wanted@ == lower(name@),
            forall|k: int| 0 <= k < i ==> lower((#[trigger] actual@[k])@) != lower(name@),
        decreases actual@.len() - i,
    {
        let found = to_ascii_lowercase(actual[i].as_str());
        if text::same(found.as_str(), wanted.as_str()) {
            return true;
        }
        i = i + 1;
    }
    false
}

/// Succeeds where the table has every required column; else tells which are missing.
pub fn verify_columns(table: &str, actual: Vec<String>, required: &Vec<&'static str>) -> (r: Result<(), MissingColumns>)
    ensures
        match r {
            Ok(_) => lacking(actual@, required@).len() == 0,
            Err(e) => {
                &&& e.table@ == table@
                &&& e.missing@ == lacking(actual@, required@)
                &&& e.missing@.len() > 0
                &&& e.actual@ == actual@
            },
        },
{
    let mut missing: Vec<&'static str> = Vec::new();
    let mut i: usize = 0;
    while i < required.len()
        invariant
            i <= required@.len(),
            missing@ == lacking(actual@, required@.take(i as int)),
        decreases required@.len() - i,
    {
        assert(required@.take(i + 1).drop_last() =~= required@.take(i as int));
        if !finds_column(&actual, required[i]) {
            missing.push(required[i]);
        }
        i = i + 1;
    }
    assert(required@.take(i as int) =~= required@);
    if missing.len() == 0 {
        Ok(())
    } else {
        Err(MissingColumns { table: table.to_string(), missing, actual })
    }
}

/// The query for the columns of a table.
pub fn columns_query(table: &str) -> (q: String)
    ensures
        q@ == "PRAGMA table_info("@ + quoted(table@) + ")"@,
{
    let mut q = "PRAGMA table_info(".to_string();
    q.append(quote_ident(table).as_str());
    q.append(")");
    q
}

/// The base type of a packed type code: its low 32 bits.
pub fn base_type(local_type: i64) -> (r: i64)
    ensures
        r == local_type as int % 0x1_0000_0000,
{
    let r: i64 = local_type & 0xFFFF_FFFF;
    assert(r == local_type as int % 0x1_0000_0000) by (bit_vector)
        requires
            r == local_type & 0xFFFF_FFFF,
    ;
    r
}

/// The subtype of a packed type code: its high 32 bits.
pub fn sub_type(local_type: i64) -> (r: i64)
    ensures
        r == (local_type as int / 0x1_0000_0000) % 0x1_0000_0000,
{
    let r: i64 = (local_type >> 32) & 0xFFFF_FFFF;
    assert(r == (local_type as int / 0x1_0000_0000) % 0x1_0000_0000) by (bit_vector)
        requires
            r == (local_type >> 32) & 0xFFFF_FFFF,
    ;
    r
}

/// A subtype and a base type that are packed together read back.
pub proof fn packed_types_read_back(sub: int, base: int)
    requires
        0 <= sub < 0x1_0000_0000,
        0 <= base < 0x1_0000_0000,
    ensures
        (sub * 0x1_0000_0000 + base) % 0x1_0000_0000 == base,
        ((sub * 0x1_0000_0000 + base) / 0x1_0000_0000) % 0x1_0000_0000 == sub,
{
}

/// The name of a base type.
pub open spec fn label_of_type(t: i64) -> Seq<char> {
    if t == 1 {
        "文本"@
    } else if t == 3 {
        "图片"@
    } else if t == 34 {
        "语音"@
    } else if t == 42 {
        "名片"@
    } else if t == 43 {
        "视频"@
    } else if t == 47 {
        "表情"@
    } else if t == 48 {
        "位置"@
    } else if t == 49 {
        "文件"@
    } else if t == 50 {
        "通话"@
    } else if t == 10000 {
        "系统"@
    } else {
        "其他"@
    }
}

/// The name of a base type.
pub fn type_label(t: i64) -> (r: &'static str)
    ensures
        r@ == label_of_type(t),
{
    match t {
        1 => "文本",
        3 => "图片",
        34 => "语音",
        42 => "名片",
        43 => "视频",
        47 => "表情",
        48 => "位置",
        49 => "文件",
        50 => "通话",
        10000 => "系统",
        _ => "其他",
    }
}

}
