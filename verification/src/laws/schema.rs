//! What names, columns, types and stored texts stand for.

use vstd::prelude::*;
use vstd::string::*;
use vstd::utf8::*;

use crate::content;
use crate::schema;
use crate::text;

verus! {

/// A name stands between double quotes, character by character, with each double quote in it twice.
pub proof fn quotes_are_doubled(name: Seq<char>, c: char)
    ensures
        schema::quoted(Seq::empty()) == seq!['"', '"'],
        schema::quoted(name.push(c)) == schema::quoted(name).drop_last() + if c == '"' {
            seq!['"', '"', '"']
        } else {
            seq![c, '"']
        },
{
    assert(name.push(c).drop_last() =~= name);
    let inner = text::replace_char(name, '"', seq!['"', '"']);
    assert(schema::quoted(name).drop_last() =~= seq!['"'] + inner);
    assert(schema::quoted(name.push(c)) =~= schema::quoted(name).drop_last() + if c == '"' {
        seq!['"', '"', '"']
    } else {
        seq![c, '"']
    });
    assert(schema::quoted(Seq::empty()) =~= seq!['"', '"']);
}

/// Capital ASCII letters become the small letters at the same place in the alphabet; what is no capital
/// ASCII letter stays, and so does the length.
pub proof fn letters_become_small(t: Seq<char>, i: int)
    requires
        0 <= i < t.len(),
    ensures
        schema::lower(t).len() == t.len(),
        'A' <= t[i] <= 'Z' ==> 'a' <= schema::lower(t)[i] <= 'z' && schema::lower(t)[i] as int - 'a' as int == t[i] as int
            - 'A' as int,
        !('A' <= t[i] <= 'Z') ==> schema::lower(t)[i] == t[i],
{
}

/// The names that are reported as missing are the required names that no column has, but for the case of
/// ASCII letters, in their order.
pub proof fn missing_names_are_lacking(actual: Seq<String>, required: Seq<&'static str>, name: &'static str)
    ensures
        schema::lacking(actual, Seq::empty()).len() == 0,
        schema::lacking(actual, required.push(name)) == if exists|i: int|
            0 <= i < actual.len() && schema::lower((#[trigger] actual[i])@) == schema::lower(name@) {
            schema::lacking(actual, required)
        } else {
            schema::lacking(actual, required).push(name)
        },
{
    assert(required.push(name).drop_last() =~= required);
}

/// What the types of messages are called; any type without a name of its own is called other.
pub proof fn types_have_names(t: i64)
    ensures
        schema::label_of_type(1) == "文本"@,
        schema::label_of_type(3) == "图片"@,
        schema::label_of_type(34) == "语音"@,
        schema::label_of_type(42) == "名片"@,
        schema::label_of_type(43) == "视频"@,
        schema::label_of_type(47) == "表情"@,
        schema::label_of_type(48) == "位置"@,
        schema::label_of_type(49) == "文件"@,
        schema::label_of_type(50) == "通话"@,
        schema::label_of_type(10000) == "系统"@,
        t != 1 && t != 3 && t != 34 && t != 42 && t != 43 && t != 47 && t != 48 && t != 49 && t != 50 && t != 10000
            ==> schema::label_of_type(t) == "其他"@,
{
}

/// Bytes that begin with 28 b5 2f fd are unpacked and then read as UTF-8, all others are read as they are;
/// there is no text where unpacking or reading fails.
pub proof fn stored_bytes_are_decoded(raw: Seq<u8>, unpacked: Option<Seq<u8>>)
    ensures
        raw.len() >= 4 && raw[0] == 0x28 && raw[1] == 0xb5 && raw[2] == 0x2f && raw[3] == 0xfd ==> match unpacked {
            Some(bytes) => content::decoded_from(raw, unpacked) == if valid_utf8(bytes) {
                Some(decode_utf8(bytes))
            } else {
                None
            },
            None => content::decoded_from(raw, unpacked) is None,
        },
        !(raw.len() >= 4 && raw[0] == 0x28 && raw[1] == 0xb5 && raw[2] == 0x2f && raw[3] == 0xfd)
            ==> content::decoded_from(raw, unpacked) == if valid_utf8(raw) {
            Some(decode_utf8(raw))
        } else {
            None
        },
{
    let begins = raw.len() >= 4 && raw[0] == 0x28 && raw[1] == 0xb5 && raw[2] == 0x2f && raw[3] == 0xfd;
    if begins {
        assert(raw.take(4) =~= content::frame_magic());
    }
    if content::is_frame(raw) {
        assert(raw.take(4)[0] == 0x28 && raw.take(4)[1] == 0xb5 && raw.take(4)[2] == 0x2f && raw.take(4)[3] == 0xfd);
    }
}

/// The sender before a text in a group ends at the first colon with a line break behind it. It is cut off
/// where it begins with `wxid_` or holds an `@`; any other text stays whole.
pub proof fn senders_are_cut_off(t: Seq<char>, r: Seq<char>, at: int)
    requires
        content::strips_prefix(t, r),
    ensures
        (forall|i: int| 0 <= i < t.len() - 1 ==> !((#[trigger] t[i]) == ':' && t[i + 1] == '\n')) ==> r == t,
        0 <= at < t.len() - 1 && t[at] == ':' && t[at + 1] == '\n' && (forall|i: int|
            0 <= i < at ==> !((#[trigger] t[i]) == ':' && t[i + 1] == '\n')) ==> r == if begins_with_id(t.take(at))
            || t.take(at).contains('@') {
            t.skip(at + 2)
        } else {
            t
        },
{
    reveal_strlit(":\n");
    let end = content::prefix_end();
    assert forall|i: int| 0 <= i < t.len() - 1 implies text::occurs_at(t, end, i) == ((#[trigger] t[i]) == ':' && t[i
        + 1] == '\n') by {
        let part = t.subrange(i, i + 2);
        if t[i] == ':' && t[i + 1] == '\n' {
            assert(part =~= end);
        }
        if text::occurs_at(t, end, i) {
            assert(part[0] == end[0] && part[1] == end[1]);
        }
    }
    if text::has_text(t, end) {
        let k = choose|k: int| text::occurs_at(t, end, k);
        assert(t[k] == ':' && t[k + 1] == '\n');
        let first = choose|first: int| #[trigger]
            text::first_at(t, end, first) && r == if content::is_sender(t.take(first)) {
                t.skip(first + 2)
            } else {
                t
            };
        assert(t[first] == ':' && t[first + 1] == '\n');
        if 0 <= at < t.len() - 1 && t[at] == ':' && t[at + 1] == '\n' && (forall|i: int|
            0 <= i < at ==> !((#[trigger] t[i]) == ':' && t[i + 1] == '\n')) {
            assert(text::occurs_at(t, end, at));
            assert(first == at);
            id_at_start(t.take(at));
        }
    } else {
        if 0 <= at < t.len() - 1 && t[at] == ':' && t[at + 1] == '\n' {
            assert(text::occurs_at(t, end, at));
        }
    }
}

/// The text begins with `wxid_`.
pub open spec fn begins_with_id(t: Seq<char>) -> bool {
    t.len() >= 5 && t[0] == 'w' && t[1] == 'x' && t[2] == 'i' && t[3] == 'd' && t[4] == '_'
}

proof fn id_at_start(t: Seq<char>)
    ensures
        text::occurs_at(t, "wxid_"@, 0) == begins_with_id(t),
{
    reveal_strlit("wxid_");
    if begins_with_id(t) {
        assert(t.subrange(0, 5) =~= "wxid_"@);
    }
    if text::occurs_at(t, "wxid_"@, 0) {
        let p = t.subrange(0, 5);
        assert(p[0] == 'w' && p[1] == 'x' && p[2] == 'i' && p[3] == 'd' && p[4] == '_');
    }
}

/// The text of a message is that of its content, where that is not empty and can be read, and else that of
/// its compressed content.
pub proof fn content_comes_first(body: Seq<u8>, compressed: Seq<u8>, r: Option<Seq<char>>)
    requires
        content::is_text_of(body, compressed, r),
    ensures
        body.len() > 0 && content::decoded(body) is Some ==> r is Some && content::strips_prefix(
            content::decoded(body)->0,
            r->0,
        ),
        (body.len() == 0 || content::decoded(body) is None) && content::decoded(compressed) is Some ==> r is Some
            && content::strips_prefix(content::decoded(compressed)->0, r->0),
        (body.len() == 0 || content::decoded(body) is None) && content::decoded(compressed) is None ==> r is None,
{
}

}
