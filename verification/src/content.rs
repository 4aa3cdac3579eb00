//! Decoding stored message texts, plain or compressed.

use vstd::prelude::*;
use vstd::string::*;
use vstd::utf8::*;

use crate::text;

verus! {

/// The bytes that a zstd frame begins with.
pub open spec fn frame_magic() -> Seq<u8> {
    seq![0x28u8, 0xb5u8, 0x2fu8, 0xfdu8]
}

/// The bytes begin like a zstd frame.
pub open spec fn is_frame(raw: Seq<u8>) -> bool {
    raw.len() >= 4 && raw.take(4) == frame_magic()
}

/// What `zstd::decode_all` makes of a frame, or nothing where it fails.
pub uninterp spec fn zstd_decoded(raw: Seq<u8>) -> Option<Seq<u8>>;

/// Unpacks a zstd frame.
///
/// Trusted: `zstd::decode_all`, whose result rests on the bytes alone.
#[verifier::external_body]
fn unpack(raw: &[u8]) -> (r: Option<Vec<u8>>)
    ensures
        match r {
            Some(bytes) => zstd_decoded(raw@) == Some(bytes@),
            None => zstd_decoded(raw@) is None,
        },
{
    zstd::decode_all(raw).ok()
}

/// The text that bytes in UTF-8 stand for.
pub open spec fn utf8_text(bytes: Seq<u8>) -> Option<Seq<char>> {
    if valid_utf8(bytes) {
        Some(decode_utf8(bytes))
    } else {
        None
    }
}

/// Reads bytes as UTF-8.
///
/// Trusted: `String::from_utf8`, which gives the text of the bytes exactly when they are valid
/// UTF-8.
#[verifier::external_body]
fn from_utf8(bytes: Vec<u8>) -> (r: Option<String>)
    ensures
        match r {
            Some(t) => utf8_text(bytes@) == Some(t@),
            None => utf8_text(bytes@) is None,
        },
{
    String::from_utf8(bytes).ok()
}

/// Whether the bytes begin like a zstd frame.
fn starts_frame(raw: &[u8]) -> (r: bool)
    ensures
        r == is_frame(raw@),
{
    if raw.len() < 4 {
        return false;
    }
    let r = raw[0] == 0x28 && raw[1] == 0xb5 && raw[2] == 0x2f && raw[3] == 0xfd;
    proof {
        let head = raw@.take(4);
        if r {
            assert(head =~= frame_magic());
        } else {
            assert(head[0] == raw@[0] && head[1] == raw@[1] && head[2] == raw@[2] && head[3] == raw@[3]);
        }
    }
    r
}

/// The text of stored bytes when `unpacked` is what a frame unpacks to.
pub open spec fn decoded_from(raw: Seq<u8>, unpacked: Option<Seq<u8>>) -> Option<Seq<char>> {
    if is_frame(raw) {
        match unpacked {
            Some(bytes) => utf8_text(bytes),
            None => None,
        }
    } else {
        utf8_text(raw)
    }
}

/// The text of stored bytes: a frame is unpacked first, anything else is read as it is.
pub open spec fn decoded(raw: Seq<u8>) -> Option<Seq<char>> {
    decoded_from(raw, zstd_decoded(raw))
}

/// Copies bytes.
fn bytes_of(raw: &[u8]) -> (r: Vec<u8>)
    ensures
        r@ == raw@,
{
    let mut r: Vec<u8> = Vec::new();
    let mut i: usize = 0;
    while i < raw.len()
        invariant
            i <= raw@.len(),
            r@ == raw@.take(i as int),
        decreases raw@.len() - i,
    {
        r.push(raw[i]);
        i = i + 1;
    }
    assert(raw@.take(i as int) =~= raw@);
    r
}

/// The text of stored bytes, given what a frame unpacks to.
pub fn decode_from(raw: &[u8], unpacked: Option<Vec<u8>>) -> (r: Option<String>)
    ensures
        text::text_view(r) == decoded_from(
            raw@,
            match unpacked {
                Some(bytes) => Some(bytes@),
                None => None,
            },
        ),
{
    if starts_frame(raw) {
        match unpacked {
            Some(bytes) => from_utf8(bytes),
            None => None,
        }
    } else {
        from_utf8(bytes_of(raw))
    }
}

/// Decodes stored bytes into text.
pub fn decode(raw: &[u8]) -> (r: Option<String>)
    ensures
        text::text_view(r) == decoded(raw@),
{
    let unpacked = if starts_frame(raw) {
        unpack(raw)
    } else {
        None
    };
    decode_from(raw, unpacked)
}

/// What stands between a sender and the text in a group.
pub open spec fn prefix_end() -> Seq<char> {
    ":\n"@
}

/// The characters look like the id of a sender.
pub open spec fn is_sender(prefix: Seq<char>) -> bool {
    text::occurs_at(prefix, "wxid_"@, 0) || prefix.contains('@')
}

/// `r` is `t` without the sender that a group puts before the text.
pub open spec fn strips_prefix(t: Seq<char>, r: Seq<char>) -> bool {
    if text::has_text(t, prefix_end()) {
        exists|at: int| #[trigger]
            text::first_at(t, prefix_end(), at) && r == if is_sender(t.take(at)) {
                t.skip(at + 2)
            } else {
                t
            }
    } else {
        r == t
    }
}

/// Cuts off the sender that a group puts before the text; other texts stay as they are.
pub fn strip_group_prefix(s: String) -> (r: String)
    ensures
        strips_prefix(s@, r@),
{
    let chars = text::chars_of(s.as_str());
    let n = chars.len();
    let found = text::find_text(&chars, &text::chars_of(":\n"));
    if let Some(at) = found {
        proof {
            reveal_strlit(":\n");
            assert(prefix_end().len() == 2);
            assert(text::occurs_at(s@, prefix_end(), at as int));
        }
        let prefix = text::chars_of(text::text_between(&chars, 0, at).as_str());
        assert(prefix@ =~= s@.take(at as int));
        if text::matches_at(&prefix, &text::chars_of("wxid_"), 0) || text::contains_char(&prefix, '@') {
            let rest = text::text_between(&chars, at + 2, n);
            assert(rest@ =~= s@.skip(at + 2));
            return rest;
        }
    }
    s
}

/// `r` is the text of a message: that of the content, else that of the compressed content, without
/// the sender before it.
pub open spec fn is_text_of(content: Seq<u8>, compressed: Seq<u8>, r: Option<Seq<char>>) -> bool {
    let source = if content.len() > 0 && decoded(content) is Some {
        decoded(content)
    } else {
        decoded(compressed)
    };
    match source {
        Some(t) => r is Some && strips_prefix(t, r->0),
        None => r is None,
    }
}

/// The text of a message: that of the content, or of the compressed content where the content is
/// empty or cannot be decoded; without the sender that a group puts before it.
pub fn decode_msg(message_content: &[u8], compress_content: &[u8]) -> (r: Option<String>)
    ensures
        is_text_of(message_content@, compress_content@, text::text_view(r)),
{
    if message_content.len() > 0 {
        if let Some(t) = decode(message_content) {
            return Some(strip_group_prefix(t));
        }
    }
    match decode(compress_content) {
        Some(t) => Some(strip_group_prefix(t)),
        None => None,
    }
}

/// The bytes of a frame are never the bytes of a text.
pub proof fn frames_are_no_text(raw: Seq<u8>)
    requires
        is_frame(raw),
    ensures
        !valid_utf8(raw),
{
    let head = raw.take(4);
    assert(raw[0] == head[0] && raw[1] == head[1]);
    reveal_with_fuel(valid_utf8, 3);
    if valid_utf8(raw) {
        let rest = pop_first_scalar(raw);
        assert(rest[0] == raw[1]);
        assert(valid_utf8(rest));
        assert(!valid_first_scalar(rest));
    }
}

/// Text that is stored as it is reads back as it was.
pub proof fn plain_text_reads_back(t: Seq<char>)
    ensures
        decoded(encode_utf8(t)) == Some(t),
{
    encode_utf8_valid_utf8(t);
    encode_utf8_decode_utf8(t);
    if is_frame(encode_utf8(t)) {
        frames_are_no_text(encode_utf8(t));
    }
}

/// Text that is stored as a frame reads back as it was, provided that the frame unpacks to it.
pub proof fn packed_text_reads_back(raw: Seq<u8>, t: Seq<char>)
    requires
        is_frame(raw),
        zstd_decoded(raw) == Some(encode_utf8(t)),
    ensures
        decoded(raw) == Some(t),
{
    encode_utf8_valid_utf8(t);
    encode_utf8_decode_utf8(t);
}

/// A text has only one form without the sender before it.
pub proof fn stripping_is_unique(t: Seq<char>, a: Seq<char>, b: Seq<char>)
    requires
        strips_prefix(t, a),
        strips_prefix(t, b),
    ensures
        a == b,
{
    if text::has_text(t, prefix_end()) {
        let i = choose|at: int| #[trigger]
            text::first_at(t, prefix_end(), at) && a == if is_sender(t.take(at)) {
                t.skip(at + 2)
            } else {
                t
            };
        let j = choose|at: int| #[trigger]
            text::first_at(t, prefix_end(), at) && b == if is_sender(t.take(at)) {
                t.skip(at + 2)
            } else {
                t
            };
        if i < j {
            assert(!text::occurs_at(t, prefix_end(), i));
        } else if j < i {
            assert(!text::occurs_at(t, prefix_end(), j));
        }
    }
}

}
