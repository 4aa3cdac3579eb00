//! Properties of characters as Unicode gives them.

use vstd::prelude::*;
use vstd::string::*;

use crate::text;

verus! {

/// The character is white space: it has the property `White_Space` of Unicode, which
/// `char::is_whitespace` asks for too.
pub open spec fn white_space(c: char) -> bool {
    let n = c as u32;
    ||| 0x9 <= n <= 0xd
    ||| n == 0x20
    ||| n == 0x85
    ||| n == 0xa0
    ||| n == 0x1680
    ||| 0x2000 <= n <= 0x200a
    ||| n == 0x2028
    ||| n == 0x2029
    ||| n == 0x202f
    ||| n == 0x205f
    ||| n == 0x3000
}

/// What `char::is_alphanumeric` says of a character.
pub uninterp spec fn alphanumeric(c: char) -> bool;

/// What `str::to_lowercase` makes of a text.
pub uninterp spec fn lowercase(t: Seq<char>) -> Seq<char>;

/// Whether a character is white space.
pub fn is_white(c: char) -> (r: bool)
    ensures
        r == white_space(c),
{
    let n: u32 = c as u32;
    (0x9 <= n && n <= 0xd) || n == 0x20 || n == 0x85 || n == 0xa0 || n == 0x1680 || (0x2000 <= n && n <= 0x200a) || n
        == 0x2028 || n == 0x2029 || n == 0x202f || n == 0x205f || n == 0x3000
}

/// Whether a character is a letter or a number.
///
/// Trusted: `char::is_alphanumeric`, whose answer rests on the character alone.
#[verifier::external_body]
pub(crate) fn is_alphanumeric(c: char) -> (r: bool)
    ensures
        r == alphanumeric(c),
{
    c.is_alphanumeric()
}

/// The text in lower case.
///
/// Trusted: `str::to_lowercase`, whose result rests on the text alone.
#[verifier::external_body]
pub(crate) fn to_lower(t: &str) -> (r: String)
    ensures
        r@ == lowercase(t@),
{
    t.to_lowercase()
}

/// The text from its first character that is not white space.
pub open spec fn trim_start(t: Seq<char>) -> Seq<char>
    decreases t.len(),
{
    if t.len() > 0 && white_space(t[0]) {
        trim_start(t.skip(1))
    } else {
        t
    }
}

/// The text up to its last character that is not white space.
pub open spec fn trim_end(t: Seq<char>) -> Seq<char>
    decreases t.len(),
{
    if t.len() > 0 && white_space(t.last()) {
        trim_end(t.drop_last())
    } else {
        t
    }
}

/// The text without white space at either end.
pub open spec fn trim(t: Seq<char>) -> Seq<char> {
    trim_end(trim_start(t))
}

/// Cuts white space off both ends of a text.
pub fn trimmed(t: &str) -> (r: String)
    ensures
        r@ == trim(t@),
{
    let chars = text::chars_of(t);
    let n = chars.len();
    let mut a: usize = 0;
    assert(chars@.skip(0) =~= chars@);
    while a < n && is_white(chars[a])
        invariant
            a <= n,
            n == chars@.len(),
            trim_start(chars@) == trim_start(chars@.skip(a as int)),
        decreases n - a,
    {
        assert(chars@.skip(a as int).skip(1) =~= chars@.skip(a + 1));
        a = a + 1;
    }
    let ghost rest = chars@.skip(a as int);
    assert(trim_start(chars@) == rest);
    let mut b: usize = n;
    assert(rest.take(n - a) =~= rest);
    while b > a && is_white(chars[b - 1])
        invariant
            a <= b <= n,
            n == chars@.len(),
            rest == chars@.skip(a as int),
            trim_end(rest) == trim_end(rest.take(b - a)),
        decreases b,
    {
        assert(rest.take(b - a).last() == chars@[b - 1]);
        assert(rest.take(b - a).drop_last() =~= rest.take(b - 1 - a));
        b = b - 1;
    }
    proof {
        assert(rest.take(b - a) =~= chars@.subrange(a as int, b as int));
        if b > a {
            assert(rest.take(b - a).last() == chars@[b - 1]);
        }
    }
    text::text_between(&chars, a, b)
}

}
