//! Text as a sequence of characters: searching, slicing, replacing and decimal numerals.

use vstd::prelude::*;
use vstd::string::*;

verus! {

/// `pattern` stands in `text` at position `at`.
pub open spec fn occurs_at(text: Seq<char>, pattern: Seq<char>, at: int) -> bool {
    &&& 0 <= at
    &&& at + pattern.len() <= text.len()
    &&& text.subrange(at, at + pattern.len()) == pattern
}

/// `pattern` stands somewhere in `text`.
pub open spec fn has_text(text: Seq<char>, pattern: Seq<char>) -> bool {
    exists|at: int| occurs_at(text, pattern, at)
}

/// `at` is the leftmost position of `pattern` in `text`.
pub open spec fn first_at(text: Seq<char>, pattern: Seq<char>, at: int) -> bool {
    &&& occurs_at(text, pattern, at)
    &&& forall|i: int| 0 <= i < at ==> !occurs_at(text, pattern, i)
}

/// `text` with every occurrence of the character `c` replaced by `to`.
pub open spec fn replace_char(text: Seq<char>, c: char, to: Seq<char>) -> Seq<char>
    decreases text.len(),
{
    if text.len() == 0 {
        Seq::empty()
    } else {
        replace_char(text.drop_last(), c, to) + if text.last() == c {
            to
        } else {
            seq![text.last()]
        }
    }
}

/// `text` with the occurrences of `from` replaced by `to`, taken from the left without overlap.
pub open spec fn replace_text(text: Seq<char>, from: Seq<char>, to: Seq<char>) -> Seq<char>
    decreases text.len(),
{
    if from.len() == 0 || text.len() < from.len() {
        text
    } else if text.take(from.len() as int) == from {
        to + replace_text(text.skip(from.len() as int), from, to)
    } else {
        seq![text[0]] + replace_text(text.skip(1), from, to)
    }
}

/// The parts joined with `sep` between neighbours.
pub open spec fn joined(parts: Seq<Seq<char>>, sep: Seq<char>) -> Seq<char>
    decreases parts.len(),
{
    if parts.len() == 0 {
        Seq::empty()
    } else if parts.len() == 1 {
        parts[0]
    } else {
        joined(parts.drop_last(), sep) + sep + parts.last()
    }
}

/// What the strings hold.
pub open spec fn texts(parts: Seq<String>) -> Seq<Seq<char>> {
    parts.map_values(|s: String| s@)
}

/// What an optional string holds.
pub open spec fn text_view(t: Option<String>) -> Option<Seq<char>> {
    match t {
        Some(t) => Some(t@),
        None => None,
    }
}

/// What the literals hold.
pub open spec fn literals(parts: Seq<&'static str>) -> Seq<Seq<char>> {
    parts.map_values(|s: &'static str| s@)
}

/// The text repeated `n` times.
pub open spec fn repeated(text: Seq<char>, n: nat) -> Seq<char>
    decreases n,
{
    if n == 0 {
        Seq::empty()
    } else {
        repeated(text, (n - 1) as nat) + text
    }
}

/// Padded on the left with `fill` up to `width` characters.
pub open spec fn pad_left(text: Seq<char>, fill: char, width: int) -> Seq<char> {
    if text.len() >= width {
        text
    } else {
        Seq::new((width - text.len()) as nat, |i: int| fill) + text
    }
}

/// Padded on the right with spaces up to `width` characters.
pub open spec fn pad_right(text: Seq<char>, width: int) -> Seq<char> {
    if text.len() >= width {
        text
    } else {
        text + Seq::new((width - text.len()) as nat, |i: int| ' ')
    }
}

/// The decimal digit for `d`.
pub open spec fn digit(d: int) -> char {
    ('0' as int + d) as char
}

/// Decimal numeral of a natural number, without leading zeros.
pub open spec fn digits(n: nat) -> Seq<char>
    decreases n,
{
    if n < 10 {
        seq![digit(n as int)]
    } else {
        digits(n / 10).push(digit((n % 10) as int))
    }
}

/// Decimal numeral of an integer.
pub open spec fn numeral(n: int) -> Seq<char> {
    if n < 0 {
        seq!['-'] + digits((-n) as nat)
    } else {
        digits(n as nat)
    }
}

/// Decimal numeral padded with zeros to `width` characters; a minus sign counts towards the width.
pub open spec fn zero_padded(n: int, width: int) -> Seq<char> {
    if n < 0 {
        seq!['-'] + pad_left(digits((-n) as nat), '0', width - 1)
    } else {
        pad_left(digits(n as nat), '0', width)
    }
}

/// Reads the characters of `text`.
pub fn chars_of(text: &str) -> (chars: Vec<char>)
    ensures
        chars@ == text@,
{
    let mut chars: Vec<char> = Vec::new();
    for c in it: text.chars()
        invariant
            chars@ == text@.take(it.index()),
            it.seq() == text@,
    {
        chars.push(c);
    }
    chars
}

/// `String::push`, which the standard library documents as appending the character at the end.
pub assume_specification[ String::push ](s: &mut String, ch: char)
    ensures
        final(s)@ == old(s)@.push(ch),
;

/// Collects characters into a string.
pub fn text_of(chars: &Vec<char>) -> (text: String)
    ensures
        text@ == chars@,
{
    let mut text = String::new();
    let mut i: usize = 0;
    while i < chars.len()
        invariant
            i <= chars@.len(),
            text@ == chars@.take(i as int),
        decreases chars@.len() - i,
    {
        text.push(chars[i]);
        i = i + 1;
    }
    text
}

/// Whether two texts hold the same characters.
pub fn same(a: &str, b: &str) -> (r: bool)
    ensures
        r == (a@ == b@),
{
    let x = chars_of(a);
    let y = chars_of(b);
    proof {
        assert(x@.subrange(0, x@.len() as int) =~= x@);
    }
    x.len() == y.len() && matches_at(&x, &y, 0)
}

/// The characters `from..to` of `chars` as a string.
pub fn text_between(chars: &Vec<char>, from: usize, to: usize) -> (text: String)
    requires
        from <= to <= chars@.len(),
    ensures
        text@ == chars@.subrange(from as int, to as int),
{
    let mut out: Vec<char> = Vec::new();
    let mut i: usize = from;
    while i < to
        invariant
            from <= i <= to <= chars@.len(),
            out@ == chars@.subrange(from as int, i as int),
        decreases to - i,
    {
        out.push(chars[i]);
        i = i + 1;
    }
    text_of(&out)
}

/// Whether `pattern` stands in `text` at position `at`.
pub fn matches_at(text: &Vec<char>, pattern: &Vec<char>, at: usize) -> (r: bool)
    ensures
        r == occurs_at(text@, pattern@, at as int),
{
    let n = text.len();
    let m = pattern.len();
    if m > n || at > n - m {
        return false;
    }
    let mut k: usize = 0;
    while k < m
        invariant
            k <= m,
            m == pattern@.len(),
            n == text@.len(),
            m <= n,
            at <= n - m,
            forall|j: int| 0 <= j < k ==> text@[at + j] == #[trigger] pattern@[j],
        decreases m - k,
    {
        if text[at + k] != pattern[k] {
            assert(text@.subrange(at as int, at + m)[k as int] == text@[at + k]);
            return false;
        }
        k = k + 1;
    }
    assert(text@.subrange(at as int, at + m) =~= pattern@);
    true
}

/// The leftmost position of `pattern` in `text`.
pub fn find_text(text: &Vec<char>, pattern: &Vec<char>) -> (r: Option<usize>)
    ensures
        match r {
            Some(at) => first_at(text@, pattern@, at as int),
            None => !has_text(text@, pattern@),
        },
{
    let n = text.len();
    let m = pattern.len();
    if m > n {
        return None;
    }
    let mut i: usize = 0;
    while i < n - m
        invariant
            i <= n - m,
            m == pattern@.len(),
            n == text@.len(),
            m <= n,
            forall|j: int| 0 <= j < i ==> !occurs_at(text@, pattern@, j),
        decreases n - m - i,
    {
        if matches_at(text, pattern, i) {
            return Some(i);
        }
        i = i + 1;
    }
    if matches_at(text, pattern, i) {
        Some(i)
    } else {
        None
    }
}

/// Whether `pattern` stands somewhere in `text`.
pub fn contains(text: &str, pattern: &str) -> (r: bool)
    ensures
        r == has_text(text@, pattern@),
{
    find_text(&chars_of(text), &chars_of(pattern)).is_some()
}

/// Whether the character `c` stands somewhere in `text`.
pub fn contains_char(text: &Vec<char>, c: char) -> (r: bool)
    ensures
        r == text@.contains(c),
{
    let mut i: usize = 0;
    while i < text.len()
        invariant
            i <= text@.len(),
            forall|j: int| 0 <= j < i ==> text@[j] != c,
        decreases text@.len() - i,
    {
        if text[i] == c {
            return true;
        }
        i = i + 1;
    }
    false
}

/// Replaces every occurrence of the character `c` by `to`.
pub fn replaced_char(text: &str, c: char, to: &str) -> (r: String)
    ensures
        r@ == replace_char(text@, c, to@),
{
    let chars = chars_of(text);
    let insert = chars_of(to);
    let mut out: Vec<char> = Vec::new();
    let mut i: usize = 0;
    while i < chars.len()
        invariant
            i <= chars@.len(),
            insert@ == to@,
            out@ == replace_char(chars@.take(i as int), c, to@),
        decreases chars@.len() - i,
    {
        proof {
            assert(chars@.take(i + 1).drop_last() =~= chars@.take(i as int));
        }
        if chars[i] == c {
            extend(&mut out, &insert);
        } else {
            out.push(chars[i]);
        }
        i = i + 1;
    }
    assert(chars@.take(i as int) =~= chars@);
    text_of(&out)
}

/// Appends the characters of `more`.
pub fn extend(out: &mut Vec<char>, more: &Vec<char>)
    ensures
        final(out)@ == old(out)@ + more@,
{
    let mut k: usize = 0;
    while k < more.len()
        invariant
            k <= more@.len(),
            out@ == old(out)@ + more@.take(k as int),
        decreases more@.len() - k,
    {
        out.push(more[k]);
        k = k + 1;
    }
    assert(more@.take(k as int) =~= more@);
}

/// Replaces the occurrences of `from` by `to`, from the left, without overlap.
pub fn replaced_text(text: &str, from: &str, to: &str) -> (r: String)
    requires
        from@.len() > 0,
    ensures
        r@ == replace_text(text@, from@, to@),
{
    let chars = chars_of(text);
    let pattern = chars_of(from);
    let insert = chars_of(to);
    let n = chars.len();
    let m = pattern.len();
    let mut out: Vec<char> = Vec::new();
    let mut i: usize = 0;
    assert(chars@.skip(0) =~= chars@);
    while m <= n && i <= n - m
        invariant
            i <= n,
            n == chars@.len(),
            m == pattern@.len(),
            m > 0,
            pattern@ == from@,
            insert@ == to@,
            out@ + replace_text(chars@.skip(i as int), from@, to@) == replace_text(chars@, from@, to@),
        decreases n - i,
    {
        let ghost rest = chars@.skip(i as int);
        proof {
            assert(rest.take(m as int) =~= chars@.subrange(i as int, i + m));
        }
        if matches_at(&chars, &pattern, i) {
            proof {
                assert(rest.skip(m as int) =~= chars@.skip(i + m));
                assert(out@ + (insert@ + replace_text(chars@.skip(i + m), from@, to@)) =~= (out@ + insert@)
                    + replace_text(chars@.skip(i + m), from@, to@));
            }
            extend(&mut out, &insert);
            i = i + m;
        } else {
            proof {
                assert(rest.skip(1) =~= chars@.skip(i + 1));
                assert(out@ + (seq![chars@[i as int]] + replace_text(chars@.skip(i + 1), from@, to@))
                    =~= out@.push(chars@[i as int]) + replace_text(chars@.skip(i + 1), from@, to@));
            }
            out.push(chars[i]);
            i = i + 1;
        }
    }
    while i < n
        invariant
            i <= n,
            n == chars@.len(),
            n - i < from@.len(),
            out@ + chars@.skip(i as int) == replace_text(chars@, from@, to@),
        decreases n - i,
    {
        proof {
            assert(out@ + chars@.skip(i as int) =~= out@.push(chars@[i as int]) + chars@.skip(i + 1));
        }
        out.push(chars[i]);
        i = i + 1;
    }
    assert(out@ + chars@.skip(n as int) =~= out@);
    text_of(&out)
}

/// Joins the parts with `sep` between neighbours.
pub fn join(parts: &Vec<String>, sep: &str) -> (r: String)
    ensures
        r@ == joined(texts(parts@), sep@),
{
    let mut out = String::new();
    let mut i: usize = 0;
    while i < parts.len()
        invariant
            i <= parts@.len(),
            out@ == joined(texts(parts@).take(i as int), sep@),
        decreases parts@.len() - i,
    {
        proof {
            assert(texts(parts@).take(i + 1).drop_last() =~= texts(parts@).take(i as int));
        }
        if i > 0 {
            out.append(sep);
            out.append(parts[i].as_str());
        } else {
            out.append(parts[i].as_str());
            assert(out@ =~= parts@[0]@);
        }
        i = i + 1;
    }
    assert(texts(parts@).take(i as int) =~= texts(parts@));
    out
}

/// Repeats the text `n` times.
pub fn repeat(text: &str, n: usize) -> (r: String)
    ensures
        r@ == repeated(text@, n as nat),
{
    let mut out = String::new();
    let mut i: usize = 0;
    while i < n
        invariant
            i <= n,
            out@ == repeated(text@, i as nat),
        decreases n - i,
    {
        out.append(text);
        i = i + 1;
    }
    out
}

/// Pads on the left with `fill` up to `width` characters.
pub fn padded_left(text: &str, fill: char, width: usize) -> (r: String)
    ensures
        r@ == pad_left(text@, fill, width as int),
{
    let chars = chars_of(text);
    if chars.len() >= width {
        return text_of(&chars);
    }
    let lead = width - chars.len();
    let mut out: Vec<char> = Vec::new();
    let mut i: usize = 0;
    while i < lead
        invariant
            i <= lead,
            out@ == Seq::new(i as nat, |k: int| fill),
        decreases lead - i,
    {
        out.push(fill);
        i = i + 1;
    }
    extend(&mut out, &chars);
    text_of(&out)
}

/// Pads on the right with spaces up to `width` characters.
pub fn padded_right(text: &str, width: usize) -> (r: String)
    ensures
        r@ == pad_right(text@, width as int),
{
    let chars = chars_of(text);
    let n = chars.len();
    let mut out = chars;
    let ghost start = out@;
    let mut i: usize = n;
    while i < width
        invariant
            n <= i,
            i <= width || i == n,
            out@ == start + Seq::new((i - n) as nat, |k: int| ' '),
        decreases width - i,
    {
        out.push(' ');
        i = i + 1;
    }
    assert(n >= width ==> out@ =~= start);
    text_of(&out)
}

/// Decimal numeral of a natural number.
pub fn digits_of(n: u64) -> (r: Vec<char>)
    ensures
        r@ == digits(n as nat),
    decreases n,
{
    let d: u8 = (n % 10) as u8;
    let c: char = (48 + d) as char;
    if n < 10 {
        let mut r: Vec<char> = Vec::new();
        r.push(c);
        r
    } else {
        let mut r = digits_of(n / 10);
        r.push(c);
        r
    }
}

/// The absolute value of `n`.
pub fn magnitude(n: i64) -> (m: u64)
    ensures
        m == if n < 0 { -n as int } else { n as int },
{
    if n < 0 {
        (-(n + 1)) as u64 + 1
    } else {
        n as u64
    }
}

/// Decimal numeral of an integer.
pub fn numeral_of(n: i64) -> (r: String)
    ensures
        r@ == numeral(n as int),
{
    let ds = digits_of(magnitude(n));
    if n < 0 {
        let mut out: Vec<char> = Vec::new();
        out.push('-');
        extend(&mut out, &ds);
        assert(out@ =~= seq!['-'] + ds@);
        text_of(&out)
    } else {
        text_of(&ds)
    }
}

/// Decimal numeral padded with zeros to `width` characters.
pub fn zero_padded_of(n: i64, width: usize) -> (r: String)
    requires
        width >= 1,
    ensures
        r@ == zero_padded(n as int, width as int),
{
    let ds = text_of(&digits_of(magnitude(n)));
    if n < 0 {
        let mut sign: Vec<char> = Vec::new();
        sign.push('-');
        let mut out = text_of(&sign);
        assert(out@ =~= seq!['-']);
        out.append(padded_left(&ds, '0', width - 1).as_str());
        out
    } else {
        padded_left(&ds, '0', width)
    }
}

/// The pieces of `text` between the occurrences of `sep`.
pub open spec fn fields(text: Seq<char>, sep: char) -> Seq<Seq<char>>
    decreases text.len(),
{
    if text.len() == 0 {
        seq![Seq::empty()]
    } else {
        let before = fields(text.drop_last(), sep);
        if text.last() == sep {
            before.push(Seq::empty())
        } else {
            before.drop_last().push(before.last().push(text.last()))
        }
    }
}

/// There is always a last field.
pub proof fn fields_nonempty(text: Seq<char>, sep: char)
    ensures
        fields(text, sep).len() >= 1,
    decreases text.len(),
{
    if text.len() > 0 {
        fields_nonempty(text.drop_last(), sep);
    }
}

/// Splits `text` at every occurrence of `sep`.
pub fn split(text: &str, sep: char) -> (parts: Vec<String>)
    ensures
        texts(parts@) == fields(text@, sep),
{
    let chars = chars_of(text);
    let mut parts: Vec<String> = Vec::new();
    let mut open: Vec<char> = Vec::new();
    let mut i: usize = 0;
    while i < chars.len()
        invariant
            i <= chars@.len(),
            texts(parts@).push(open@) == fields(chars@.take(i as int), sep),
        decreases chars@.len() - i,
    {
        let ghost before = fields(chars@.take(i as int), sep);
        proof {
            assert(chars@.take(i + 1).drop_last() =~= chars@.take(i as int));
            assert(before.drop_last() =~= texts(parts@));
        }
        if chars[i] == sep {
            let done = text_of(&open);
            let ghost old_parts = parts@;
            parts.push(done);
            open = Vec::new();
            assert(texts(parts@) =~= texts(old_parts).push(done@));
        } else {
            open.push(chars[i]);
        }
        i = i + 1;
    }
    assert(chars@.take(i as int) =~= chars@);
    let ghost old_parts = parts@;
    let last = text_of(&open);
    parts.push(last);
    assert(texts(parts@) =~= texts(old_parts).push(last@));
    parts
}

/// `c` is a decimal digit.
pub open spec fn is_digit(c: char) -> bool {
    '0' <= c <= '9'
}

/// Every character is a decimal digit, and there is one.
pub open spec fn all_digits(text: Seq<char>) -> bool {
    text.len() > 0 && forall|i: int| 0 <= i < text.len() ==> is_digit(#[trigger] text[i])
}

/// The number that a row of decimal digits stands for.
pub open spec fn digits_value(text: Seq<char>) -> nat
    decreases text.len(),
{
    if text.len() == 0 {
        0
    } else {
        (10 * digits_value(text.drop_last()) + (text.last() as int - '0' as int)) as nat
    }
}

/// The number between `lo` and `hi` that `text` writes out: digits, with a plus sign or, where
/// negative numbers are in range, a minus sign in front.
pub open spec fn parsed(text: Seq<char>, lo: int, hi: int) -> Option<int> {
    let minus = lo < 0 && text.len() > 0 && text[0] == '-';
    let signed = minus || (text.len() > 0 && text[0] == '+');
    let body = if signed {
        text.skip(1)
    } else {
        text
    };
    let value = if minus {
        -digits_value(body)
    } else {
        digits_value(body) as int
    };
    if all_digits(body) && lo <= value <= hi {
        Some(value)
    } else {
        None
    }
}

proof fn digits_value_grows(text: Seq<char>, n: int)
    requires
        all_digits(text),
        0 <= n <= text.len(),
    ensures
        digits_value(text.take(n)) <= digits_value(text),
    decreases text.len(),
{
    if n == text.len() {
        assert(text.take(n) =~= text);
    } else if text.len() > 1 {
        assert(is_digit(text[text.len() - 1]));
        digits_value_grows(text.drop_last(), n);
        assert(text.drop_last().take(n) =~= text.take(n));
    } else {
        assert(text.take(n) =~= Seq::empty());
    }
}

/// Parses a decimal number between `lo` and `hi`.
pub fn parse_number(text: &str, lo: i64, hi: i64) -> (r: Option<i64>)
    requires
        lo <= 0 <= hi,
    ensures
        match r {
            Some(n) => parsed(text@, lo as int, hi as int) == Some(n as int),
            None => parsed(text@, lo as int, hi as int) is None,
        },
{
    let chars = chars_of(text);
    let n = chars.len();
    if n == 0 {
        return None;
    }
    let minus = lo < 0 && chars[0] == '-';
    let start: usize = if minus || chars[0] == '+' {
        1
    } else {
        0
    };
    let ghost body = chars@.skip(start as int);
    assert(chars@.skip(0) =~= chars@);
    if start == n {
        return None;
    }
    let most: i128 = if minus {
        -(lo as i128)
    } else {
        hi as i128
    };
    let mut value: i128 = 0;
    let mut i: usize = start;
    while i < n
        invariant
            start <= i <= n,
            n == chars@.len(),
            body == chars@.skip(start as int),
            0 <= value <= most,
            most <= 0x8000_0000_0000_0000,
            value == digits_value(body.take(i - start)),
            forall|k: int| 0 <= k < i - start ==> is_digit(#[trigger] body[k]),
            most == if minus { -lo as int } else { hi as int },
            parsed(text@, lo as int, hi as int) == (if all_digits(body) && digits_value(body) <= most {
                Some(if minus { -digits_value(body) } else { digits_value(body) as int })
            } else {
                None::<int>
            }),
        decreases n - i,
    {
        let c: char = chars[i];
        assert(body[i - start] == c);
        if c < '0' || c > '9' {
            assert(!is_digit(body[i - start]));
            return None;
        }
        let d: u32 = c as u32 - 48;
        proof {
            assert(body.take(i + 1 - start).drop_last() =~= body.take(i - start));
        }
        value = value * 10 + d as i128;
        i = i + 1;
        assert(value == digits_value(body.take(i - start)));
        if value > most {
            proof {
                if all_digits(body) {
                    digits_value_grows(body, i - start);
                }
            }
            return None;
        }
    }
    assert(body.take(i - start) =~= body);
    assert(all_digits(body));
    if minus {
        Some((-value) as i64)
    } else {
        Some(value as i64)
    }
}

/// A number is written in digits that read back as it.
pub proof fn digits_are_digits(n: nat)
    ensures
        all_digits(digits(n)),
        digits_value(digits(n)) == n,
    decreases n,
{
    if n < 10 {
        let d = digits(n);
        assert(d[0] == digit(n as int));
        assert(d.drop_last() =~= Seq::empty());
        assert(digits_value(d.drop_last()) == 0);
    } else {
        digits_are_digits(n / 10);
        let d = digits(n);
        assert(d.drop_last() =~= digits(n / 10));
        assert(is_digit(d.last()));
    }
}

proof fn leading_zeros_add_nothing(k: nat, text: Seq<char>)
    ensures
        digits_value(Seq::new(k, |i: int| '0') + text) == digits_value(text),
    decreases k + text.len(),
{
    let zeros = Seq::new(k, |i: int| '0');
    if text.len() > 0 {
        assert((zeros + text).drop_last() =~= zeros + text.drop_last());
        leading_zeros_add_nothing(k, text.drop_last());
    } else if k > 0 {
        assert((zeros + text).drop_last() =~= Seq::new((k - 1) as nat, |i: int| '0') + text);
        leading_zeros_add_nothing((k - 1) as nat, text);
    } else {
        assert(zeros + text =~= text);
    }
}

/// Reading a number back from its zero-padded numeral gives the number.
pub proof fn zero_padded_reads_back(n: int, width: int, lo: int, hi: int)
    requires
        0 <= n <= hi,
        lo <= 0,
    ensures
        parsed(zero_padded(n, width), lo, hi) == Some(n),
        all_digits(zero_padded(n, width)),
{
    let ds = digits(n as nat);
    digits_are_digits(n as nat);
    let lead = if ds.len() >= width {
        0nat
    } else {
        (width - ds.len()) as nat
    };
    leading_zeros_add_nothing(lead, ds);
    let t = zero_padded(n, width);
    assert(t =~= Seq::new(lead, |i: int| '0') + ds);
    assert(all_digits(t)) by {
        assert forall|i: int| 0 <= i < t.len() implies is_digit(#[trigger] t[i]) by {
            if i >= lead {
                assert(t[i] == ds[i - lead]);
            }
        }
    }
    assert(is_digit(t[0]));
}

/// Reading a number back from its numeral gives the number.
pub proof fn numeral_reads_back(n: int, lo: int, hi: int)
    requires
        lo <= n <= hi,
        lo <= 0 <= hi,
    ensures
        parsed(numeral(n), lo, hi) == Some(n),
{
    if n < 0 {
        digits_are_digits((-n) as nat);
        assert(numeral(n).skip(1) =~= digits((-n) as nat));
    } else {
        digits_are_digits(n as nat);
        assert(is_digit(digits(n as nat)[0]));
    }
}

/// A separator and a piece without separators add one field.
pub proof fn fields_append(text: Seq<char>, sep: char, piece: Seq<char>)
    requires
        !piece.contains(sep),
    ensures
        fields(text.push(sep) + piece, sep) == fields(text, sep).push(piece),
    decreases piece.len(),
{
    let all = text.push(sep) + piece;
    if piece.len() == 0 {
        assert(all =~= text.push(sep));
        assert(all.drop_last() =~= text);
        assert(piece =~= Seq::empty());
    } else {
        let less = piece.drop_last();
        assert(!less.contains(sep)) by {
            if less.contains(sep) {
                let i = less.index_of(sep);
                assert(piece[i] == sep);
            }
        }
        assert(piece.contains(piece.last()));
        assert(all.drop_last() =~= text.push(sep) + less);
        fields_append(text, sep, less);
        let before = fields(text.push(sep) + less, sep);
        assert(before.drop_last() =~= fields(text, sep));
        assert(less.push(piece.last()) =~= piece);
    }
}

/// A piece without separators is its own only field.
pub proof fn fields_single(sep: char, piece: Seq<char>)
    requires
        !piece.contains(sep),
    ensures
        fields(piece, sep) == seq![piece],
    decreases piece.len(),
{
    if piece.len() > 0 {
        let less = piece.drop_last();
        assert(!less.contains(sep)) by {
            if less.contains(sep) {
                let i = less.index_of(sep);
                assert(piece[i] == sep);
            }
        }
        assert(piece.contains(piece.last()));
        fields_single(sep, less);
        assert(less.push(piece.last()) =~= piece);
        assert(fields(piece, sep) =~= seq![piece]);
    } else {
        assert(piece =~= Seq::empty());
    }
}

/// Splitting undoes joining: parts that do not hold the separator come back as they were.
pub proof fn fields_of_joined(parts: Seq<Seq<char>>, sep: char)
    requires
        parts.len() > 0,
        forall|i: int| 0 <= i < parts.len() ==> !(#[trigger] parts[i]).contains(sep),
    ensures
        fields(joined(parts, seq![sep]), sep) == parts,
    decreases parts.len(),
{
    if parts.len() == 1 {
        assert(!parts[0].contains(sep));
        fields_single(sep, parts[0]);
        assert(parts =~= seq![parts[0]]);
    } else {
        let less = parts.drop_last();
        assert forall|i: int| 0 <= i < less.len() implies !(#[trigger] less[i]).contains(sep) by {
            assert(less[i] == parts[i]);
        }
        fields_of_joined(less, sep);
        assert(!parts[parts.len() - 1].contains(sep));
        let front = joined(less, seq![sep]);
        fields_append(front, sep, parts.last());
        assert(front + seq![sep] =~= front.push(sep));
        assert(less.push(parts.last()) =~= parts);
    }
}

/// Appends a line.
pub fn put(lines: &mut Vec<String>, line: String)
    ensures
        texts(final(lines)@) == texts(old(lines)@).push(line@),
{
    let ghost before = lines@;
    lines.push(line);
    assert(texts(lines@) =~= texts(before).push(line@));
}

/// Appends lines.
pub fn put_all(lines: &mut Vec<String>, more: Vec<String>)
    ensures
        texts(final(lines)@) == texts(old(lines)@) + texts(more@),
{
    let ghost before = lines@;
    let ghost added = more@;
    let mut rest = more;
    lines.append(&mut rest);
    assert(texts(lines@) =~= texts(before) + texts(added));
}

/// Decimal numeral of a count.
pub fn count_text(n: usize) -> (r: String)
    ensures
        r@ == digits(n as nat),
{
    text_of(&digits_of(n as u64))
}

}
