//! Character-level helpers shared by the assembler: character classes,
//! UTF-8 byte counts, decimal numbers and string building.

use vstd::prelude::*;
use vstd::string::StrSliceExecFns;

verus! {

/// Whether `c` has the Unicode White_Space property (`char::is_whitespace`):
/// tab, line feed, vertical tab, form feed, carriage return, space, next
/// line, no-break space, ogham space mark, the spaces U+2000 to U+200A, line
/// and paragraph separators, narrow no-break space, medium mathematical space
/// and ideographic space.
pub open spec fn is_white_space(c: char) -> bool {
    let v = c as u32;
    ||| 0x09 <= v <= 0x0D
    ||| v == 0x20
    ||| v == 0x85
    ||| v == 0xA0
    ||| v == 0x1680
    ||| 0x2000 <= v <= 0x200A
    ||| v == 0x2028
    ||| v == 0x2029
    ||| v == 0x202F
    ||| v == 0x205F
    ||| v == 0x3000
}

/// What `char::is_alphabetic` gives for a character outside ASCII (the
/// Unicode Alphabetic property).
pub uninterp spec fn non_ascii_alphabetic(c: char) -> bool;

/// What `char::is_alphanumeric` gives for a character outside ASCII
/// (Alphabetic or Numeric).
pub uninterp spec fn non_ascii_alphanumeric(c: char) -> bool;

/// Whether `c` is an ASCII letter.
pub open spec fn ascii_letter(c: char) -> bool {
    'a' <= c <= 'z' || 'A' <= c <= 'Z'
}

/// Whether `char::is_alphabetic` holds of `c`: of an ASCII character exactly
/// for the letters.
pub open spec fn is_alphabetic(c: char) -> bool {
    if (c as u32) < 0x80 {
        ascii_letter(c)
    } else {
        non_ascii_alphabetic(c)
    }
}

/// Whether `char::is_alphanumeric` holds of `c`: of an ASCII character
/// exactly for the letters and digits.
pub open spec fn is_alphanumeric(c: char) -> bool {
    if (c as u32) < 0x80 {
        ascii_letter(c) || '0' <= c <= '9'
    } else {
        non_ascii_alphanumeric(c)
    }
}

/// Whether `c` is white space in the Unicode sense.
pub fn char_is_whitespace(c: char) -> (r: bool)
    ensures
        r == is_white_space(c),
{
    let v = c as u32;
    (0x09 <= v && v <= 0x0D) || v == 0x20 || v == 0x85 || v == 0xA0 || v == 0x1680 || (0x2000 <= v && v
        <= 0x200A) || v == 0x2028 || v == 0x2029 || v == 0x202F || v == 0x205F || v == 0x3000
}

/// Calls `char::is_alphabetic`: of an ASCII character it holds exactly for
/// the letters; outside ASCII its result is named `non_ascii_alphabetic`.
#[verifier::external_body]
pub fn char_is_alphabetic(c: char) -> (r: bool)
    ensures
        r == is_alphabetic(c),
        (c as u32) >= 0x80 ==> r == non_ascii_alphabetic(c),
{
    c.is_alphabetic()
}

/// Calls `char::is_alphanumeric`: of an ASCII character it holds exactly for
/// the letters and digits; outside ASCII its result is named
/// `non_ascii_alphanumeric`.
#[verifier::external_body]
pub fn char_is_alphanumeric(c: char) -> (r: bool)
    ensures
        r == is_alphanumeric(c),
        (c as u32) >= 0x80 ==> r == non_ascii_alphanumeric(c),
{
    c.is_alphanumeric()
}

/// Builds a `String` from its characters (`FromIterator<char>` for
/// `String`): the string holds exactly those characters, in order.
#[verifier::external_body]
pub fn string_from_chars(chars: &Vec<char>) -> (s: String)
    ensures
        s@ == chars@,
{
    chars.iter().collect()
}

/// The text that `{:?}` (`Debug` for `str`) writes for a string: its
/// characters between double quotes, with quotes, backslashes and
/// unprintable characters escaped.
pub uninterp spec fn quoted_debug(s: Seq<char>) -> Seq<char>;

/// Whether a character is printable ASCII other than `"` and `\`, which
/// `Debug` for `str` writes as it stands.
pub open spec fn plain_ascii(c: char) -> bool {
    0x20 <= (c as u32) <= 0x7E && c != '"' && c != '\\'
}

/// Formats a string slice with `Debug` for `str`; the result is named
/// `quoted_debug`. A string of printable ASCII characters other than `"`
/// and `\` comes back between double quotes, unchanged.
#[verifier::external_body]
pub fn str_debug(s: &str) -> (r: String)
    ensures
        r@ == quoted_debug(s@),
        (forall|i: int| 0 <= i < s@.len() ==> plain_ascii(#[trigger] s@[i])) ==> r@ == seq!['"'] + s@ + seq!['"'],
{
    format!("{:?}", s)
}

/// An ASCII decimal digit.
pub open spec fn is_digit(c: char) -> bool {
    '0' <= c <= '9'
}

pub fn char_is_digit(c: char) -> (r: bool)
    ensures
        r == is_digit(c),
{
    '0' <= c && c <= '9'
}

/// Number of bytes of a character in UTF-8.
pub open spec fn utf8_len(c: char) -> nat {
    if (c as u32) < 0x80 {
        1
    } else if (c as u32) < 0x800 {
        2
    } else if (c as u32) < 0x1_0000 {
        3
    } else {
        4
    }
}

/// Number of bytes of a character sequence in UTF-8.
pub open spec fn text_bytes(cs: Seq<char>) -> nat
    decreases cs.len(),
{
    if cs.len() == 0 {
        0
    } else {
        text_bytes(cs.drop_last()) + utf8_len(cs.last())
    }
}

/// Number of bytes of a character in UTF-8 (`char::len_utf8`).
pub fn char_len_utf8(c: char) -> (r: usize)
    ensures
        r == utf8_len(c),
{
    let v = c as u32;
    if v < 0x80 {
        1
    } else if v < 0x800 {
        2
    } else if v < 0x1_0000 {
        3
    } else {
        4
    }
}

/// The bytes of a prefix grow by at least one per character.
pub proof fn lemma_text_bytes_grow(cs: Seq<char>, a: nat, b: nat)
    requires
        a <= b <= cs.len(),
    ensures
        text_bytes(cs.take(a as int)) + (b - a) <= text_bytes(cs.take(b as int)),
    decreases b - a,
{
    if a < b {
        lemma_text_bytes_grow(cs, a, (b - 1) as nat);
        assert(cs.take(b as int).drop_last() =~= cs.take(b - 1));
    }
}

/// The byte count of a text is that of its first character plus that of
/// the rest.
proof fn lemma_text_bytes_first(cs: Seq<char>)
    requires
        cs.len() > 0,
    ensures
        text_bytes(cs) == utf8_len(cs[0]) + text_bytes(cs.drop_first()),
    decreases cs.len(),
{
    if cs.len() > 1 {
        lemma_text_bytes_first(cs.drop_last());
        assert(cs.drop_last().drop_first() =~= cs.drop_first().drop_last());
        assert(cs.drop_last()[0] == cs[0]);
        assert(cs.drop_first().last() == cs.last());
        assert(text_bytes(cs) == text_bytes(cs.drop_last()) + utf8_len(cs.last()));
        assert(text_bytes(cs.drop_first()) == text_bytes(cs.drop_first().drop_last()) + utf8_len(
            cs.drop_first().last(),
        ));
    } else {
        assert(cs.drop_last().len() == 0);
        assert(cs.drop_first().len() == 0);
        assert(cs.last() == cs[0]);
        assert(text_bytes(cs) == text_bytes(cs.drop_last()) + utf8_len(cs.last()));
        assert(text_bytes(cs.drop_last()) == 0);
        assert(text_bytes(cs.drop_first()) == 0);
    }
}

proof fn lemma_char_range(c: char)
    ensures
        !(0xD800 <= (c as u32) <= 0xDFFF) && (c as u32) <= 0x10FFFF,
{
    assert(!(0xD800 <= (c as int) <= 0xDFFF) && (c as int) <= 0x10FFFF);
}

/// `text_bytes` counts the bytes of the UTF-8 encoding.
pub proof fn lemma_text_bytes_utf8(cs: Seq<char>)
    ensures
        text_bytes(cs) == vstd::utf8::encode_utf8(cs).len(),
    decreases cs.len(),
{
    if cs.len() > 0 {
        lemma_text_bytes_first(cs);
        lemma_text_bytes_utf8(cs.drop_first());
        let v = cs[0] as u32;
        lemma_char_range(cs[0]);
        assert(vstd::utf8::encode_scalar(v).len() == utf8_len(cs[0]));
        assert(vstd::utf8::encode_utf8(cs) == vstd::utf8::encode_scalar(v) + vstd::utf8::encode_utf8(
            cs.drop_first(),
        ));
    }
}

/// Every string slice has at most `usize::MAX` bytes of UTF-8.
pub fn str_bytes_fit(s: &str)
    ensures
        text_bytes(s@) <= usize::MAX,
{
    let bytes = s.as_bytes();
    let _n = bytes.len();
    proof {
        lemma_text_bytes_utf8(s@);
    }
}

/// A prefix has no more bytes than the whole text.
pub proof fn lemma_text_bytes_prefix(cs: Seq<char>, a: nat)
    requires
        a <= cs.len(),
    ensures
        text_bytes(cs.take(a as int)) <= text_bytes(cs),
{
    lemma_text_bytes_grow(cs, a, cs.len());
    assert(cs.take(cs.len() as int) =~= cs);
}

/// The value of a non-empty string of decimal digits.
pub open spec fn digits_value(s: Seq<char>) -> nat
    decreases s.len(),
{
    if s.len() == 0 {
        0
    } else {
        digits_value(s.drop_last()) * 10 + ((s.last() as u32) - ('0' as u32)) as nat
    }
}

/// Whether every character is a decimal digit.
pub open spec fn all_digits(s: Seq<char>) -> bool {
    forall|i: int| 0 <= i < s.len() ==> is_digit(#[trigger] s[i])
}

/// What `str::parse::<isize>` gives for text made of digits and `-`: an
/// optional minus sign, then at least one digit, with the value in range.
pub open spec fn number_value(s: Seq<char>) -> Option<int> {
    if s.len() > 0 && s[0] == '-' {
        let rest = s.drop_first();
        if rest.len() > 0 && all_digits(rest) && -(digits_value(rest) as int) >= isize::MIN {
            Some(-(digits_value(rest) as int))
        } else {
            None
        }
    } else if s.len() > 0 && all_digits(s) && digits_value(s) <= isize::MAX {
        Some(digits_value(s) as int)
    } else {
        None
    }
}

/// Extending a digit string never lowers its value.
pub proof fn lemma_digits_value_monotone(s: Seq<char>, i: int, j: int)
    requires
        0 <= i <= j <= s.len(),
    ensures
        digits_value(s.subrange(0, i)) <= digits_value(s.subrange(0, j)),
    decreases j - i,
{
    if i < j {
        lemma_digits_value_monotone(s, i, j - 1);
        assert(s.subrange(0, j).drop_last() =~= s.subrange(0, j - 1));
    }
}

/// The value of `text[from..]` when every character there is a digit and
/// the value is at most `limit`; `None` otherwise.
pub fn parse_digits(text: &Vec<char>, from: usize, limit: u128) -> (r: Option<u128>)
    requires
        from <= text@.len(),
    ensures
        match r {
            Some(v) => all_digits(text@.subrange(from as int, text@.len() as int)) && v == digits_value(
                text@.subrange(from as int, text@.len() as int),
            ) && v <= limit,
            None => !all_digits(text@.subrange(from as int, text@.len() as int)) || digits_value(
                text@.subrange(from as int, text@.len() as int),
            ) > limit,
        },
{
    let ghost s = text@.subrange(from as int, text@.len() as int);
    let mut acc: u128 = 0;
    let mut i = from;
    while i < text.len()
        invariant
            from <= i <= text@.len(),
            s == text@.subrange(from as int, text@.len() as int),
            all_digits(s.subrange(0, i - from)),
            acc == digits_value(s.subrange(0, i - from)),
            acc <= limit,
        decreases text@.len() - i,
    {
        let c = text[i];
        assert(s.subrange(0, i - from + 1).drop_last() =~= s.subrange(0, i - from));
        assert(s[i - from] == c);
        if !char_is_digit(c) {
            assert(!is_digit(s[i - from]));
            return None;
        }
        let d = (c as u32 - '0' as u32) as u128;
        if acc > limit / 10 || d > limit - acc * 10 {
            proof {
                assert(acc * 10 + d > limit);
                lemma_digits_value_monotone(s, i - from + 1, s.len() as int);
                assert(s.subrange(0, s.len() as int) =~= s);
            }
            return None;
        }
        acc = acc * 10 + d;
        i = i + 1;
    }
    assert(s.subrange(0, i - from) =~= s);
    Some(acc)
}

/// `str::parse::<isize>` on text made of digits and minus signs.
pub fn parse_number(text: &Vec<char>) -> (r: Option<isize>)
    ensures
        match r {
            Some(v) => number_value(text@) == Some(v as int),
            None => number_value(text@) is None,
        },
{
    if text.len() > 0 && text[0] == '-' {
        if text.len() == 1 {
            return None;
        }
        let limit = (isize::MAX as u128) + 1;
        proof {
            assert(text@.drop_first() =~= text@.subrange(1, text@.len() as int));
        }
        match parse_digits(text, 1, limit) {
            Some(v) => Some((-(v as i128)) as isize),
            None => None,
        }
    } else {
        if text.len() == 0 {
            return None;
        }
        proof {
            assert(text@ =~= text@.subrange(0, text@.len() as int));
        }
        match parse_digits(text, 0, isize::MAX as u128) {
            Some(v) => Some(v as isize),
            None => None,
        }
    }
}

/// Whether a `Vec<char>` holds exactly the characters of a string slice.
pub fn chars_eq_str(v: &Vec<char>, s: &str) -> (r: bool)
    ensures
        r == (v@ == s@),
{
    let n = s.unicode_len();
    if v.len() != n {
        return false;
    }
    let mut i: usize = 0;
    while i < n
        invariant
            n == s@.len(),
            v@.len() == n,
            i <= n,
            forall|j: int| 0 <= j < i ==> v@[j] == s@[j],
        decreases n - i,
    {
        if v[i] != s.get_char(i) {
            return false;
        }
        i = i + 1;
    }
    assert(v@ =~= s@);
    true
}

/// The characters of a string slice.
pub fn str_to_chars(s: &str) -> (v: Vec<char>)
    ensures
        v@ == s@,
{
    let n = s.unicode_len();
    let mut v: Vec<char> = Vec::new();
    let mut i: usize = 0;
    while i < n
        invariant
            n == s@.len(),
            i <= n,
            v@ == s@.subrange(0, i as int),
        decreases n - i,
    {
        v.push(s.get_char(i));
        i = i + 1;
        assert(v@ =~= s@.subrange(0, i as int));
    }
    assert(v@ =~= s@);
    v
}

/// The decimal digit character for `d < 10`.
pub open spec fn digit_char(d: nat) -> char {
    (('0' as u32) + d) as char
}

/// The decimal representation of a natural number, without leading zeros.
pub open spec fn decimal(n: nat) -> Seq<char>
    decreases n,
{
    if n < 10 {
        seq![digit_char(n)]
    } else {
        decimal(n / 10).push(digit_char(n % 10))
    }
}

/// The decimal representation of an integer, with `-` before negatives.
pub open spec fn signed_decimal(v: int) -> Seq<char> {
    if v < 0 {
        seq!['-'] + decimal((-v) as nat)
    } else {
        decimal(v as nat)
    }
}

/// Appends the decimal representation of `n`.
pub fn push_decimal(out: &mut Vec<char>, n: u128)
    ensures
        final(out)@ == old(out)@ + decimal(n as nat),
    decreases n,
{
    if n >= 10 {
        push_decimal(out, n / 10);
    }
    let d = (n % 10) as u32;
    let c = char_from_digit(d);
    let ghost before = out@;
    out.push(c);
    proof {
        if n >= 10 {
            assert(old(out)@ + decimal(n as nat) =~= old(out)@ + decimal((n / 10) as nat) + seq![c]);
        } else {
            assert(old(out)@ + decimal(n as nat) =~= old(out)@ + seq![c]);
        }
    }
}

fn char_from_digit(d: u32) -> (c: char)
    requires
        d < 10,
    ensures
        c == digit_char(d as nat),
{
    match d {
        0 => '0',
        1 => '1',
        2 => '2',
        3 => '3',
        4 => '4',
        5 => '5',
        6 => '6',
        7 => '7',
        8 => '8',
        _ => '9',
    }
}

/// Appends the decimal representation of `v`, with `-` before negatives.
pub fn push_signed_decimal(out: &mut Vec<char>, v: i128)
    requires
        v > i128::MIN,
    ensures
        final(out)@ == old(out)@ + signed_decimal(v as int),
{
    if v < 0 {
        out.push('-');
        push_decimal(out, (-v) as u128);
        assert(final(out)@ =~= old(out)@ + signed_decimal(v as int));
    } else {
        push_decimal(out, v as u128);
    }
}

/// Appends the characters of a string slice.
pub fn push_str(out: &mut Vec<char>, s: &str)
    ensures
        final(out)@ == old(out)@ + s@,
{
    let n = s.unicode_len();
    let mut i: usize = 0;
    let ghost start = out@;
    while i < n
        invariant
            n == s@.len(),
            i <= n,
            out@ == start + s@.subrange(0, i as int),
        decreases n - i,
    {
        out.push(s.get_char(i));
        i = i + 1;
        assert(out@ =~= start + s@.subrange(0, i as int));
    }
    assert(s@.subrange(0, n as int) =~= s@);
}

/// Appends the characters of a `String`.
pub fn push_string(out: &mut Vec<char>, s: &String)
    ensures
        final(out)@ == old(out)@ + s@,
{
    push_str(out, s.as_str());
}

/// Appends `count` copies of `c`.
pub fn push_repeated(out: &mut Vec<char>, c: char, count: usize)
    ensures
        final(out)@ == old(out)@ + Seq::new(count as nat, |i: int| c),
{
    let ghost start = out@;
    let mut i: usize = 0;
    while i < count
        invariant
            i <= count,
            out@ == start + Seq::new(i as nat, |j: int| c),
        decreases count - i,
    {
        out.push(c);
        i = i + 1;
        assert(out@ =~= start + Seq::new(i as nat, |j: int| c));
    }
}

} // verus!
