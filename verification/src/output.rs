//! The assembler's output formats: machine words as text of binary digits,
//! as hexadecimal text, or as big-endian bytes.

use vstd::prelude::*;
use crate::text::{char_is_whitespace, chars_eq_str, is_white_space, push_str, str_to_chars, string_from_chars};

verus! {

/// How assembled words are written out.
#[derive(Clone, Copy, Debug, PartialEq, Eq, Structural)]
pub enum OutputFormat {
    /// Raw big-endian bytes.
    Binary,
    /// Eight hexadecimal digits a line.
    Hex,
    /// Thirty-two binary digits a line.
    Txt,
}

/// The text that `str::to_lowercase` makes of a text.
pub uninterp spec fn lowercase(s: Seq<char>) -> Seq<char>;

/// The lowercase of an ASCII character: `A` to `Z` become `a` to `z`,
/// everything else stays.
pub open spec fn ascii_lower(c: char) -> char {
    if 'A' <= c <= 'Z' {
        ((c as u32) + 32) as char
    } else {
        c
    }
}

/// Calls `str::to_lowercase`; the result is named `lowercase`. A text of
/// ASCII characters is lowercased character by character.
#[verifier::external_body]
fn str_to_lowercase(s: &str) -> (r: String)
    ensures
        r@ == lowercase(s@),
        (forall|i: int| 0 <= i < s@.len() ==> (#[trigger] s@[i] as u32) < 0x80) ==> r@ == s@.map_values(
            |c: char| ascii_lower(c),
        ),
{
    s.to_lowercase()
}

/// The format a lowercase name stands for.
pub open spec fn format_named(l: Seq<char>) -> Option<OutputFormat> {
    if l == "binary"@ || l == "bin"@ {
        Some(OutputFormat::Binary)
    } else if l == "hex"@ {
        Some(OutputFormat::Hex)
    } else if l == "txt"@ {
        Some(OutputFormat::Txt)
    } else {
        None
    }
}

impl OutputFormat {
    /// The format named by an already lowercased name: `binary` or `bin`,
    /// `hex`, `txt`.
    pub fn from_lowercase(l: &str) -> (r: Option<OutputFormat>)
        ensures
            r == format_named(l@),
    {
        let v = str_to_chars(l);
        if chars_eq_str(&v, "binary") || chars_eq_str(&v, "bin") {
            Some(OutputFormat::Binary)
        } else if chars_eq_str(&v, "hex") {
            Some(OutputFormat::Hex)
        } else if chars_eq_str(&v, "txt") {
            Some(OutputFormat::Txt)
        } else {
            None
        }
    }

    /// The format named by `s`, in any case; the error names the text.
    pub fn parse(s: &str) -> (r: Result<OutputFormat, String>)
        ensures
            match r {
                Ok(f) => format_named(lowercase(s@)) == Some(f),
                Err(e) => format_named(lowercase(s@)) is None && e@ == "Invalid format: "@ + s@,
            },
    {
        let l = str_to_lowercase(s);
        match OutputFormat::from_lowercase(l.as_str()) {
            Some(f) => Ok(f),
            None => {
                let mut out: Vec<char> = Vec::new();
                push_str(&mut out, "Invalid format: ");
                push_str(&mut out, s);
                Err(string_from_chars(&out))
            },
        }
    }
}

impl std::str::FromStr for OutputFormat {
    type Err = String;

    fn from_str(s: &str) -> (r: Result<Self, Self::Err>)
        ensures
            match r {
                Ok(f) => format_named(lowercase(s@)) == Some(f),
                Err(e) => format_named(lowercase(s@)) is None && e@ == "Invalid format: "@ + s@,
            },
    {
        OutputFormat::parse(s)
    }
}

/// The character of a binary digit.
pub open spec fn bit_char(b: u32) -> char {
    if b == 1 {
        '1'
    } else {
        '0'
    }
}

/// A word as 32 binary digits, the most significant first (`{:032b}`).
pub open spec fn binary_digits(w: u32) -> Seq<char> {
    Seq::new(32, |i: int| bit_char((w >> ((31 - i) as u32)) & 1))
}

/// The lowercase hexadecimal digit of `d < 16`.
pub open spec fn hex_char(d: u32) -> char {
    if d < 10 {
        (('0' as u32) + d) as char
    } else {
        (('a' as u32) + (d - 10)) as char
    }
}

/// A word as 8 lowercase hexadecimal digits, the most significant first
/// (`{:08x}`).
pub open spec fn hex_digits(w: u32) -> Seq<char> {
    Seq::new(8, |i: int| hex_char((w >> ((28 - 4 * i) as u32)) & 15))
}

/// Each word on a line of its own, written by `digits`.
pub open spec fn word_lines(ws: Seq<u32>, digits: spec_fn(u32) -> Seq<char>) -> Seq<char>
    decreases ws.len(),
{
    if ws.len() == 0 {
        Seq::empty()
    } else {
        word_lines(ws.drop_last(), digits) + digits(ws.last()) + seq!['\n']
    }
}

/// The four bytes of a word, the most significant first.
pub open spec fn word_bytes(w: u32) -> Seq<u8> {
    Seq::new(4, |i: int| ((w >> ((24 - 8 * i) as u32)) & 0xFF) as u8)
}

/// The bytes of all words, in order.
pub open spec fn program_bytes(ws: Seq<u32>) -> Seq<u8>
    decreases ws.len(),
{
    if ws.len() == 0 {
        Seq::empty()
    } else {
        program_bytes(ws.drop_last()) + word_bytes(ws.last())
    }
}

/// The text of the words in binary, a word a line.
pub fn format_txt_binary(encoded: &[u32]) -> (r: String)
    ensures
        r@ == word_lines(encoded@, |w: u32| binary_digits(w)),
{
    let mut out: Vec<char> = Vec::new();
    let mut i: usize = 0;
    while i < encoded.len()
        invariant
            i <= encoded@.len(),
            out@ == word_lines(encoded@.take(i as int), |w: u32| binary_digits(w)),
        decreases encoded@.len() - i,
    {
        let w = encoded[i];
        let ghost before = out@;
        let mut k: u32 = 0;
        while k < 32
            invariant
                k <= 32,
                out@ == before + binary_digits(w).take(k as int),
            decreases 32 - k,
        {
            let sh: u32 = 31 - k;
            let bit = (w >> sh) & 1;
            out.push(if bit == 1 { '1' } else { '0' });
            k = k + 1;
            assert(out@ =~= before + binary_digits(w).take(k as int));
        }
        out.push('\n');
        assert(encoded@.take(i + 1 as int).drop_last() =~= encoded@.take(i as int));
        assert(out@ =~= before + binary_digits(w) + seq!['\n']);
        i = i + 1;
    }
    assert(encoded@.take(encoded@.len() as int) =~= encoded@);
    string_from_chars(&out)
}

/// The text of the words in hexadecimal, a word a line.
pub fn format_hex(encoded: &[u32]) -> (r: String)
    ensures
        r@ == word_lines(encoded@, |w: u32| hex_digits(w)),
{
    let mut out: Vec<char> = Vec::new();
    let mut i: usize = 0;
    while i < encoded.len()
        invariant
            i <= encoded@.len(),
            out@ == word_lines(encoded@.take(i as int), |w: u32| hex_digits(w)),
        decreases encoded@.len() - i,
    {
        let w = encoded[i];
        let ghost before = out@;
        let mut k: u32 = 0;
        while k < 8
            invariant
                k <= 8,
                out@ == before + hex_digits(w).take(k as int),
            decreases 8 - k,
        {
            let sh: u32 = 28 - 4 * k;
            let d = (w >> sh) & 15;
            assert(d < 16) by (bit_vector)
                requires
                    d == (w >> sh) & 15,
            ;
            let c = if d < 10 {
                char_from_u32_digit(d)
            } else {
                char_from_u32_letter(d - 10)
            };
            out.push(c);
            k = k + 1;
            assert(out@ =~= before + hex_digits(w).take(k as int));
        }
        out.push('\n');
        assert(encoded@.take(i + 1 as int).drop_last() =~= encoded@.take(i as int));
        assert(out@ =~= before + hex_digits(w) + seq!['\n']);
        i = i + 1;
    }
    assert(encoded@.take(encoded@.len() as int) =~= encoded@);
    string_from_chars(&out)
}

/// The digit character of `d < 10`.
fn char_from_u32_digit(d: u32) -> (c: char)
    requires
        d < 10,
    ensures
        c == (('0' as u32) + d) as char,
{
    match d {
        0 => '0',
        1 => '1',
        2 => '2',
        3 => '3',
        4 => '4',
        5 => '5',
        6 => '6',
        7 => '7',
        8 => '8',
        _ => '9',
    }
}

/// The letter `a`..`f` of `d < 6`.
fn char_from_u32_letter(d: u32) -> (c: char)
    requires
        d < 6,
    ensures
        c == (('a' as u32) + d) as char,
{
    match d {
        0 => 'a',
        1 => 'b',
        2 => 'c',
        3 => 'd',
        4 => 'e',
        _ => 'f',
    }
}

/// The words as big-endian bytes, in order.
pub fn program_to_bytes(encoded: &[u32]) -> (r: Vec<u8>)
    ensures
        r@ == program_bytes(encoded@),
{
    let mut out: Vec<u8> = Vec::new();
    let mut i: usize = 0;
    while i < encoded.len()
        invariant
            i <= encoded@.len(),
            out@ == program_bytes(encoded@.take(i as int)),
        decreases encoded@.len() - i,
    {
        let w = encoded[i];
        let ghost before = out@;
        out.push(((w >> 24) & 0xFF) as u8);
        out.push(((w >> 16) & 0xFF) as u8);
        out.push(((w >> 8) & 0xFF) as u8);
        out.push((w & 0xFF) as u8);
        assert(w >> 0u32 == w) by (bit_vector);
        assert(out@ =~= before + word_bytes(w));
        assert(encoded@.take(i + 1 as int).drop_last() =~= encoded@.take(i as int));
        i = i + 1;
    }
    assert(encoded@.take(encoded@.len() as int) =~= encoded@);
    out
}

/// The value of a string of binary digits, the most significant first.
pub open spec fn binary_value(ds: Seq<char>) -> nat
    decreases ds.len(),
{
    if ds.len() == 0 {
        0
    } else {
        2 * binary_value(ds.drop_last()) + if ds.last() == '1' { 1nat } else { 0nat }
    }
}

/// A non-empty string of binary digits whose value fits 32 bits, as that
/// value.
pub open spec fn digits_word(ds: Seq<char>) -> Option<u32> {
    if ds.len() > 0 && (forall|i: int| 0 <= i < ds.len() ==> ds[i] == '0' || ds[i] == '1') && binary_value(ds)
        <= u32::MAX {
        Some(binary_value(ds) as u32)
    } else {
        None
    }
}

/// A word written in binary as `u32::from_str_radix` reads it: an optional
/// `+`, then at least one binary digit; `None` when the text is anything
/// else or the value does not fit 32 bits.
pub open spec fn binary_word(s: Seq<char>) -> Option<u32> {
    digits_word(if s.len() > 0 && s[0] == '+' { s.drop_first() } else { s })
}

/// `s` without the whitespace at its two ends (`str::trim`).
pub open spec fn trimmed(s: Seq<char>) -> Seq<char>
    decreases s.len(),
{
    if s.len() > 0 && is_white_space(s[0]) {
        trimmed(s.drop_first())
    } else if s.len() > 0 && is_white_space(s.last()) {
        trimmed(s.drop_last())
    } else {
        s
    }
}

/// What a line of a program listing holds: nothing once trimmed, or a word
/// in binary with an optional `0b` in front; `Err` when it is neither.
pub open spec fn program_line(line: Seq<char>) -> Result<Option<u32>, ()> {
    let t = trimmed(line);
    if t.len() == 0 {
        Ok(None)
    } else {
        let digits = if t.len() >= 2 && t[0] == '0' && t[1] == 'b' { t.subrange(2, t.len() as int) } else { t };
        match binary_word(digits) {
            Some(w) => Ok(Some(w)),
            None => Err(()),
        }
    }
}

/// The value of binary digits `ds[from..]`; `None` at any other character,
/// when there is none, or once the value passes 32 bits.
fn binary_digits_value(ds: &Vec<char>, from: usize) -> (r: Option<u32>)
    requires
        from <= ds@.len(),
    ensures
        r == digits_word(ds@.subrange(from as int, ds@.len() as int)),
{
    let ghost s = ds@.subrange(from as int, ds@.len() as int);
    if from >= ds.len() {
        return None;
    }
    let mut value: u64 = 0;
    let mut i: usize = from;
    while i < ds.len()
        invariant
            from <= i <= ds@.len(),
            s == ds@.subrange(from as int, ds@.len() as int),
            forall|k: int| from <= k < i ==> ds@[k] == '0' || ds@[k] == '1',
            value == binary_value(ds@.subrange(from as int, i as int)),
            value <= u32::MAX,
        decreases ds@.len() - i,
    {
        let c = ds[i];
        if c != '0' && c != '1' {
            assert(s[i - from] == c);
            return None;
        }
        assert(ds@.subrange(from as int, i + 1 as int).drop_last() =~= ds@.subrange(from as int, i as int));
        value = 2 * value + if c == '1' { 1 } else { 0 };
        i = i + 1;
        if value > 0xFFFF_FFFF {
            proof {
                lemma_binary_value_prefix(s, (i - from) as nat);
                assert(s.take((i - from) as int) =~= ds@.subrange(from as int, i as int));
            }
            return None;
        }
    }
    assert(ds@.subrange(from as int, i as int) =~= s);
    Some(value as u32)
}

/// A prefix of a digit string has no larger value than the whole.
proof fn lemma_binary_value_prefix(s: Seq<char>, n: nat)
    requires
        n <= s.len(),
    ensures
        binary_value(s.take(n as int)) <= binary_value(s),
    decreases s.len() - n,
{
    if n < s.len() {
        lemma_binary_value_prefix(s, n + 1);
        assert(s.take(n + 1 as int).drop_last() =~= s.take(n as int));
    } else {
        assert(s.take(n as int) =~= s);
    }
}

/// Reads one line of a program listing: `Ok(None)` for a blank line,
/// `Ok(Some(w))` for a word written in binary (an optional `0b` first),
/// `Err(())` for anything else.
pub fn parse_program_line(line: &str) -> (r: Result<Option<u32>, ()>)
    ensures
        r == program_line(line@),
{
    let cs = str_to_chars(line);
    let mut lo: usize = 0;
    let mut hi: usize = cs.len();
    assert(cs@.subrange(0, cs@.len() as int) =~= cs@);
    while lo < hi && char_is_whitespace(cs[lo])
        invariant
            lo <= hi <= cs@.len(),
            trimmed(cs@.subrange(lo as int, hi as int)) == trimmed(cs@),
            hi == cs@.len(),
        decreases hi - lo,
    {
        assert(cs@.subrange(lo as int, hi as int).drop_first() =~= cs@.subrange(lo + 1, hi as int));
        lo = lo + 1;
    }
    while lo < hi && char_is_whitespace(cs[hi - 1])
        invariant
            lo <= hi <= cs@.len(),
            trimmed(cs@.subrange(lo as int, hi as int)) == trimmed(cs@),
            lo < hi ==> !is_white_space(cs@[lo as int]),
        decreases hi - lo,
    {
        assert(cs@.subrange(lo as int, hi as int).drop_last() =~= cs@.subrange(lo as int, hi - 1));
        hi = hi - 1;
    }
    let ghost t = cs@.subrange(lo as int, hi as int);
    assert(trimmed(t) == t);
    if lo == hi {
        return Ok(None);
    }
    let mut ds: Vec<char> = Vec::new();
    let start = if hi - lo >= 2 && cs[lo] == '0' && cs[lo + 1] == 'b' { lo + 2 } else { lo };
    let mut k: usize = start;
    while k < hi
        invariant
            start <= k <= hi <= cs@.len(),
            ds@ == cs@.subrange(start as int, k as int),
        decreases hi - k,
    {
        ds.push(cs[k]);
        k = k + 1;
        assert(ds@ =~= cs@.subrange(start as int, k as int));
    }
    let ghost digits = if t.len() >= 2 && t[0] == '0' && t[1] == 'b' { t.subrange(2, t.len() as int) } else { t };
    assert(ds@ =~= digits);
    let plus = ds.len() > 0 && ds[0] == '+';
    let from: usize = if plus { 1 } else { 0 };
    let v = binary_digits_value(&ds, from);
    assert(ds@.subrange(from as int, ds@.len() as int) =~= if plus { ds@.drop_first() } else { ds@ });
    match v {
        Some(w) => Ok(Some(w)),
        None => Err(()),
    }
}

} // verus!
