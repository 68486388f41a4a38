//! The assembler's lexer: turns source text into tokens with their spans.

use vstd::prelude::*;
use crate::text::{
    all_digits, char_is_alphabetic, char_is_alphanumeric, char_is_digit, char_is_whitespace,
    char_len_utf8, digits_value, is_alphabetic, is_alphanumeric, is_digit, is_white_space,
    lemma_text_bytes_grow, lemma_text_bytes_prefix, number_value, parse_digits, parse_number,
    decimal, push_decimal, push_signed_decimal, push_str, push_string, quoted_debug, signed_decimal, str_debug,
    string_from_chars, text_bytes, utf8_len,
};
use crate::types::{opcode_name, Opcode};
use crate::opcode_names::{opcode_from_chars, opcode_named};

verus! {

/// One lexical unit of the assembly language.
#[derive(Debug, Clone, PartialEq)]
pub enum TokenKind {
    Opcode(Opcode),
    Register(usize),
    Immediate(isize),
    /// A label definition such as `loop:` (the name, without the colons).
    LabelDef(String),
    /// An identifier that is no opcode, such as a label used by a jump.
    LabelRef(String),
    Comma,
    Comment(String),
    Terminator,
}

/// The content of a token kind, with strings as character sequences.
pub enum TokenModel {
    Opcode(Opcode),
    Register(int),
    Immediate(int),
    LabelDef(Seq<char>),
    LabelRef(Seq<char>),
    Comma,
    Comment(Seq<char>),
    Terminator,
}

impl View for TokenKind {
    type V = TokenModel;

    open spec fn view(&self) -> TokenModel {
        match self {
            TokenKind::Opcode(o) => TokenModel::Opcode(*o),
            TokenKind::Register(r) => TokenModel::Register(*r as int),
            TokenKind::Immediate(i) => TokenModel::Immediate(*i as int),
            TokenKind::LabelDef(s) => TokenModel::LabelDef(s@),
            TokenKind::LabelRef(s) => TokenModel::LabelRef(s@),
            TokenKind::Comma => TokenModel::Comma,
            TokenKind::Comment(s) => TokenModel::Comment(s@),
            TokenKind::Terminator => TokenModel::Terminator,
        }
    }
}

/// Where a token stands: byte offsets `start..end` in the source and its
/// (zero-based) line.
#[derive(Debug, PartialEq, Clone, Copy, Structural)]
pub struct Span {
    pub start: usize,
    pub end: usize,
    pub line: usize,
}

/// A token and where it stands.
#[derive(Debug, Clone, PartialEq)]
pub struct Token {
    pub kind: TokenKind,
    pub span: Span,
}

impl View for Token {
    type V = (TokenModel, Span);

    open spec fn view(&self) -> (TokenModel, Span) {
        (self.kind@, self.span)
    }
}

/// How a token is shown: its kind, and its text in brackets.
pub open spec fn token_text(k: TokenModel) -> Seq<char> {
    match k {
        TokenModel::Opcode(op) => "Opcode("@ + opcode_name(op) + ")"@,
        TokenModel::Register(r) => "Register(R"@ + decimal(r as nat) + ")"@,
        TokenModel::Immediate(v) => "Immediate("@ + signed_decimal(v) + ")"@,
        TokenModel::LabelDef(l) => "LabelDef("@ + l + ")"@,
        TokenModel::LabelRef(l) => "LabelRef("@ + l + ")"@,
        TokenModel::Comma => "Comma(,)"@,
        TokenModel::Comment(c) => "Comment(# "@ + c + ")"@,
        TokenModel::Terminator => "Terminator(;)"@,
    }
}

impl Token {
    /// The token shown as its kind with its text, such as `Register(R3)`.
    pub fn to_string(&self) -> (r: String)
        ensures
            r@ == token_text(self.kind@),
    {
        let mut out: Vec<char> = Vec::new();
        match &self.kind {
            TokenKind::Opcode(op) => {
                push_str(&mut out, "Opcode(");
                push_str(&mut out, op.to_string());
                push_str(&mut out, ")");
            },
            TokenKind::Register(r) => {
                push_str(&mut out, "Register(R");
                push_decimal(&mut out, *r as u128);
                push_str(&mut out, ")");
            },
            TokenKind::Immediate(v) => {
                push_str(&mut out, "Immediate(");
                push_signed_decimal(&mut out, *v as i128);
                push_str(&mut out, ")");
            },
            TokenKind::LabelDef(l) => {
                push_str(&mut out, "LabelDef(");
                push_string(&mut out, l);
                push_str(&mut out, ")");
            },
            TokenKind::LabelRef(l) => {
                push_str(&mut out, "LabelRef(");
                push_string(&mut out, l);
                push_str(&mut out, ")");
            },
            TokenKind::Comma => {
                push_str(&mut out, "Comma(,)");
            },
            TokenKind::Comment(c) => {
                push_str(&mut out, "Comment(# ");
                push_string(&mut out, c);
                push_str(&mut out, ")");
            },
            TokenKind::Terminator => {
                push_str(&mut out, "Terminator(;)");
            },
        }
        proof {
            assert(out@ =~= token_text(self.kind@));
        }
        string_from_chars(&out)
    }
}

impl From<(usize, usize, usize)> for Span {
    fn from(tuple: (usize, usize, usize)) -> (r: Span) {
        Span { start: tuple.0, end: tuple.1, line: tuple.2 }
    }
}

impl vstd::std_specs::convert::FromSpecImpl<(usize, usize, usize)> for Span {
    open spec fn obeys_from_spec() -> bool {
        true
    }

    open spec fn from_spec(tuple: (usize, usize, usize)) -> Span {
        Span { start: tuple.0, end: tuple.1, line: tuple.2 }
    }
}

/// The character classes that tokens extend over.
pub enum CharClass {
    /// Anything but a newline (comment text).
    NotNewline,
    /// Digits and minus signs (numbers).
    NumberChar,
    /// Decimal digits (register numbers).
    Digit,
    /// Alphanumerics, `_` and `:` (identifiers).
    IdentChar,
}

/// Whether `c` belongs to class `k`.
pub open spec fn in_class(c: char, k: CharClass) -> bool {
    match k {
        CharClass::NotNewline => c != '\n',
        CharClass::NumberChar => number_char(c),
        CharClass::Digit => is_digit(c),
        CharClass::IdentChar => ident_char(c),
    }
}

/// The first position at or after `pos` whose character is not in class `k`.
pub open spec fn scan_while(cs: Seq<char>, pos: nat, k: CharClass) -> nat
    decreases cs.len() - pos,
{
    if pos < cs.len() && in_class(cs[pos as int], k) {
        scan_while(cs, pos + 1, k)
    } else {
        pos
    }
}

/// Skips whitespace from `pos`, counting the newlines passed.
pub open spec fn skip_ws(cs: Seq<char>, pos: nat, line: nat) -> (nat, nat)
    decreases cs.len() - pos,
{
    if pos < cs.len() && is_white_space(cs[pos as int]) {
        skip_ws(cs, pos + 1, if cs[pos as int] == '\n' { line + 1 } else { line })
    } else {
        (pos, line)
    }
}

/// Characters that continue a number: digits and minus signs.
pub open spec fn number_char(c: char) -> bool {
    is_digit(c) || c == '-'
}

/// Characters that continue an identifier.
pub open spec fn ident_char(c: char) -> bool {
    is_alphanumeric(c) || c == '_' || c == ':'
}

/// `s` without its trailing colons.
pub open spec fn trim_colons(s: Seq<char>) -> Seq<char>
    decreases s.len(),
{
    if s.len() > 0 && s.last() == ':' {
        trim_colons(s.drop_last())
    } else {
        s
    }
}

/// The byte offset of character position `pos`.
pub open spec fn offset(cs: Seq<char>, pos: nat) -> nat {
    text_bytes(cs.take(pos as int))
}

/// The kind of an identifier token: a label definition when it ends with a
/// colon, an opcode when it is a mnemonic, a label reference otherwise.
pub open spec fn ident_kind(ident: Seq<char>) -> TokenModel {
    if ident.last() == ':' {
        TokenModel::LabelDef(trim_colons(ident))
    } else {
        match opcode_named(ident) {
            Some(o) => TokenModel::Opcode(o),
            None => TokenModel::LabelRef(ident),
        }
    }
}

/// The token that starts at character `p` (no whitespace there) on line
/// `line`, with its span and the position and line after it; `None` where
/// the source cannot be lexed: an unknown character, a malformed or
/// out-of-range number, or an out-of-range register number.
pub open spec fn lex_step(cs: Seq<char>, p: nat, line: nat) -> Option<(TokenModel, Span, nat, nat)> {
    let c = cs[p as int];
    let start = offset(cs, p);
    if c == '#' {
        let q = scan_while(cs, p + 1, CharClass::NotNewline);
        let text = cs.subrange(p + 1 as int, q as int);
        let next = if q < cs.len() { q + 1 } else { q };
        let span = Span { start: start as usize, end: (start + text.len()) as usize, line: (line + 1) as usize };
        Some((TokenModel::Comment(text), span, next, line + 1))
    } else if c == ',' {
        Some((TokenModel::Comma, Span { start: start as usize, end: (start + 1) as usize, line: line as usize }, p + 1, line))
    } else if number_char(c) {
        let q = scan_while(cs, p, CharClass::NumberChar);
        match number_value(cs.subrange(p as int, q as int)) {
            Some(v) => Some((
                TokenModel::Immediate(v),
                Span { start: start as usize, end: (start + (q - p)) as usize, line: line as usize },
                q,
                line,
            )),
            None => None,
        }
    } else if c == ';' {
        Some((TokenModel::Terminator, Span { start: start as usize, end: (start + 1) as usize, line: line as usize }, p + 1, line))
    } else if is_alphabetic(c) {
        if c == 'R' && p + 1 < cs.len() && is_digit(cs[p + 1 as int]) {
            let q = scan_while(cs, p + 1, CharClass::Digit);
            let v = digits_value(cs.subrange(p + 1 as int, q as int));
            if v <= usize::MAX {
                Some((
                    TokenModel::Register(v as int),
                    Span { start: start as usize, end: (start + (q - p - 1)) as usize, line: line as usize },
                    q,
                    line,
                ))
            } else {
                None
            }
        } else {
            let q = scan_while(cs, p + 1, CharClass::IdentChar);
            let ident = cs.subrange(p as int, q as int);
            Some((ident_kind(ident), Span { start: start as usize, end: offset(cs, q) as usize, line: line as usize }, q, line))
        }
    } else {
        None
    }
}

pub proof fn lemma_scan_bounds(cs: Seq<char>, pos: nat, k: CharClass)
    requires
        pos <= cs.len(),
    ensures
        pos <= scan_while(cs, pos, k) <= cs.len(),
        pos < cs.len() && in_class(cs[pos as int], k) ==> scan_while(cs, pos, k) > pos,
        forall|i: int| pos <= i < scan_while(cs, pos, k) ==> in_class(#[trigger] cs[i], k),
        scan_while(cs, pos, k) < cs.len() ==> !in_class(cs[scan_while(cs, pos, k) as int], k),
    decreases cs.len() - pos,
{
    if pos < cs.len() && in_class(cs[pos as int], k) {
        lemma_scan_bounds(cs, pos + 1, k);
    }
}

pub proof fn lemma_skip_ws_bounds(cs: Seq<char>, pos: nat, line: nat)
    requires
        pos <= cs.len(),
    ensures
        pos <= skip_ws(cs, pos, line).0 <= cs.len(),
        line <= skip_ws(cs, pos, line).1,
        skip_ws(cs, pos, line).1 - line <= skip_ws(cs, pos, line).0 - pos,
        skip_ws(cs, pos, line).0 < cs.len() ==> !is_white_space(cs[skip_ws(cs, pos, line).0 as int]),
    decreases cs.len() - pos,
{
    if pos < cs.len() && is_white_space(cs[pos as int]) {
        lemma_skip_ws_bounds(cs, pos + 1, if cs[pos as int] == '\n' { line + 1 } else { line });
    }
}

pub proof fn lemma_step_advances(cs: Seq<char>, p: nat, line: nat)
    requires
        p < cs.len(),
    ensures
        lex_step(cs, p, line) matches Some((_, _, next, line2)) ==> p < next <= cs.len() && line
            <= line2 && line2 - line <= next - p,
{
    let c = cs[p as int];
    if c == '#' {
        lemma_scan_bounds(cs, p + 1, CharClass::NotNewline);
    } else if number_char(c) {
        lemma_scan_bounds(cs, p, CharClass::NumberChar);
    } else if is_alphabetic(c) {
        lemma_scan_bounds(cs, p + 1, CharClass::Digit);
        lemma_scan_bounds(cs, p + 1, CharClass::IdentChar);
    }
}

/// Prepends `t` to a token list that may be missing.
pub open spec fn prepend(t: Seq<(TokenModel, Span)>, rest: Option<Seq<(TokenModel, Span)>>) -> Option<Seq<(TokenModel, Span)>> {
    match rest {
        Some(r) => Some(t + r),
        None => None,
    }
}

/// The tokens of the source from character `pos` on line `line`; `None`
/// when some token cannot be lexed.
pub open spec fn lex_from(cs: Seq<char>, pos: nat, line: nat) -> Option<Seq<(TokenModel, Span)>>
    decreases cs.len() - pos,
{
    if pos > cs.len() {
        None
    } else {
        let (p, l) = skip_ws(cs, pos, line);
        proof {
            lemma_skip_ws_bounds(cs, pos, line);
        }
        if p >= cs.len() {
            Some(Seq::empty())
        } else {
            proof {
                lemma_step_advances(cs, p, l);
            }
            match lex_step(cs, p, l) {
                None => None,
                Some((kind, span, next, line2)) => prepend(seq![(kind, span)], lex_from(cs, next, line2)),
            }
        }
    }
}

/// Whether token spans are well formed and in source order: each starts no
/// later than it ends, and ends no later than any later one starts.
pub open spec fn spans_in_order(ts: Seq<(TokenModel, Span)>) -> bool {
    &&& forall|i: int| 0 <= i < ts.len() ==> (#[trigger] ts[i]).1.start <= ts[i].1.end
    &&& forall|i: int, j: int| 0 <= i < j < ts.len() ==> (#[trigger] ts[i]).1.end <= (#[trigger] ts[j]).1.start
}

/// The token at character `p` starts at the byte offset of `p` and ends
/// no later than the byte offset where lexing goes on.
proof fn lemma_step_span(cs: Seq<char>, p: nat, line: nat)
    requires
        p < cs.len(),
        text_bytes(cs) <= usize::MAX,
    ensures
        lex_step(cs, p, line) matches Some((_, span, next, _)) ==> span.start == offset(cs, p)
            && span.start <= span.end <= offset(cs, next) && next <= cs.len(),
{
    let c = cs[p as int];
    lemma_step_advances(cs, p, line);
    if c == '#' {
        lemma_scan_bounds(cs, p + 1, CharClass::NotNewline);
        let q = scan_while(cs, p + 1, CharClass::NotNewline);
        let next = if q < cs.len() { q + 1 } else { q };
        lemma_text_bytes_grow(cs, p, q);
        lemma_text_bytes_grow(cs, q, next);
        lemma_text_bytes_prefix(cs, next);
    } else if c == ',' || c == ';' {
        lemma_text_bytes_grow(cs, p, p + 1);
        lemma_text_bytes_prefix(cs, p + 1);
    } else if number_char(c) {
        lemma_scan_bounds(cs, p, CharClass::NumberChar);
        let q = scan_while(cs, p, CharClass::NumberChar);
        lemma_text_bytes_grow(cs, p, q);
        lemma_text_bytes_prefix(cs, q);
    } else if is_alphabetic(c) {
        lemma_scan_bounds(cs, p + 1, CharClass::Digit);
        lemma_scan_bounds(cs, p + 1, CharClass::IdentChar);
        let q1 = scan_while(cs, p + 1, CharClass::Digit);
        let q2 = scan_while(cs, p + 1, CharClass::IdentChar);
        lemma_text_bytes_grow(cs, p, q1);
        lemma_text_bytes_grow(cs, p, q2);
        lemma_text_bytes_prefix(cs, q1);
        lemma_text_bytes_prefix(cs, q2);
    }
    lemma_text_bytes_prefix(cs, p);
}

/// The lexer gives tokens in source order: every span starts no later than
/// it ends and ends before the next token starts, and none starts before
/// the position lexing began at.
pub proof fn lemma_lex_spans_in_order(cs: Seq<char>, pos: nat, line: nat)
    requires
        pos <= cs.len(),
        text_bytes(cs) <= usize::MAX,
    ensures
        lex_from(cs, pos, line) matches Some(ts) ==> spans_in_order(ts) && forall|i: int|
            0 <= i < ts.len() ==> offset(cs, pos) <= (#[trigger] ts[i]).1.start,
    decreases cs.len() - pos,
{
    lemma_skip_ws_bounds(cs, pos, line);
    let (p, l) = skip_ws(cs, pos, line);
    if p < cs.len() {
        lemma_step_advances(cs, p, l);
        lemma_step_span(cs, p, l);
        lemma_text_bytes_grow(cs, pos, p);
        if let Some((kind, span, next, line2)) = lex_step(cs, p, l) {
            lemma_lex_spans_in_order(cs, next, line2);
            if let Some(rest) = lex_from(cs, next, line2) {
                let ts = seq![(kind, span)] + rest;
                assert(lex_from(cs, pos, line) == Some(ts));
                assert forall|i: int, j: int| 0 <= i < j < ts.len() implies (#[trigger] ts[i]).1.end
                    <= (#[trigger] ts[j]).1.start by {
                    if i == 0 {
                        assert(ts[j] == rest[j - 1]);
                    } else {
                        assert(ts[i] == rest[i - 1]);
                        assert(ts[j] == rest[j - 1]);
                    }
                }
                assert forall|i: int| 0 <= i < ts.len() implies offset(cs, pos) <= (#[trigger] ts[i]).1.start
                    && ts[i].1.start <= ts[i].1.end by {
                    if i > 0 {
                        assert(ts[i] == rest[i - 1]);
                    }
                }
            }
        }
    }
}

/// Whether the text from `p` on in `cs` is the text from `p2` on in `cs2`.
pub open spec fn tails_match(cs: Seq<char>, p: nat, cs2: Seq<char>, p2: nat) -> bool {
    &&& p <= cs.len()
    &&& p2 <= cs2.len()
    &&& cs.len() - p == cs2.len() - p2
    &&& forall|i: int| 0 <= i < cs.len() - p ==> #[trigger] cs[p + i] == cs2[p2 + i]
}

/// The kinds of a token list, without their spans.
pub open spec fn token_kinds(ts: Seq<(TokenModel, Span)>) -> Seq<TokenModel> {
    ts.map_values(|t: (TokenModel, Span)| t.0)
}

proof fn lemma_tails_step(cs: Seq<char>, p: nat, cs2: Seq<char>, p2: nat, n: nat)
    requires
        tails_match(cs, p, cs2, p2),
        p + n <= cs.len(),
    ensures
        tails_match(cs, p + n, cs2, p2 + n),
{
    assert forall|i: int| 0 <= i < cs.len() - (p + n) implies #[trigger] cs[(p + n) + i] == cs2[(p2 + n) + i] by {
        assert(cs[(p as int) + (n + i)] == cs2[(p2 as int) + (n + i)]);
    }
}

proof fn lemma_scan_local(cs: Seq<char>, p: nat, cs2: Seq<char>, p2: nat, k: CharClass)
    requires
        tails_match(cs, p, cs2, p2),
    ensures
        scan_while(cs, p, k) - p == scan_while(cs2, p2, k) - p2,
        scan_while(cs, p, k) >= p,
    decreases cs.len() - p,
{
    if p < cs.len() {
        assert(cs[(p as int) + 0] == cs2[(p2 as int) + 0]);
        if in_class(cs[p as int], k) {
            lemma_tails_step(cs, p, cs2, p2, 1);
            lemma_scan_local(cs, p + 1, cs2, p2 + 1, k);
        }
    }
}

proof fn lemma_skip_local(cs: Seq<char>, p: nat, l: nat, cs2: Seq<char>, p2: nat, l2: nat)
    requires
        tails_match(cs, p, cs2, p2),
    ensures
        skip_ws(cs, p, l).0 - p == skip_ws(cs2, p2, l2).0 - p2,
        skip_ws(cs, p, l).0 >= p,
    decreases cs.len() - p,
{
    if p < cs.len() {
        assert(cs[(p as int) + 0] == cs2[(p2 as int) + 0]);
        if is_white_space(cs[p as int]) {
            lemma_tails_step(cs, p, cs2, p2, 1);
            lemma_skip_local(
                cs,
                p + 1,
                if cs[p as int] == '\n' { l + 1 } else { l },
                cs2,
                p2 + 1,
                if cs2[p2 as int] == '\n' { l2 + 1 } else { l2 },
            );
        }
    }
}

proof fn lemma_sub_local(cs: Seq<char>, p: nat, cs2: Seq<char>, p2: nat, a: nat, b: nat)
    requires
        tails_match(cs, p, cs2, p2),
        a <= b <= cs.len() - p,
    ensures
        cs.subrange((p + a) as int, (p + b) as int) =~= cs2.subrange((p2 + a) as int, (p2 + b) as int),
{
    assert forall|i: int| 0 <= i < b - a implies #[trigger] cs.subrange((p + a) as int, (p + b) as int)[i] == cs2.subrange(
        (p2 + a) as int,
        (p2 + b) as int,
    )[i] by {
        assert(cs[(p as int) + (a + i)] == cs2[(p2 as int) + (a + i)]);
    }
}

proof fn lemma_step_local(cs: Seq<char>, p: nat, l: nat, cs2: Seq<char>, p2: nat, l2: nat)
    requires
        tails_match(cs, p, cs2, p2),
        p < cs.len(),
    ensures
        lex_step(cs, p, l) is Some <==> lex_step(cs2, p2, l2) is Some,
        lex_step(cs, p, l) matches Some((k, _, next, _)) ==> lex_step(cs2, p2, l2)->Some_0.0 == k && next - p
            == lex_step(cs2, p2, l2)->Some_0.2 - p2 && next >= p,
{
    let c = cs[p as int];
    assert(cs[(p as int) + 0] == cs2[(p2 as int) + 0]);
    lemma_step_advances(cs, p, l);
    lemma_step_advances(cs2, p2, l2);
    if c == '#' {
        lemma_tails_step(cs, p, cs2, p2, 1);
        lemma_scan_local(cs, p + 1, cs2, p2 + 1, CharClass::NotNewline);
        lemma_scan_bounds(cs, p + 1, CharClass::NotNewline);
        let q = scan_while(cs, p + 1, CharClass::NotNewline);
        lemma_sub_local(cs, p, cs2, p2, 1, (q - p) as nat);
    } else if number_char(c) {
        lemma_scan_local(cs, p, cs2, p2, CharClass::NumberChar);
        lemma_scan_bounds(cs, p, CharClass::NumberChar);
        let q = scan_while(cs, p, CharClass::NumberChar);
        lemma_sub_local(cs, p, cs2, p2, 0, (q - p) as nat);
    } else if is_alphabetic(c) {
        lemma_tails_step(cs, p, cs2, p2, 1);
        if p + 1 < cs.len() {
            assert(cs[(p as int) + 1] == cs2[(p2 as int) + 1]);
        }
        lemma_scan_local(cs, p + 1, cs2, p2 + 1, CharClass::Digit);
        lemma_scan_local(cs, p + 1, cs2, p2 + 1, CharClass::IdentChar);
        lemma_scan_bounds(cs, p + 1, CharClass::Digit);
        lemma_scan_bounds(cs, p + 1, CharClass::IdentChar);
        let q1 = scan_while(cs, p + 1, CharClass::Digit);
        let q2 = scan_while(cs, p + 1, CharClass::IdentChar);
        lemma_sub_local(cs, p, cs2, p2, 1, (q1 - p) as nat);
        lemma_sub_local(cs, p, cs2, p2, 0, (q2 - p) as nat);
    }
}

/// The kinds of the tokens lexed from a position depend only on the text
/// from there on: where two texts agree from `p` and `p2` on, both lex or
/// neither does, with the same token kinds.
pub proof fn lemma_lex_local(cs: Seq<char>, p: nat, l: nat, cs2: Seq<char>, p2: nat, l2: nat)
    requires
        tails_match(cs, p, cs2, p2),
    ensures
        lex_from(cs, p, l) is Some <==> lex_from(cs2, p2, l2) is Some,
        lex_from(cs, p, l) is Some ==> token_kinds(lex_from(cs, p, l)->Some_0) == token_kinds(
            lex_from(cs2, p2, l2)->Some_0,
        ),
    decreases cs.len() - p,
{
    lemma_skip_local(cs, p, l, cs2, p2, l2);
    lemma_skip_ws_bounds(cs, p, l);
    lemma_skip_ws_bounds(cs2, p2, l2);
    let (q, lq) = skip_ws(cs, p, l);
    let (q2, lq2) = skip_ws(cs2, p2, l2);
    lemma_tails_step(cs, p, cs2, p2, (q - p) as nat);
    if q < cs.len() {
        lemma_step_local(cs, q, lq, cs2, q2, lq2);
        lemma_step_advances(cs, q, lq);
        lemma_step_advances(cs2, q2, lq2);
        if let Some((k, sp, next, line2)) = lex_step(cs, q, lq) {
            let (k2, sp2, next2, line22) = lex_step(cs2, q2, lq2)->Some_0;
            lemma_tails_step(cs, q, cs2, q2, (next - q) as nat);
            lemma_lex_local(cs, next, line2, cs2, next2, line22);
            if let Some(rest) = lex_from(cs, next, line2) {
                let rest2 = lex_from(cs2, next2, line22)->Some_0;
                assert(token_kinds(seq![(k, sp)] + rest) =~= seq![k] + token_kinds(rest));
                assert(token_kinds(seq![(k2, sp2)] + rest2) =~= seq![k2] + token_kinds(rest2));
            }
        }
    } else {
        assert(token_kinds(Seq::<(TokenModel, Span)>::empty()) =~= Seq::<TokenModel>::empty());
    }
}

/// A space or tab.
pub open spec fn is_blank(c: char) -> bool {
    c == ' ' || c == '\t'
}

proof fn lemma_skip_blanks(cs: Seq<char>, p: nat, n: nat, l: nat)
    requires
        p + n <= cs.len(),
        forall|i: int| p <= i < p + n ==> is_blank(#[trigger] cs[i]),
    ensures
        lex_from(cs, p, l) == lex_from(cs, p + n, l),
    decreases n,
{
    if n > 0 {
        lemma_skip_blanks(cs, p + 1, (n - 1) as nat, l);
        assert(is_blank(cs[p as int]));
        assert(skip_ws(cs, p, l) == skip_ws(cs, p + 1, l));
    }
}

/// Replacing the run of spaces and tabs that follows `x` by another run of
/// spaces and tabs does not change lexing from the end of `x`: both texts
/// lex from there or neither does, and the token kinds are the same (the
/// spans move with the text).
pub proof fn lemma_blank_runs(x: Seq<char>, r1: Seq<char>, r2: Seq<char>, b: Seq<char>, line: nat)
    requires
        forall|i: int| 0 <= i < r1.len() ==> is_blank(#[trigger] r1[i]),
        forall|i: int| 0 <= i < r2.len() ==> is_blank(#[trigger] r2[i]),
    ensures
        lex_from(x + r1 + b, x.len(), line) is Some <==> lex_from(x + r2 + b, x.len(), line) is Some,
        lex_from(x + r1 + b, x.len(), line) is Some ==> token_kinds(lex_from(x + r1 + b, x.len(), line)->Some_0)
            == token_kinds(lex_from(x + r2 + b, x.len(), line)->Some_0),
{
    let c1 = x + r1 + b;
    let c2 = x + r2 + b;
    assert forall|i: int| x.len() <= i < x.len() + r1.len() implies is_blank(#[trigger] c1[i]) by {
        assert(c1[i] == r1[i - x.len()]);
    }
    assert forall|i: int| x.len() <= i < x.len() + r2.len() implies is_blank(#[trigger] c2[i]) by {
        assert(c2[i] == r2[i - x.len()]);
    }
    lemma_skip_blanks(c1, x.len(), r1.len(), line);
    lemma_skip_blanks(c2, x.len(), r2.len(), line);
    let p1 = x.len() + r1.len();
    let p2 = x.len() + r2.len();
    assert forall|i: int| 0 <= i < c1.len() - p1 implies #[trigger] c1[p1 + i] == c2[p2 + i] by {
        assert(c1[p1 + i] == b[i]);
        assert(c2[p2 + i] == b[i]);
    }
    lemma_lex_local(c1, p1 as nat, line, c2, p2 as nat, line);
}

/// The tokens lexed from position `pos` until lexing arrives exactly at
/// position `t` (the end of a token, where the next token's lexing starts),
/// with the line there; `None` when lexing fails first, passes `t`, or ends
/// before it.
pub open spec fn lex_upto(cs: Seq<char>, pos: nat, line: nat, t: nat) -> Option<(Seq<(TokenModel, Span)>, nat)>
    decreases cs.len() - pos,
{
    if pos > cs.len() {
        None
    } else if pos == t {
        Some((Seq::empty(), line))
    } else {
        let (p, l) = skip_ws(cs, pos, line);
        proof {
            lemma_skip_ws_bounds(cs, pos, line);
        }
        if p >= cs.len() {
            None
        } else {
            proof {
                lemma_step_advances(cs, p, l);
            }
            match lex_step(cs, p, l) {
                None => None,
                Some((kind, span, next, line2)) => match lex_upto(cs, next, line2, t) {
                    Some((rest, lf)) => Some((seq![(kind, span)] + rest, lf)),
                    None => None,
                },
            }
        }
    }
}

/// Lexing a text is lexing it up to `t`, then lexing from `t` on.
proof fn lemma_upto_split(cs: Seq<char>, pos: nat, line: nat, t: nat)
    ensures
        lex_upto(cs, pos, line, t) matches Some((pre, lf)) ==> (lex_from(cs, pos, line) is Some <==> lex_from(
            cs,
            t,
            lf,
        ) is Some) && (lex_from(cs, pos, line) is Some ==> lex_from(cs, pos, line)->Some_0 == pre + lex_from(
            cs,
            t,
            lf,
        )->Some_0),
    decreases cs.len() - pos,
{
    if pos <= cs.len() && pos != t {
        lemma_skip_ws_bounds(cs, pos, line);
        let (p, l) = skip_ws(cs, pos, line);
        if p < cs.len() {
            lemma_step_advances(cs, p, l);
            if let Some((kind, span, next, line2)) = lex_step(cs, p, l) {
                lemma_upto_split(cs, next, line2, t);
                if let Some((rest, lf)) = lex_upto(cs, next, line2, t) {
                    if let Some(r) = lex_from(cs, next, line2) {
                        assert(seq![(kind, span)] + (rest + lex_from(cs, t, lf)->Some_0) =~= (seq![(kind, span)]
                            + rest) + lex_from(cs, t, lf)->Some_0);
                    }
                }
            }
        }
    } else if pos == t && pos <= cs.len() {
        assert(Seq::<(TokenModel, Span)>::empty() + lex_from(cs, t, line)->Some_0 =~= lex_from(cs, t, line)->Some_0);
    }
}

/// Lexing from beyond `t` never arrives at `t`.
proof fn lemma_upto_past(cs: Seq<char>, pos: nat, line: nat, t: nat)
    requires
        pos > t,
    ensures
        lex_upto(cs, pos, line, t) is None,
    decreases cs.len() - pos,
{
    if pos <= cs.len() {
        lemma_skip_ws_bounds(cs, pos, line);
        let (p, l) = skip_ws(cs, pos, line);
        if p < cs.len() {
            lemma_step_advances(cs, p, l);
            if let Some((kind, span, next, line2)) = lex_step(cs, p, l) {
                lemma_upto_past(cs, next, line2, t);
            }
        }
    }
}

/// Whether two texts agree before position `t` and both have a space or tab
/// at `t`.
pub open spec fn agree_to_blank(c1: Seq<char>, c2: Seq<char>, t: nat) -> bool {
    &&& t < c1.len()
    &&& t < c2.len()
    &&& forall|i: int| 0 <= i < t ==> #[trigger] c1[i] == c2[i]
    &&& is_blank(c1[t as int])
    &&& is_blank(c2[t as int])
}

proof fn lemma_skip_agree(c1: Seq<char>, c2: Seq<char>, pos: nat, line: nat, t: nat)
    requires
        agree_to_blank(c1, c2, t),
        pos <= t,
    ensures
        skip_ws(c1, pos, line).0 < t ==> skip_ws(c1, pos, line) == skip_ws(c2, pos, line),
        skip_ws(c1, pos, line).0 >= t ==> skip_ws(c1, pos, line).0 > t && skip_ws(c2, pos, line).0 > t,
        skip_ws(c2, pos, line).0 >= t ==> skip_ws(c1, pos, line).0 >= t,
    decreases t - pos,
{
    if pos < t {
        assert(c1[pos as int] == c2[pos as int]);
        if is_white_space(c1[pos as int]) {
            lemma_skip_agree(c1, c2, pos + 1, if c1[pos as int] == '\n' { line + 1 } else { line }, t);
        }
    } else {
        lemma_skip_ws_bounds(c1, t + 1, line);
        lemma_skip_ws_bounds(c2, t + 1, line);
    }
}

proof fn lemma_scan_agree(c1: Seq<char>, c2: Seq<char>, p: nat, k: CharClass, t: nat)
    requires
        agree_to_blank(c1, c2, t),
        p <= t,
    ensures
        scan_while(c1, p, k) < t || scan_while(c2, p, k) < t ==> scan_while(c1, p, k) == scan_while(c2, p, k),
        scan_while(c1, p, k) >= t <==> scan_while(c2, p, k) >= t,
        !in_class(' ', k) ==> scan_while(c1, p, k) == scan_while(c2, p, k) && scan_while(c1, p, k) <= t,
        in_class(' ', k) && scan_while(c1, p, k) >= t ==> scan_while(c1, p, k) > t && scan_while(c2, p, k) > t,
    decreases t - p,
{
    assert(in_class(' ', k) == in_class('\t', k));
    if p < t {
        assert(c1[p as int] == c2[p as int]);
        if in_class(c1[p as int], k) {
            lemma_scan_agree(c1, c2, p + 1, k, t);
        }
    } else {
        lemma_scan_bounds(c1, t + 1, k);
        lemma_scan_bounds(c2, t + 1, k);
    }
}

proof fn lemma_sub_agree(c1: Seq<char>, c2: Seq<char>, a: nat, b: nat, t: nat)
    requires
        agree_to_blank(c1, c2, t),
        a <= b <= t,
    ensures
        c1.subrange(a as int, b as int) =~= c2.subrange(a as int, b as int),
        c1.take(b as int) =~= c2.take(b as int),
{
}

proof fn lemma_step_agree(c1: Seq<char>, c2: Seq<char>, p: nat, l: nat, t: nat)
    requires
        agree_to_blank(c1, c2, t),
        p < t,
    ensures
        lex_step(c1, p, l) is None <==> lex_step(c2, p, l) is None,
        lex_step(c1, p, l) matches Some((_, _, n1, _)) ==> (n1 <= t ==> lex_step(c1, p, l) == lex_step(c2, p, l))
            && (n1 > t ==> lex_step(c2, p, l)->Some_0.2 > t),
{
    let c = c1[p as int];
    assert(c1[p as int] == c2[p as int]);
    lemma_sub_agree(c1, c2, 0, p, t);
    assert(offset(c1, p) == offset(c2, p));
    if c == '#' {
        lemma_scan_agree(c1, c2, p + 1, CharClass::NotNewline, t);
        lemma_scan_bounds(c1, p + 1, CharClass::NotNewline);
        let q = scan_while(c1, p + 1, CharClass::NotNewline);
        if q < t {
            lemma_sub_agree(c1, c2, p + 1, q, t);
        }
    } else if number_char(c) {
        lemma_scan_agree(c1, c2, p, CharClass::NumberChar, t);
        lemma_scan_bounds(c1, p, CharClass::NumberChar);
        let q = scan_while(c1, p, CharClass::NumberChar);
        lemma_sub_agree(c1, c2, p, q, t);
    } else if is_alphabetic(c) {
        if p + 1 < t {
            assert(c1[(p as int) + 1] == c2[(p as int) + 1]);
        }
        lemma_scan_agree(c1, c2, p + 1, CharClass::Digit, t);
        lemma_scan_agree(c1, c2, p + 1, CharClass::IdentChar, t);
        lemma_scan_bounds(c1, p + 1, CharClass::Digit);
        lemma_scan_bounds(c1, p + 1, CharClass::IdentChar);
        let q1 = scan_while(c1, p + 1, CharClass::Digit);
        let q2 = scan_while(c1, p + 1, CharClass::IdentChar);
        lemma_sub_agree(c1, c2, p + 1, q1, t);
        lemma_sub_agree(c1, c2, p, q2, t);
    }
}

proof fn lemma_upto_agree(c1: Seq<char>, c2: Seq<char>, pos: nat, line: nat, t: nat)
    requires
        agree_to_blank(c1, c2, t),
        pos <= t,
    ensures
        lex_upto(c1, pos, line, t) == lex_upto(c2, pos, line, t),
    decreases t - pos,
{
    if pos < t {
        lemma_skip_agree(c1, c2, pos, line, t);
        lemma_skip_ws_bounds(c1, pos, line);
        lemma_skip_ws_bounds(c2, pos, line);
        let (p1, l1) = skip_ws(c1, pos, line);
        let (p2, l2) = skip_ws(c2, pos, line);
        if p1 < t {
            lemma_step_agree(c1, c2, p1, l1, t);
            lemma_step_advances(c1, p1, l1);
            lemma_step_advances(c2, p1, l1);
            if let Some((k, sp, n1, ln)) = lex_step(c1, p1, l1) {
                if n1 <= t {
                    lemma_upto_agree(c1, c2, n1, ln, t);
                } else {
                    let (k2, sp2, n2, ln2) = lex_step(c2, p1, l1)->Some_0;
                    lemma_upto_past(c1, n1, ln, t);
                    lemma_upto_past(c2, n2, ln2, t);
                }
            }
        } else {
            if p1 < c1.len() {
                lemma_step_advances(c1, p1, l1);
                if let Some((k, sp, n1, ln)) = lex_step(c1, p1, l1) {
                    lemma_upto_past(c1, n1, ln, t);
                }
            }
            if p2 < c2.len() {
                lemma_step_advances(c2, p2, l2);
                if let Some((k, sp, n2, ln)) = lex_step(c2, p2, l2) {
                    lemma_upto_past(c2, n2, ln, t);
                }
            }
        }
    }
}

/// Replacing a run of spaces and tabs between two tokens by another such
/// run does not change the token kinds of a text. The run follows `x`, and
/// lexing the text from its start arrives exactly at the end of `x` (so `x`
/// ends where a token ends, not inside a comment or before trailing blanks):
/// then both texts lex or neither does, and their token kinds are the same.
pub proof fn lemma_blank_runs_whole(x: Seq<char>, r1: Seq<char>, r2: Seq<char>, b: Seq<char>)
    requires
        r1.len() > 0,
        r2.len() > 0,
        forall|i: int| 0 <= i < r1.len() ==> is_blank(#[trigger] r1[i]),
        forall|i: int| 0 <= i < r2.len() ==> is_blank(#[trigger] r2[i]),
        lex_upto(x + r1 + b, 0, 0, x.len()) is Some,
    ensures
        lex_source(x + r1 + b) is Some <==> lex_source(x + r2 + b) is Some,
        lex_source(x + r1 + b) is Some ==> token_kinds(lex_source(x + r1 + b)->Some_0) == token_kinds(
            lex_source(x + r2 + b)->Some_0,
        ),
{
    let c1 = x + r1 + b;
    let c2 = x + r2 + b;
    let t = x.len();
    assert(c1[t as int] == r1[0]);
    assert(c2[t as int] == r2[0]);
    assert forall|i: int| 0 <= i < t implies #[trigger] c1[i] == c2[i] by {
        assert(c1[i] == x[i]);
        assert(c2[i] == x[i]);
    }
    assert(agree_to_blank(c1, c2, t));
    lemma_upto_agree(c1, c2, 0, 0, t);
    let (pre, lf) = lex_upto(c1, 0, 0, t)->Some_0;
    lemma_upto_split(c1, 0, 0, t);
    lemma_upto_split(c2, 0, 0, t);
    lemma_blank_runs(x, r1, r2, b, lf);
    if lex_source(c1) is Some {
        let a1 = lex_from(c1, t, lf)->Some_0;
        let a2 = lex_from(c2, t, lf)->Some_0;
        assert(token_kinds(pre + a1) =~= token_kinds(pre) + token_kinds(a1));
        assert(token_kinds(pre + a2) =~= token_kinds(pre) + token_kinds(a2));
    }
}

/// The tokens of a whole source text.
pub open spec fn lex_source(cs: Seq<char>) -> Option<Seq<(TokenModel, Span)>> {
    lex_from(cs, 0, 0)
}

/// The text that the derived `Debug` writes for a token kind: the variant's
/// name, and its payload in brackets where it has one (an opcode by its
/// name, numbers in decimal, strings quoted and escaped).
pub open spec fn token_kind_text(k: TokenModel) -> Seq<char> {
    match k {
        TokenModel::Opcode(op) => "Opcode("@ + opcode_name(op) + ")"@,
        TokenModel::Register(r) => "Register("@ + decimal(r as nat) + ")"@,
        TokenModel::Immediate(v) => "Immediate("@ + signed_decimal(v) + ")"@,
        TokenModel::LabelDef(l) => "LabelDef("@ + quoted_debug(l) + ")"@,
        TokenModel::LabelRef(l) => "LabelRef("@ + quoted_debug(l) + ")"@,
        TokenModel::Comma => "Comma"@,
        TokenModel::Comment(c) => "Comment("@ + quoted_debug(c) + ")"@,
        TokenModel::Terminator => "Terminator"@,
    }
}

/// A token kind as its derived `Debug` writes it, such as `Register(3)` or
/// `LabelRef("loop")`.
pub fn token_kind_debug(k: &TokenKind) -> (s: String)
    ensures
        s@ == token_kind_text(k@),
{
    let mut out: Vec<char> = Vec::new();
    match k {
        TokenKind::Opcode(op) => {
            push_str(&mut out, "Opcode(");
            push_str(&mut out, op.to_string());
            push_str(&mut out, ")");
        },
        TokenKind::Register(r) => {
            push_str(&mut out, "Register(");
            push_decimal(&mut out, *r as u128);
            push_str(&mut out, ")");
        },
        TokenKind::Immediate(v) => {
            push_str(&mut out, "Immediate(");
            push_signed_decimal(&mut out, *v as i128);
            push_str(&mut out, ")");
        },
        TokenKind::LabelDef(l) => {
            push_str(&mut out, "LabelDef(");
            push_string(&mut out, &str_debug(l.as_str()));
            push_str(&mut out, ")");
        },
        TokenKind::LabelRef(l) => {
            push_str(&mut out, "LabelRef(");
            push_string(&mut out, &str_debug(l.as_str()));
            push_str(&mut out, ")");
        },
        TokenKind::Comma => {
            push_str(&mut out, "Comma");
        },
        TokenKind::Comment(c) => {
            push_str(&mut out, "Comment(");
            push_string(&mut out, &str_debug(c.as_str()));
            push_str(&mut out, ")");
        },
        TokenKind::Terminator => {
            push_str(&mut out, "Terminator");
        },
    }
    proof {
        assert(out@ =~= token_kind_text(k@));
    }
    string_from_chars(&out)
}

/// The views of a list of tokens.
pub open spec fn tokens_view(ts: Seq<Token>) -> Seq<(TokenModel, Span)> {
    ts.map_values(|t: Token| t@)
}

/// Whether `c` belongs to class `k`.
fn char_in_class(c: char, k: &CharClass) -> (r: bool)
    ensures
        r == in_class(c, *k),
{
    match k {
        CharClass::NotNewline => c != '\n',
        CharClass::NumberChar => char_is_digit(c) || c == '-',
        CharClass::Digit => char_is_digit(c),
        CharClass::IdentChar => char_is_alphanumeric(c) || c == '_' || c == ':',
    }
}

/// `s` without its trailing colons.
fn trim_trailing_colons(s: &Vec<char>) -> (r: Vec<char>)
    ensures
        r@ == trim_colons(s@),
{
    let mut end = s.len();
    assert(s@.take(end as int) =~= s@);
    while end > 0 && s[end - 1] == ':'
        invariant
            end <= s@.len(),
            trim_colons(s@) == trim_colons(s@.take(end as int)),
        decreases end,
    {
        assert(s@.take(end as int).drop_last() =~= s@.take(end - 1));
        end = end - 1;
    }
    let mut r: Vec<char> = Vec::new();
    let mut i: usize = 0;
    while i < end
        invariant
            end <= s@.len(),
            i <= end,
            r@ == s@.take(i as int),
        decreases end - i,
    {
        r.push(s[i]);
        i = i + 1;
        assert(r@ =~= s@.take(i as int));
    }
    assert(s@.take(end as int).len() == 0 || s@.take(end as int).last() != ':');
    r
}

/// The outcome of lexing from the current position.
enum Step {
    Token(Token),
    End,
    Stuck,
}

/// Turns source text into tokens.
pub struct Lexer {
    chars: Vec<char>,
    pos: usize,
    byte: usize,
    line: usize,
}

impl Lexer {
    /// The source text.
    pub closed spec fn text(&self) -> Seq<char> {
        self.chars@
    }

    /// The character position lexing continues from.
    pub closed spec fn at(&self) -> nat {
        self.pos as nat
    }

    /// The line lexing continues on.
    pub closed spec fn at_line(&self) -> nat {
        self.line as nat
    }

    /// The lexer's internal consistency: the byte offset matches the
    /// character position, and every byte offset of the text fits a `usize`.
    pub closed spec fn wf(&self) -> bool {
        &&& self.pos <= self.chars@.len()
        &&& self.byte == offset(self.chars@, self.pos as nat)
        &&& text_bytes(self.chars@) <= usize::MAX
        &&& self.line <= self.pos
    }

    /// A lexer at the start of `input`, on line 0.
    pub fn new(input: &str) -> (r: Self)
        ensures
            r.wf(),
            r.text() == input@,
            r.at() == 0,
            r.at_line() == 0,
    {
        crate::text::str_bytes_fit(input);
        let chars = crate::text::str_to_chars(input);
        assert(chars@.take(0) =~= Seq::<char>::empty());
        Lexer { chars, pos: 0, byte: 0, line: 0 }
    }

    /// Moves past the current character.
    fn advance(&mut self)
        requires
            old(self).wf(),
            old(self).pos < old(self).chars@.len(),
        ensures
            final(self).wf(),
            final(self).chars@ == old(self).chars@,
            final(self).pos == old(self).pos + 1,
            final(self).line == old(self).line,
            final(self).byte == old(self).byte + utf8_len(old(self).chars@[old(self).pos as int]),
    {
        let c = self.chars[self.pos];
        let _len = self.chars.len();
        let n = char_len_utf8(c);
        proof {
            let cs = self.chars@;
            assert(cs.take(self.pos + 1 as int).drop_last() =~= cs.take(self.pos as int));
            lemma_text_bytes_prefix(cs, (self.pos + 1) as nat);
        }
        self.byte = self.byte + n;
        self.pos = self.pos + 1;
    }

    /// Skips whitespace, counting newlines.
    fn skip_whitespace(&mut self)
        requires
            old(self).wf(),
        ensures
            final(self).wf(),
            final(self).chars@ == old(self).chars@,
            (final(self).pos as nat, final(self).line as nat) == skip_ws(
                old(self).chars@,
                old(self).pos as nat,
                old(self).line as nat,
            ),
    {
        let ghost cs = self.chars@;
        let ghost target = skip_ws(cs, self.pos as nat, self.line as nat);
        while self.pos < self.chars.len() && char_is_whitespace(self.chars[self.pos])
            invariant
                self.wf(),
                self.chars@ == cs,
                target == skip_ws(cs, self.pos as nat, self.line as nat),
            decreases cs.len() - self.pos,
        {
            let is_newline = self.chars[self.pos] == '\n';
            self.advance();
            if is_newline {
                self.line = self.line + 1;
            }
        }
    }

    /// Moves past the characters of class `k` from the current position,
    /// collecting them.
    fn take_class(&mut self, k: CharClass) -> (r: Vec<char>)
        requires
            old(self).wf(),
        ensures
            final(self).wf(),
            final(self).chars@ == old(self).chars@,
            final(self).line == old(self).line,
            final(self).pos == scan_while(old(self).chars@, old(self).pos as nat, k),
            r@ == old(self).chars@.subrange(old(self).pos as int, final(self).pos as int),
    {
        let ghost cs = self.chars@;
        let ghost p0 = self.pos;
        let ghost target = scan_while(cs, p0 as nat, k);
        let mut r: Vec<char> = Vec::new();
        while self.pos < self.chars.len() && char_in_class(self.chars[self.pos], &k)
            invariant
                self.wf(),
                self.chars@ == cs,
                self.line == old(self).line,
                p0 <= self.pos,
                target == scan_while(cs, self.pos as nat, k),
                r@ == cs.subrange(p0 as int, self.pos as int),
            decreases cs.len() - self.pos,
        {
            r.push(self.chars[self.pos]);
            self.advance();
            assert(r@ =~= cs.subrange(p0 as int, self.pos as int));
        }
        r
    }

    /// Lexes a comment: `#` and the rest of the line. The newline is consumed
    /// and the line count moves on.
    fn lex_comment(&mut self) -> (r: Token)
        requires
            old(self).wf(),
            old(self).pos < old(self).chars@.len(),
            old(self).chars@[old(self).pos as int] == '#',
        ensures
            final(self).wf(),
            final(self).chars@ == old(self).chars@,
            lex_step(old(self).chars@, old(self).pos as nat, old(self).line as nat) == Some(
                (r@.0, r@.1, final(self).pos as nat, final(self).line as nat),
            ),
    {
        let ghost cs = self.chars@;
        let ghost p = self.pos as nat;
        let start = self.byte;
        self.advance();
        let text = self.take_class(CharClass::NotNewline);
        let q = self.pos;
        proof {
            lemma_scan_bounds(cs, p + 1, CharClass::NotNewline);
            lemma_text_bytes_grow(cs, p, q as nat);
            lemma_text_bytes_prefix(cs, q as nat);
        }
        if self.pos < self.chars.len() {
            self.advance();
        }
        self.line = self.line + 1;
        let end = start + text.len();
        let comment = string_from_chars(&text);
        Token { kind: TokenKind::Comment(comment), span: Span { start, end, line: self.line } }
    }

    /// Lexes a number: digits and minus signs. `None` when they do not form
    /// a number in range.
    fn lex_number(&mut self) -> (r: Option<Token>)
        requires
            old(self).wf(),
            old(self).pos < old(self).chars@.len(),
            number_char(old(self).chars@[old(self).pos as int]),
        ensures
            final(self).wf(),
            final(self).chars@ == old(self).chars@,
            final(self).line == old(self).line,
            match r {
                Some(t) => lex_step(old(self).chars@, old(self).pos as nat, old(self).line as nat) == Some(
                    (t@.0, t@.1, final(self).pos as nat, final(self).line as nat),
                ),
                None => lex_step(old(self).chars@, old(self).pos as nat, old(self).line as nat) is None,
            },
    {
        let ghost cs = self.chars@;
        let ghost p = self.pos as nat;
        let start = self.byte;
        let p0 = self.pos;
        let text = self.take_class(CharClass::NumberChar);
        let q = self.pos;
        proof {
            lemma_scan_bounds(cs, p, CharClass::NumberChar);
            lemma_text_bytes_grow(cs, p, q as nat);
            lemma_text_bytes_prefix(cs, q as nat);
        }
        match parse_number(&text) {
            Some(v) => {
                let end = start + (q - p0);
                Some(Token { kind: TokenKind::Immediate(v), span: Span { start, end, line: self.line } })
            },
            None => None,
        }
    }

    /// Lexes a register: `R` and its digits. `None` when the number does not
    /// fit a `usize`.
    fn lex_register(&mut self) -> (r: Option<Token>)
        requires
            old(self).wf(),
            old(self).pos + 1 < old(self).chars@.len(),
            old(self).chars@[old(self).pos as int] == 'R',
            is_alphabetic(old(self).chars@[old(self).pos as int]),
            is_digit(old(self).chars@[old(self).pos + 1]),
        ensures
            final(self).wf(),
            final(self).chars@ == old(self).chars@,
            final(self).line == old(self).line,
            match r {
                Some(t) => lex_step(old(self).chars@, old(self).pos as nat, old(self).line as nat) == Some(
                    (t@.0, t@.1, final(self).pos as nat, final(self).line as nat),
                ),
                None => lex_step(old(self).chars@, old(self).pos as nat, old(self).line as nat) is None,
            },
    {
        let ghost cs = self.chars@;
        let ghost p = self.pos as nat;
        let start = self.byte;
        proof {
            reveal_strlit("R");
        }
        self.advance();
        let digits = self.take_class(CharClass::Digit);
        let q = self.pos;
        proof {
            lemma_scan_bounds(cs, p + 1, CharClass::Digit);
            lemma_text_bytes_grow(cs, p, q as nat);
            lemma_text_bytes_prefix(cs, q as nat);
            assert(digits@ =~= digits@.subrange(0, digits@.len() as int));
            assert(all_digits(digits@));
        }
        match parse_digits(&digits, 0, usize::MAX as u128) {
            Some(v) => {
                let end = start + digits.len();
                Some(Token { kind: TokenKind::Register(v as usize), span: Span { start, end, line: self.line } })
            },
            None => None,
        }
    }

    /// Lexes an identifier: a label definition, an opcode or a label
    /// reference.
    fn lex_identifier(&mut self) -> (r: Token)
        requires
            old(self).wf(),
            old(self).pos < old(self).chars@.len(),
            is_alphabetic(old(self).chars@[old(self).pos as int]),
            ({
                let c = old(self).chars@[old(self).pos as int];
                c != '#' && c != ',' && !number_char(c) && c != ';'
            }),
            !(old(self).chars@[old(self).pos as int] == 'R' && old(self).pos + 1 < old(self).chars@.len()
                && is_digit(old(self).chars@[old(self).pos + 1])),
        ensures
            final(self).wf(),
            final(self).chars@ == old(self).chars@,
            final(self).line == old(self).line,
            lex_step(old(self).chars@, old(self).pos as nat, old(self).line as nat) == Some(
                (r@.0, r@.1, final(self).pos as nat, final(self).line as nat),
            ),
    {
        let ghost cs = self.chars@;
        let ghost p = self.pos as nat;
        let start = self.byte;
        let first = self.chars[self.pos];
        self.advance();
        let rest = self.take_class(CharClass::IdentChar);
        let mut ident: Vec<char> = Vec::new();
        ident.push(first);
        let mut i: usize = 0;
        while i < rest.len()
            invariant
                i <= rest@.len(),
                ident@ == seq![first] + rest@.take(i as int),
            decreases rest@.len() - i,
        {
            ident.push(rest[i]);
            i = i + 1;
            assert(ident@ =~= seq![first] + rest@.take(i as int));
        }
        proof {
            lemma_scan_bounds(cs, p + 1, CharClass::IdentChar);
            assert(rest@.take(rest@.len() as int) =~= rest@);
            assert(first == cs[p as int]);
            assert(rest@ == cs.subrange(p + 1 as int, self.pos as int));
            assert(cs.subrange(p as int, self.pos as int) =~= seq![cs[p as int]] + cs.subrange(p + 1 as int, self.pos as int));
            assert(ident@ =~= cs.subrange(p as int, self.pos as int));
        }
        let end = self.byte;
        let last = ident[ident.len() - 1];
        let kind = if last == ':' {
            let name = trim_trailing_colons(&ident);
            TokenKind::LabelDef(string_from_chars(&name))
        } else {
            match opcode_from_chars(&ident) {
                Some(op) => TokenKind::Opcode(op),
                None => TokenKind::LabelRef(string_from_chars(&ident)),
            }
        };
        Token { kind, span: Span { start, end, line: self.line } }
    }

    /// Lexes the next token, after skipping whitespace.
    fn next_token(&mut self) -> (r: Step)
        requires
            old(self).wf(),
        ensures
            final(self).wf(),
            final(self).chars@ == old(self).chars@,
            match r {
                Step::End => lex_from(old(self).chars@, old(self).pos as nat, old(self).line as nat) == Some(
                    Seq::<(TokenModel, Span)>::empty(),
                ),
                Step::Token(t) => {
                    &&& final(self).pos > old(self).pos
                    &&& lex_from(old(self).chars@, old(self).pos as nat, old(self).line as nat) == prepend(
                        seq![t@],
                        lex_from(final(self).chars@, final(self).pos as nat, final(self).line as nat),
                    )
                },
                Step::Stuck => lex_from(old(self).chars@, old(self).pos as nat, old(self).line as nat) is None,
            },
    {
        let ghost cs = self.chars@;
        let ghost p0 = self.pos as nat;
        let ghost l0 = self.line as nat;
        proof {
            lemma_skip_ws_bounds(cs, p0, l0);
        }
        self.skip_whitespace();
        if self.pos >= self.chars.len() {
            return Step::End;
        }
        let ghost p = self.pos as nat;
        let ghost l = self.line as nat;
        proof {
            lemma_step_advances(cs, p, l);
        }
        let c = self.chars[self.pos];
        if c == '#' {
            Step::Token(self.lex_comment())
        } else if c == ',' {
            let start = self.byte;
            self.advance();
            Step::Token(Token { kind: TokenKind::Comma, span: Span { start, end: start + 1, line: self.line } })
        } else if char_is_digit(c) || c == '-' {
            match self.lex_number() {
                Some(t) => Step::Token(t),
                None => Step::Stuck,
            }
        } else if c == ';' {
            let start = self.byte;
            self.advance();
            Step::Token(Token { kind: TokenKind::Terminator, span: Span { start, end: start + 1, line: self.line } })
        } else if char_is_alphabetic(c) {
            if c == 'R' && self.pos + 1 < self.chars.len() && char_is_digit(self.chars[self.pos + 1]) {
                match self.lex_register() {
                    Some(t) => Step::Token(t),
                    None => Step::Stuck,
                }
            } else {
                Step::Token(self.lex_identifier())
            }
        } else {
            Step::Stuck
        }
    }

    /// All tokens from the current position on; `None` when the text holds
    /// something that cannot be lexed.
    pub fn try_lex(self) -> (r: Option<Vec<Token>>)
        requires
            self.wf(),
        ensures
            match r {
                Some(ts) => lex_from(self.text(), self.at(), self.at_line()) == Some(tokens_view(ts@)),
                None => lex_from(self.text(), self.at(), self.at_line()) is None,
            },
    {
        let ghost cs = self.chars@;
        let ghost goal = lex_from(cs, self.pos as nat, self.line as nat);
        let mut lexer = self;
        let mut tokens: Vec<Token> = Vec::new();
        assert(tokens_view(tokens@) =~= Seq::<(TokenModel, Span)>::empty());
        proof {
            match goal {
                Some(g) => {
                    assert(Seq::<(TokenModel, Span)>::empty() + g =~= g);
                },
                None => {},
            }
        }
        #[verifier::loop_isolation(false)]
        loop
            invariant
                lexer.wf(),
                lexer.chars@ == cs,
                goal == prepend(tokens_view(tokens@), lex_from(cs, lexer.pos as nat, lexer.line as nat)),
            decreases cs.len() - lexer.pos,
        {
            let ghost before = tokens@;
            match lexer.next_token() {
                Step::End => {
                    assert(tokens_view(tokens@) + Seq::<(TokenModel, Span)>::empty() =~= tokens_view(tokens@));
                    return Some(tokens);
                },
                Step::Stuck => {
                    return None;
                },
                Step::Token(t) => {
                    let ghost tv = t@;
                    tokens.push(t);
                    proof {
                        assert(tokens_view(tokens@) =~= tokens_view(before) + seq![tv]);
                        match lex_from(cs, lexer.pos as nat, lexer.line as nat) {
                            Some(rest) => {
                                assert(tokens_view(before) + (seq![tv] + rest) =~= tokens_view(tokens@) + rest);
                            },
                            None => {},
                        }
                    }
                },
            }
        }
    }

    /// All tokens from the current position on. The text must be lexable:
    /// no unknown character where a token starts, every number well formed
    /// and in range, every register number in range.
    pub fn lex(self) -> (r: Vec<Token>)
        requires
            self.wf(),
            lex_from(self.text(), self.at(), self.at_line()) is Some,
        ensures
            lex_from(self.text(), self.at(), self.at_line()) == Some(tokens_view(r@)),
    {
        match self.try_lex() {
            Some(ts) => ts,
            None => Vec::new(),
        }
    }
}

} // verus!
