//! Errors of the assembler's parser.

use vstd::prelude::*;
use crate::lexer::{lemma_scan_bounds, scan_while, CharClass, Span};
use crate::text::{
    char_len_utf8, decimal, push_decimal, push_repeated, push_str, push_string, str_to_chars,
    string_from_chars, text_bytes, utf8_len,
};

verus! {

/// Why a token stream could not be parsed into instructions.
#[derive(Debug)]
pub enum ParseError {
    UnexpectedToken { expected: String, found: String, span: Span },
    UnexpectedEndOfInput,
    DuplicateLabel { label: String, span: Span },
    UndefinedLabel { label: String, span: Span },
    OperandCountMismatch { expected: usize, found: usize, span: Span },
    OperandTypeMismatch { span: Span },
    InvalidRegister { span: Span },
    InvalidInstruction,
}

/// The content of a parse error, with strings as character sequences.
pub enum ParseErrorModel {
    UnexpectedToken { expected: Seq<char>, found: Seq<char>, span: Span },
    UnexpectedEndOfInput,
    DuplicateLabel { label: Seq<char>, span: Span },
    UndefinedLabel { label: Seq<char>, span: Span },
    OperandCountMismatch { expected: nat, found: nat, span: Span },
    OperandTypeMismatch { span: Span },
    InvalidRegister { span: Span },
    InvalidInstruction,
}

impl View for ParseError {
    type V = ParseErrorModel;

    open spec fn view(&self) -> ParseErrorModel {
        match self {
            ParseError::UnexpectedToken { expected, found, span } => ParseErrorModel::UnexpectedToken {
                expected: expected@,
                found: found@,
                span: *span,
            },
            ParseError::UnexpectedEndOfInput => ParseErrorModel::UnexpectedEndOfInput,
            ParseError::DuplicateLabel { label, span } => ParseErrorModel::DuplicateLabel { label: label@, span: *span },
            ParseError::UndefinedLabel { label, span } => ParseErrorModel::UndefinedLabel { label: label@, span: *span },
            ParseError::OperandCountMismatch { expected, found, span } => ParseErrorModel::OperandCountMismatch {
                expected: *expected as nat,
                found: *found as nat,
                span: *span,
            },
            ParseError::OperandTypeMismatch { span } => ParseErrorModel::OperandTypeMismatch { span: *span },
            ParseError::InvalidRegister { span } => ParseErrorModel::InvalidRegister { span: *span },
            ParseError::InvalidInstruction => ParseErrorModel::InvalidInstruction,
        }
    }
}

/// A line without the carriage return that ended it.
pub open spec fn strip_cr(line: Seq<char>) -> Seq<char> {
    if line.len() > 0 && line.last() == '\r' {
        line.drop_last()
    } else {
        line
    }
}

/// The lines of `cs` from position `start` on, after the lines `acc`
/// (`str::lines`): split at each newline, a carriage return before the
/// newline dropped, and no empty line after a final newline.
pub open spec fn lines_from(cs: Seq<char>, start: nat, acc: Seq<Seq<char>>) -> Seq<Seq<char>>
    decreases cs.len() - start,
{
    if start >= cs.len() {
        acc
    } else {
        let q = scan_while(cs, start, CharClass::NotNewline);
        if q >= cs.len() {
            acc.push(cs.subrange(start as int, cs.len() as int))
        } else {
            proof {
                lemma_scan_bounds(cs, start, CharClass::NotNewline);
            }
            lines_from(cs, q + 1, acc.push(strip_cr(cs.subrange(start as int, q as int))))
        }
    }
}

/// The lines of a text.
pub open spec fn split_lines(cs: Seq<char>) -> Seq<Seq<char>> {
    lines_from(cs, 0, Seq::empty())
}

/// Bytes before line `n`: each of the lines before it and one byte for its
/// line end.
pub open spec fn bytes_before(lines: Seq<Seq<char>>, n: nat) -> int
    decreases n,
{
    if n == 0 {
        0
    } else {
        bytes_before(lines, (n - 1) as nat) + text_bytes(lines[n - 1]) + 1
    }
}

/// `a - b`, or 0 when `b` is larger.
pub open spec fn saturating_sub(a: int, b: int) -> int {
    if a > b {
        a - b
    } else {
        0
    }
}

/// `n` spaces.
pub open spec fn spaces(n: nat) -> Seq<char> {
    Seq::new(n, |i: int| ' ')
}

/// The source line of a span with a caret mark under the span, and
/// `message` after the carets; only the line number when the span's line
/// is past the end of the source.
pub open spec fn location_text(source: Seq<char>, span: Span, message: Seq<char>) -> Seq<char> {
    let lines = split_lines(source);
    let num = decimal((span.line + 1) as nat);
    if span.line >= lines.len() {
        "  at line "@ + num
    } else {
        let width = num.len();
        let start = bytes_before(lines, span.line as nat);
        let col_start = saturating_sub(span.start as int, start);
        let col_end = saturating_sub(span.end as int, start);
        let carets = if saturating_sub(col_end, col_start) > 1 { saturating_sub(col_end, col_start) } else { 1 };
        spaces(width) + " |\n"@ + num + " | "@ + lines[span.line as int] + "\n"@ + spaces(width) + " | "@
            + spaces(col_start as nat) + Seq::new(carets as nat, |i: int| '^') + " "@ + message
    }
}

/// Whether a span can be marked under its source line: a span on a line past
/// the end needs no mark; on a line of the source, its end column (counted
/// from the line's start, 0 where the span ends before it) is not before its
/// start column.
pub open spec fn span_markable(source: Seq<char>, span: Span) -> bool {
    let lines = split_lines(source);
    span.line < lines.len() ==> {
        let start = bytes_before(lines, span.line as nat);
        saturating_sub(span.start as int, start) <= saturating_sub(span.end as int, start)
    }
}

fn split_source_lines(cs: &Vec<char>) -> (r: Vec<Vec<char>>)
    ensures
        r@.map_values(|l: Vec<char>| l@) == split_lines(cs@),
{
    let ghost goal = split_lines(cs@);
    let mut lines: Vec<Vec<char>> = Vec::new();
    let mut start: usize = 0;
    assert(lines@.map_values(|l: Vec<char>| l@) =~= Seq::<Seq<char>>::empty());
    while start < cs.len()
        invariant
            start <= cs@.len(),
            goal == split_lines(cs@),
            goal == lines_from(cs@, start as nat, lines@.map_values(|l: Vec<char>| l@)),
        decreases cs@.len() - start,
    {
        let mut line: Vec<char> = Vec::new();
        let mut q = start;
        while q < cs.len() && cs[q] != '\n'
            invariant
                start <= q <= cs@.len(),
                line@ == cs@.subrange(start as int, q as int),
                scan_while(cs@, start as nat, CharClass::NotNewline) == scan_while(cs@, q as nat, CharClass::NotNewline),
            decreases cs@.len() - q,
        {
            line.push(cs[q]);
            q = q + 1;
            assert(line@ =~= cs@.subrange(start as int, q as int));
        }
        let ghost before = lines@.map_values(|l: Vec<char>| l@);
        if q >= cs.len() {
            lines.push(line);
            assert(lines@.map_values(|l: Vec<char>| l@) =~= before.push(cs@.subrange(start as int, cs@.len() as int)));
            start = q;
        } else {
            if line.len() > 0 && line[line.len() - 1] == '\r' {
                line.pop();
            }
            let ghost lv = line@;
            lines.push(line);
            assert(lines@.map_values(|l: Vec<char>| l@) =~= before.push(lv));
            start = q + 1;
        }
    }
    lines
}

/// The byte length of a line, plus its line end, in a wide integer.
fn line_bytes(line: &Vec<char>) -> (r: u128)
    ensures
        r == text_bytes(line@) + 1,
        r <= 4 * (usize::MAX as int) + 1,
{
    let n = line.len();
    let mut total: u128 = 1;
    let mut i: usize = 0;
    while i < line.len()
        invariant
            n == line@.len(),
            i <= line@.len(),
            total == text_bytes(line@.take(i as int)) + 1,
            total <= 4 * i + 1,
        decreases line@.len() - i,
    {
        assert(line@.take(i + 1 as int).drop_last() =~= line@.take(i as int));
        total = total + char_len_utf8(line[i]) as u128;
        i = i + 1;
    }
    assert(line@.take(line@.len() as int) =~= line@);
    total
}

/// Formats the location of an error: the source line with carets under the
/// span, then the message.
fn format_error_location(source: &str, span: &Span, message: &str) -> (r: Vec<char>)
    requires
        span_markable(source@, *span),
    ensures
        r@ == location_text(source@, *span, message@),
{
    let chars = str_to_chars(source);
    let lines = split_source_lines(&chars);
    let ghost lv = lines@.map_values(|l: Vec<char>| l@);
    let line_num = span.line as u128 + 1;
    let mut num: Vec<char> = Vec::new();
    push_decimal(&mut num, line_num);
    let mut out: Vec<char> = Vec::new();
    if span.line >= lines.len() {
        push_str(&mut out, "  at line ");
        let ghost pre = out@;
        let mut k: usize = 0;
        while k < num.len()
            invariant
                k <= num@.len(),
                out@ == pre + num@.take(k as int),
            decreases num@.len() - k,
        {
            out.push(num[k]);
            k = k + 1;
            assert(out@ =~= pre + num@.take(k as int));
        }
        assert(num@.take(num@.len() as int) =~= num@);
        return out;
    }
    // The byte offset where the span's line starts, kept from growing past
    // the span's larger end (beyond it every column is 0).
    let cap: u128 = if span.start > span.end { (span.start as u128) + 1 } else { (span.end as u128) + 1 };
    let mut line_start: u128 = 0;
    let mut k: usize = 0;
    while k < span.line
        invariant
            span.line < lines@.len(),
            lv == lines@.map_values(|l: Vec<char>| l@),
            k <= span.line,
            cap == (if span.start > span.end { span.start as int } else { span.end as int }) + 1,
            line_start == if bytes_before(lv, k as nat) < cap { bytes_before(lv, k as nat) } else { cap as int },
            bytes_before(lv, k as nat) >= 0,
        decreases span.line - k,
    {
        let b = line_bytes(&lines[k]);
        proof {
            assert(lv[k as int] == lines@[k as int]@);
        }
        line_start = if line_start + b < cap { line_start + b } else { cap };
        k = k + 1;
    }
    let col_start: usize = if (span.start as u128) > line_start { (span.start as u128 - line_start) as usize } else { 0 };
    let col_end: usize = if (span.end as u128) > line_start { (span.end as u128 - line_start) as usize } else { 0 };
    proof {
        let start = bytes_before(lv, span.line as nat);
        assert(col_start == saturating_sub(span.start as int, start));
        assert(col_end == saturating_sub(span.end as int, start));
        assert(num@ == decimal((span.line + 1) as nat));
    }
    let diff = col_end - col_start;
    let carets = if diff > 1 { diff } else { 1 };
    let width = num.len();
    push_repeated(&mut out, ' ', width);
    push_str(&mut out, " |\n");
    let ghost pre = out@;
    let mut k: usize = 0;
    while k < num.len()
        invariant
            k <= num@.len(),
            out@ == pre + num@.take(k as int),
        decreases num@.len() - k,
    {
        out.push(num[k]);
        k = k + 1;
        assert(out@ =~= pre + num@.take(k as int));
    }
    assert(num@.take(num@.len() as int) =~= num@);
    push_str(&mut out, " | ");
    let line = &lines[span.line];
    let ghost pre2 = out@;
    let mut k: usize = 0;
    while k < line.len()
        invariant
            k <= line@.len(),
            out@ == pre2 + line@.take(k as int),
        decreases line@.len() - k,
    {
        out.push(line[k]);
        k = k + 1;
        assert(out@ =~= pre2 + line@.take(k as int));
    }
    assert(line@.take(line@.len() as int) =~= line@);
    proof {
        assert(lv[span.line as int] == line@);
    }
    push_str(&mut out, "\n");
    push_repeated(&mut out, ' ', width);
    push_str(&mut out, " | ");
    push_repeated(&mut out, ' ', col_start);
    push_repeated(&mut out, '^', carets);
    push_str(&mut out, " ");
    push_str(&mut out, message);
    proof {
        assert(out@ =~= location_text(source@, *span, message@));
    }
    out
}

/// The span a parse error points at, if any.
pub open spec fn error_span(e: ParseErrorModel) -> Option<Span> {
    match e {
        ParseErrorModel::UnexpectedToken { span, .. } => Some(span),
        ParseErrorModel::DuplicateLabel { span, .. } => Some(span),
        ParseErrorModel::UndefinedLabel { span, .. } => Some(span),
        ParseErrorModel::OperandCountMismatch { span, .. } => Some(span),
        ParseErrorModel::OperandTypeMismatch { span } => Some(span),
        ParseErrorModel::InvalidRegister { span } => Some(span),
        _ => None,
    }
}

/// The report of a parse error with the source line it points at.
pub open spec fn display_text(e: ParseErrorModel, source: Seq<char>) -> Seq<char> {
    match e {
        ParseErrorModel::UnexpectedToken { expected, found, span } => "Parse Error: Expected "@ + expected
            + ", found "@ + found + "\n"@ + location_text(source, span, "unexpected token here"@),
        ParseErrorModel::UnexpectedEndOfInput => "Parse Error: Unexpected end of input"@,
        ParseErrorModel::DuplicateLabel { label, span } => "Parse Error: Duplicate label '"@ + label + "'\n"@
            + location_text(source, span, "label already defined"@),
        ParseErrorModel::UndefinedLabel { label, span } => "Parse Error: Undefined label '"@ + label + "'\n"@
            + location_text(source, span, "label not found"@),
        ParseErrorModel::OperandCountMismatch { expected, found, span } =>
            "Parse Error: Operand count mismatch, expected "@ + decimal(expected) + ", found "@ + decimal(found)
            + "\n"@ + location_text(source, span, "wrong number of operands"@),
        ParseErrorModel::OperandTypeMismatch { span } => "Parse Error: Operand type mismatch\n"@
            + location_text(source, span, "incorrect operand type"@),
        ParseErrorModel::InvalidRegister { span } => "Parse Error: Invalid register\n"@
            + location_text(source, span, "register out of range"@),
        ParseErrorModel::InvalidInstruction =>
            "Something went wrong when resolving an Insruction. This should not happen!"@,
    }
}

/// The one-line description of a parse error, with its line number.
pub open spec fn message_text(e: ParseErrorModel) -> Seq<char> {
    match e {
        ParseErrorModel::UnexpectedToken { expected, found, span } => "Parse Error at line "@ + decimal(
            (span.line + 1) as nat,
        ) + ": Expected "@ + expected + ", found "@ + found,
        ParseErrorModel::UnexpectedEndOfInput => "Parse Error: Unexpected end of input"@,
        ParseErrorModel::DuplicateLabel { label, span } => "Parse Error at line "@ + decimal((span.line + 1) as nat)
            + ": Duplicate label '"@ + label + "'"@,
        ParseErrorModel::UndefinedLabel { label, span } => "Parse Error at line "@ + decimal((span.line + 1) as nat)
            + ": Undefined label '"@ + label + "'"@,
        ParseErrorModel::OperandCountMismatch { expected, found, span } => "Parse Error at line "@ + decimal(
            (span.line + 1) as nat,
        ) + ": Operand count mismatch, expected "@ + decimal(expected) + ", found "@ + decimal(found),
        ParseErrorModel::OperandTypeMismatch { span } => "Parse Error at line "@ + decimal((span.line + 1) as nat)
            + ": Operand type mismatch"@,
        ParseErrorModel::InvalidRegister { span } => "Parse Error at line "@ + decimal((span.line + 1) as nat)
            + ": Invalid register"@,
        ParseErrorModel::InvalidInstruction =>
            "Error happened at instruction resolving. This should never happen, contact the author!"@,
    }
}

fn push_chars(out: &mut Vec<char>, v: &Vec<char>)
    ensures
        final(out)@ == old(out)@ + v@,
{
    let ghost pre = out@;
    let mut k: usize = 0;
    while k < v.len()
        invariant
            k <= v@.len(),
            out@ == pre + v@.take(k as int),
        decreases v@.len() - k,
    {
        out.push(v[k]);
        k = k + 1;
        assert(out@ =~= pre + v@.take(k as int));
    }
    assert(v@.take(v@.len() as int) =~= v@);
}

impl ParseError {
    /// A report of the error with the source line it points at, marked
    /// under the offending span.
    pub fn display_with_source(&self, source: &str) -> (r: String)
        requires
            error_span(self@) matches Some(s) ==> span_markable(source@, s),
        ensures
            r@ == display_text(self@, source@),
    {
        let mut out: Vec<char> = Vec::new();
        match self {
            ParseError::UnexpectedToken { expected, found, span } => {
                push_str(&mut out, "Parse Error: Expected ");
                push_string(&mut out, expected);
                push_str(&mut out, ", found ");
                push_string(&mut out, found);
                push_str(&mut out, "\n");
                let loc = format_error_location(source, span, "unexpected token here");
                push_chars(&mut out, &loc);
            },
            ParseError::UnexpectedEndOfInput => {
                push_str(&mut out, "Parse Error: Unexpected end of input");
            },
            ParseError::DuplicateLabel { label, span } => {
                push_str(&mut out, "Parse Error: Duplicate label '");
                push_string(&mut out, label);
                push_str(&mut out, "'\n");
                let loc = format_error_location(source, span, "label already defined");
                push_chars(&mut out, &loc);
            },
            ParseError::UndefinedLabel { label, span } => {
                push_str(&mut out, "Parse Error: Undefined label '");
                push_string(&mut out, label);
                push_str(&mut out, "'\n");
                let loc = format_error_location(source, span, "label not found");
                push_chars(&mut out, &loc);
            },
            ParseError::OperandCountMismatch { expected, found, span } => {
                push_str(&mut out, "Parse Error: Operand count mismatch, expected ");
                push_decimal(&mut out, *expected as u128);
                push_str(&mut out, ", found ");
                push_decimal(&mut out, *found as u128);
                push_str(&mut out, "\n");
                let loc = format_error_location(source, span, "wrong number of operands");
                push_chars(&mut out, &loc);
            },
            ParseError::OperandTypeMismatch { span } => {
                push_str(&mut out, "Parse Error: Operand type mismatch\n");
                let loc = format_error_location(source, span, "incorrect operand type");
                push_chars(&mut out, &loc);
            },
            ParseError::InvalidRegister { span } => {
                push_str(&mut out, "Parse Error: Invalid register\n");
                let loc = format_error_location(source, span, "register out of range");
                push_chars(&mut out, &loc);
            },
            ParseError::InvalidInstruction => {
                push_str(&mut out, "Something went wrong when resolving an Insruction. This should not happen!");
            },
        }
        proof {
            assert(out@ =~= display_text(self@, source@));
        }
        string_from_chars(&out)
    }

    /// The one-line description of the error, with its line number.
    pub fn message(&self) -> (r: String)
        ensures
            r@ == message_text(self@),
    {
        let mut out: Vec<char> = Vec::new();
        match self {
            ParseError::UnexpectedToken { expected, found, span } => {
                push_str(&mut out, "Parse Error at line ");
                push_decimal(&mut out, span.line as u128 + 1);
                push_str(&mut out, ": Expected ");
                push_string(&mut out, expected);
                push_str(&mut out, ", found ");
                push_string(&mut out, found);
            },
            ParseError::UnexpectedEndOfInput => {
                push_str(&mut out, "Parse Error: Unexpected end of input");
            },
            ParseError::DuplicateLabel { label, span } => {
                push_str(&mut out, "Parse Error at line ");
                push_decimal(&mut out, span.line as u128 + 1);
                push_str(&mut out, ": Duplicate label '");
                push_string(&mut out, label);
                push_str(&mut out, "'");
            },
            ParseError::UndefinedLabel { label, span } => {
                push_str(&mut out, "Parse Error at line ");
                push_decimal(&mut out, span.line as u128 + 1);
                push_str(&mut out, ": Undefined label '");
                push_string(&mut out, label);
                push_str(&mut out, "'");
            },
            ParseError::OperandCountMismatch { expected, found, span } => {
                push_str(&mut out, "Parse Error at line ");
                push_decimal(&mut out, span.line as u128 + 1);
                push_str(&mut out, ": Operand count mismatch, expected ");
                push_decimal(&mut out, *expected as u128);
                push_str(&mut out, ", found ");
                push_decimal(&mut out, *found as u128);
            },
            ParseError::OperandTypeMismatch { span } => {
                push_str(&mut out, "Parse Error at line ");
                push_decimal(&mut out, span.line as u128 + 1);
                push_str(&mut out, ": Operand type mismatch");
            },
            ParseError::InvalidRegister { span } => {
                push_str(&mut out, "Parse Error at line ");
                push_decimal(&mut out, span.line as u128 + 1);
                push_str(&mut out, ": Invalid register");
            },
            ParseError::InvalidInstruction => {
                push_str(&mut out, "Error happened at instruction resolving. This should never happen, contact the author!");
            },
        }
        proof {
            assert(out@ =~= message_text(self@));
        }
        string_from_chars(&out)
    }
}

} // verus!
