//! Assembly source to resolved instructions, with errors reported against
//! the source.

use vstd::prelude::*;
use crate::errors::{display_text, ParseErrorModel};
use crate::lexer::{lemma_lex_spans_in_order, lex_source, tokens_view, Lexer};
use crate::parser::{error_span_ok, instrs_view, lemma_parse_error_spans, parse_tokens, Parser};
use crate::text::str_bytes_fit;
use crate::types::{InstrModel, ResolvedInstruction};

verus! {

/// Lexes and parses a source text. A parse error comes back as its report,
/// with the source line marked under the offending span.
pub fn parse_source(source: &str) -> (r: Result<Vec<ResolvedInstruction>, String>)
    requires
        lex_source(source@) is Some,
    ensures
        match r {
            Ok(v) => parse_tokens(lex_source(source@)->Some_0, 0) == Ok::<Seq<InstrModel>, ParseErrorModel>(instrs_view(v@)),
            Err(s) => parse_tokens(lex_source(source@)->Some_0, 0) matches Err(e) && s@ == display_text(
                e,
                source@,
            ),
        },
{
    str_bytes_fit(source);
    let lexer = Lexer::new(source);
    let tokens = lexer.lex();
    proof {
        lemma_lex_spans_in_order(source@, 0, 0);
        lemma_parse_error_spans(tokens_view(tokens@), 0);
    }
    let mut parser = Parser::new(tokens);
    match parser.parse_instructions() {
        Ok(v) => Ok(v),
        Err(e) => {
            assert(error_span_ok(e@));
            Err(e.display_with_source(source))
        },
    }
}

/// Lexes and parses a source text: `None` when the text cannot be lexed,
/// otherwise what `parse_source` gives.
pub fn try_parse_source(source: &str) -> (r: Option<Result<Vec<ResolvedInstruction>, String>>)
    ensures
        r is None <==> lex_source(source@) is None,
        r matches Some(res) ==> match res {
            Ok(v) => parse_tokens(lex_source(source@)->Some_0, 0) == Ok::<Seq<InstrModel>, ParseErrorModel>(
                instrs_view(v@),
            ),
            Err(s) => parse_tokens(lex_source(source@)->Some_0, 0) matches Err(e) && s@ == display_text(
                e,
                source@,
            ),
        },
{
    str_bytes_fit(source);
    match Lexer::new(source).try_lex() {
        None => None,
        Some(tokens) => {
            proof {
                lemma_lex_spans_in_order(source@, 0, 0);
                lemma_parse_error_spans(tokens_view(tokens@), 0);
            }
            let mut parser = Parser::new(tokens);
            match parser.parse_instructions() {
                Ok(v) => Some(Ok(v)),
                Err(e) => {
                    assert(error_span_ok(e@));
                    Some(Err(e.display_with_source(source)))
                },
            }
        },
    }
}

} // verus!
