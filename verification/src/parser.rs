//! The assembler's parser: tokens to resolved instructions, in three passes
//! (collect instructions and labels, resolve labels, validate operands).

use vstd::prelude::*;
use crate::consts::REGISTER_LIMIT;
use crate::errors::{error_span, ParseError, ParseErrorModel};
use crate::format_spec::format_fields;
use crate::isa::{
    first_mismatch, kind_fits, operands_view, resolved_operand, to_resolved_spec, total_span, validate_spec, OperandModel,
    Spanned, UInstrModel,
    UnresolvedInstruction, UnresolvedOperand,
};
use crate::lexer::{
    token_kind_text, spans_in_order, token_kind_debug, tokens_view, Span, Token, TokenKind, TokenModel,
};
use crate::traits::ToResolvedInstr;
use crate::types::{opcode_format, InstrModel, Opcode, Operand, ResolvedInstruction};

verus! {

/// A label table: names with the index of the instruction they mark.
pub type LabelTable = Seq<(Seq<char>, nat)>;

/// The index a label names, searching from the most recent definition.
pub open spec fn label_value(labels: LabelTable, name: Seq<char>) -> Option<nat>
    decreases labels.len(),
{
    if labels.len() == 0 {
        None
    } else if labels.last().0 == name {
        Some(labels.last().1)
    } else {
        label_value(labels.drop_last(), name)
    }
}

/// Adds an operand in front of an operand list that may be an error.
pub open spec fn with_operand(
    o: (OperandModel, Span),
    rest: Result<(Seq<(OperandModel, Span)>, nat), ParseErrorModel>,
) -> Result<(Seq<(OperandModel, Span)>, nat), ParseErrorModel> {
    match rest {
        Ok((ops, k)) => Ok((seq![o] + ops, k)),
        Err(e) => Err(e),
    }
}

/// The operands that follow an opcode, from token `j` up to the next opcode
/// or label definition (commas, comments and terminators are skipped), and
/// the token position where they end. A register at or above the limit is
/// an error.
pub open spec fn operands_from(ts: Seq<(TokenModel, Span)>, j: nat) -> Result<(Seq<(OperandModel, Span)>, nat), ParseErrorModel>
    decreases ts.len() - j,
{
    if j >= ts.len() {
        Ok((Seq::empty(), j))
    } else {
        let span = ts[j as int].1;
        match ts[j as int].0 {
            TokenModel::Register(r) => if r >= REGISTER_LIMIT {
                Err(ParseErrorModel::InvalidRegister { span })
            } else {
                with_operand((OperandModel::Register(r as u8), span), operands_from(ts, j + 1))
            },
            TokenModel::Immediate(v) => with_operand((OperandModel::Immediate(v as isize), span), operands_from(ts, j + 1)),
            TokenModel::LabelRef(l) => with_operand((OperandModel::LabelRef(l), span), operands_from(ts, j + 1)),
            TokenModel::Opcode(_) => Ok((Seq::empty(), j)),
            TokenModel::LabelDef(_) => Ok((Seq::empty(), j)),
            _ => operands_from(ts, j + 1),
        }
    }
}

pub proof fn lemma_operands_from_bounds(ts: Seq<(TokenModel, Span)>, j: nat)
    ensures
        operands_from(ts, j) matches Ok((_, k)) ==> j <= k && (j <= ts.len() ==> k <= ts.len()),
    decreases ts.len() - j,
{
    if j < ts.len() {
        lemma_operands_from_bounds(ts, j + 1);
    }
}

/// The first pass from token `i`: instructions with their operands, and
/// label definitions with the index of the next instruction. A label
/// defined twice, an out-of-range register or a token that starts nothing
/// is an error.
pub open spec fn collect(
    ts: Seq<(TokenModel, Span)>,
    i: nat,
    instrs: Seq<UInstrModel>,
    labels: LabelTable,
) -> Result<(Seq<UInstrModel>, LabelTable), ParseErrorModel>
    decreases ts.len() - i,
{
    if i >= ts.len() {
        Ok((instrs, labels))
    } else {
        let span = ts[i as int].1;
        match ts[i as int].0 {
            TokenModel::LabelDef(name) => if label_value(labels, name) is Some {
                Err(ParseErrorModel::DuplicateLabel { label: name, span })
            } else {
                collect(ts, i + 1, instrs, labels.push((name, instrs.len())))
            },
            TokenModel::Opcode(op) => {
                match operands_from(ts, i + 1) {
                    Err(e) => Err(e),
                    Ok((ops, j)) => {
                        proof {
                            lemma_operands_from_bounds(ts, i + 1);
                        }
                        collect(
                        ts,
                        j,
                        instrs.push(UInstrModel { opcode: op, opcode_span: span, operands: ops }),
                        labels,
                    )
                    },
                }
            },
            TokenModel::Comment(_) => collect(ts, i + 1, instrs, labels),
            TokenModel::Terminator => collect(ts, i + 1, instrs, labels),
            _ => Err(
                ParseErrorModel::UnexpectedToken {
                    expected: "label definition or opcode"@,
                    found: token_kind_text(ts[i as int].0),
                    span,
                },
            ),
        }
    }
}

/// An operand with its label replaced by the instruction index it names.
pub open spec fn resolve_one(o: (OperandModel, Span), labels: LabelTable) -> Result<(OperandModel, Span), ParseErrorModel> {
    match o.0 {
        OperandModel::LabelRef(l) => match label_value(labels, l) {
            Some(idx) => Ok((OperandModel::Immediate(idx as isize), o.1)),
            None => Err(ParseErrorModel::UndefinedLabel { label: l, span: o.1 }),
        },
        _ => Ok(o),
    }
}

/// Resolves operands `k..` after the already resolved `acc`; the first
/// undefined label is the error.
pub open spec fn resolve_ops(
    ops: Seq<(OperandModel, Span)>,
    labels: LabelTable,
    k: nat,
    acc: Seq<(OperandModel, Span)>,
) -> Result<Seq<(OperandModel, Span)>, ParseErrorModel>
    decreases ops.len() - k,
{
    if k >= ops.len() {
        Ok(acc)
    } else {
        match resolve_one(ops[k as int], labels) {
            Err(e) => Err(e),
            Ok(o) => resolve_ops(ops, labels, k + 1, acc.push(o)),
        }
    }
}

/// Resolves the labels of instructions `i..` after the already resolved
/// `acc`, in order.
pub open spec fn resolve_all(
    instrs: Seq<UInstrModel>,
    labels: LabelTable,
    i: nat,
    acc: Seq<UInstrModel>,
) -> Result<Seq<UInstrModel>, ParseErrorModel>
    decreases instrs.len() - i,
{
    if i >= instrs.len() {
        Ok(acc)
    } else {
        let u = instrs[i as int];
        match resolve_ops(u.operands, labels, 0, Seq::empty()) {
            Err(e) => Err(e),
            Ok(ops) => resolve_all(
                instrs,
                labels,
                i + 1,
                acc.push(UInstrModel { opcode: u.opcode, opcode_span: u.opcode_span, operands: ops }),
            ),
        }
    }
}

/// Validates instructions `i..` after the already validated `acc`.
pub open spec fn validate_all(us: Seq<UInstrModel>, i: nat, acc: Seq<InstrModel>) -> Result<Seq<InstrModel>, ParseErrorModel>
    decreases us.len() - i,
{
    if i >= us.len() {
        Ok(acc)
    } else {
        let u = us[i as int];
        match validate_spec(opcode_format(u.opcode), u.operands, total_span(u)) {
            Err(e) => Err(e),
            Ok(()) => match to_resolved_spec(u) {
                None => Err(ParseErrorModel::InvalidInstruction),
                Some(m) => validate_all(us, i + 1, acc.push(m)),
            },
        }
    }
}

/// What parsing the tokens from position `start` gives: the resolved
/// instructions, or the first error of the first pass, then
/// `UnexpectedEndOfInput` when there is no instruction, then the first
/// undefined label, then the first instruction whose operands do not fit.
pub open spec fn parse_tokens(ts: Seq<(TokenModel, Span)>, start: nat) -> Result<Seq<InstrModel>, ParseErrorModel> {
    match collect(ts, start, Seq::empty(), Seq::empty()) {
        Err(e) => Err(e),
        Ok((instrs, labels)) => if instrs.len() == 0 {
            Err(ParseErrorModel::UnexpectedEndOfInput)
        } else {
            match resolve_all(instrs, labels, 0, Seq::empty()) {
                Err(e) => Err(e),
                Ok(us) => validate_all(us, 0, Seq::empty()),
            }
        },
    }
}

/// Whether an error points at a span that starts no later than it ends
/// (or at none), so that its source line can be marked.
pub open spec fn error_span_ok(e: ParseErrorModel) -> bool {
    error_span(e) matches Some(s) ==> s.start <= s.end
}

/// Whether a span starts no later than it ends, and ends at or after `b`.
pub open spec fn span_after(s: Span, b: int) -> bool {
    s.start <= s.end && b <= s.end
}

/// Whether a parsed instruction's spans are well formed: each starts no
/// later than it ends, and every operand ends at or after the opcode starts.
pub open spec fn spans_ok(u: UInstrModel) -> bool {
    &&& u.opcode_span.start <= u.opcode_span.end
    &&& forall|k: int| 0 <= k < u.operands.len() ==> span_after((#[trigger] u.operands[k]).1, u.opcode_span.start as int)
}

proof fn lemma_operands_spans(ts: Seq<(TokenModel, Span)>, j: nat, b: int)
    requires
        spans_in_order(ts),
        forall|m: int| j <= m < ts.len() ==> b <= (#[trigger] ts[m]).1.end,
    ensures
        match operands_from(ts, j) {
            Ok((ops, _)) => forall|k: int| 0 <= k < ops.len() ==> span_after((#[trigger] ops[k]).1, b),
            Err(e) => error_span_ok(e),
        },
    decreases ts.len() - j,
{
    if j < ts.len() {
        lemma_operands_spans(ts, j + 1, b);
        let span = ts[j as int].1;
        assert(b <= ts[j as int].1.end);
        if let Ok((rest, k)) = operands_from(ts, j + 1) {
            match ts[j as int].0 {
                TokenModel::Register(r) => {
                    if r < REGISTER_LIMIT {
                        let ops = seq![(OperandModel::Register(r as u8), span)] + rest;
                        assert forall|t: int| 0 <= t < ops.len() implies span_after((#[trigger] ops[t]).1, b) by {
                            if t > 0 {
                                assert(ops[t] == rest[t - 1]);
                            }
                        }
                    }
                },
                TokenModel::Immediate(v) => {
                    let ops = seq![(OperandModel::Immediate(v as isize), span)] + rest;
                    assert forall|t: int| 0 <= t < ops.len() implies span_after((#[trigger] ops[t]).1, b) by {
                        if t > 0 {
                            assert(ops[t] == rest[t - 1]);
                        }
                    }
                },
                TokenModel::LabelRef(l) => {
                    let ops = seq![(OperandModel::LabelRef(l), span)] + rest;
                    assert forall|t: int| 0 <= t < ops.len() implies span_after((#[trigger] ops[t]).1, b) by {
                        if t > 0 {
                            assert(ops[t] == rest[t - 1]);
                        }
                    }
                },
                _ => {},
            }
        }
    }
}

proof fn lemma_collect_spans(ts: Seq<(TokenModel, Span)>, i: nat, instrs: Seq<UInstrModel>, labels: LabelTable)
    requires
        spans_in_order(ts),
        forall|k: int| 0 <= k < instrs.len() ==> spans_ok(#[trigger] instrs[k]),
    ensures
        match collect(ts, i, instrs, labels) {
            Ok((us, _)) => forall|k: int| 0 <= k < us.len() ==> spans_ok(#[trigger] us[k]),
            Err(e) => error_span_ok(e),
        },
    decreases ts.len() - i,
{
    if i < ts.len() {
        let span = ts[i as int].1;
        assert(span.start <= span.end);
        match ts[i as int].0 {
            TokenModel::LabelDef(name) => {
                if label_value(labels, name) is None {
                    lemma_collect_spans(ts, i + 1, instrs, labels.push((name, instrs.len())));
                }
            },
            TokenModel::Opcode(op) => {
                assert forall|m: int| i + 1 <= m < ts.len() implies span.start <= (#[trigger] ts[m]).1.end by {
                    assert(ts[i as int].1.end <= ts[m].1.start);
                }
                lemma_operands_spans(ts, i + 1, span.start as int);
                lemma_operands_from_bounds(ts, i + 1);
                if let Ok((ops, j)) = operands_from(ts, i + 1) {
                    let u = UInstrModel { opcode: op, opcode_span: span, operands: ops };
                    let next = instrs.push(u);
                    assert(spans_ok(u));
                    assert forall|k: int| 0 <= k < next.len() implies spans_ok(#[trigger] next[k]) by {
                        if k < instrs.len() {
                            assert(next[k] == instrs[k]);
                        }
                    }
                    lemma_collect_spans(ts, j, next, labels);
                }
            },
            TokenModel::Comment(_) => lemma_collect_spans(ts, i + 1, instrs, labels),
            TokenModel::Terminator => lemma_collect_spans(ts, i + 1, instrs, labels),
            _ => {},
        }
    }
}

proof fn lemma_resolve_ops_spans(
    ops: Seq<(OperandModel, Span)>,
    labels: LabelTable,
    k: nat,
    acc: Seq<(OperandModel, Span)>,
    b: int,
)
    requires
        forall|t: int| 0 <= t < ops.len() ==> span_after((#[trigger] ops[t]).1, b),
        forall|t: int| 0 <= t < acc.len() ==> span_after((#[trigger] acc[t]).1, b),
    ensures
        match resolve_ops(ops, labels, k, acc) {
            Ok(r) => forall|t: int| 0 <= t < r.len() ==> span_after((#[trigger] r[t]).1, b),
            Err(e) => error_span_ok(e),
        },
    decreases ops.len() - k,
{
    if k < ops.len() {
        assert(span_after(ops[k as int].1, b));
        if let Ok(o) = resolve_one(ops[k as int], labels) {
            let next = acc.push(o);
            assert forall|t: int| 0 <= t < next.len() implies span_after((#[trigger] next[t]).1, b) by {
                if t < acc.len() {
                    assert(next[t] == acc[t]);
                }
            }
            lemma_resolve_ops_spans(ops, labels, k + 1, next, b);
        }
    }
}

proof fn lemma_resolve_all_spans(instrs: Seq<UInstrModel>, labels: LabelTable, i: nat, acc: Seq<UInstrModel>)
    requires
        forall|k: int| 0 <= k < instrs.len() ==> spans_ok(#[trigger] instrs[k]),
        forall|k: int| 0 <= k < acc.len() ==> spans_ok(#[trigger] acc[k]),
    ensures
        match resolve_all(instrs, labels, i, acc) {
            Ok(us) => forall|k: int| 0 <= k < us.len() ==> spans_ok(#[trigger] us[k]),
            Err(e) => error_span_ok(e),
        },
    decreases instrs.len() - i,
{
    if i < instrs.len() {
        let u = instrs[i as int];
        assert(spans_ok(u));
        lemma_resolve_ops_spans(u.operands, labels, 0, Seq::empty(), u.opcode_span.start as int);
        if let Ok(ops) = resolve_ops(u.operands, labels, 0, Seq::empty()) {
            let v = UInstrModel { opcode: u.opcode, opcode_span: u.opcode_span, operands: ops };
            let next = acc.push(v);
            assert(spans_ok(v));
            assert forall|k: int| 0 <= k < next.len() implies spans_ok(#[trigger] next[k]) by {
                if k < acc.len() {
                    assert(next[k] == acc[k]);
                }
            }
            lemma_resolve_all_spans(instrs, labels, i + 1, next);
        }
    }
}

proof fn lemma_first_mismatch_in(fields: Seq<crate::format_spec::FieldSpec>, ops: Seq<(OperandModel, Span)>, i: nat)
    ensures
        first_mismatch(fields, ops, i) matches Some(s) ==> exists|t: int| 0 <= t < ops.len() && (#[trigger] ops[t]).1 == s,
    decreases ops.len() - i,
{
    if i < ops.len() {
        if kind_fits(fields[i + 1 as int], ops[i as int].0) {
            lemma_first_mismatch_in(fields, ops, i + 1);
        }
    }
}

proof fn lemma_validate_all_spans(us: Seq<UInstrModel>, i: nat, acc: Seq<InstrModel>)
    requires
        forall|k: int| 0 <= k < us.len() ==> spans_ok(#[trigger] us[k]),
    ensures
        validate_all(us, i, acc) matches Err(e) ==> error_span_ok(e),
    decreases us.len() - i,
{
    if i < us.len() {
        let u = us[i as int];
        assert(spans_ok(u));
        if u.operands.len() > 0 {
            assert(span_after(u.operands[u.operands.len() - 1].1, u.opcode_span.start as int));
        }
        lemma_first_mismatch_in(format_fields(opcode_format(u.opcode)), u.operands, 0);
        if let Ok(()) = validate_spec(opcode_format(u.opcode), u.operands, total_span(u)) {
            if let Some(m) = to_resolved_spec(u) {
                lemma_validate_all_spans(us, i + 1, acc.push(m));
            }
        }
    }
}

/// Every error the parser reports for tokens in source order points at a
/// span that starts no later than it ends, so its report can mark it.
pub proof fn lemma_parse_error_spans(ts: Seq<(TokenModel, Span)>, start: nat)
    requires
        spans_in_order(ts),
    ensures
        parse_tokens(ts, start) matches Err(e) ==> error_span_ok(e),
{
    lemma_collect_spans(ts, start, Seq::empty(), Seq::empty());
    if let Ok((instrs, labels)) = collect(ts, start, Seq::empty(), Seq::empty()) {
        if instrs.len() > 0 {
            lemma_resolve_all_spans(instrs, labels, 0, Seq::empty());
            if let Ok(us) = resolve_all(instrs, labels, 0, Seq::empty()) {
                lemma_validate_all_spans(us, 0, Seq::empty());
            }
        }
    }
}

/// The number of opcode tokens among the first `i` tokens.
pub open spec fn opcodes_before(ts: Seq<(TokenModel, Span)>, i: nat) -> nat
    decreases i,
{
    if i == 0 || i > ts.len() {
        0
    } else {
        opcodes_before(ts, (i - 1) as nat) + if ts[i - 1].0 is Opcode { 1nat } else { 0nat }
    }
}

proof fn lemma_operands_no_opcode(ts: Seq<(TokenModel, Span)>, j: nat)
    requires
        j <= ts.len(),
    ensures
        operands_from(ts, j) matches Ok((_, k)) ==> j <= k <= ts.len() && opcodes_before(ts, k) == opcodes_before(
            ts,
            j,
        ),
    decreases ts.len() - j,
{
    if j < ts.len() {
        lemma_operands_no_opcode(ts, j + 1);
        match ts[j as int].0 {
            TokenModel::Opcode(_) => {},
            TokenModel::LabelDef(_) => {},
            _ => {
                assert(opcodes_before(ts, j + 1) == opcodes_before(ts, j));
            },
        }
    }
}

/// Whether a label entry names the number of opcode tokens before a
/// definition of that label among the first `i` tokens.
pub open spec fn label_counted(ts: Seq<(TokenModel, Span)>, i: nat, entry: (Seq<char>, nat)) -> bool {
    exists|m: int|
        0 <= m < i && #[trigger] ts[m].0 == TokenModel::LabelDef(entry.0) && entry.1 == opcodes_before(ts, m as nat)
}

/// Whether an opcode token with `k` opcode tokens before it, and opcode
/// `op`, stands among the first `i` tokens.
pub open spec fn opcode_counted(ts: Seq<(TokenModel, Span)>, i: nat, op: Opcode, k: int) -> bool {
    exists|m: int| 0 <= m < i && #[trigger] ts[m].0 == TokenModel::Opcode(op) && opcodes_before(ts, m as nat) == k
}

/// Whether every label entry is counted among the first `i` tokens.
pub open spec fn labels_counted(ts: Seq<(TokenModel, Span)>, i: nat, labels: LabelTable) -> bool {
    forall|e: int| 0 <= e < labels.len() ==> label_counted(ts, i, #[trigger] labels[e])
}

/// Whether instruction `k` of `instrs` comes from an opcode token with `k`
/// opcode tokens before it, among the first `i` tokens.
pub open spec fn instrs_counted(ts: Seq<(TokenModel, Span)>, i: nat, instrs: Seq<UInstrModel>) -> bool {
    forall|k: int| 0 <= k < instrs.len() ==> opcode_counted(ts, i, (#[trigger] instrs[k]).opcode, k)
}

proof fn lemma_collect_counts(ts: Seq<(TokenModel, Span)>, i: nat, instrs: Seq<UInstrModel>, labels: LabelTable)
    requires
        i <= ts.len(),
        instrs.len() == opcodes_before(ts, i),
        labels_counted(ts, i, labels),
        instrs_counted(ts, i, instrs),
    ensures
        collect(ts, i, instrs, labels) matches Ok((us, ls)) ==> us.len() == opcodes_before(ts, ts.len())
            && labels_counted(ts, ts.len(), ls) && instrs_counted(ts, ts.len(), us),
    decreases ts.len() - i,
{
    if i < ts.len() {
        match ts[i as int].0 {
            TokenModel::LabelDef(name) => {
                if label_value(labels, name) is None {
                    let ls = labels.push((name, instrs.len()));
                    assert(opcodes_before(ts, i + 1) == opcodes_before(ts, i));
                    assert forall|e: int| 0 <= e < ls.len() implies label_counted(ts, i + 1, #[trigger] ls[e]) by {
                        if e < labels.len() {
                            assert(ls[e] == labels[e]);
                            assert(label_counted(ts, i, labels[e]));
                        } else {
                            assert(ts[i as int].0 == TokenModel::LabelDef(ls[e].0));
                        }
                    }
                    lemma_collect_counts(ts, i + 1, instrs, ls);
                }
            },
            TokenModel::Opcode(op) => {
                lemma_operands_no_opcode(ts, i + 1);
                if let Ok((ops, j)) = operands_from(ts, i + 1) {
                    let u = UInstrModel { opcode: op, opcode_span: ts[i as int].1, operands: ops };
                    let next = instrs.push(u);
                    assert(opcodes_before(ts, i + 1) == opcodes_before(ts, i) + 1);
                    assert forall|k: int| 0 <= k < next.len() implies opcode_counted(
                        ts,
                        j,
                        (#[trigger] next[k]).opcode,
                        k,
                    ) by {
                        if k < instrs.len() {
                            assert(next[k] == instrs[k]);
                            assert(opcode_counted(ts, i, instrs[k].opcode, k));
                        } else {
                            assert(ts[i as int].0 == TokenModel::Opcode(next[k].opcode));
                        }
                    }
                    assert forall|e: int| 0 <= e < labels.len() implies label_counted(ts, j, #[trigger] labels[e]) by {
                        assert(label_counted(ts, i, labels[e]));
                    }
                    lemma_collect_counts(ts, j, next, labels);
                }
            },
            TokenModel::Comment(_) => {
                assert(opcodes_before(ts, i + 1) == opcodes_before(ts, i));
                lemma_collect_counts(ts, i + 1, instrs, labels);
            },
            TokenModel::Terminator => {
                assert(opcodes_before(ts, i + 1) == opcodes_before(ts, i));
                lemma_collect_counts(ts, i + 1, instrs, labels);
            },
            _ => {},
        }
    }
}

proof fn lemma_label_value_in(labels: LabelTable, name: Seq<char>)
    ensures
        label_value(labels, name) matches Some(n) ==> exists|e: int|
            0 <= e < labels.len() && #[trigger] labels[e] == (name, n),
    decreases labels.len(),
{
    if labels.len() > 0 && labels.last().0 != name {
        lemma_label_value_in(labels.drop_last(), name);
        if let Some(n) = label_value(labels, name) {
            let e = choose|e: int| 0 <= e < labels.drop_last().len() && #[trigger] labels.drop_last()[e] == (name, n);
            assert(labels[e] == (name, n));
        }
    } else if labels.len() > 0 {
        assert(labels[labels.len() - 1] == labels.last());
    }
}

proof fn lemma_resolve_ops_each(
    ops: Seq<(OperandModel, Span)>,
    labels: LabelTable,
    k: nat,
    acc: Seq<(OperandModel, Span)>,
)
    requires
        k <= ops.len(),
        acc.len() == k,
        forall|j: int| 0 <= j < k ==> resolve_one(ops[j], labels) == Ok::<_, ParseErrorModel>(#[trigger] acc[j]),
    ensures
        resolve_ops(ops, labels, k, acc) matches Ok(r) ==> r.len() == ops.len() && forall|j: int|
            0 <= j < r.len() ==> resolve_one(ops[j], labels) == Ok::<_, ParseErrorModel>(#[trigger] r[j]),
    decreases ops.len() - k,
{
    if k < ops.len() {
        if let Ok(o) = resolve_one(ops[k as int], labels) {
            let next = acc.push(o);
            assert forall|j: int| 0 <= j < k + 1 implies resolve_one(ops[j], labels) == Ok::<_, ParseErrorModel>(
                #[trigger] next[j],
            ) by {
                if j < k {
                    assert(next[j] == acc[j]);
                }
            }
            lemma_resolve_ops_each(ops, labels, k + 1, next);
        }
    }
}

proof fn lemma_resolve_all_opcodes(instrs: Seq<UInstrModel>, labels: LabelTable, i: nat, acc: Seq<UInstrModel>)
    requires
        i <= instrs.len(),
        acc.len() == i,
        forall|k: int| 0 <= k < i ==> (#[trigger] acc[k]).opcode == instrs[k].opcode,
        forall|k: int|
            0 <= k < i ==> resolve_ops(instrs[k].operands, labels, 0, Seq::empty()) == Ok::<_, ParseErrorModel>(
                (#[trigger] acc[k]).operands,
            ),
    ensures
        resolve_all(instrs, labels, i, acc) matches Ok(us) ==> us.len() == instrs.len() && (forall|k: int|
            0 <= k < us.len() ==> (#[trigger] us[k]).opcode == instrs[k].opcode) && forall|k: int|
            0 <= k < us.len() ==> resolve_ops(instrs[k].operands, labels, 0, Seq::empty()) == Ok::<
                _,
                ParseErrorModel,
            >((#[trigger] us[k]).operands),
    decreases instrs.len() - i,
{
    if i < instrs.len() {
        let u = instrs[i as int];
        if let Ok(ops) = resolve_ops(u.operands, labels, 0, Seq::empty()) {
            let next = acc.push(UInstrModel { opcode: u.opcode, opcode_span: u.opcode_span, operands: ops });
            assert forall|k: int| 0 <= k < i + 1 implies (#[trigger] next[k]).opcode == instrs[k].opcode by {
                if k < i {
                    assert(next[k] == acc[k]);
                }
            }
            assert forall|k: int| 0 <= k < i + 1 implies resolve_ops(
                instrs[k].operands,
                labels,
                0,
                Seq::empty(),
            ) == Ok::<_, ParseErrorModel>((#[trigger] next[k]).operands) by {
                if k < i {
                    assert(next[k] == acc[k]);
                }
            }
            lemma_resolve_all_opcodes(instrs, labels, i + 1, next);
        }
    }
}

proof fn lemma_validate_all_opcodes(us: Seq<UInstrModel>, i: nat, acc: Seq<InstrModel>)
    requires
        i <= us.len(),
        acc.len() == i,
        forall|k: int| 0 <= k < i ==> to_resolved_spec(us[k]) == Some(#[trigger] acc[k]),
    ensures
        validate_all(us, i, acc) matches Ok(v) ==> v.len() == us.len() && forall|k: int|
            0 <= k < v.len() ==> to_resolved_spec(us[k]) == Some(#[trigger] v[k]),
    decreases us.len() - i,
{
    if i < us.len() {
        let u = us[i as int];
        if let Ok(()) = validate_spec(opcode_format(u.opcode), u.operands, total_span(u)) {
            if let Some(m) = to_resolved_spec(u) {
                let next = acc.push(m);
                assert forall|k: int| 0 <= k < i + 1 implies to_resolved_spec(us[k]) == Some(#[trigger] next[k]) by {
                    if k < i {
                        assert(next[k] == acc[k]);
                    }
                }
                lemma_validate_all_opcodes(us, i + 1, next);
            }
        }
    }
}

/// What a successful parse holds: one instruction for each opcode token, in
/// token order (instruction `k` has the opcode of a token with `k` opcode
/// tokens before it); and every label of the first pass, through which label
/// references are resolved, names the number of opcode tokens before its
/// definition, so labels on consecutive lines name the same instruction.
pub proof fn lemma_parse_counts(ts: Seq<(TokenModel, Span)>)
    ensures
        parse_tokens(ts, 0) matches Ok(v) ==> {
            &&& v.len() == opcodes_before(ts, ts.len())
            &&& forall|k: int| 0 <= k < v.len() ==> opcode_counted(ts, ts.len(), (#[trigger] v[k]).opcode, k)
        },
        collect(ts, 0, Seq::empty(), Seq::empty()) matches Ok((_, labels)) ==> forall|name: Seq<char>|
            #[trigger] label_value(labels, name) is Some ==> label_counted(
                ts,
                ts.len(),
                (name, label_value(labels, name)->Some_0),
            ),
{
    lemma_collect_counts(ts, 0, Seq::empty(), Seq::empty());
    if let Ok((instrs, labels)) = collect(ts, 0, Seq::empty(), Seq::empty()) {
        assert forall|name: Seq<char>| #[trigger] label_value(labels, name) is Some implies label_counted(
            ts,
            ts.len(),
            (name, label_value(labels, name)->Some_0),
        ) by {
            let n = label_value(labels, name)->Some_0;
            lemma_label_value_in(labels, name);
            let e = choose|e: int| 0 <= e < labels.len() && #[trigger] labels[e] == (name, n);
            assert(label_counted(ts, ts.len(), labels[e]));
        }
        if instrs.len() > 0 {
            lemma_resolve_all_opcodes(instrs, labels, 0, Seq::empty());
            if let Ok(us) = resolve_all(instrs, labels, 0, Seq::empty()) {
                lemma_validate_all_opcodes(us, 0, Seq::empty());
                if let Ok(v) = validate_all(us, 0, Seq::empty()) {
                    assert forall|k: int| 0 <= k < v.len() implies opcode_counted(
                        ts,
                        ts.len(),
                        (#[trigger] v[k]).opcode,
                        k,
                    ) by {
                        assert(to_resolved_spec(us[k]) == Some(v[k]));
                        assert(v[k].opcode == us[k].opcode);
                        assert(us[k].opcode == instrs[k].opcode);
                        assert(opcode_counted(ts, ts.len(), instrs[k].opcode, k));
                    }
                }
            }
        }
    }
}

/// Label references of a successful parse become the number of instructions
/// before their label's definition: where operand `j` of the `k`-th
/// instruction of the first pass is a reference to label `l`, the label is
/// defined, its entry names the number `n` of opcode tokens before a
/// definition of `l`, and operand `j` of the `k`-th parsed instruction is
/// the immediate `n`.
pub proof fn lemma_parse_label_refs(ts: Seq<(TokenModel, Span)>)
    ensures
        parse_tokens(ts, 0) is Ok ==> (collect(ts, 0, Seq::empty(), Seq::empty()) matches Ok((instrs, labels)) && {
            let v = parse_tokens(ts, 0)->Ok_0;
            forall|k: int, j: int|
                0 <= k < instrs.len() && 0 <= j < instrs[k].operands.len() && (#[trigger] instrs[k].operands[j]).0 is LabelRef
                    ==> {
                    let l = instrs[k].operands[j].0->LabelRef_0;
                    &&& label_value(labels, l) is Some
                    &&& label_counted(ts, ts.len(), (l, label_value(labels, l)->Some_0))
                    &&& k < v.len() && j < v[k].operands.len()
                    &&& v[k].operands[j] == Operand::Immediate(label_value(labels, l)->Some_0 as isize)
                }
        }),
{
    lemma_parse_counts(ts);
    if let Ok((instrs, labels)) = collect(ts, 0, Seq::empty(), Seq::empty()) {
        if instrs.len() > 0 {
            lemma_resolve_all_opcodes(instrs, labels, 0, Seq::empty());
            if let Ok(us) = resolve_all(instrs, labels, 0, Seq::empty()) {
                lemma_validate_all_opcodes(us, 0, Seq::empty());
                if let Ok(v) = validate_all(us, 0, Seq::empty()) {
                    assert forall|k: int, j: int|
                        0 <= k < instrs.len() && 0 <= j < instrs[k].operands.len() && (
                        #[trigger] instrs[k].operands[j]).0 is LabelRef implies {
                        let l = instrs[k].operands[j].0->LabelRef_0;
                        &&& label_value(labels, l) is Some
                        &&& label_counted(ts, ts.len(), (l, label_value(labels, l)->Some_0))
                        &&& k < v.len() && j < v[k].operands.len()
                        &&& v[k].operands[j] == Operand::Immediate(label_value(labels, l)->Some_0 as isize)
                    } by {
                        let l = instrs[k].operands[j].0->LabelRef_0;
                        lemma_resolve_ops_each(instrs[k].operands, labels, 0, Seq::empty());
                        let r = us[k].operands;
                        assert(resolve_one(instrs[k].operands[j], labels) == Ok::<_, ParseErrorModel>(r[j]));
                        assert(label_value(labels, l) is Some);
                        assert(to_resolved_spec(us[k]) == Some(v[k]));
                        assert(v[k].operands == r.map_values(|o: (OperandModel, Span)| resolved_operand(o.0)));
                        assert(v[k].operands[j] == resolved_operand(r[j].0));
                    }
                }
            }
        }
    }
}

/// The models of a list of instructions.
pub open spec fn uinstrs_view(v: Seq<UnresolvedInstruction>) -> Seq<UInstrModel> {
    v.map_values(|u: UnresolvedInstruction| u@)
}

/// The models of a list of resolved instructions.
pub open spec fn instrs_view(v: Seq<ResolvedInstruction>) -> Seq<InstrModel> {
    v.map_values(|r: ResolvedInstruction| r@)
}

/// The model of a label table.
pub open spec fn labels_view(v: Seq<(String, usize)>) -> LabelTable {
    v.map_values(|p: (String, usize)| (p.0@, p.1 as nat))
}

/// Looks a label up, searching from the most recent definition.
fn find_label(labels: &Vec<(String, usize)>, name: &String) -> (r: Option<usize>)
    ensures
        match r {
            Some(v) => label_value(labels_view(labels@), name@) == Some(v as nat),
            None => label_value(labels_view(labels@), name@) is None,
        },
{
    let ghost full = labels_view(labels@);
    let mut n = labels.len();
    assert(full.take(n as int) =~= full);
    while n > 0
        invariant
            n <= labels@.len(),
            full == labels_view(labels@),
            label_value(full, name@) == label_value(full.take(n as int), name@),
        decreases n,
    {
        assert(full.take(n as int).drop_last() =~= full.take(n - 1));
        if labels[n - 1].0 == *name {
            return Some(labels[n - 1].1);
        }
        n = n - 1;
    }
    None
}

/// Replaces every label operand by the index of the instruction it names.
fn resolve_labels(instructions: &Vec<UnresolvedInstruction>, labels: &Vec<(String, usize)>) -> (r: Result<
    Vec<UnresolvedInstruction>,
    ParseError,
>)
    ensures
        match r {
            Ok(v) => resolve_all(uinstrs_view(instructions@), labels_view(labels@), 0, Seq::empty()) == Ok::<
                Seq<UInstrModel>,
                ParseErrorModel,
            >(uinstrs_view(v@)),
            Err(e) => resolve_all(uinstrs_view(instructions@), labels_view(labels@), 0, Seq::empty()) == Err::<
                Seq<UInstrModel>,
                ParseErrorModel,
            >(e@),
        },
{
    let ghost us = uinstrs_view(instructions@);
    let ghost lt = labels_view(labels@);
    let ghost goal = resolve_all(us, lt, 0, Seq::empty());
    let mut out: Vec<UnresolvedInstruction> = Vec::new();
    let mut i: usize = 0;
    assert(uinstrs_view(out@) =~= Seq::<UInstrModel>::empty());
    while i < instructions.len()
        invariant
            us == uinstrs_view(instructions@),
            lt == labels_view(labels@),
            i <= instructions@.len(),
            goal == resolve_all(us, lt, 0, Seq::empty()),
            goal == resolve_all(us, lt, i as nat, uinstrs_view(out@)),
        decreases instructions@.len() - i,
    {
        let instr = &instructions[i];
        let ghost ops = us[i as int].operands;
        let ghost ops_goal = resolve_ops(ops, lt, 0, Seq::empty());
        let mut new_ops: Vec<Spanned<UnresolvedOperand>> = Vec::new();
        let mut k: usize = 0;
        assert(operands_view(new_ops@) =~= Seq::<(OperandModel, Span)>::empty());
        while k < instr.operands.len()
            invariant
                ops == operands_view(instr.operands@),
                lt == labels_view(labels@),
                k <= instr.operands@.len(),
                us == uinstrs_view(instructions@),
                goal == resolve_all(us, lt, 0, Seq::empty()),
                goal == resolve_all(us, lt, i as nat, uinstrs_view(out@)),
                i < instructions@.len(),
                instr == &instructions@[i as int],
                ops == us[i as int].operands,
                ops_goal == resolve_ops(ops, lt, 0, Seq::empty()),
                ops_goal == resolve_ops(ops, lt, k as nat, operands_view(new_ops@)),
            decreases instr.operands@.len() - k,
        {
            let op = &instr.operands[k];
            let ghost before = operands_view(new_ops@);
            match &op.node {
                UnresolvedOperand::Register(r) => {
                    new_ops.push(Spanned::new(UnresolvedOperand::Register(*r), op.span));
                },
                UnresolvedOperand::Immediate(v) => {
                    new_ops.push(Spanned::new(UnresolvedOperand::Immediate(*v), op.span));
                },
                UnresolvedOperand::LabelRef(label) => {
                    match find_label(labels, label) {
                        Some(row_index) => {
                            new_ops.push(Spanned::new(UnresolvedOperand::Immediate(row_index as isize), op.span));
                        },
                        None => {
                            return Err(ParseError::UndefinedLabel { label: label.clone(), span: op.span });
                        },
                    }
                },
            }
            assert(operands_view(new_ops@) =~= before.push(resolve_one(ops[k as int], lt)->Ok_0));
            k = k + 1;
        }
        let ghost before_out = uinstrs_view(out@);
        out.push(
            UnresolvedInstruction {
                opcode: Spanned::new(instr.opcode.node, instr.opcode.span),
                operands: new_ops,
            },
        );
        assert(uinstrs_view(out@) =~= before_out.push(
            UInstrModel { opcode: us[i as int].opcode, opcode_span: us[i as int].opcode_span, operands: operands_view(new_ops@) },
        ));
        i = i + 1;
    }
    Ok(out)
}

/// Checks every instruction's operands against its format and resolves it.
fn validate_instructions(instructions: &Vec<UnresolvedInstruction>) -> (r: Result<Vec<ResolvedInstruction>, ParseError>)
    ensures
        match r {
            Ok(v) => validate_all(uinstrs_view(instructions@), 0, Seq::empty()) == Ok::<
                Seq<InstrModel>,
                ParseErrorModel,
            >(instrs_view(v@)),
            Err(e) => validate_all(uinstrs_view(instructions@), 0, Seq::empty()) == Err::<
                Seq<InstrModel>,
                ParseErrorModel,
            >(e@),
        },
{
    let ghost us = uinstrs_view(instructions@);
    let ghost goal = validate_all(us, 0, Seq::empty());
    let mut res: Vec<ResolvedInstruction> = Vec::new();
    let mut i: usize = 0;
    assert(instrs_view(res@) =~= Seq::<InstrModel>::empty());
    while i < instructions.len()
        invariant
            us == uinstrs_view(instructions@),
            i <= instructions@.len(),
            goal == validate_all(us, 0, Seq::empty()),
            goal == validate_all(us, i as nat, instrs_view(res@)),
        decreases instructions@.len() - i,
    {
        let instr = &instructions[i];
        let span = instr.get_total_span();
        let format = instr.opcode.node.instruction_format();
        match format.validate(&instr.operands, &span) {
            Ok(()) => {},
            Err(e) => {
                return Err(e);
            },
        }
        match instr.to_resolved() {
            Some(res_instr) => {
                let ghost before = instrs_view(res@);
                let ghost m = res_instr@;
                res.push(res_instr);
                assert(instrs_view(res@) =~= before.push(m));
            },
            None => {
                return Err(ParseError::InvalidInstruction);
            },
        }
        i = i + 1;
    }
    Ok(res)
}

/// Parses tokens into instructions.
pub struct Parser {
    tokens: Vec<Token>,
    pos: usize,
}

impl Parser {
    /// The tokens the parser reads.
    pub closed spec fn tokens_model(&self) -> Seq<(TokenModel, Span)> {
        tokens_view(self.tokens@)
    }

    /// The position of the next token to read.
    pub closed spec fn position(&self) -> nat {
        self.pos as nat
    }

    /// A parser at the first of the given tokens.
    pub fn new(tokens: Vec<Token>) -> (r: Self)
        ensures
            r.tokens_model() == tokens_view(tokens@),
            r.position() == 0,
    {
        Parser { tokens, pos: 0 }
    }

    /// The next token, if any.
    fn peek(&self) -> (r: Option<&Token>)
        ensures
            match r {
                Some(t) => self.pos < self.tokens@.len() && *t == self.tokens@[self.pos as int],
                None => self.pos >= self.tokens@.len(),
            },
    {
        if self.pos < self.tokens.len() {
            Some(&self.tokens[self.pos])
        } else {
            None
        }
    }

    /// Reads the operands that follow an opcode.
    fn parse_operands(&mut self) -> (r: Result<Vec<Spanned<UnresolvedOperand>>, ParseError>)
        requires
            old(self).pos <= old(self).tokens@.len(),
        ensures
            final(self).tokens@ == old(self).tokens@,
            final(self).pos <= final(self).tokens@.len(),
            match r {
                Ok(ops) => operands_from(tokens_view(old(self).tokens@), old(self).pos as nat) == Ok::<
                    (Seq<(OperandModel, Span)>, nat),
                    ParseErrorModel,
                >((operands_view(ops@), final(self).pos as nat)),
                Err(e) => operands_from(tokens_view(old(self).tokens@), old(self).pos as nat) == Err::<
                    (Seq<(OperandModel, Span)>, nat),
                    ParseErrorModel,
                >(e@),
            },
    {
        let ghost ts = tokens_view(self.tokens@);
        let ghost goal = operands_from(ts, self.pos as nat);
        let mut operands: Vec<Spanned<UnresolvedOperand>> = Vec::new();
        assert(operands_view(operands@) =~= Seq::<(OperandModel, Span)>::empty());
        assert(goal == with_ops(operands_view(operands@), operands_from(ts, self.pos as nat))) by {
            match goal {
                Ok((o, k)) => {
                    assert(Seq::<(OperandModel, Span)>::empty() + o =~= o);
                },
                Err(_) => {},
            }
        }
        loop
            invariant
                self.tokens@ == old(self).tokens@,
                ts == tokens_view(self.tokens@),
                self.pos <= self.tokens@.len(),
                goal == operands_from(ts, old(self).pos as nat),
                goal == with_ops(operands_view(operands@), operands_from(ts, self.pos as nat)),
            decreases self.tokens@.len() - self.pos,
        {
            let _len = self.tokens.len();
            let token = match self.peek() {
                Some(t) => t,
                None => {
                    assert(operands_view(operands@) + Seq::<(OperandModel, Span)>::empty() =~= operands_view(operands@));
                    return Ok(operands);
                },
            };
            let span = token.span;
            let ghost before = operands_view(operands@);
            let ghost j = self.pos as nat;
            match &token.kind {
                TokenKind::Register(r) => {
                    if *r >= REGISTER_LIMIT {
                        return Err(ParseError::InvalidRegister { span });
                    }
                    let node = UnresolvedOperand::Register(*r as u8);
                    operands.push(Spanned::new(node, span));
                    self.pos = self.pos + 1;
                    proof {
                        lemma_with_ops_push(before, (OperandModel::Register(*r as u8), span), operands_from(ts, j + 1));
                        assert(operands_view(operands@) =~= before.push((OperandModel::Register(*r as u8), span)));
                    }
                },
                TokenKind::Immediate(i) => {
                    let node = UnresolvedOperand::Immediate(*i);
                    operands.push(Spanned::new(node, span));
                    self.pos = self.pos + 1;
                    proof {
                        lemma_with_ops_push(before, (OperandModel::Immediate(*i), span), operands_from(ts, j + 1));
                        assert(operands_view(operands@) =~= before.push((OperandModel::Immediate(*i), span)));
                    }
                },
                TokenKind::LabelRef(label) => {
                    let node = UnresolvedOperand::LabelRef(label.clone());
                    operands.push(Spanned::new(node, span));
                    self.pos = self.pos + 1;
                    proof {
                        lemma_with_ops_push(before, (OperandModel::LabelRef(label@), span), operands_from(ts, j + 1));
                        assert(operands_view(operands@) =~= before.push((OperandModel::LabelRef(label@), span)));
                    }
                },
                TokenKind::Opcode(_) | TokenKind::LabelDef(_) => {
                    assert(before + Seq::<(OperandModel, Span)>::empty() =~= before);
                    return Ok(operands);
                },
                _ => {
                    self.pos = self.pos + 1;
                },
            }
        }
    }

    /// Parses all remaining tokens into resolved instructions.
    pub fn parse_instructions(&mut self) -> (r: Result<Vec<ResolvedInstruction>, ParseError>)
        requires
            old(self).position() <= old(self).tokens_model().len(),
        ensures
            match r {
                Ok(v) => parse_tokens(old(self).tokens_model(), old(self).position()) == Ok::<
                    Seq<InstrModel>,
                    ParseErrorModel,
                >(instrs_view(v@)),
                Err(e) => parse_tokens(old(self).tokens_model(), old(self).position()) == Err::<
                    Seq<InstrModel>,
                    ParseErrorModel,
                >(e@),
            },
    {
        let ghost ts = tokens_view(self.tokens@);
        let ghost goal = collect(ts, self.pos as nat, Seq::empty(), Seq::empty());
        let mut instructions: Vec<UnresolvedInstruction> = Vec::new();
        let mut labels: Vec<(String, usize)> = Vec::new();
        assert(uinstrs_view(instructions@) =~= Seq::<UInstrModel>::empty());
        assert(labels_view(labels@) =~= Seq::<(Seq<char>, nat)>::empty());
        while self.pos < self.tokens.len()
            invariant
                ts == tokens_view(self.tokens@),
                self.tokens@ == old(self).tokens@,
                self.pos <= self.tokens@.len(),
                goal == collect(ts, old(self).pos as nat, Seq::empty(), Seq::empty()),
                goal == collect(ts, self.pos as nat, uinstrs_view(instructions@), labels_view(labels@)),
            decreases self.tokens@.len() - self.pos,
        {
            let i = self.pos;
            let span = self.tokens[i].span;
            match &self.tokens[i].kind {
                TokenKind::LabelDef(name) => {
                    match find_label(&labels, name) {
                        Some(_) => {
                            return Err(ParseError::DuplicateLabel { label: name.clone(), span });
                        },
                        None => {},
                    }
                    let ghost lbefore = labels_view(labels@);
                    labels.push((name.clone(), instructions.len()));
                    assert(labels_view(labels@) =~= lbefore.push((name@, instructions@.len() as nat)));
                    self.pos = i + 1;
                },
                TokenKind::Opcode(op) => {
                    let opcode = *op;
                    self.pos = i + 1;
                    let operands = match self.parse_operands() {
                        Ok(ops) => ops,
                        Err(e) => {
                            return Err(e);
                        },
                    };
                    proof {
                        lemma_operands_from_bounds(ts, (i + 1) as nat);
                    }
                    let ghost ibefore = uinstrs_view(instructions@);
                    let ghost ops_model = operands_view(operands@);
                    instructions.push(UnresolvedInstruction { opcode: Spanned::new(opcode, span), operands });
                    assert(uinstrs_view(instructions@) =~= ibefore.push(
                        UInstrModel { opcode, opcode_span: span, operands: ops_model },
                    ));
                },
                TokenKind::Comment(_) | TokenKind::Terminator => {
                    self.pos = i + 1;
                },
                _ => {
                    let expected = "label definition or opcode".to_owned();
                    let found = token_kind_debug(&self.tokens[i].kind);
                    return Err(ParseError::UnexpectedToken { expected, found, span });
                },
            }
        }
        if instructions.len() == 0 {
            return Err(ParseError::UnexpectedEndOfInput);
        }
        let resolved = match resolve_labels(&instructions, &labels) {
            Ok(v) => v,
            Err(e) => {
                return Err(e);
            },
        };
        validate_instructions(&resolved)
    }
}

/// Adds operands in front of an operand list that may be an error.
pub open spec fn with_ops(
    pre: Seq<(OperandModel, Span)>,
    rest: Result<(Seq<(OperandModel, Span)>, nat), ParseErrorModel>,
) -> Result<(Seq<(OperandModel, Span)>, nat), ParseErrorModel> {
    match rest {
        Ok((ops, k)) => Ok((pre + ops, k)),
        Err(e) => Err(e),
    }
}

proof fn lemma_with_ops_push(
    pre: Seq<(OperandModel, Span)>,
    o: (OperandModel, Span),
    rest: Result<(Seq<(OperandModel, Span)>, nat), ParseErrorModel>,
)
    ensures
        with_ops(pre, with_operand(o, rest)) == with_ops(pre.push(o), rest),
{
    match rest {
        Ok((ops, k)) => {
            assert(pre + (seq![o] + ops) =~= pre.push(o) + ops);
        },
        Err(_) => {},
    }
}

} // verus!
