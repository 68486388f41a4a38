//! Instructions as the assembler sees them before labels are resolved.

use vstd::prelude::*;
use crate::errors::{ParseError, ParseErrorModel};
use crate::format_spec::{format_fields, get_format_spec, FieldSpec};
use crate::lexer::Span;
use crate::traits::ToResolvedInstr;
use crate::types::{format_size, opcode_format, InstrFormat, InstrModel, Opcode, Operand, ResolvedInstruction};

verus! {

/// A value and the source span it comes from.
pub struct Spanned<T> {
    pub node: T,
    pub span: Span,
}

impl<T> Spanned<T> {
    pub fn new(node: T, span: Span) -> (r: Self)
        ensures
            r.node == node,
            r.span == span,
    {
        Spanned { node, span }
    }

    pub fn as_ref(&self) -> (r: &T)
        ensures
            *r == self.node,
    {
        &self.node
    }
}

/// An operand as written: a register, an immediate or a label not yet
/// resolved to an instruction index.
pub enum UnresolvedOperand {
    Register(u8),
    Immediate(isize),
    LabelRef(String),
}

/// The content of an unresolved operand.
pub enum OperandModel {
    Register(u8),
    Immediate(isize),
    LabelRef(Seq<char>),
}

impl View for UnresolvedOperand {
    type V = OperandModel;

    open spec fn view(&self) -> OperandModel {
        match self {
            UnresolvedOperand::Register(r) => OperandModel::Register(*r),
            UnresolvedOperand::Immediate(v) => OperandModel::Immediate(*v),
            UnresolvedOperand::LabelRef(s) => OperandModel::LabelRef(s@),
        }
    }
}

/// An instruction as parsed: its opcode and operands, each with its span.
pub struct UnresolvedInstruction {
    pub opcode: Spanned<Opcode>,
    pub operands: Vec<Spanned<UnresolvedOperand>>,
}

/// The content of a parsed instruction.
pub struct UInstrModel {
    pub opcode: Opcode,
    pub opcode_span: Span,
    pub operands: Seq<(OperandModel, Span)>,
}

/// The content of an operand list.
pub open spec fn operands_view(ops: Seq<Spanned<UnresolvedOperand>>) -> Seq<(OperandModel, Span)> {
    ops.map_values(|o: Spanned<UnresolvedOperand>| (o.node@, o.span))
}

impl View for UnresolvedInstruction {
    type V = UInstrModel;

    open spec fn view(&self) -> UInstrModel {
        UInstrModel { opcode: self.opcode.node, opcode_span: self.opcode.span, operands: operands_view(self.operands@) }
    }
}

/// The span from the opcode to the end of the last operand.
pub open spec fn total_span(u: UInstrModel) -> Span {
    Span {
        start: u.opcode_span.start,
        end: if u.operands.len() > 0 { u.operands.last().1.end } else { u.opcode_span.end },
        line: u.opcode_span.line,
    }
}

/// The resolved operand for an operand with no label left.
pub open spec fn resolved_operand(o: OperandModel) -> Operand {
    match o {
        OperandModel::Register(r) => Operand::Register(r),
        OperandModel::Immediate(v) => Operand::Immediate(v),
        OperandModel::LabelRef(_) => Operand::Immediate(0),
    }
}

/// The resolved instruction, or `None` while some operand is a label.
pub open spec fn to_resolved_spec(u: UInstrModel) -> Option<InstrModel> {
    if forall|i: int| 0 <= i < u.operands.len() ==> !(#[trigger] u.operands[i].0 is LabelRef) {
        Some(InstrModel { opcode: u.opcode, operands: u.operands.map_values(|o: (OperandModel, Span)| resolved_operand(o.0)) })
    } else {
        None
    }
}

impl UnresolvedInstruction {
    /// The span from the opcode to the end of the last operand.
    pub fn get_total_span(&self) -> (r: Span)
        ensures
            r == total_span(self@),
    {
        let end = if self.operands.len() > 0 {
            self.operands[self.operands.len() - 1].span.end
        } else {
            self.opcode.span.end
        };
        Span { start: self.opcode.span.start, end, line: self.opcode.span.line }
    }
}

impl ToResolvedInstr for UnresolvedInstruction {
    /// The resolved instruction, or `None` while some operand is a label.
    fn to_resolved(&self) -> (r: Option<ResolvedInstruction>)
        ensures
            match r {
                Some(ri) => to_resolved_spec(self@) == Some(ri@),
                None => to_resolved_spec(self@) is None,
            },
    {
        let mut ops: Vec<Operand> = Vec::new();
        let mut i: usize = 0;
        let ghost u = self@;
        while i < self.operands.len()
            invariant
                u == self@,
                i <= self.operands@.len(),
                ops@.len() == i,
                forall|j: int| 0 <= j < i ==> !(#[trigger] u.operands[j].0 is LabelRef),
                forall|j: int| 0 <= j < i ==> ops@[j] == resolved_operand(#[trigger] u.operands[j].0),
            decreases self.operands@.len() - i,
        {
            match &self.operands[i].node {
                UnresolvedOperand::Register(r) => ops.push(Operand::Register(*r)),
                UnresolvedOperand::Immediate(v) => ops.push(Operand::Immediate(*v)),
                UnresolvedOperand::LabelRef(_) => {
                    assert(u.operands[i as int].0 is LabelRef);
                    return None;
                },
            }
            i = i + 1;
        }
        let ri = ResolvedInstruction { opcode: self.opcode.node, operands: ops };
        assert(ri@.operands =~= u.operands.map_values(|o: (OperandModel, Span)| resolved_operand(o.0)));
        Some(ri)
    }
}

/// Whether an operand suits a field's kind: registers in register fields,
/// immediates in immediate fields.
pub open spec fn kind_fits(f: FieldSpec, o: OperandModel) -> bool {
    match f {
        FieldSpec::Register(_) => o is Register,
        FieldSpec::Immediate(_) => o is Immediate,
        FieldSpec::Opcode(_) => false,
    }
}

/// The span of the first operand from `i` on that does not suit its field.
pub open spec fn first_mismatch(fields: Seq<FieldSpec>, ops: Seq<(OperandModel, Span)>, i: nat) -> Option<Span>
    decreases ops.len() - i,
{
    if i >= ops.len() {
        None
    } else if !kind_fits(fields[i + 1 as int], ops[i as int].0) {
        Some(ops[i as int].1)
    } else {
        first_mismatch(fields, ops, i + 1)
    }
}

/// Whether the operands fit a format: the count first (the whole
/// instruction's span is reported), then the kind of each operand in order.
pub open spec fn validate_spec(f: InstrFormat, ops: Seq<(OperandModel, Span)>, span: Span) -> Result<(), ParseErrorModel> {
    let expected = (format_size(f) - 1) as nat;
    if ops.len() != expected {
        Err(ParseErrorModel::OperandCountMismatch { expected, found: ops.len(), span })
    } else {
        match first_mismatch(format_fields(f), ops, 0) {
            Some(s) => Err(ParseErrorModel::OperandTypeMismatch { span: s }),
            None => Ok(()),
        }
    }
}

impl InstrFormat {
    /// Checks that the operands fit the format, in count and in kind.
    pub fn validate(&self, operands: &Vec<Spanned<UnresolvedOperand>>, span: &Span) -> (r: Result<(), ParseError>)
        ensures
            match r {
                Ok(()) => validate_spec(*self, operands_view(operands@), *span) == Ok::<(), ParseErrorModel>(()),
                Err(e) => validate_spec(*self, operands_view(operands@), *span) == Err::<(), ParseErrorModel>(e@),
            },
    {
        let expected = self.size() - 1;
        if operands.len() != expected {
            return Err(ParseError::OperandCountMismatch { expected, found: operands.len(), span: *span });
        }
        let format_spec = get_format_spec(*self);
        let ghost fields = format_fields(*self);
        let ghost ops = operands_view(operands@);
        let mut i: usize = 0;
        while i < operands.len()
            invariant
                fields == format_spec.fields@,
                fields == format_fields(*self),
                ops == operands_view(operands@),
                fields.len() == operands@.len() + 1,
                i <= operands@.len(),
                first_mismatch(fields, ops, 0) == first_mismatch(fields, ops, i as nat),
            decreases operands@.len() - i,
        {
            let fits = match (&format_spec.fields[i + 1], &operands[i].node) {
                (FieldSpec::Register(_), UnresolvedOperand::Register(_)) => true,
                (FieldSpec::Immediate(_), UnresolvedOperand::Immediate(_)) => true,
                _ => false,
            };
            if !fits {
                return Err(ParseError::OperandTypeMismatch { span: operands[i].span });
            }
            i = i + 1;
        }
        Ok(())
    }
}

} // verus!
