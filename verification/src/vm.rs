//! State of the virtual machine, its errors, and the meaning of one step.

use vstd::prelude::*;
use crate::executor::Executor;
use crate::memory::Memory;
use crate::text::{push_decimal, push_signed_decimal, push_str, signed_decimal, string_from_chars, decimal};
use crate::codec::{conforms, lemma_encode_decode, spec_decode};
use crate::types::{operand_value, InstrModel, Opcode, ResolvedInstruction};

verus! {

/// Why the machine could not execute an instruction.
#[derive(Debug, Clone, Copy, PartialEq, Eq, Structural)]
pub enum VMError {
    /// A load or store outside the data memory.
    InvalidMemoryAdress(usize),
    /// The program counter, or a jump target, outside the program.
    InstructionOutOfRange(usize),
    /// A load or store through a register holding a negative address.
    NegativeMemoryAdress(isize),
}

/// The text of a machine error.
pub open spec fn vm_error_text(e: VMError) -> Seq<char> {
    match e {
        VMError::InvalidMemoryAdress(a) => "Invalid memory address accessed: "@ + decimal(a as nat),
        VMError::InstructionOutOfRange(pc) => "Program counter out of range: "@ + decimal(pc as nat),
        VMError::NegativeMemoryAdress(a) => "Negative memory address accessed: "@ + signed_decimal(a as int),
    }
}

impl VMError {
    /// The text of the error.
    pub fn message(&self) -> (r: String)
        ensures
            r@ == vm_error_text(*self),
    {
        let mut out: Vec<char> = Vec::new();
        match self {
            VMError::InvalidMemoryAdress(a) => {
                push_str(&mut out, "Invalid memory address accessed: ");
                push_decimal(&mut out, *a as u128);
            },
            VMError::InstructionOutOfRange(pc) => {
                push_str(&mut out, "Program counter out of range: ");
                push_decimal(&mut out, *pc as u128);
            },
            VMError::NegativeMemoryAdress(a) => {
                push_str(&mut out, "Negative memory address accessed: ");
                push_signed_decimal(&mut out, *a as i128);
            },
        }
        string_from_chars(&out)
    }
}

/// A machine and the executor that drives it.
pub struct VM<M: Memory, E: Executor<M>> {
    pub executor: E,
    pub state: VMState<M>,
}

/// Registers, data memory, program and control state of the machine.
pub struct VMState<M: Memory> {
    pub registers: [i32; 32],
    pub memory: M,
    /// The bound that jump targets are checked against.
    pub mem_size: usize,
    pub program: Vec<ResolvedInstruction>,
    pub pc: usize,
    pub halted: bool,
    pub cycles: usize,
}

/// The mathematical content of a machine state.
#[verifier::ext_equal]
pub struct MachineModel {
    pub registers: Seq<i32>,
    pub memory: Seq<i32>,
    pub mem_size: nat,
    pub program: Seq<InstrModel>,
    pub pc: nat,
    pub halted: bool,
    pub cycles: nat,
}

impl<M: Memory> View for VMState<M> {
    type V = MachineModel;

    open spec fn view(&self) -> MachineModel {
        MachineModel {
            registers: self.registers@,
            memory: self.memory.contents(),
            mem_size: self.mem_size as nat,
            program: self.program@.map_values(|i: ResolvedInstruction| i@),
            pc: self.pc as nat,
            halted: self.halted,
            cycles: self.cycles as nat,
        }
    }
}

/// The integer carried by operand `i` of an instruction.
pub open spec fn arg(ins: InstrModel, i: int) -> int {
    operand_value(ins.operands[i])
}

/// Whether operand `i` names one of the 32 registers.
pub open spec fn names_register(ins: InstrModel, i: int) -> bool {
    0 <= arg(ins, i) < 32
}

/// Whether the interpreter can run an instruction: it has the number of
/// operands its opcode takes, and those used as register numbers are in
/// range.
pub open spec fn executable(ins: InstrModel) -> bool {
    let n = ins.operands.len();
    match ins.opcode {
        Opcode::NOP | Opcode::END => true,
        Opcode::ADD | Opcode::SUB | Opcode::MULT | Opcode::OR | Opcode::AND => n == 3 && names_register(ins, 0)
            && names_register(ins, 1) && names_register(ins, 2),
        Opcode::ADDI | Opcode::SUBI | Opcode::JEQ | Opcode::JLT => n == 3 && names_register(ins, 0)
            && names_register(ins, 1),
        Opcode::NOT | Opcode::LD | Opcode::SD => n == 2 && names_register(ins, 0) && names_register(ins, 1),
        Opcode::LI => n == 2 && names_register(ins, 0),
        Opcode::JR => n == 1,
    }
}

/// The instruction at the program counter.
pub open spec fn current(m: MachineModel) -> InstrModel {
    m.program[m.pc as int]
}

/// The register named by operand `i` of the current instruction.
pub open spec fn reg(m: MachineModel, i: int) -> i32 {
    m.registers[arg(current(m), i)]
}

/// The machine with register `r` set to `v`.
pub open spec fn with_reg(m: MachineModel, r: int, v: i32) -> MachineModel {
    MachineModel { registers: m.registers.update(r, v), ..m }
}

/// The end of a step: one more cycle, and the program counter moved to the
/// next instruction unless the machine halted or jumped.
pub open spec fn finish(m: MachineModel, jumped: bool) -> MachineModel {
    MachineModel { pc: if !m.halted && !jumped { m.pc + 1 } else { m.pc }, cycles: m.cycles + 1, ..m }
}

/// The result of a conditional jump to `target`.
pub open spec fn branch(m: MachineModel, taken: bool, target: int) -> Result<MachineModel, VMError> {
    if target as usize >= m.mem_size {
        Err(VMError::InstructionOutOfRange(target as usize))
    } else if taken {
        Ok(finish(MachineModel { pc: (target as usize) as nat, ..m }, true))
    } else {
        Ok(finish(m, false))
    }
}

/// What executing the instruction at the program counter does to the
/// machine, or the error it stops with.
pub open spec fn step(m: MachineModel) -> Result<MachineModel, VMError> {
    if m.pc >= m.program.len() {
        Err(VMError::InstructionOutOfRange(m.pc as usize))
    } else {
        let ins = current(m);
        let dest = arg(ins, 0);
        match ins.opcode {
            Opcode::NOP => Ok(finish(m, false)),
            Opcode::END => Ok(finish(MachineModel { halted: true, ..m }, false)),
            Opcode::ADD => Ok(finish(with_reg(m, dest, reg(m, 1).wrapping_add(reg(m, 2))), false)),
            Opcode::SUB => Ok(finish(with_reg(m, dest, reg(m, 1).wrapping_sub(reg(m, 2))), false)),
            Opcode::MULT => Ok(finish(with_reg(m, dest, reg(m, 1).wrapping_mul(reg(m, 2))), false)),
            Opcode::ADDI => Ok(finish(with_reg(m, dest, reg(m, 1).wrapping_add(arg(ins, 2) as i32)), false)),
            Opcode::SUBI => Ok(finish(with_reg(m, dest, reg(m, 1).wrapping_sub(arg(ins, 2) as i32)), false)),
            Opcode::OR => Ok(finish(with_reg(m, dest, reg(m, 1) | reg(m, 2)), false)),
            Opcode::AND => Ok(finish(with_reg(m, dest, reg(m, 1) & reg(m, 2)), false)),
            Opcode::NOT => Ok(finish(with_reg(m, dest, !reg(m, 1)), false)),
            Opcode::LI => Ok(finish(with_reg(m, dest, arg(ins, 1) as i32), false)),
            Opcode::LD => {
                let a = reg(m, 1);
                if a < 0 {
                    Err(VMError::NegativeMemoryAdress(a as isize))
                } else if a >= m.memory.len() {
                    Err(VMError::InvalidMemoryAdress(a as usize))
                } else {
                    Ok(finish(with_reg(m, dest, m.memory[a as int]), false))
                }
            },
            Opcode::SD => {
                let a = reg(m, 1);
                if a < 0 {
                    Err(VMError::NegativeMemoryAdress(a as isize))
                } else if a >= m.memory.len() {
                    Err(VMError::InvalidMemoryAdress(a as usize))
                } else {
                    Ok(finish(MachineModel { memory: m.memory.update(a as int, reg(m, 0)), ..m }, false))
                }
            },
            Opcode::JR => branch(m, true, arg(ins, 0)),
            Opcode::JEQ => branch(m, reg(m, 0) == reg(m, 1), arg(ins, 2)),
            Opcode::JLT => branch(m, reg(m, 0) < reg(m, 1), arg(ins, 2)),
        }
    }
}

/// Whether a step can be taken without a fault: the current instruction is
/// executable, a load or store through a non-negative address has a
/// memory to check it against, and a completed step can count its cycle.
pub open spec fn can_step(m: MachineModel) -> bool {
    &&& m.pc < m.program.len() ==> {
        &&& executable(current(m))
        &&& (current(m).opcode == Opcode::LD || current(m).opcode == Opcode::SD) && reg(m, 1) >= 0
            ==> m.memory.len() > 0
    }
    &&& step(m) is Ok ==> m.cycles < usize::MAX
}

/// An instruction with the operands its format asks for, each in range,
/// as every decoded instruction has, can be run by the interpreter.
pub proof fn lemma_conforming_executable(ins: InstrModel)
    requires
        conforms(ins),
    ensures
        executable(ins),
{
    let n = ins.operands.len() as int;
    match ins.opcode {
        Opcode::NOP | Opcode::END => {},
        _ => {
            assert(forall|i: int| 0 <= i < n ==> crate::codec::operand_conforms(
                ins.opcode,
                i,
                crate::format_spec::format_fields(crate::types::opcode_format(ins.opcode))[i + 1],
                #[trigger] ins.operands[i],
            ));
        },
    }
}

/// Every instruction word decodes to an instruction the interpreter can run:
/// the decoder gives each opcode the operands it reads.
pub proof fn lemma_decoded_executable(word: u32)
    ensures
        executable(spec_decode(word)),
{
    lemma_encode_decode(word);
    lemma_conforming_executable(spec_decode(word));
}

/// A machine whose program is made of well-formed (for instance decoded)
/// instructions, whose memory is not empty and whose cycle counter has room
/// left can always take a step: it completes it or stops with an error.
pub proof fn lemma_well_formed_machine_steps(m: MachineModel)
    requires
        forall|i: int| 0 <= i < m.program.len() ==> conforms(#[trigger] m.program[i]),
        m.memory.len() > 0,
        m.cycles < usize::MAX,
    ensures
        can_step(m),
{
    if m.pc < m.program.len() {
        lemma_conforming_executable(current(m));
    }
}

/// What a completed step keeps: the program, the jump bound and the size of
/// the memory; it counts exactly one cycle, and a halted machine stays
/// halted.
pub proof fn lemma_step_frame(m: MachineModel)
    requires
        step(m) is Ok,
    ensures
        step(m)->Ok_0.program == m.program,
        step(m)->Ok_0.mem_size == m.mem_size,
        step(m)->Ok_0.memory.len() == m.memory.len(),
        step(m)->Ok_0.cycles == m.cycles + 1,
        m.halted ==> step(m)->Ok_0.halted,
{
}

/// The jump target operand of the current instruction (the only operand of
/// `JR`, the third of `JEQ` and `JLT`).
pub open spec fn jump_target(m: MachineModel) -> int {
    if current(m).opcode == Opcode::JR {
        arg(current(m), 0)
    } else {
        arg(current(m), 2)
    }
}

/// Where a completed step leaves the program counter: on `END`, or on any
/// instruction of a halted machine that does not jump, it stays; a taken
/// jump (`JR`, `JEQ` with equal registers, `JLT` with the first register
/// smaller) moves it to the target; otherwise it moves to the next
/// instruction. Only `END` sets the halted flag.
pub proof fn lemma_step_control(m: MachineModel)
    requires
        m.pc < m.program.len(),
        step(m) is Ok,
    ensures
        ({
            let m2 = step(m)->Ok_0;
            let op = current(m).opcode;
            let taken = op == Opcode::JR || (op == Opcode::JEQ && reg(m, 0) == reg(m, 1)) || (op == Opcode::JLT
                && reg(m, 0) < reg(m, 1));
            &&& m2.halted == (m.halted || op == Opcode::END)
            &&& taken ==> m2.pc == (jump_target(m) as usize) as nat
            &&& !taken && (m.halted || op == Opcode::END) ==> m2.pc == m.pc
            &&& !taken && !m.halted && op != Opcode::END ==> m2.pc == m.pc + 1
        }),
{
}

/// The errors a step stops with, and when: a program counter outside the
/// program; a jump target (taken or not) at or beyond the jump bound; a load
/// or store through a negative address, or one at or beyond the memory's
/// end. No other instruction fails.
pub proof fn lemma_step_errors(m: MachineModel)
    ensures
        step(m) matches Err(e) ==> {
            ||| m.pc >= m.program.len() && e == VMError::InstructionOutOfRange(m.pc as usize)
            ||| m.pc < m.program.len() && (current(m).opcode == Opcode::JR || current(m).opcode == Opcode::JEQ
                || current(m).opcode == Opcode::JLT) && jump_target(m) as usize >= m.mem_size && e
                == VMError::InstructionOutOfRange(jump_target(m) as usize)
            ||| m.pc < m.program.len() && (current(m).opcode == Opcode::LD || current(m).opcode == Opcode::SD)
                && reg(m, 1) < 0 && e == VMError::NegativeMemoryAdress(reg(m, 1) as isize)
            ||| m.pc < m.program.len() && (current(m).opcode == Opcode::LD || current(m).opcode == Opcode::SD)
                && 0 <= reg(m, 1) && reg(m, 1) >= m.memory.len() && e == VMError::InvalidMemoryAdress(
                reg(m, 1) as usize,
            )
        },
{
}

/// `END` halts the machine where it stands: the program counter stays on
/// it, and executing it again changes nothing but the cycle count.
pub proof fn lemma_end_halts(m: MachineModel)
    requires
        m.pc < m.program.len(),
        current(m).opcode == Opcode::END,
    ensures
        step(m) is Ok,
        step(m)->Ok_0.halted,
        step(m)->Ok_0.pc == m.pc,
        step(step(m)->Ok_0) == Ok::<MachineModel, VMError>(
            MachineModel { cycles: m.cycles + 2, ..step(m)->Ok_0 },
        ),
{
}

impl<M: Memory> VMState<M> {
    /// The word at `address` of the data memory.
    pub fn read_mem(&self, address: usize) -> (r: Result<i32, VMError>)
        requires
            self.memory.contents().len() > 0,
        ensures
            r == if address < self.memory.contents().len() {
                Ok::<i32, VMError>(self.memory.contents()[address as int])
            } else {
                Err(VMError::InvalidMemoryAdress(address))
            },
    {
        if address > self.memory.size() - 1 {
            return Err(VMError::InvalidMemoryAdress(address));
        }
        Ok(self.memory.read(address))
    }

    /// Writes `value` at `address` of the data memory; fails, changing
    /// nothing, when the address is outside it.
    pub fn write_mem(&mut self, address: usize, value: i32) -> (r: Result<(), VMError>)
        requires
            old(self).memory.contents().len() > 0,
        ensures
            final(self).registers == old(self).registers,
            final(self).mem_size == old(self).mem_size,
            final(self).program == old(self).program,
            final(self).pc == old(self).pc,
            final(self).halted == old(self).halted,
            final(self).cycles == old(self).cycles,
            address < old(self).memory.contents().len() ==> r is Ok && final(self).memory.contents()
                == old(self).memory.contents().update(address as int, value),
            address >= old(self).memory.contents().len() ==> r == Err::<(), VMError>(
                VMError::InvalidMemoryAdress(address),
            ) && final(self).memory == old(self).memory,
    {
        if address > self.memory.size() - 1 {
            return Err(VMError::InvalidMemoryAdress(address));
        }
        self.memory.store(address, value);
        Ok(())
    }

    /// The instruction at `pc`.
    pub fn get_instruction(&self, pc: usize) -> (r: Result<&ResolvedInstruction, VMError>)
        ensures
            pc < self.program@.len() ==> r == Ok::<&ResolvedInstruction, VMError>(&self.program@[pc as int]),
            pc >= self.program@.len() ==> r == Err::<&ResolvedInstruction, VMError>(
                VMError::InstructionOutOfRange(pc),
            ),
    {
        if pc < self.program.len() {
            Ok(&self.program[pc])
        } else {
            Err(VMError::InstructionOutOfRange(pc))
        }
    }
}

} // verus!
