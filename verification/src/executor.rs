//! Executors: what runs one instruction of the machine.

use vstd::prelude::*;
use crate::memory::Memory;
use crate::types::Opcode;
use crate::text::{decimal, push_decimal, push_str, string_from_chars};
use crate::vm::{arg, can_step, current, reg, step, MachineModel, VMError, VMState};

verus! {

/// Runs the instruction at the program counter. `Ok(h)` reports whether the
/// machine has halted (met `END`).
pub trait Executor<M: Memory> {
    fn execute(&mut self, state: &mut VMState<M>) -> (r: Result<bool, VMError>)
        requires
            can_step(old(state)@),
    ;
}

/// The interpreter of the base instruction set; other executors wrap it.
pub struct BaseInterpreter;

/// The register number in operand `i` of the current instruction.
fn reg_index<M: Memory>(state: &VMState<M>, i: usize) -> (r: usize)
    requires
        state.pc < state.program@.len(),
        i < current(state@).operands.len(),
        0 <= arg(current(state@), i as int) < 32,
    ensures
        r == arg(current(state@), i as int),
        r < 32,
{
    let ins = &state.program[state.pc];
    assert(ins@ == current(state@));
    ins.operands[i].get_val() as usize
}

/// The integer in operand `i` of the current instruction.
fn operand_at<M: Memory>(state: &VMState<M>, i: usize) -> (r: isize)
    requires
        state.pc < state.program@.len(),
        i < current(state@).operands.len(),
    ensures
        r == arg(current(state@), i as int),
{
    let ins = &state.program[state.pc];
    assert(ins@ == current(state@));
    ins.operands[i].get_val()
}

/// Whether `v` is an `i32` value.
pub open spec fn in_i32(v: int) -> bool {
    i32::MIN <= v <= i32::MAX
}

/// Whether the arithmetic of the instruction at the program counter leaves
/// the range of `i32`, so that the result written back wraps around.
pub open spec fn step_overflows(m: MachineModel) -> bool {
    &&& m.pc < m.program.len()
    &&& match current(m).opcode {
        Opcode::ADD => !in_i32(reg(m, 1) + reg(m, 2)),
        Opcode::SUB => !in_i32(reg(m, 1) - reg(m, 2)),
        Opcode::MULT => !in_i32(reg(m, 1) * reg(m, 2)),
        Opcode::ADDI => !in_i32(reg(m, 1) + (arg(current(m), 2) as i32)),
        Opcode::SUBI => !in_i32(reg(m, 1) - (arg(current(m), 2) as i32)),
        _ => false,
    }
}

/// The opcode name an overflow warning gives (a `SUBI` is reported under
/// the name `ADDI`).
pub open spec fn overflow_name(op: Opcode) -> Seq<char> {
    match op {
        Opcode::ADD => "ADD"@,
        Opcode::SUB => "SUB"@,
        Opcode::MULT => "MULT"@,
        _ => "ADDI"@,
    }
}

/// The warning for an overflowing step.
pub open spec fn overflow_warning_text(m: MachineModel) -> Seq<char> {
    "Warning: Overflow in "@ + overflow_name(current(m).opcode) + " at PC "@ + decimal(m.pc)
}

/// The warning to show before the next step when its arithmetic overflows
/// (the step still takes place, with the wrapped result); `None` when it
/// does not.
pub fn overflow_warning<M: Memory>(state: &VMState<M>) -> (r: Option<String>)
    requires
        can_step(state@),
    ensures
        r is Some <==> step_overflows(state@),
        r matches Some(t) ==> t@ == overflow_warning_text(state@),
{
    if state.pc >= state.program.len() {
        return None;
    }
    let ghost m = state@;
    let ins = &state.program[state.pc];
    assert(ins@ == current(m));
    let opcode = ins.opcode;
    let wide: i64 = match opcode {
        Opcode::ADD => {
            let (r1, r2) = (reg_index(state, 1), reg_index(state, 2));
            state.registers[r1] as i64 + state.registers[r2] as i64
        },
        Opcode::SUB => {
            let (r1, r2) = (reg_index(state, 1), reg_index(state, 2));
            state.registers[r1] as i64 - state.registers[r2] as i64
        },
        Opcode::MULT => {
            let (r1, r2) = (reg_index(state, 1), reg_index(state, 2));
            let a = state.registers[r1] as i64;
            let b = state.registers[r2] as i64;
            assert(-0x8000_0000 <= a < 0x8000_0000 && -0x8000_0000 <= b < 0x8000_0000);
            assert(-0x4000_0000_0000_0000 <= a * b <= 0x4000_0000_0000_0000) by (nonlinear_arith)
                requires
                    -0x8000_0000 <= a < 0x8000_0000,
                    -0x8000_0000 <= b < 0x8000_0000,
            ;
            a * b
        },
        Opcode::ADDI => {
            let r1 = reg_index(state, 1);
            let imm = operand_at(state, 2) as i32;
            state.registers[r1] as i64 + imm as i64
        },
        Opcode::SUBI => {
            let r1 = reg_index(state, 1);
            let imm = operand_at(state, 2) as i32;
            state.registers[r1] as i64 - imm as i64
        },
        _ => {
            return None;
        },
    };
    if i32::MIN as i64 <= wide && wide <= i32::MAX as i64 {
        return None;
    }
    let mut out: Vec<char> = Vec::new();
    push_str(&mut out, "Warning: Overflow in ");
    match opcode {
        Opcode::ADD => push_str(&mut out, "ADD"),
        Opcode::SUB => push_str(&mut out, "SUB"),
        Opcode::MULT => push_str(&mut out, "MULT"),
        _ => push_str(&mut out, "ADDI"),
    }
    push_str(&mut out, " at PC ");
    push_decimal(&mut out, state.pc as u128);
    proof {
        assert(out@ =~= overflow_warning_text(m));
    }
    Some(string_from_chars(&out))
}

impl<M: Memory> Executor<M> for BaseInterpreter {
    /// One step of the machine: on success the new state is `step` of the
    /// old one and the result says whether the machine has halted; on an
    /// error the state is left as it was.
    fn execute(&mut self, state: &mut VMState<M>) -> (r: Result<bool, VMError>)
        ensures
            match r {
                Ok(h) => step(old(state)@) == Ok::<MachineModel, VMError>(final(state)@) && h == final(state).halted,
                Err(e) => step(old(state)@) == Err::<MachineModel, VMError>(e) && final(state)@ == old(state)@,
            },
    {
        let ghost m = state@;
        let opcode = match state.get_instruction(state.pc) {
            Ok(ins) => ins.opcode,
            Err(e) => {
                return Err(e);
            },
        };
        assert(opcode == current(m).opcode);
        let mut jump = false;
        match opcode {
            Opcode::NOP => {},
            Opcode::END => {
                state.halted = true;
            },
            Opcode::ADD => {
                let (rs, r1, r2) = (reg_index(state, 0), reg_index(state, 1), reg_index(state, 2));
                let result = state.registers[r1].wrapping_add(state.registers[r2]);
                state.registers.set(rs, result);
            },
            Opcode::SUB => {
                let (rs, r1, r2) = (reg_index(state, 0), reg_index(state, 1), reg_index(state, 2));
                let result = state.registers[r1].wrapping_sub(state.registers[r2]);
                state.registers.set(rs, result);
            },
            Opcode::MULT => {
                let (rs, r1, r2) = (reg_index(state, 0), reg_index(state, 1), reg_index(state, 2));
                let result = state.registers[r1].wrapping_mul(state.registers[r2]);
                state.registers.set(rs, result);
            },
            Opcode::ADDI => {
                let (rs, r1) = (reg_index(state, 0), reg_index(state, 1));
                let imm = operand_at(state, 2) as i32;
                let result = state.registers[r1].wrapping_add(imm);
                state.registers.set(rs, result);
            },
            Opcode::SUBI => {
                let (rs, r1) = (reg_index(state, 0), reg_index(state, 1));
                let imm = operand_at(state, 2) as i32;
                let result = state.registers[r1].wrapping_sub(imm);
                state.registers.set(rs, result);
            },
            Opcode::OR => {
                let (rs, r1, r2) = (reg_index(state, 0), reg_index(state, 1), reg_index(state, 2));
                let result = state.registers[r1] | state.registers[r2];
                state.registers.set(rs, result);
            },
            Opcode::AND => {
                let (rs, r1, r2) = (reg_index(state, 0), reg_index(state, 1), reg_index(state, 2));
                let result = state.registers[r1] & state.registers[r2];
                state.registers.set(rs, result);
            },
            Opcode::NOT => {
                let (rs, r1) = (reg_index(state, 0), reg_index(state, 1));
                let result = !state.registers[r1];
                state.registers.set(rs, result);
            },
            Opcode::LI => {
                let rs = reg_index(state, 0);
                let imm = operand_at(state, 1) as i32;
                state.registers.set(rs, imm);
            },
            Opcode::LD => {
                let (rs, r1) = (reg_index(state, 0), reg_index(state, 1));
                let r_val = state.registers[r1];
                if r_val < 0 {
                    return Err(VMError::NegativeMemoryAdress(r_val as isize));
                }
                let v = match state.read_mem(r_val as usize) {
                    Ok(v) => v,
                    Err(e) => {
                        return Err(e);
                    },
                };
                state.registers.set(rs, v);
            },
            Opcode::SD => {
                let (r1, rs) = (reg_index(state, 0), reg_index(state, 1));
                let (r_set_val, val) = (state.registers[rs], state.registers[r1]);
                if r_set_val < 0 {
                    return Err(VMError::NegativeMemoryAdress(r_set_val as isize));
                }
                match state.write_mem(r_set_val as usize, val) {
                    Ok(()) => {},
                    Err(e) => {
                        assert(state@ =~= m);
                        return Err(e);
                    },
                }
            },
            Opcode::JR => {
                // The target is read as an unsigned number.
                let imm = operand_at(state, 0) as usize;
                if imm >= state.mem_size {
                    return Err(VMError::InstructionOutOfRange(imm));
                }
                jump = true;
                state.pc = imm;
            },
            Opcode::JEQ => {
                let (r1, r2) = (reg_index(state, 0), reg_index(state, 1));
                let imm = operand_at(state, 2) as usize;
                if imm >= state.mem_size {
                    return Err(VMError::InstructionOutOfRange(imm));
                }
                if state.registers[r1] == state.registers[r2] {
                    jump = true;
                    state.pc = imm;
                }
            },
            Opcode::JLT => {
                let (r1, r2) = (reg_index(state, 0), reg_index(state, 1));
                let imm = operand_at(state, 2) as usize;
                if imm >= state.mem_size {
                    return Err(VMError::InstructionOutOfRange(imm));
                }
                if state.registers[r1] < state.registers[r2] {
                    jump = true;
                    state.pc = imm;
                }
            },
        }
        let n = state.program.len();
        if !state.halted && !jump {
            assert(state.pc == m.pc && m.pc < n);
            state.pc = state.pc + 1;
        }
        state.cycles = state.cycles + 1;
        proof {
            assert(step(m) == Ok::<MachineModel, VMError>(state@));
        }
        Ok(state.halted)
    }
}

} // verus!
