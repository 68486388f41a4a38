use isa_utils::executor::{overflow_warning, BaseInterpreter, Executor};
use isa_utils::memory::{DynamicMemory, FixedMemory, Memory};
use isa_utils::types::{Opcode, Operand, ResolvedInstruction};
use isa_utils::vm::{VMError, VMState, VM};

fn ins(opcode: Opcode, operands: Vec<Operand>) -> ResolvedInstruction {
    ResolvedInstruction { opcode, operands }
}

fn r(n: u8) -> Operand {
    Operand::Register(n)
}

fn imm(v: isize) -> Operand {
    Operand::Immediate(v)
}

fn machine(program: Vec<ResolvedInstruction>) -> VMState<DynamicMemory> {
    let memory = DynamicMemory::new(16);
    let mem_size = memory.size();
    VMState { registers: [0; 32], memory, mem_size, program, pc: 0, halted: false, cycles: 0 }
}

fn run(state: &mut VMState<DynamicMemory>) -> Result<(), VMError> {
    let mut exec = BaseInterpreter;
    loop {
        if exec.execute(state)? {
            return Ok(());
        }
    }
}

#[test]
fn memories_start_as_asked() {
    let m = DynamicMemory::new(3);
    assert_eq!((m.size(), m.read(0), m.read(2)), (3, 0, 0));
    let m = DynamicMemory::new_with_default(2, -4);
    assert_eq!((m.size(), m.read(1)), (2, -4));
    let m = DynamicMemory::from_data(4, 7, &[1, 2]);
    assert_eq!((m.read(0), m.read(1), m.read(2), m.read(3), m.size()), (1, 2, 7, 7, 4));
    let mut f: FixedMemory<5> = FixedMemory::new();
    assert_eq!(f.size(), 5);
    f.store(4, 11);
    assert_eq!((f.read(4), f.read(3)), (11, 0));
}

#[test]
fn read_and_write_check_the_address() {
    let mut s = machine(vec![]);
    assert_eq!(s.write_mem(15, 9), Ok(()));
    assert_eq!(s.read_mem(15), Ok(9));
    assert_eq!(s.read_mem(16), Err(VMError::InvalidMemoryAdress(16)));
    assert_eq!(s.write_mem(100, 1), Err(VMError::InvalidMemoryAdress(100)));
    assert_eq!(s.get_instruction(0), Err(VMError::InstructionOutOfRange(0)));
}

#[test]
fn arithmetic_wraps_and_logic_is_bitwise() {
    let mut s = machine(vec![
        ins(Opcode::LI, vec![r(1), imm(131071)]),
        ins(Opcode::LI, vec![r(2), imm(-2)]),
        ins(Opcode::MULT, vec![r(3), r(1), r(1)]),
        ins(Opcode::MULT, vec![r(4), r(3), r(3)]),
        ins(Opcode::ADD, vec![r(5), r(1), r(2)]),
        ins(Opcode::SUB, vec![r(6), r(2), r(1)]),
        ins(Opcode::ADDI, vec![r(7), r(2), imm(10)]),
        ins(Opcode::SUBI, vec![r(8), r(2), imm(10)]),
        ins(Opcode::AND, vec![r(9), r(1), r(2)]),
        ins(Opcode::OR, vec![r(10), r(1), r(2)]),
        ins(Opcode::NOT, vec![r(11), r(1)]),
        ins(Opcode::END, vec![]),
    ]);
    assert_eq!(run(&mut s), Ok(()));
    assert_eq!(s.registers[3], 131071i32.wrapping_mul(131071));
    assert_eq!(s.registers[4], s.registers[3].wrapping_mul(s.registers[3]));
    assert_eq!(s.registers[5], 131069);
    assert_eq!(s.registers[6], -131073);
    assert_eq!(s.registers[7], 8);
    assert_eq!(s.registers[8], -12);
    assert_eq!(s.registers[9], 131070);
    assert_eq!(s.registers[10], -1);
    assert_eq!(s.registers[11], -131072);
    assert_eq!(s.cycles, 12);
    assert_eq!(s.pc, 11);
    assert!(s.halted);
}

#[test]
fn loads_stores_and_jumps() {
    // Sum 1..=4 into R2, store it at address 3, load it back into R5.
    let mut s = machine(vec![
        ins(Opcode::LI, vec![r(1), imm(4)]),
        ins(Opcode::ADD, vec![r(2), r(2), r(1)]),
        ins(Opcode::SUBI, vec![r(1), r(1), imm(1)]),
        ins(Opcode::JLT, vec![r(0), r(1), imm(1)]),
        ins(Opcode::LI, vec![r(3), imm(3)]),
        ins(Opcode::SD, vec![r(2), r(3)]),
        ins(Opcode::LD, vec![r(5), r(3)]),
        ins(Opcode::JEQ, vec![r(5), r(2), imm(9)]),
        ins(Opcode::NOP, vec![]),
        ins(Opcode::END, vec![]),
    ]);
    assert_eq!(run(&mut s), Ok(()));
    assert_eq!(s.registers[2], 10);
    assert_eq!(s.read_mem(3), Ok(10));
    assert_eq!(s.registers[5], 10);
    assert_eq!(s.pc, 9);
}

#[test]
fn failed_steps_leave_the_state() {
    let mut s = machine(vec![ins(Opcode::LI, vec![r(1), imm(-1)]), ins(Opcode::LD, vec![r(2), r(1)])]);
    let mut exec = BaseInterpreter;
    assert_eq!(exec.execute(&mut s), Ok(false));
    assert_eq!(exec.execute(&mut s), Err(VMError::NegativeMemoryAdress(-1)));
    assert_eq!((s.pc, s.cycles, s.registers[2]), (1, 1, 0));

    let mut s = machine(vec![ins(Opcode::LI, vec![r(1), imm(16)]), ins(Opcode::SD, vec![r(0), r(1)])]);
    assert_eq!(exec.execute(&mut s), Ok(false));
    assert_eq!(exec.execute(&mut s), Err(VMError::InvalidMemoryAdress(16)));
    assert_eq!((s.pc, s.cycles), (1, 1));

    let mut s = machine(vec![ins(Opcode::JR, vec![imm(16)])]);
    assert_eq!(exec.execute(&mut s), Err(VMError::InstructionOutOfRange(16)));
    assert_eq!((s.pc, s.cycles), (0, 0));

    // A taken jump inside memory but past the program faults at the next fetch.
    let mut s = machine(vec![ins(Opcode::JEQ, vec![r(0), r(0), imm(5)])]);
    assert_eq!(exec.execute(&mut s), Ok(false));
    assert_eq!(s.pc, 5);
    assert_eq!(exec.execute(&mut s), Err(VMError::InstructionOutOfRange(5)));

    // Running off the end of the program.
    let mut s = machine(vec![ins(Opcode::NOP, vec![])]);
    assert_eq!(exec.execute(&mut s), Ok(false));
    assert_eq!(exec.execute(&mut s), Err(VMError::InstructionOutOfRange(1)));
}

#[test]
fn a_halted_machine_stays_on_end() {
    let mut s = machine(vec![ins(Opcode::END, vec![])]);
    let mut exec = BaseInterpreter;
    assert_eq!(exec.execute(&mut s), Ok(true));
    assert_eq!(exec.execute(&mut s), Ok(true));
    assert_eq!((s.pc, s.cycles, s.halted), (0, 2, true));
}

#[test]
fn a_vm_pairs_executor_and_state() {
    let mut vm = VM { executor: BaseInterpreter, state: machine(vec![ins(Opcode::LI, vec![r(31), imm(-7)]), ins(Opcode::END, vec![])]) };
    assert_eq!(vm.executor.execute(&mut vm.state), Ok(false));
    assert_eq!(vm.executor.execute(&mut vm.state), Ok(true));
    assert_eq!(vm.state.registers[31], -7);
}

#[test]
fn vm_error_messages() {
    assert_eq!(VMError::InvalidMemoryAdress(900).message(), "Invalid memory address accessed: 900");
    assert_eq!(VMError::InstructionOutOfRange(12).message(), "Program counter out of range: 12");
    assert_eq!(VMError::NegativeMemoryAdress(-3).message(), "Negative memory address accessed: -3");
}

#[test]
fn overflow_warnings() {
    let mut s = machine(vec![
        ins(Opcode::ADD, vec![r(2), r(1), r(1)]),
        ins(Opcode::SUBI, vec![r(3), r(4), imm(1)]),
        ins(Opcode::MULT, vec![r(5), r(6), r(6)]),
        ins(Opcode::END, vec![]),
    ]);
    s.registers[1] = i32::MAX;
    s.registers[4] = i32::MIN;
    s.registers[6] = 46341;
    assert_eq!(overflow_warning(&s), Some("Warning: Overflow in ADD at PC 0".to_string()));
    let mut exec = BaseInterpreter;
    assert_eq!(exec.execute(&mut s), Ok(false));
    assert_eq!(s.registers[2], -2);
    assert_eq!(overflow_warning(&s), Some("Warning: Overflow in ADDI at PC 1".to_string()));
    assert_eq!(exec.execute(&mut s), Ok(false));
    assert_eq!(s.registers[3], i32::MAX);
    assert_eq!(overflow_warning(&s), Some("Warning: Overflow in MULT at PC 2".to_string()));
    s.registers[6] = 46340;
    assert_eq!(overflow_warning(&s), None);
    assert_eq!(exec.execute(&mut s), Ok(false));
    assert_eq!(overflow_warning(&s), None);
}
