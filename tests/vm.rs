use lang_vm::instruction::{Instruction, Opcode};
use lang_vm::lexer::parse_program;
use lang_vm::repl::{Action, REPL};
use lang_vm::vm::{Fault, Outcome, VM};

fn machine(source: &str) -> VM {
    let mut vm = VM::new();
    for instruction in parse_program(String::from(source)) {
        vm.add_instruction(instruction);
    }
    vm
}

#[test]
fn new_machine_is_zeroed() {
    let vm = VM::new();
    assert_eq!(vm.registers, [0; 32]);
    assert_eq!(vm.pc, 0);
    assert!(vm.program.is_empty());
    assert!(vm.heap.is_empty());
    assert_eq!(vm.remainder, 0);
    assert!(!vm.equal);
}

#[test]
fn load_reaches_every_register() {
    for r in 0..32 {
        let mut vm = machine(&format!("LOAD ${} #1234", r));
        assert_eq!(vm.run_once(), Outcome::Running);
        assert_eq!(vm.registers[r], 1234);
    }
}

#[test]
fn add_sub_mul_div() {
    let mut vm = machine("LOAD $0 #100\nLOAD $1 #100\nADD $0 $1 $2");
    assert_eq!(vm.run(), Outcome::HaltedNormally);
    assert_eq!(vm.registers[2], 200);

    let mut vm = machine("LOAD $0 #200\nLOAD $1 #100\nSUB $0 $1 $2");
    vm.run();
    assert_eq!(vm.registers[2], 100);

    let mut vm = machine("LOAD $0 #10\nLOAD $1 #10\nMUL $0 $1 $2");
    vm.run();
    assert_eq!(vm.registers[2], 100);

    let mut vm = machine("LOAD $0 #100\nLOAD $1 #10\nDIV $0 $1 $2");
    vm.run();
    assert_eq!(vm.registers[2], 10);
    assert_eq!(vm.remainder, 0);
}

#[test]
fn division_truncates_and_keeps_remainder() {
    let mut vm = machine("LOAD $0 #7\nLOAD $1 #2\nDIV $0 $1 $2");
    vm.run();
    assert_eq!(vm.registers[2], 3);
    assert_eq!(vm.remainder, 1);

    let mut vm = machine("LOAD $0 #-7\nLOAD $1 #2\nDIV $0 $1 $2");
    vm.run();
    assert_eq!(vm.registers[2], -3);
    assert_eq!(vm.remainder, (-1i32) as u32);

    let mut vm = machine("LOAD $0 #-2147483648\nLOAD $1 #-1\nDIV $0 $1 $2");
    assert_eq!(vm.run(), Outcome::HaltedNormally);
    assert_eq!(vm.registers[2], i32::MIN);
    assert_eq!(vm.remainder, 0);
}

#[test]
fn arithmetic_wraps() {
    let mut vm = machine("LOAD $0 #2147483647\nLOAD $1 #1\nADD $0 $1 $2\nINC $0\nLOAD $3 #-2147483648\nDEC $3");
    vm.run();
    assert_eq!(vm.registers[2], i32::MIN);
    assert_eq!(vm.registers[0], i32::MIN);
    assert_eq!(vm.registers[3], i32::MAX);
}

#[test]
fn jmp_skips_an_instruction() {
    let mut vm = machine(
        "LOAD $0 #100\nLOAD $1 #100\nLOAD $3 #5\nJMP $3\nADD $0 $1 $4\nADD $0 $1 $2",
    );
    assert_eq!(vm.run(), Outcome::HaltedNormally);
    assert_eq!(vm.registers[2], 200);
    assert_eq!(vm.registers[4], 0);
}

#[test]
fn jmpf_moves_forward_by_the_register() {
    let mut vm = machine("JMPF $0\nHLT\nHLT\nHLT\nHLT\nHLT\nHLT");
    vm.registers[0] = 4;
    assert_eq!(vm.run_once(), Outcome::Running);
    assert_eq!(vm.pc, 5);
}

#[test]
fn jmpb_moves_back_by_the_register() {
    let mut vm = machine("HLT\nHLT\nHLT\nHLT\nHLT\nJMPB $0");
    vm.registers[0] = 4;
    vm.pc = 5;
    assert_eq!(vm.run_once(), Outcome::Running);
    assert_eq!(vm.pc, 2);
}

#[test]
fn jump_faults() {
    let mut vm = machine("JMPB $0");
    vm.registers[0] = 4;
    assert_eq!(vm.run_once(), Outcome::HaltedOnFault(Fault::ProgramCounterUnderflow));

    let mut vm = machine("LOAD $0 #9\nJMP $0");
    assert_eq!(vm.run(), Outcome::HaltedOnFault(Fault::ProgramCounterOverflow));
    assert_eq!(vm.pc, 2);

    let mut vm = machine("LOAD $0 #-1\nJMP $0");
    assert_eq!(vm.run(), Outcome::HaltedOnFault(Fault::ProgramCounterUnderflow));
}

#[test]
fn eq_sets_and_clears_the_flag() {
    let mut vm = machine("EQ $0 $1\nEQ $0 $1");
    vm.registers[0] = 10;
    vm.registers[1] = 10;
    vm.run_once();
    assert!(vm.equal);
    vm.registers[1] = 20;
    vm.run_once();
    assert!(!vm.equal);
}

#[test]
fn comparisons_share_the_flag() {
    let mut vm = machine("LOAD $0 #3\nLOAD $1 #5\nLT $0 $1\nGT $0 $1");
    vm.run_once();
    vm.run_once();
    vm.run_once();
    assert!(vm.equal);
    vm.run_once();
    assert!(!vm.equal);
    let mut vm = machine("LOAD $0 #5\nLOAD $1 #5\nGTQ $0 $1");
    vm.run();
    assert!(vm.equal);
    let mut vm = machine("LOAD $0 #6\nLOAD $1 #5\nLTQ $0 $1");
    vm.run();
    assert!(!vm.equal);
    let mut vm = machine("LOAD $0 #6\nLOAD $1 #5\nNEQ $0 $1");
    vm.run();
    assert!(vm.equal);
}

#[test]
fn jeq_jumps_only_on_the_flag() {
    let mut vm = machine("LOAD $0 #4\nEQ $0 $0\nJEQ $0\nLOAD $1 #1\nLOAD $2 #2");
    vm.run();
    assert_eq!(vm.registers[1], 0);
    assert_eq!(vm.registers[2], 2);
    let mut vm = machine("LOAD $0 #4\nNEQ $0 $0\nJEQ $0\nLOAD $1 #1\nLOAD $2 #2");
    vm.run();
    assert_eq!(vm.registers[1], 1);
}

#[test]
fn illegal_and_halt_are_told_apart() {
    let mut vm = machine("FOO $1");
    assert_eq!(vm.program[0].opcode, Opcode::IGL);
    assert_eq!(vm.run(), Outcome::HaltedOnIllegalOpcode);
    let mut vm = machine("HLT\nLOAD $0 #1");
    assert_eq!(vm.run(), Outcome::HaltedNormally);
    assert_eq!(vm.registers[0], 0);
}

#[test]
fn division_by_zero_faults() {
    let mut vm = machine("LOAD $0 #10\nDIV $0 $1 $2");
    assert_eq!(vm.run(), Outcome::HaltedOnFault(Fault::DivisionByZero));
    assert_eq!(vm.registers[2], 0);
}

#[test]
fn register_index_out_of_range_faults() {
    let mut vm = machine("LOAD $32 #1");
    assert_eq!(vm.run(), Outcome::HaltedOnFault(Fault::RegisterOutOfRange));
    let mut vm = machine("ADD $0 $1 $40");
    assert_eq!(vm.run(), Outcome::HaltedOnFault(Fault::RegisterOutOfRange));
    let mut vm = VM::new();
    let o = vm.execute_instruction(Instruction::new(Opcode::EQ, [0, 99, 0], 0));
    assert_eq!(o, Outcome::HaltedOnFault(Fault::RegisterOutOfRange));
}

#[test]
fn aloc_only_grows_the_heap() {
    let mut vm = machine("LOAD $0 #3\nLOAD $1 #5\nALOC $0\nALOC $1");
    vm.run_once();
    vm.run_once();
    vm.run_once();
    assert_eq!(vm.heap.len(), 3);
    vm.run_once();
    assert_eq!(vm.heap, vec![0u8; 8]);
}

#[test]
fn negative_allocation_faults() {
    let mut vm = machine("LOAD $0 #-1\nALOC $0");
    assert_eq!(vm.run(), Outcome::HaltedOnFault(Fault::NegativeAllocation));
    assert!(vm.heap.is_empty());
}

#[test]
fn exhausted_program_halts_normally() {
    let mut vm = VM::new();
    assert_eq!(vm.run_once(), Outcome::HaltedNormally);
    assert_eq!(vm.read_next_instruction(), None);
    let mut vm = machine("LOAD $0 #1\nJMP $1");
    assert_eq!(vm.run_steps(1), Outcome::Running);
    assert_eq!(vm.pc, 1);
    assert_eq!(vm.run_steps(100), Outcome::Running);
}

#[test]
fn repl_commands_and_instructions() {
    let mut repl = REPL::new();
    assert_eq!(repl.handle("LOAD $0 #5\n"), Action::Executed(Outcome::Running));
    assert_eq!(repl.vm().registers[0], 5);
    assert_eq!(repl.handle("  registers "), Action::ShowRegisters);
    assert_eq!(repl.handle("history"), Action::ShowHistory);
    assert_eq!(repl.handle("program"), Action::ShowProgram);
    assert_eq!(repl.vm().program.len(), 1);
    assert_eq!(repl.handle("BAD"), Action::Executed(Outcome::HaltedOnIllegalOpcode));
    assert_eq!(repl.handle("quit"), Action::Quit);
    let history: Vec<String> =
        repl.command_history().iter().map(|l| l.iter().collect()).collect();
    assert_eq!(history, vec!["LOAD $0 #5", "registers", "history", "program", "BAD", "quit"]);
}
