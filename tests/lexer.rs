use lang_vm::instruction::{Instruction, Opcode};
use lang_vm::lexer::{decode_line, parse_program, Lexer};

fn line(s: &str) -> Instruction {
    let cs: Vec<char> = s.chars().collect();
    decode_line(&cs)
}

#[test]
fn decodes_registers_and_immediates() {
    assert_eq!(line("LOAD $0 #100"), Instruction::new(Opcode::LOAD, [0, 0, 0], 100));
    assert_eq!(line("ADD $0 $1 $2"), Instruction::new(Opcode::ADD, [0, 1, 2], 0));
    assert_eq!(line("  LOAD\t$7   #-42 "), Instruction::new(Opcode::LOAD, [7, 0, 0], -42));
    assert_eq!(line("LOAD $1 #2147483647"), Instruction::new(Opcode::LOAD, [1, 0, 0], i32::MAX));
    assert_eq!(line("LOAD $1 #-2147483648"), Instruction::new(Opcode::LOAD, [1, 0, 0], i32::MIN));
}

#[test]
fn labels_and_directives_are_ignored() {
    assert_eq!(line("start: LOAD $3 #9"), Instruction::new(Opcode::LOAD, [3, 0, 0], 9));
    assert_eq!(line(".code ADD $1 @x $2 $3"), Instruction::new(Opcode::ADD, [1, 2, 3], 0));
}

#[test]
fn unknown_or_missing_mnemonic_is_illegal() {
    let igl = Instruction::new(Opcode::IGL, [0, 0, 0], 0);
    assert_eq!(line("FOO $1 $2"), igl);
    assert_eq!(line(""), igl);
    assert_eq!(line("$1 #4"), igl);
}

#[test]
fn malformed_operands_are_illegal() {
    let igl = Instruction::new(Opcode::IGL, [0, 0, 0], 0);
    assert_eq!(line("LOAD $x #1"), igl);
    assert_eq!(line("LOAD $0 #"), igl);
    assert_eq!(line("LOAD $0 #2147483648"), igl);
    assert_eq!(line("ADD $0 $1 $2 $3"), igl);
}

#[test]
fn lexer_reads_one_line_per_call() {
    let mut lexer = Lexer::new(String::from("LOAD $0 #5\nHLT"));
    assert_eq!(lexer.next_line(), Some(Instruction::new(Opcode::LOAD, [0, 0, 0], 5)));
    assert_eq!(lexer.next_line(), Some(Instruction::new(Opcode::HLT, [0, 0, 0], 0)));
    assert_eq!(lexer.next_line(), None);
    assert_eq!(lexer.next_line(), None);
}

#[test]
fn parse_program_decodes_every_line() {
    let program = parse_program(String::from("LOAD $0 #1\n\nJMP $0"));
    assert_eq!(
        program,
        vec![
            Instruction::new(Opcode::LOAD, [0, 0, 0], 1),
            Instruction::new(Opcode::IGL, [0, 0, 0], 0),
            Instruction::new(Opcode::JMP, [0, 0, 0], 0),
        ]
    );
}
