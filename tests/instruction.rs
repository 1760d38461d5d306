use lang_vm::binary::{decode_instruction, decode_program};
use lang_vm::instruction::{Instruction, Opcode};

#[test]
fn test_create_hlt() {
    let opcode = Opcode::HLT;
    assert_eq!(opcode, Opcode::HLT);
}

#[test]
fn opcode_from_byte_covers_the_table() {
    assert_eq!(Opcode::from(0u8), Opcode::HLT);
    assert_eq!(Opcode::from(1u8), Opcode::LOAD);
    assert_eq!(Opcode::from(5u8), Opcode::DIV);
    assert_eq!(Opcode::from(15u8), Opcode::JEQ);
    assert_eq!(Opcode::from(18u8), Opcode::DEC);
    assert_eq!(Opcode::from(19u8), Opcode::IGL);
    assert_eq!(Opcode::from(200u8), Opcode::IGL);
}

#[test]
fn opcode_codes_round_trip() {
    for b in 0u8..=18 {
        let op = Opcode::from(b);
        assert_ne!(op, Opcode::IGL);
        assert_eq!(op.to_code(), b);
    }
}

#[test]
fn opcode_from_mnemonic() {
    assert_eq!(Opcode::from("LOAD"), Opcode::LOAD);
    assert_eq!(Opcode::from("JMPF"), Opcode::JMPF);
    assert_eq!(Opcode::from("GTQ"), Opcode::GTQ);
    assert_eq!(Opcode::from("ALOC"), Opcode::ALOC);
    assert_eq!(Opcode::from(String::from("DEC")), Opcode::DEC);
    assert_eq!(Opcode::from("load"), Opcode::IGL);
    assert_eq!(Opcode::from("FOO"), Opcode::IGL);
    assert_eq!(Opcode::from(""), Opcode::IGL);
}

#[test]
fn instruction_new_keeps_fields() {
    let i = Instruction::new(Opcode::ADD, [1, 2, 3], 7);
    assert_eq!(i.opcode, Opcode::ADD);
    assert_eq!(i.registers, [1, 2, 3]);
    assert_eq!(i.integer_operand, 7);
}

#[test]
fn binary_load_reads_big_endian_immediate() {
    let program = decode_program(&[1, 0, 1, 244]);
    assert_eq!(program, vec![Instruction::new(Opcode::LOAD, [0, 0, 0], 500)]);
}

#[test]
fn binary_groups_of_four() {
    let program = decode_program(&[2, 0, 1, 2, 200, 0, 0, 0, 0, 0, 0, 0]);
    assert_eq!(
        program,
        vec![
            Instruction::new(Opcode::ADD, [0, 1, 2], 0),
            Instruction::new(Opcode::IGL, [0, 0, 0], 0),
            Instruction::new(Opcode::HLT, [0, 0, 0], 0),
        ]
    );
}

#[test]
fn binary_short_final_group_is_zero_padded() {
    let program = decode_program(&[6, 3, 9, 2, 7]);
    assert_eq!(
        program,
        vec![
            Instruction::new(Opcode::JMP, [3, 9, 2], 0),
            Instruction::new(Opcode::JMPF, [0, 0, 0], 0),
        ]
    );
    assert_eq!(decode_instruction(&[1, 4, 1], 0), Instruction::new(Opcode::LOAD, [4, 0, 0], 256));
    assert!(decode_program(&[]).is_empty());
}
