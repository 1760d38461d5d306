use vstd::prelude::*;
use crate::instruction::{opcode_of_code, Instruction, Opcode};

verus! {

/// Operand byte `k` of the group that starts `b`; missing bytes read as zero.
pub open spec fn operand_byte(b: Seq<u8>, k: int) -> u8 {
    if k < b.len() {
        b[k]
    } else {
        0
    }
}

/// The instruction that the group at the start of `b` (non-empty) encodes.
/// `LOAD` reads a register byte and a big-endian 16-bit immediate; every other
/// opcode reads three register bytes.
pub open spec fn decode_group(b: Seq<u8>) -> Instruction {
    let op = opcode_of_code(b[0] as int);
    let x = operand_byte(b, 1);
    let y = operand_byte(b, 2);
    let z = operand_byte(b, 3);
    if op == Opcode::LOAD {
        Instruction {
            opcode: op,
            registers: [x as usize, 0, 0],
            integer_operand: (y as int * 256 + z as int) as i32,
        }
    } else {
        Instruction { opcode: op, registers: [x as usize, y as usize, z as usize], integer_operand: 0 }
    }
}

/// Bytes taken by the group at the start of `b`.
pub open spec fn group_len(b: Seq<u8>) -> int {
    if b.len() < 4 {
        b.len() as int
    } else {
        4
    }
}

/// The instructions that a byte stream encodes, one group after another.
pub open spec fn decode_bytes(b: Seq<u8>) -> Seq<Instruction>
    decreases b.len(),
{
    if b.len() == 0 {
        Seq::empty()
    } else {
        seq![decode_group(b)] + decode_bytes(b.skip(group_len(b)))
    }
}

/// Decodes the group that starts at byte `at`.
pub fn decode_instruction(bytes: &[u8], at: usize) -> (r: Instruction)
    requires
        at < bytes@.len(),
    ensures
        r == decode_group(bytes@.skip(at as int)),
{
    let ghost g = bytes@.skip(at as int);
    let n = bytes.len();
    let op = Opcode::from(bytes[at]);
    let x: u8 = if n - at > 1 { bytes[at + 1] } else { 0 };
    let y: u8 = if n - at > 2 { bytes[at + 2] } else { 0 };
    let z: u8 = if n - at > 3 { bytes[at + 3] } else { 0 };
    assert(x == operand_byte(g, 1) && y == operand_byte(g, 2) && z == operand_byte(g, 3));
    if op == Opcode::LOAD {
        Instruction { opcode: op, registers: [x as usize, 0, 0], integer_operand: y as i32 * 256 + z as i32 }
    } else {
        Instruction { opcode: op, registers: [x as usize, y as usize, z as usize], integer_operand: 0 }
    }
}

/// Decodes a whole byte stream into its instructions, so that the machine
/// always counts `pc` in instructions.
pub fn decode_program(bytes: &[u8]) -> (r: Vec<Instruction>)
    ensures
        r@ == decode_bytes(bytes@),
{
    let mut out: Vec<Instruction> = Vec::new();
    let mut i: usize = 0;
    assert(bytes@.skip(0) =~= bytes@);
    while i < bytes.len()
        invariant
            i <= bytes@.len(),
            decode_bytes(bytes@) == out@ + decode_bytes(bytes@.skip(i as int)),
        decreases bytes@.len() - i,
    {
        let ghost rest = bytes@.skip(i as int);
        let ins = decode_instruction(bytes, i);
        let step: usize = if bytes.len() - i < 4 { bytes.len() - i } else { 4 };
        assert(rest.skip(group_len(rest)) =~= bytes@.skip(i + step));
        out.push(ins);
        i = i + step;
    }
    assert(bytes@.skip(i as int) =~= Seq::<u8>::empty());
    assert(out@ + Seq::<Instruction>::empty() =~= out@);
    out
}

} // verus!
