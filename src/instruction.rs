use vstd::prelude::*;
use crate::text::{chars_of, same_chars};

verus! {

/// The operations of the machine. `IGL` is the sentinel for an unrecognised
/// byte or mnemonic; it has no numeric code.
#[derive(Debug, PartialEq, Eq, Structural, Clone, Copy)]
pub enum Opcode {
    HLT,
    IGL,
    LOAD,
    ADD,
    SUB,
    MUL,
    DIV,
    JMP,
    JMPF,
    JMPB,
    EQ,
    NEQ,
    GT,
    LT,
    GTQ,
    LTQ,
    JEQ,
    ALOC,
    INC,
    DEC,
}

/// The numeric code of a real opcode; `IGL` has none.
pub open spec fn code(op: Opcode) -> int {
    match op {
        Opcode::HLT => 0,
        Opcode::LOAD => 1,
        Opcode::ADD => 2,
        Opcode::SUB => 3,
        Opcode::MUL => 4,
        Opcode::DIV => 5,
        Opcode::JMP => 6,
        Opcode::JMPF => 7,
        Opcode::JMPB => 8,
        Opcode::EQ => 9,
        Opcode::NEQ => 10,
        Opcode::GT => 11,
        Opcode::LT => 12,
        Opcode::GTQ => 13,
        Opcode::LTQ => 14,
        Opcode::JEQ => 15,
        Opcode::ALOC => 16,
        Opcode::INC => 17,
        Opcode::DEC => 18,
        Opcode::IGL => -1,
    }
}

/// The opcode with numeric code `b`, or `IGL` when there is none.
pub open spec fn opcode_of_code(b: int) -> Opcode {
    if b == 0 {
        Opcode::HLT
    } else     if b == 1 {
        Opcode::LOAD
    } else     if b == 2 {
        Opcode::ADD
    } else     if b == 3 {
        Opcode::SUB
    } else     if b == 4 {
        Opcode::MUL
    } else     if b == 5 {
        Opcode::DIV
    } else     if b == 6 {
        Opcode::JMP
    } else     if b == 7 {
        Opcode::JMPF
    } else     if b == 8 {
        Opcode::JMPB
    } else     if b == 9 {
        Opcode::EQ
    } else     if b == 10 {
        Opcode::NEQ
    } else     if b == 11 {
        Opcode::GT
    } else     if b == 12 {
        Opcode::LT
    } else     if b == 13 {
        Opcode::GTQ
    } else     if b == 14 {
        Opcode::LTQ
    } else     if b == 15 {
        Opcode::JEQ
    } else     if b == 16 {
        Opcode::ALOC
    } else     if b == 17 {
        Opcode::INC
    } else     if b == 18 {
        Opcode::DEC
    } else {
        Opcode::IGL
    }
}

/// The textual mnemonic of a real opcode; `IGL` has none.
pub open spec fn mnemonic(op: Opcode) -> Seq<char> {
    match op {
        Opcode::HLT => seq!['H', 'L', 'T'],
        Opcode::LOAD => seq!['L', 'O', 'A', 'D'],
        Opcode::ADD => seq!['A', 'D', 'D'],
        Opcode::SUB => seq!['S', 'U', 'B'],
        Opcode::MUL => seq!['M', 'U', 'L'],
        Opcode::DIV => seq!['D', 'I', 'V'],
        Opcode::JMP => seq!['J', 'M', 'P'],
        Opcode::JMPF => seq!['J', 'M', 'P', 'F'],
        Opcode::JMPB => seq!['J', 'M', 'P', 'B'],
        Opcode::EQ => seq!['E', 'Q'],
        Opcode::NEQ => seq!['N', 'E', 'Q'],
        Opcode::GT => seq!['G', 'T'],
        Opcode::LT => seq!['L', 'T'],
        Opcode::GTQ => seq!['G', 'T', 'Q'],
        Opcode::LTQ => seq!['L', 'T', 'Q'],
        Opcode::JEQ => seq!['J', 'E', 'Q'],
        Opcode::ALOC => seq!['A', 'L', 'O', 'C'],
        Opcode::INC => seq!['I', 'N', 'C'],
        Opcode::DEC => seq!['D', 'E', 'C'],
        Opcode::IGL => seq![],
    }
}

/// The opcode with mnemonic `s`, or `IGL` when there is none.
pub open spec fn opcode_of_mnemonic(s: Seq<char>) -> Opcode {
    if s == mnemonic(Opcode::HLT) {
        Opcode::HLT
    } else     if s == mnemonic(Opcode::LOAD) {
        Opcode::LOAD
    } else     if s == mnemonic(Opcode::ADD) {
        Opcode::ADD
    } else     if s == mnemonic(Opcode::SUB) {
        Opcode::SUB
    } else     if s == mnemonic(Opcode::MUL) {
        Opcode::MUL
    } else     if s == mnemonic(Opcode::DIV) {
        Opcode::DIV
    } else     if s == mnemonic(Opcode::JMP) {
        Opcode::JMP
    } else     if s == mnemonic(Opcode::JMPF) {
        Opcode::JMPF
    } else     if s == mnemonic(Opcode::JMPB) {
        Opcode::JMPB
    } else     if s == mnemonic(Opcode::EQ) {
        Opcode::EQ
    } else     if s == mnemonic(Opcode::NEQ) {
        Opcode::NEQ
    } else     if s == mnemonic(Opcode::GT) {
        Opcode::GT
    } else     if s == mnemonic(Opcode::LT) {
        Opcode::LT
    } else     if s == mnemonic(Opcode::GTQ) {
        Opcode::GTQ
    } else     if s == mnemonic(Opcode::LTQ) {
        Opcode::LTQ
    } else     if s == mnemonic(Opcode::JEQ) {
        Opcode::JEQ
    } else     if s == mnemonic(Opcode::ALOC) {
        Opcode::ALOC
    } else     if s == mnemonic(Opcode::INC) {
        Opcode::INC
    } else     if s == mnemonic(Opcode::DEC) {
        Opcode::DEC
    } else {
        Opcode::IGL
    }
}

/// Code and opcode are inverse to each other: every real opcode comes back
/// from its code, every byte in `0..=18` comes back from its opcode, and
/// every other byte is the sentinel.
pub proof fn lemma_code_bijection(op: Opcode, b: int)
    ensures
        op != Opcode::IGL ==> 0 <= code(op) <= 18 && opcode_of_code(code(op)) == op,
        0 <= b <= 18 ==> opcode_of_code(b) != Opcode::IGL && code(opcode_of_code(b)) == b,
        !(0 <= b <= 18) ==> opcode_of_code(b) == Opcode::IGL,
{
}

/// Mnemonic and opcode are inverse to each other on the real opcodes.
pub proof fn lemma_mnemonic_round_trip(op: Opcode)
    requires
        op != Opcode::IGL,
    ensures
        opcode_of_mnemonic(mnemonic(op)) == op,
{
    assert forall|x: Opcode| x != Opcode::IGL && x != op implies mnemonic(x) != mnemonic(op) by {
        lemma_mnemonics_distinct(x, op);
    }
}

/// Distinct real opcodes have distinct mnemonics: length, first and last
/// character already tell them apart.
proof fn lemma_mnemonics_distinct(a: Opcode, b: Opcode)
    requires
        a != Opcode::IGL,
        b != Opcode::IGL,
        a != b,
    ensures
        mnemonic(a) != mnemonic(b),
{
    let x = mnemonic(a);
    let y = mnemonic(b);
    assert(x.len() != y.len() || x[0] != y[0] || x[x.len() - 1] != y[y.len() - 1]);
}

impl Opcode {
    /// The numeric code of a real opcode.
    pub fn to_code(self) -> (r: u8)
        requires
            self != Opcode::IGL,
        ensures
            r == code(self),
    {
        match self {
            Opcode::HLT => 0,
            Opcode::LOAD => 1,
            Opcode::ADD => 2,
            Opcode::SUB => 3,
            Opcode::MUL => 4,
            Opcode::DIV => 5,
            Opcode::JMP => 6,
            Opcode::JMPF => 7,
            Opcode::JMPB => 8,
            Opcode::EQ => 9,
            Opcode::NEQ => 10,
            Opcode::GT => 11,
            Opcode::LT => 12,
            Opcode::GTQ => 13,
            Opcode::LTQ => 14,
            Opcode::JEQ => 15,
            Opcode::ALOC => 16,
            Opcode::INC => 17,
            Opcode::DEC => 18,
            Opcode::IGL => 0,
        }
    }

    /// The opcode named by `s`, or `IGL` for an unknown mnemonic.
    pub fn from_mnemonic(s: &[char]) -> (r: Opcode)
        ensures
            r == opcode_of_mnemonic(s@),
    {
        if same_chars(s, &['H', 'L', 'T']) {
            Opcode::HLT
        } else         if same_chars(s, &['L', 'O', 'A', 'D']) {
            Opcode::LOAD
        } else         if same_chars(s, &['A', 'D', 'D']) {
            Opcode::ADD
        } else         if same_chars(s, &['S', 'U', 'B']) {
            Opcode::SUB
        } else         if same_chars(s, &['M', 'U', 'L']) {
            Opcode::MUL
        } else         if same_chars(s, &['D', 'I', 'V']) {
            Opcode::DIV
        } else         if same_chars(s, &['J', 'M', 'P']) {
            Opcode::JMP
        } else         if same_chars(s, &['J', 'M', 'P', 'F']) {
            Opcode::JMPF
        } else         if same_chars(s, &['J', 'M', 'P', 'B']) {
            Opcode::JMPB
        } else         if same_chars(s, &['E', 'Q']) {
            Opcode::EQ
        } else         if same_chars(s, &['N', 'E', 'Q']) {
            Opcode::NEQ
        } else         if same_chars(s, &['G', 'T']) {
            Opcode::GT
        } else         if same_chars(s, &['L', 'T']) {
            Opcode::LT
        } else         if same_chars(s, &['G', 'T', 'Q']) {
            Opcode::GTQ
        } else         if same_chars(s, &['L', 'T', 'Q']) {
            Opcode::LTQ
        } else         if same_chars(s, &['J', 'E', 'Q']) {
            Opcode::JEQ
        } else         if same_chars(s, &['A', 'L', 'O', 'C']) {
            Opcode::ALOC
        } else         if same_chars(s, &['I', 'N', 'C']) {
            Opcode::INC
        } else         if same_chars(s, &['D', 'E', 'C']) {
            Opcode::DEC
        } else {
            Opcode::IGL
        }
    }
}

impl From<u8> for Opcode {
    fn from(byte: u8) -> (r: Opcode) {
        match byte {
            0 => Opcode::HLT,
            1 => Opcode::LOAD,
            2 => Opcode::ADD,
            3 => Opcode::SUB,
            4 => Opcode::MUL,
            5 => Opcode::DIV,
            6 => Opcode::JMP,
            7 => Opcode::JMPF,
            8 => Opcode::JMPB,
            9 => Opcode::EQ,
            10 => Opcode::NEQ,
            11 => Opcode::GT,
            12 => Opcode::LT,
            13 => Opcode::GTQ,
            14 => Opcode::LTQ,
            15 => Opcode::JEQ,
            16 => Opcode::ALOC,
            17 => Opcode::INC,
            18 => Opcode::DEC,
            _ => Opcode::IGL,
        }
    }
}

impl vstd::std_specs::convert::FromSpecImpl<u8> for Opcode {
    open spec fn obeys_from_spec() -> bool {
        true
    }

    open spec fn from_spec(byte: u8) -> Opcode {
        opcode_of_code(byte as int)
    }
}

impl From<&str> for Opcode {
    fn from(s: &str) -> (r: Opcode) {
        let cs = chars_of(s);
        Opcode::from_mnemonic(cs.as_slice())
    }
}

impl vstd::std_specs::convert::FromSpecImpl<&str> for Opcode {
    open spec fn obeys_from_spec() -> bool {
        true
    }

    open spec fn from_spec(s: &str) -> Opcode {
        opcode_of_mnemonic(s@)
    }
}

impl From<String> for Opcode {
    fn from(s: String) -> (r: Opcode) {
        let cs = chars_of(s.as_str());
        Opcode::from_mnemonic(cs.as_slice())
    }
}

impl vstd::std_specs::convert::FromSpecImpl<String> for Opcode {
    open spec fn obeys_from_spec() -> bool {
        true
    }

    open spec fn from_spec(s: String) -> Opcode {
        opcode_of_mnemonic(s@)
    }
}

/// One decoded instruction: an opcode, three register-index slots and one
/// immediate. Which slots an opcode reads is fixed by the opcode.
#[derive(Debug, PartialEq, Eq, Clone, Copy)]
pub struct Instruction {
    pub opcode: Opcode,
    pub registers: [usize; 3],
    pub integer_operand: i32,
}

impl Instruction {
    pub fn new(opcode: Opcode, registers: [usize; 3], integer_operand: i32) -> (r: Instruction)
        ensures
            r.opcode == opcode,
            r.registers == registers,
            r.integer_operand == integer_operand,
    {
        Instruction { opcode, registers, integer_operand }
    }
}

} // verus!
