use vstd::prelude::*;
use crate::instruction::{Instruction, Opcode};
use vstd::arithmetic::div_mod::{lemma_div_is_ordered_by_denominator, lemma_div_pos_is_pos, lemma_mod_pos_bound};

verus! {

/// Number of general-purpose registers.
pub const REGISTER_COUNT: usize = 32;

/// A fatal condition that stops the machine.
#[derive(Debug, PartialEq, Eq, Structural, Clone, Copy)]
pub enum Fault {
    /// A register operand names a register at or above `REGISTER_COUNT`.
    RegisterOutOfRange,
    /// `DIV` with a zero divisor.
    DivisionByZero,
    /// A jump target below instruction index zero.
    ProgramCounterUnderflow,
    /// A jump target past the end of the program.
    ProgramCounterOverflow,
    /// `ALOC` with a negative byte count.
    NegativeAllocation,
}

/// What one step (or a run) of the machine reports.
#[derive(Debug, PartialEq, Eq, Structural, Clone, Copy)]
pub enum Outcome {
    /// The machine can go on.
    Running,
    /// `HLT` was executed, or the program was exhausted.
    HaltedNormally,
    /// An `IGL` instruction was executed.
    HaltedOnIllegalOpcode,
    /// A fatal condition stopped the machine.
    HaltedOnFault(Fault),
}

/// The abstract state of a machine.
pub struct Machine {
    pub registers: Seq<i32>,
    pub pc: int,
    pub program: Seq<Instruction>,
    pub heap: Seq<u8>,
    pub remainder: u32,
    pub equal: bool,
}

/// How many leading register slots an opcode reads or writes.
pub open spec fn register_operands(op: Opcode) -> int {
    match op {
        Opcode::HLT | Opcode::IGL => 0,
        Opcode::LOAD | Opcode::JMP | Opcode::JMPF | Opcode::JMPB | Opcode::JEQ | Opcode::ALOC
        | Opcode::INC | Opcode::DEC => 1,
        Opcode::EQ | Opcode::NEQ | Opcode::GT | Opcode::LT | Opcode::GTQ | Opcode::LTQ => 2,
        Opcode::ADD | Opcode::SUB | Opcode::MUL | Opcode::DIV => 3,
    }
}

/// Every register slot that the instruction's opcode uses names a register.
pub open spec fn operands_in_range(ins: Instruction) -> bool {
    forall|k: int| 0 <= k < register_operands(ins.opcode) ==> ins.registers@[k] < REGISTER_COUNT
}

/// Division rounding toward zero.
pub open spec fn trunc_div(x: int, d: int) -> int {
    if x == 0 {
        0
    } else if x > 0 && d > 0 {
        x / d
    } else if x < 0 && d < 0 {
        (-x) / (-d)
    } else if x < 0 {
        -((-x) / d)
    } else {
        -(x / (-d))
    }
}

/// The remainder of division rounding toward zero; it has the sign of `x`.
pub open spec fn trunc_rem(x: int, d: int) -> int {
    if x == 0 {
        0
    } else if x > 0 && d > 0 {
        x % d
    } else if x < 0 && d < 0 {
        -((-x) % (-d))
    } else if x < 0 {
        -((-x) % d)
    } else {
        x % (-d)
    }
}

/// The quotient `DIV` stores: rounded toward zero, wrapping in the one case
/// (`i32::MIN / -1`) that leaves the range.
pub open spec fn quotient(a: i32, b: i32) -> i32 {
    if b == -1 {
        vstd::wrapping::i32_specs::wrapping_sub(0, a)
    } else {
        trunc_div(a as int, b as int) as i32
    }
}

/// The remainder `DIV` stores, as the bits of an `i32` read as a `u32`.
pub open spec fn remainder_bits(a: i32, b: i32) -> u32 {
    if b == -1 {
        0
    } else {
        (trunc_rem(a as int, b as int) as i32) as u32
    }
}

/// The machine with register `r` set to `v`.
pub open spec fn with_register(m: Machine, r: int, v: i32) -> Machine {
    Machine { registers: m.registers.update(r, v), ..m }
}

/// A jump to instruction index `target`, checked against the program bounds.
pub open spec fn jump(m: Machine, target: int) -> (Machine, Outcome) {
    if target < 0 {
        (m, Outcome::HaltedOnFault(Fault::ProgramCounterUnderflow))
    } else if target > m.program.len() {
        (m, Outcome::HaltedOnFault(Fault::ProgramCounterOverflow))
    } else {
        (Machine { pc: target, ..m }, Outcome::Running)
    }
}

/// `n` zero bytes.
pub open spec fn zeros(n: nat) -> Seq<u8> {
    Seq::new(n, |i: int| 0u8)
}

/// The effect of executing `ins` on `m` (whose `pc` is already past `ins`).
pub open spec fn execute(m: Machine, ins: Instruction) -> (Machine, Outcome) {
    let ra = ins.registers@[0] as int;
    let rb = ins.registers@[1] as int;
    let rd = ins.registers@[2] as int;
    let a = m.registers[ra];
    let b = m.registers[rb];
    if !operands_in_range(ins) {
        (m, Outcome::HaltedOnFault(Fault::RegisterOutOfRange))
    } else {
        match ins.opcode {
            Opcode::HLT => (m, Outcome::HaltedNormally),
            Opcode::IGL => (m, Outcome::HaltedOnIllegalOpcode),
            Opcode::LOAD => (with_register(m, ra, ins.integer_operand), Outcome::Running),
            Opcode::ADD => (
                with_register(m, rd, vstd::wrapping::i32_specs::wrapping_add(a, b)),
                Outcome::Running,
            ),
            Opcode::SUB => (
                with_register(m, rd, vstd::wrapping::i32_specs::wrapping_sub(a, b)),
                Outcome::Running,
            ),
            Opcode::MUL => (
                with_register(m, rd, vstd::wrapping::i32_specs::wrapping_mul(a, b)),
                Outcome::Running,
            ),
            Opcode::DIV => if b == 0 {
                (m, Outcome::HaltedOnFault(Fault::DivisionByZero))
            } else {
                (
                    Machine {
                        remainder: remainder_bits(a, b),
                        ..with_register(m, rd, quotient(a, b))
                    },
                    Outcome::Running,
                )
            },
            Opcode::JMP => jump(m, a as int),
            Opcode::JMPF => jump(m, m.pc + a),
            Opcode::JMPB => jump(m, m.pc - a),
            Opcode::EQ => (Machine { equal: a == b, ..m }, Outcome::Running),
            Opcode::NEQ => (Machine { equal: a != b, ..m }, Outcome::Running),
            Opcode::GT => (Machine { equal: a > b, ..m }, Outcome::Running),
            Opcode::LT => (Machine { equal: a < b, ..m }, Outcome::Running),
            Opcode::GTQ => (Machine { equal: a >= b, ..m }, Outcome::Running),
            Opcode::LTQ => (Machine { equal: a <= b, ..m }, Outcome::Running),
            Opcode::JEQ => if m.equal {
                jump(m, a as int)
            } else {
                (m, Outcome::Running)
            },
            Opcode::ALOC => if a < 0 {
                (m, Outcome::HaltedOnFault(Fault::NegativeAllocation))
            } else {
                (Machine { heap: m.heap + zeros(a as nat), ..m }, Outcome::Running)
            },
            Opcode::INC => (
                with_register(m, ra, vstd::wrapping::i32_specs::wrapping_add(a, 1)),
                Outcome::Running,
            ),
            Opcode::DEC => (
                with_register(m, ra, vstd::wrapping::i32_specs::wrapping_sub(a, 1)),
                Outcome::Running,
            ),
        }
    }
}

/// One fetch-decode-execute step: an exhausted program halts normally.
pub open spec fn step(m: Machine) -> (Machine, Outcome) {
    if 0 <= m.pc < m.program.len() {
        execute(Machine { pc: m.pc + 1, ..m }, m.program[m.pc])
    } else {
        (m, Outcome::HaltedNormally)
    }
}

/// At most `fuel` steps, stopping at the first that does not report `Running`.
pub open spec fn run_steps_spec(m: Machine, fuel: nat) -> (Machine, Outcome)
    decreases fuel,
{
    if fuel == 0 {
        (m, Outcome::Running)
    } else {
        let (m2, o) = step(m);
        if o == Outcome::Running {
            run_steps_spec(m2, (fuel - 1) as nat)
        } else {
            (m2, o)
        }
    }
}

/// `LOAD` into any register puts the immediate there and leaves every other
/// register as it was.
pub proof fn lemma_load_sets_register(m: Machine, ins: Instruction)
    requires
        ins.opcode == Opcode::LOAD,
        ins.registers@[0] < REGISTER_COUNT,
        m.registers.len() == REGISTER_COUNT,
    ensures
        execute(m, ins).1 == Outcome::Running,
        execute(m, ins).0.registers[ins.registers@[0] as int] == ins.integer_operand,
        forall|k: int|
            0 <= k < REGISTER_COUNT && k != ins.registers@[0] ==> execute(m, ins).0.registers[k]
                == m.registers[k],
{
}

/// `IGL` halts on an illegal opcode and `HLT` halts normally: the two are
/// told apart.
pub proof fn lemma_illegal_differs_from_halt(m: Machine, ins: Instruction)
    ensures
        ins.opcode == Opcode::IGL ==> execute(m, ins) == (m, Outcome::HaltedOnIllegalOpcode),
        ins.opcode == Opcode::HLT ==> execute(m, ins) == (m, Outcome::HaltedNormally),
        Outcome::HaltedOnIllegalOpcode != Outcome::HaltedNormally,
{
}

/// `DIV` by a register holding zero faults with `DivisionByZero` and changes
/// nothing.
pub proof fn lemma_division_by_zero_faults(m: Machine, ins: Instruction)
    requires
        ins.opcode == Opcode::DIV,
        operands_in_range(ins),
        m.registers.len() == REGISTER_COUNT,
        m.registers[ins.registers@[1] as int] == 0,
    ensures
        execute(m, ins) == (m, Outcome::HaltedOnFault(Fault::DivisionByZero)),
{
}

/// A register slot that the opcode uses and that names no register makes the
/// instruction fault with `RegisterOutOfRange`, changing nothing.
pub proof fn lemma_register_out_of_range_faults(m: Machine, ins: Instruction, k: int)
    requires
        0 <= k < register_operands(ins.opcode),
        ins.registers@[k] >= REGISTER_COUNT,
    ensures
        execute(m, ins) == (m, Outcome::HaltedOnFault(Fault::RegisterOutOfRange)),
{
}

/// No step shrinks the heap or changes the bytes already in it.
pub proof fn lemma_heap_only_grows(m: Machine)
    ensures
        step(m).0.heap.len() >= m.heap.len(),
        step(m).0.heap.subrange(0, m.heap.len() as int) == m.heap,
{
    let m2 = step(m).0;
    assert(m2.heap.subrange(0, m.heap.len() as int) =~= m.heap);
}

/// Two `ALOC` steps with positive amounts each make the heap longer, by
/// exactly those amounts.
pub proof fn lemma_allocations_grow(m: Machine, first: Instruction, second: Instruction)
    requires
        first.opcode == Opcode::ALOC,
        second.opcode == Opcode::ALOC,
        operands_in_range(first),
        operands_in_range(second),
        m.registers.len() == REGISTER_COUNT,
        m.registers[first.registers@[0] as int] > 0,
        m.registers[second.registers@[0] as int] > 0,
    ensures
        ({
            let (m1, o1) = execute(m, first);
            let (m2, o2) = execute(m1, second);
            &&& o1 == Outcome::Running
            &&& o2 == Outcome::Running
            &&& m.heap.len() < m1.heap.len() < m2.heap.len()
            &&& m1.heap.len() == m.heap.len() + m.registers[first.registers@[0] as int]
            &&& m2.heap.len() == m1.heap.len() + m.registers[second.registers@[0] as int]
        }),
{
}

/// A step keeps the register file at `REGISTER_COUNT` registers, the program
/// as it is, and `pc` within `0..=program length` when it started there.
pub proof fn lemma_step_keeps_bounds(m: Machine)
    requires
        m.registers.len() == REGISTER_COUNT,
        0 <= m.pc <= m.program.len(),
    ensures
        step(m).0.registers.len() == REGISTER_COUNT,
        step(m).0.program == m.program,
        0 <= step(m).0.pc <= m.program.len(),
{
}

/// The register-based virtual machine.
#[derive(Debug)]
pub struct VM {
    pub registers: [i32; 32],
    pub pc: usize,
    pub program: Vec<Instruction>,
    pub heap: Vec<u8>,
    pub remainder: u32,
    pub equal: bool,
}

impl View for VM {
    type V = Machine;

    open spec fn view(&self) -> Machine {
        Machine {
            registers: self.registers@,
            pc: self.pc as int,
            program: self.program@,
            heap: self.heap@,
            remainder: self.remainder,
            equal: self.equal,
        }
    }
}

impl VM {
    /// The state of a fresh machine.
    pub open spec fn new_spec() -> Machine {
        Machine {
            registers: Seq::new(32, |i: int| 0i32),
            pc: 0,
            program: Seq::empty(),
            heap: Seq::empty(),
            remainder: 0,
            equal: false,
        }
    }

    /// A machine with zeroed registers, an empty program and an empty heap.
    pub fn new() -> (r: VM)
        ensures
            r@ == VM::new_spec(),
    {
        let r = VM {
            registers: [0i32; 32],
            pc: 0,
            program: Vec::new(),
            heap: Vec::new(),
            remainder: 0,
            equal: false,
        };
        assert(r.registers@ =~= Seq::new(32, |i: int| 0i32));
        r
    }
}

/// Whether the register slots that `ins` uses all name registers.
fn operands_valid(ins: Instruction) -> (r: bool)
    ensures
        r == operands_in_range(ins),
{
    let n: usize = match ins.opcode {
        Opcode::HLT | Opcode::IGL => 0,
        Opcode::LOAD | Opcode::JMP | Opcode::JMPF | Opcode::JMPB | Opcode::JEQ | Opcode::ALOC
        | Opcode::INC | Opcode::DEC => 1,
        Opcode::EQ | Opcode::NEQ | Opcode::GT | Opcode::LT | Opcode::GTQ | Opcode::LTQ => 2,
        Opcode::ADD | Opcode::SUB | Opcode::MUL | Opcode::DIV => 3,
    };
    (n < 1 || ins.registers[0] < REGISTER_COUNT) && (n < 2 || ins.registers[1] < REGISTER_COUNT)
        && (n < 3 || ins.registers[2] < REGISTER_COUNT)
}

/// Quotient and remainder bits of `a / b`, as `DIV` stores them.
fn divide(a: i32, b: i32) -> (r: (i32, u32))
    requires
        b != 0,
    ensures
        r.0 == quotient(a, b),
        r.1 == remainder_bits(a, b),
{
    if b == -1 {
        return (0i32.wrapping_sub(a), 0);
    }
    let ghost x = a as int;
    let ghost d = b as int;
    proof {
        if x > 0 && d > 0 {
            lemma_div_is_ordered_by_denominator(x, 1, d);
            lemma_div_pos_is_pos(x, d);
            lemma_mod_pos_bound(x, d);
        } else if x < 0 && d < 0 {
            lemma_div_is_ordered_by_denominator(-x, 2, -d);
            lemma_div_pos_is_pos(-x, -d);
            lemma_mod_pos_bound(-x, -d);
        } else if x < 0 && d > 0 {
            lemma_div_is_ordered_by_denominator(-x, 1, d);
            lemma_div_pos_is_pos(-x, d);
            lemma_mod_pos_bound(-x, d);
        } else if x > 0 {
            lemma_div_is_ordered_by_denominator(x, 1, -d);
            lemma_div_pos_is_pos(x, -d);
            lemma_mod_pos_bound(x, -d);
        }
    }
    let q = a.checked_div(b).unwrap();
    let rem = a.checked_rem(b).unwrap();
    (q, rem as u32)
}

impl VM {
    /// Appends one instruction to the program.
    pub fn add_instruction(&mut self, instruction: Instruction)
        ensures
            final(self)@ == (Machine { program: old(self)@.program.push(instruction), ..old(self)@ }),
    {
        self.program.push(instruction);
    }

    /// Fetches the instruction at `pc` and moves `pc` past it; `None` once
    /// the program is exhausted.
    pub fn read_next_instruction(&mut self) -> (r: Option<Instruction>)
        ensures
            old(self)@.pc < old(self)@.program.len() ==> r == Some(old(self)@.program[old(self)@.pc])
                && final(self)@ == (Machine { pc: old(self)@.pc + 1, ..old(self)@ }),
            old(self)@.pc >= old(self)@.program.len() ==> r is None && final(self)@ == old(self)@,
    {
        if self.pc >= self.program.len() {
            return None;
        }
        let instruction = self.program[self.pc];
        self.pc = self.pc + 1;
        Some(instruction)
    }

    /// One fetch-decode-execute step; an exhausted program halts normally.
    pub fn run_once(&mut self) -> (o: Outcome)
        ensures
            (final(self)@, o) == step(old(self)@),
    {
        match self.read_next_instruction() {
            Some(instruction) => self.execute_instruction(instruction),
            None => Outcome::HaltedNormally,
        }
    }

    /// Steps until the machine halts or `max_steps` steps have run; reports
    /// `Running` in the latter case.
    pub fn run_steps(&mut self, max_steps: u64) -> (o: Outcome)
        ensures
            (final(self)@, o) == run_steps_spec(old(self)@, max_steps as nat),
    {
        let mut left: u64 = max_steps;
        while left > 0
            invariant
                run_steps_spec(self@, left as nat) == run_steps_spec(old(self)@, max_steps as nat),
            decreases left,
        {
            let o = self.run_once();
            if o != Outcome::Running {
                return o;
            }
            left = left - 1;
        }
        Outcome::Running
    }

    /// Runs to completion: steps until the machine halts. It gives up, and
    /// reports `Running`, only after `u64::MAX` steps.
    pub fn run(&mut self) -> (o: Outcome)
        ensures
            (final(self)@, o) == run_steps_spec(old(self)@, u64::MAX as nat),
    {
        self.run_steps(u64::MAX)
    }

    fn set_register(&mut self, r: usize, v: i32)
        requires
            r < REGISTER_COUNT,
        ensures
            final(self)@ == with_register(old(self)@, r as int, v),
    {
        self.registers[r] = v;
    }

    fn jump_to(&mut self, target: i128) -> (o: Outcome)
        ensures
            (final(self)@, o) == jump(old(self)@, target as int),
    {
        if target < 0 {
            Outcome::HaltedOnFault(Fault::ProgramCounterUnderflow)
        } else if target > self.program.len() as i128 {
            Outcome::HaltedOnFault(Fault::ProgramCounterOverflow)
        } else {
            self.pc = target as usize;
            Outcome::Running
        }
    }

    fn grow_heap(&mut self, n: i32)
        requires
            n >= 0,
        ensures
            final(self)@ == (Machine { heap: old(self)@.heap + zeros(n as nat), ..old(self)@ }),
    {
        let mut i: i32 = 0;
        while i < n
            invariant
                0 <= i <= n,
                self@ == (Machine { heap: old(self)@.heap + zeros(i as nat), ..old(self)@ }),
            decreases n - i,
        {
            self.heap.push(0);
            assert(self.heap@ =~= old(self)@.heap + zeros((i + 1) as nat));
            i = i + 1;
        }
    }

    /// Executes one instruction (the `pc` already past it) and reports
    /// whether the machine goes on.
    pub fn execute_instruction(&mut self, instruction: Instruction) -> (o: Outcome)
        ensures
            (final(self)@, o) == execute(old(self)@, instruction),
    {
        if !operands_valid(instruction) {
            return Outcome::HaltedOnFault(Fault::RegisterOutOfRange);
        }
        let ra = instruction.registers[0];
        let rb = instruction.registers[1];
        let rd = instruction.registers[2];
        match instruction.opcode {
            Opcode::HLT => Outcome::HaltedNormally,
            Opcode::IGL => Outcome::HaltedOnIllegalOpcode,
            Opcode::LOAD => {
                self.set_register(ra, instruction.integer_operand);
                Outcome::Running
            },
            Opcode::ADD => {
                let v = self.registers[ra].wrapping_add(self.registers[rb]);
                self.set_register(rd, v);
                Outcome::Running
            },
            Opcode::SUB => {
                let v = self.registers[ra].wrapping_sub(self.registers[rb]);
                self.set_register(rd, v);
                Outcome::Running
            },
            Opcode::MUL => {
                let v = self.registers[ra].wrapping_mul(self.registers[rb]);
                self.set_register(rd, v);
                Outcome::Running
            },
            Opcode::DIV => {
                let a = self.registers[ra];
                let b = self.registers[rb];
                if b == 0 {
                    return Outcome::HaltedOnFault(Fault::DivisionByZero);
                }
                let (q, rem) = divide(a, b);
                self.set_register(rd, q);
                self.remainder = rem;
                Outcome::Running
            },
            Opcode::JMP => {
                let target = self.registers[ra] as i128;
                self.jump_to(target)
            },
            Opcode::JMPF => {
                let target = self.pc as i128 + self.registers[ra] as i128;
                self.jump_to(target)
            },
            Opcode::JMPB => {
                let target = self.pc as i128 - self.registers[ra] as i128;
                self.jump_to(target)
            },
            Opcode::EQ => {
                self.equal = self.registers[ra] == self.registers[rb];
                Outcome::Running
            },
            Opcode::NEQ => {
                self.equal = self.registers[ra] != self.registers[rb];
                Outcome::Running
            },
            Opcode::GT => {
                self.equal = self.registers[ra] > self.registers[rb];
                Outcome::Running
            },
            Opcode::LT => {
                self.equal = self.registers[ra] < self.registers[rb];
                Outcome::Running
            },
            Opcode::GTQ => {
                self.equal = self.registers[ra] >= self.registers[rb];
                Outcome::Running
            },
            Opcode::LTQ => {
                self.equal = self.registers[ra] <= self.registers[rb];
                Outcome::Running
            },
            Opcode::JEQ => {
                if self.equal {
                    let target = self.registers[ra] as i128;
                    self.jump_to(target)
                } else {
                    Outcome::Running
                }
            },
            Opcode::ALOC => {
                let n = self.registers[ra];
                if n < 0 {
                    return Outcome::HaltedOnFault(Fault::NegativeAllocation);
                }
                self.grow_heap(n);
                Outcome::Running
            },
            Opcode::INC => {
                let v = self.registers[ra].wrapping_add(1);
                self.set_register(ra, v);
                Outcome::Running
            },
            Opcode::DEC => {
                let v = self.registers[ra].wrapping_sub(1);
                self.set_register(ra, v);
                Outcome::Running
            },
        }
    }
}

} // verus!
