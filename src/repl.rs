use vstd::prelude::*;
use crate::instruction::Instruction;
use crate::lexer::{decode_line, decoded_line, is_space, lines_of, split_lines};
use crate::text::{chars_of, same_chars};
use crate::lexer::is_space_char;
use crate::vm::{step, Machine, Outcome, VM};

verus! {

/// `s` without its leading and trailing white space.
pub open spec fn trimmed(s: Seq<char>) -> Seq<char>
    decreases s.len(),
{
    if s.len() > 0 && is_space(s[0]) {
        trimmed(s.drop_first())
    } else if s.len() > 0 && is_space(s.last()) {
        trimmed(s.drop_last())
    } else {
        s
    }
}

/// Leading white space can be dropped before trimming.
proof fn lemma_trim_front(s: Seq<char>, i: int)
    requires
        0 <= i <= s.len(),
        forall|k: int| 0 <= k < i ==> is_space(s[k]),
    ensures
        trimmed(s) == trimmed(s.skip(i)),
    decreases i,
{
    if i > 0 {
        lemma_trim_front(s.drop_first(), i - 1);
        assert(s.drop_first().skip(i - 1) =~= s.skip(i));
    } else {
        assert(s.skip(0) =~= s);
    }
}

/// Once the first character is not white space, trailing white space can be
/// dropped before trimming.
proof fn lemma_trim_back(s: Seq<char>, j: int)
    requires
        0 <= j <= s.len(),
        s.len() > 0 ==> !is_space(s[0]),
        s.len() > 0 ==> j > 0,
        forall|k: int| j <= k < s.len() ==> is_space(s[k]),
    ensures
        trimmed(s) == trimmed(s.take(j)),
    decreases s.len() - j,
{
    if j == s.len() {
        assert(s.take(j) =~= s);
    } else {
        lemma_trim_back(s.drop_last(), j);
        assert(s.drop_last().take(j) =~= s.take(j));
    }
}

/// Trims leading and trailing white space.
fn trim_chars(s: &[char]) -> (r: Vec<char>)
    ensures
        r@ == trimmed(s@),
{
    let n = s.len();
    let mut i: usize = 0;
    while i < n && is_space_char(s[i])
        invariant
            n == s@.len(),
            i <= n,
            forall|k: int| 0 <= k < i ==> is_space(s@[k]),
        decreases n - i,
    {
        i = i + 1;
    }
    let mut j: usize = n;
    while j > i && is_space_char(s[j - 1])
        invariant
            n == s@.len(),
            i <= j <= n,
            forall|k: int| j <= k < n ==> is_space(s@[k]),
        decreases j,
    {
        j = j - 1;
    }
    let mut out: Vec<char> = Vec::new();
    let mut k: usize = i;
    while k < j
        invariant
            i <= k <= j <= n,
            n == s@.len(),
            out@ == s@.subrange(i as int, k as int),
        decreases j - k,
    {
        out.push(s[k]);
        k = k + 1;
        assert(out@ =~= s@.subrange(i as int, k as int));
    }
    proof {
        lemma_trim_front(s@, i as int);
        let u = s@.skip(i as int);
        lemma_trim_back(u, j - i);
        assert(u.take(j - i) =~= out@);
    }
    out
}

/// What the shell around the machine should do after one line of input.
#[derive(Debug, PartialEq, Eq, Structural, Clone, Copy)]
pub enum Action {
    /// Leave the shell.
    Quit,
    /// Show every line entered so far.
    ShowHistory,
    /// Show the program entered so far.
    ShowProgram,
    /// Show the registers.
    ShowRegisters,
    /// The line was appended to the program as an instruction and one step
    /// was run, with this outcome.
    Executed(Outcome),
}

/// The instruction that an input line (already trimmed) stands for.
pub open spec fn entered_instruction(t: Seq<char>) -> Instruction {
    decoded_line(lines_of(t)[0])
}

/// The interactive session: the lines entered so far and the machine that
/// runs them one instruction at a time.
pub struct REPL {
    command_history: Vec<Vec<char>>,
    vm: VM,
}

impl REPL {
    /// The trimmed lines entered so far, oldest first.
    pub closed spec fn history(&self) -> Seq<Seq<char>> {
        self.command_history@.map_values(|l: Vec<char>| l@)
    }

    /// The state of the machine.
    pub closed spec fn machine(&self) -> Machine {
        self.vm@
    }

    /// A session with no history and a fresh machine.
    pub fn new() -> (r: REPL)
        ensures
            r.history() == Seq::<Seq<char>>::empty(),
            r.machine() == VM::new_spec(),
    {
        let r = REPL { vm: VM::new(), command_history: Vec::new() };
        assert(r.history() =~= Seq::<Seq<char>>::empty());
        r
    }

    /// The machine, for inspection.
    pub fn vm(&self) -> (r: &VM)
        ensures
            r@ == self.machine(),
    {
        &self.vm
    }

    /// The trimmed lines entered so far, oldest first.
    pub fn command_history(&self) -> (r: &Vec<Vec<char>>)
        ensures
            r@.map_values(|l: Vec<char>| l@) == self.history(),
    {
        &self.command_history
    }

    /// Takes one line of input. `quit`, `history`, `program` and `registers`
    /// (after trimming) are commands that leave the machine as it is; any
    /// other line is decoded as an instruction, appended to the program and
    /// run for one step. Every line goes to the history.
    pub fn handle(&mut self, line: &str) -> (r: Action)
        ensures
            final(self).history() == old(self).history().push(trimmed(line@)),
            trimmed(line@) == seq!['q', 'u', 'i', 't'] ==> r == Action::Quit
                && final(self).machine() == old(self).machine(),
            trimmed(line@) == seq!['h', 'i', 's', 't', 'o', 'r', 'y'] ==> r == Action::ShowHistory
                && final(self).machine() == old(self).machine(),
            trimmed(line@) == seq!['p', 'r', 'o', 'g', 'r', 'a', 'm'] ==> r == Action::ShowProgram
                && final(self).machine() == old(self).machine(),
            trimmed(line@) == seq!['r', 'e', 'g', 'i', 's', 't', 'e', 'r', 's'] ==> r
                == Action::ShowRegisters && final(self).machine() == old(self).machine(),
            !is_command(trimmed(line@)) ==> ({
                let m = Machine {
                    program: old(self).machine().program.push(
                        entered_instruction(trimmed(line@)),
                    ),
                    ..old(self).machine()
                };
                r == Action::Executed(step(m).1) && final(self).machine() == step(m).0
            }),
    {
        let text = chars_of(line);
        let t = trim_chars(text.as_slice());
        let ghost before = self.command_history@;
        self.command_history.push(t.clone());
        assert(self.history() =~= before.map_values(|l: Vec<char>| l@).push(t@));
        if same_chars(t.as_slice(), &['q', 'u', 'i', 't']) {
            Action::Quit
        } else if same_chars(t.as_slice(), &['h', 'i', 's', 't', 'o', 'r', 'y']) {
            Action::ShowHistory
        } else if same_chars(t.as_slice(), &['p', 'r', 'o', 'g', 'r', 'a', 'm']) {
            Action::ShowProgram
        } else if same_chars(t.as_slice(), &['r', 'e', 'g', 'i', 's', 't', 'e', 'r', 's']) {
            Action::ShowRegisters
        } else {
            let lines = split_lines(t.as_slice());
            assert(lines_of(t@).len() > 0);
            assert(lines@.map_values(|l: Vec<char>| l@).len() == lines@.len());
            assert(lines@.map_values(|l: Vec<char>| l@)[0] == lines@[0]@);
            let instruction = decode_line(lines[0].as_slice());
            self.vm.add_instruction(instruction);
            Action::Executed(self.vm.run_once())
        }
    }
}

/// Whether a trimmed line is one of the shell's commands.
pub open spec fn is_command(t: Seq<char>) -> bool {
    t == seq!['q', 'u', 'i', 't'] || t == seq!['h', 'i', 's', 't', 'o', 'r', 'y'] || t == seq![
        'p',
        'r',
        'o',
        'g',
        'r',
        'a',
        'm',
    ] || t == seq!['r', 'e', 'g', 'i', 's', 't', 'e', 'r', 's']
}

} // verus!
