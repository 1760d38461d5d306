use vstd::prelude::*;
use crate::instruction::{opcode_of_mnemonic, Instruction, Opcode};
use crate::text::chars_of;

verus! {

/// Unicode white space: what separates the tokens of a line.
pub open spec fn is_space(c: char) -> bool {
    let u = c as u32;
    (0x09 <= u && u <= 0x0d) || u == 0x20 || u == 0x85 || u == 0xa0 || u == 0x1680 || (0x2000
        <= u && u <= 0x200a) || u == 0x2028 || u == 0x2029 || u == 0x202f || u == 0x205f || u
        == 0x3000
}

/// Splitting on `sep`: the finished pieces of `s` and the piece still open
/// at its end.
pub open spec fn split_on(s: Seq<char>, sep: char) -> (Seq<Seq<char>>, Seq<char>)
    decreases s.len(),
{
    if s.len() == 0 {
        (Seq::empty(), Seq::empty())
    } else {
        let (done, cur) = split_on(s.drop_last(), sep);
        if s.last() == sep {
            (done.push(cur), Seq::empty())
        } else {
            (done, cur.push(s.last()))
        }
    }
}

/// The lines of a text: the pieces between newlines, `n + 1` of them for
/// `n` newlines.
pub open spec fn lines_of(s: Seq<char>) -> Seq<Seq<char>> {
    split_on(s, '\n').0.push(split_on(s, '\n').1)
}

/// Splitting on white space: the finished words of `s` and the word still
/// open at its end (empty after white space).
pub open spec fn split_words(s: Seq<char>) -> (Seq<Seq<char>>, Seq<char>)
    decreases s.len(),
{
    if s.len() == 0 {
        (Seq::empty(), Seq::empty())
    } else {
        let (done, cur) = split_words(s.drop_last());
        if is_space(s.last()) {
            if cur.len() > 0 {
                (done.push(cur), Seq::empty())
            } else {
                (done, cur)
            }
        } else {
            (done, cur.push(s.last()))
        }
    }
}

/// The maximal runs of non-white-space characters of `s`, in order.
pub open spec fn words(s: Seq<char>) -> Seq<Seq<char>> {
    let (done, cur) = split_words(s);
    if cur.len() > 0 {
        done.push(cur)
    } else {
        done
    }
}

/// An ASCII decimal digit.
pub open spec fn is_digit(c: char) -> bool {
    48 <= c as u32 <= 57
}

/// The decimal value of a run of digits.
pub open spec fn digits_value(s: Seq<char>) -> int
    decreases s.len(),
{
    if s.len() == 0 {
        0
    } else {
        digits_value(s.drop_last()) * 10 + (s.last() as u32 - 48)
    }
}

/// One or more decimal digits and nothing else.
pub open spec fn all_digits(s: Seq<char>) -> bool {
    s.len() > 0 && forall|i: int| 0 <= i < s.len() ==> is_digit(s[i])
}

/// A register index: one or more decimal digits whose value fits a `usize`.
pub open spec fn register_index(s: Seq<char>) -> Option<usize> {
    if all_digits(s) && digits_value(s) <= usize::MAX {
        Some(digits_value(s) as usize)
    } else {
        None
    }
}

/// An immediate: an optional `-`, then one or more decimal digits, whose
/// value fits an `i32`.
pub open spec fn immediate(s: Seq<char>) -> Option<i32> {
    let neg = s.len() > 0 && s[0] == '-';
    let d = if neg {
        s.drop_first()
    } else {
        s
    };
    let v = if neg {
        -digits_value(d)
    } else {
        digits_value(d)
    };
    if all_digits(d) && i32::MIN <= v <= i32::MAX {
        Some(v as i32)
    } else {
        None
    }
}

/// What the words of a line read so far have given.
pub struct LineState {
    pub opcode: Opcode,
    pub registers: Seq<usize>,
    pub immediate: i32,
    pub malformed: bool,
}

/// A label (`name:`) or directive (`.name`, `@name`): accepted and ignored.
pub open spec fn is_inert(w: Seq<char>) -> bool {
    w.len() > 0 && (w[0] == '.' || w[0] == '@' || w.last() == ':')
}

/// Reads one word: `$n` fills the next register slot, `#n` sets the
/// immediate, labels and directives change nothing, and any other word is a
/// mnemonic. A bad number, or a fourth register, makes the line malformed.
pub open spec fn read_word(st: LineState, w: Seq<char>) -> LineState {
    if w.len() > 0 && w[0] == '$' {
        match register_index(w.drop_first()) {
            Some(r) => if st.registers.len() < 3 {
                LineState { registers: st.registers.push(r), ..st }
            } else {
                LineState { malformed: true, ..st }
            },
            None => LineState { malformed: true, ..st },
        }
    } else if w.len() > 0 && w[0] == '#' {
        match immediate(w.drop_first()) {
            Some(v) => LineState { immediate: v, ..st },
            None => LineState { malformed: true, ..st },
        }
    } else if is_inert(w) {
        st
    } else {
        LineState { opcode: opcode_of_mnemonic(w), ..st }
    }
}

/// The state after reading the words `ws` in order.
pub open spec fn read_words(ws: Seq<Seq<char>>) -> LineState
    decreases ws.len(),
{
    if ws.len() == 0 {
        LineState { opcode: Opcode::IGL, registers: Seq::empty(), immediate: 0, malformed: false }
    } else {
        read_word(read_words(ws.drop_last()), ws.last())
    }
}

/// Register slot `k` of a state; slots not filled are zero.
pub open spec fn slot(st: LineState, k: int) -> usize {
    if k < st.registers.len() {
        st.registers[k]
    } else {
        0
    }
}

/// The instruction that one line of assembly decodes to. A line without a
/// known mnemonic, or with a malformed operand, decodes to `IGL` with zero
/// operands.
pub open spec fn decoded_line(line: Seq<char>) -> Instruction {
    let st = read_words(words(line));
    if st.malformed || st.opcode == Opcode::IGL {
        Instruction { opcode: Opcode::IGL, registers: [0, 0, 0], integer_operand: 0 }
    } else {
        Instruction {
            opcode: st.opcode,
            registers: [slot(st, 0), slot(st, 1), slot(st, 2)],
            integer_operand: st.immediate,
        }
    }
}

/// Text without white space is one open word.
proof fn lemma_split_words_no_space(s: Seq<char>)
    requires
        forall|i: int| 0 <= i < s.len() ==> !is_space(s[i]),
    ensures
        split_words(s) == (Seq::<Seq<char>>::empty(), s),
    decreases s.len(),
{
    if s.len() > 0 {
        lemma_split_words_no_space(s.drop_last());
        assert(s.drop_last().push(s.last()) =~= s);
    }
}

/// A line that is one word, not an operand, label or directive and not a
/// known mnemonic, decodes to `IGL` with zero operands.
pub proof fn lemma_unknown_mnemonic_is_illegal(w: Seq<char>)
    requires
        w.len() > 0,
        forall|i: int| 0 <= i < w.len() ==> !is_space(w[i]),
        w[0] != '$',
        w[0] != '#',
        !is_inert(w),
        opcode_of_mnemonic(w) == Opcode::IGL,
    ensures
        decoded_line(w) == (Instruction {
            opcode: Opcode::IGL,
            registers: [0, 0, 0],
            integer_operand: 0,
        }),
{
    lemma_split_words_no_space(w);
    assert(words(w) == seq![w]);
    assert(seq![w].drop_last() =~= Seq::<Seq<char>>::empty());
}

/// A prefix of a run of digits is worth no more than the whole run.
proof fn lemma_digits_prefix(s: Seq<char>, k: int)
    requires
        forall|i: int| 0 <= i < s.len() ==> is_digit(s[i]),
        0 <= k <= s.len(),
    ensures
        0 <= digits_value(s.take(k)) <= digits_value(s),
    decreases s.len(),
{
    if k == s.len() {
        assert(s.take(k) =~= s);
        if s.len() > 0 {
            lemma_digits_prefix(s.drop_last(), k - 1);
            assert(s.drop_last().take(k - 1) =~= s.drop_last());
        }
    } else {
        lemma_digits_prefix(s.drop_last(), k);
        assert(s.drop_last().take(k) =~= s.take(k));
        lemma_digits_prefix(s.drop_last(), s.len() - 1);
        assert(s.drop_last().take(s.len() - 1) =~= s.drop_last());
    }
}

pub(crate) fn is_space_char(c: char) -> (r: bool)
    ensures
        r == is_space(c),
{
    let u = c as u32;
    (0x09 <= u && u <= 0x0d) || u == 0x20 || u == 0x85 || u == 0xa0 || u == 0x1680 || (0x2000
        <= u && u <= 0x200a) || u == 0x2028 || u == 0x2029 || u == 0x202f || u == 0x205f || u
        == 0x3000
}

/// The value of the digits of `w` from `start` on, when they are one or more
/// digits worth at most `limit`.
fn parse_digits(w: &[char], start: usize, limit: usize) -> (r: Option<usize>)
    requires
        start <= w@.len(),
        limit >= 9,
    ensures
        r == (if all_digits(w@.skip(start as int)) && digits_value(w@.skip(start as int)) <= limit {
            Some(digits_value(w@.skip(start as int)) as usize)
        } else {
            None
        }),
        r matches Some(v) ==> v <= limit && v as int == digits_value(w@.skip(start as int)),
{
    let ghost d = w@.skip(start as int);
    if start == w.len() {
        return None;
    }
    let mut v: usize = 0;
    let mut i: usize = start;
    while i < w.len()
        invariant
            start <= i <= w@.len(),
            d == w@.skip(start as int),
            d.len() > 0,
            forall|j: int| 0 <= j < i - start ==> is_digit(d[j]),
            v == digits_value(d.take(i - start)),
            v <= limit,
            limit >= 9,
        decreases w@.len() - i,
    {
        let c = w[i];
        let u = c as u32;
        if !(48 <= u && u <= 57) {
            assert(!is_digit(d[i - start]));
            return None;
        }
        let digit = (u - 48) as usize;
        assert(d.take(i - start + 1).drop_last() =~= d.take(i - start));
        if v > (limit - digit) / 10 {
            proof {
                if all_digits(d) {
                    lemma_digits_prefix(d, i - start + 1);
                }
            }
            return None;
        }
        v = v * 10 + digit;
        i = i + 1;
    }
    assert(d.take(d.len() as int) =~= d);
    Some(v)
}

/// The words of `line`: its maximal runs of non-white-space characters.
fn split_words_of(line: &[char]) -> (r: Vec<Vec<char>>)
    ensures
        r@.map_values(|w: Vec<char>| w@) == words(line@),
{
    let mut done: Vec<Vec<char>> = Vec::new();
    let mut cur: Vec<char> = Vec::new();
    let mut i: usize = 0;
    assert(line@.take(0) =~= Seq::<char>::empty());
    assert(done@.map_values(|w: Vec<char>| w@) =~= Seq::<Seq<char>>::empty());
    while i < line.len()
        invariant
            i <= line@.len(),
            split_words(line@.take(i as int)) == (done@.map_values(|w: Vec<char>| w@), cur@),
        decreases line@.len() - i,
    {
        let c = line[i];
        assert(line@.take(i + 1).drop_last() =~= line@.take(i as int));
        if is_space_char(c) {
            if cur.len() > 0 {
                let ghost before = done@;
                done.push(cur);
                assert(done@.map_values(|w: Vec<char>| w@) =~= before.map_values(
                    |w: Vec<char>| w@,
                ).push(cur@));
                cur = Vec::new();
            }
        } else {
            cur.push(c);
        }
        i = i + 1;
    }
    assert(line@.take(line@.len() as int) =~= line@);
    if cur.len() > 0 {
        let ghost before = done@;
        done.push(cur);
        assert(done@.map_values(|w: Vec<char>| w@) =~= before.map_values(|w: Vec<char>| w@).push(
            cur@,
        ));
    }
    done
}

/// The words of a line, read as an assembler line is read.
struct LineReader {
    opcode: Opcode,
    registers: [usize; 3],
    count: usize,
    immediate: i32,
    malformed: bool,
}

impl View for LineReader {
    type V = LineState;

    closed spec fn view(&self) -> LineState {
        LineState {
            opcode: self.opcode,
            registers: self.registers@.take(self.count as int),
            immediate: self.immediate,
            malformed: self.malformed,
        }
    }
}

impl LineReader {
    fn read(&mut self, w: &[char])
        requires
            old(self).count <= 3,
        ensures
            final(self).count <= 3,
            final(self)@ == read_word(old(self)@, w@),
    {
        let n = w.len();
        if n > 0 && w[0] == '$' {
            match parse_digits(w, 1, usize::MAX) {
                Some(r) => {
                    if self.count < 3 {
                        self.registers[self.count] = r;
                        self.count = self.count + 1;
                        assert(self@.registers =~= old(self)@.registers.push(r));
                    } else {
                        self.malformed = true;
                    }
                },
                None => {
                    self.malformed = true;
                },
            }
        } else if n > 0 && w[0] == '#' {
            let neg = n > 1 && w[1] == '-';
            let start: usize = if neg { 2 } else { 1 };
            assert(w@.drop_first().len() > 0 && w@.drop_first()[0] == '-' ==> neg);
            assert(neg ==> w@.drop_first().drop_first() =~= w@.skip(2));
            assert(!neg ==> w@.drop_first() =~= w@.skip(1));
            match parse_digits(w, start, 2147483648) {
                Some(m) => {
                    assert(m <= 2147483648);
                    if neg {
                        let mi = m as i64;
                        self.immediate = (-mi) as i32;
                    } else if m <= 2147483647 {
                        self.immediate = m as i32;
                    } else {
                        self.malformed = true;
                    }
                },
                None => {
                    self.malformed = true;
                },
            }
        } else if n > 0 && (w[0] == '.' || w[0] == '@' || w[n - 1] == ':') {
        } else {
            self.opcode = Opcode::from_mnemonic(w);
        }
    }
}

/// Decodes one line of assembly into an instruction.
pub fn decode_line(line: &[char]) -> (r: Instruction)
    ensures
        r == decoded_line(line@),
{
    let ws = split_words_of(line);
    let ghost wv = ws@.map_values(|w: Vec<char>| w@);
    let mut rd = LineReader {
        opcode: Opcode::IGL,
        registers: [0, 0, 0],
        count: 0,
        immediate: 0,
        malformed: false,
    };
    let mut i: usize = 0;
    assert(wv.take(0) =~= Seq::<Seq<char>>::empty());
    assert(rd@.registers =~= Seq::<usize>::empty());
    while i < ws.len()
        invariant
            i <= ws@.len(),
            wv == ws@.map_values(|w: Vec<char>| w@),
            rd.count <= 3,
            rd@ == read_words(wv.take(i as int)),
        decreases ws@.len() - i,
    {
        assert(wv.take(i + 1).drop_last() =~= wv.take(i as int));
        rd.read(ws[i].as_slice());
        i = i + 1;
    }
    assert(wv.take(ws@.len() as int) =~= wv);
    if rd.malformed || rd.opcode == Opcode::IGL {
        return Instruction { opcode: Opcode::IGL, registers: [0, 0, 0], integer_operand: 0 };
    }
    let r0: usize = if rd.count > 0 { rd.registers[0] } else { 0 };
    let r1: usize = if rd.count > 1 { rd.registers[1] } else { 0 };
    let r2: usize = if rd.count > 2 { rd.registers[2] } else { 0 };
    Instruction { opcode: rd.opcode, registers: [r0, r1, r2], integer_operand: rd.immediate }
}

/// The lines of `text`, split on newlines.
pub(crate) fn split_lines(text: &[char]) -> (r: Vec<Vec<char>>)
    ensures
        r@.map_values(|l: Vec<char>| l@) == lines_of(text@),
{
    let mut done: Vec<Vec<char>> = Vec::new();
    let mut cur: Vec<char> = Vec::new();
    let mut i: usize = 0;
    assert(text@.take(0) =~= Seq::<char>::empty());
    assert(done@.map_values(|l: Vec<char>| l@) =~= Seq::<Seq<char>>::empty());
    while i < text.len()
        invariant
            i <= text@.len(),
            split_on(text@.take(i as int), '\n') == (done@.map_values(|l: Vec<char>| l@), cur@),
        decreases text@.len() - i,
    {
        let c = text[i];
        assert(text@.take(i + 1).drop_last() =~= text@.take(i as int));
        if c == '\n' {
            let ghost before = done@;
            done.push(cur);
            assert(done@.map_values(|l: Vec<char>| l@) =~= before.map_values(|l: Vec<char>| l@).push(
                cur@,
            ));
            cur = Vec::new();
        } else {
            cur.push(c);
        }
        i = i + 1;
    }
    assert(text@.take(text@.len() as int) =~= text@);
    let ghost before = done@;
    done.push(cur);
    assert(done@.map_values(|l: Vec<char>| l@) =~= before.map_values(|l: Vec<char>| l@).push(cur@));
    done
}

/// A line-by-line reader of assembly source.
pub struct Lexer {
    lines: Vec<Vec<char>>,
    lc: usize,
}

impl Lexer {
    /// The lines of the source.
    pub closed spec fn lines(&self) -> Seq<Seq<char>> {
        self.lines@.map_values(|l: Vec<char>| l@)
    }

    /// The index of the next line to read.
    pub closed spec fn cursor(&self) -> nat {
        self.lc as nat
    }

    /// A reader positioned at the first line of `input`.
    pub fn new(input: String) -> (r: Lexer)
        ensures
            r.lines() == lines_of(input@),
            r.cursor() == 0,
    {
        let text = chars_of(input.as_str());
        Lexer { lines: split_lines(text.as_slice()), lc: 0 }
    }

    /// Decodes the next line and moves past it; `None` once every line has
    /// been read.
    pub fn next_line(&mut self) -> (r: Option<Instruction>)
        ensures
            final(self).lines() == old(self).lines(),
            old(self).cursor() < old(self).lines().len() ==> r == Some(
                decoded_line(old(self).lines()[old(self).cursor() as int]),
            ) && final(self).cursor() == old(self).cursor() + 1,
            old(self).cursor() >= old(self).lines().len() ==> r is None && final(self).cursor()
                == old(self).cursor(),
    {
        if self.lc >= self.lines.len() {
            return None;
        }
        let instruction = decode_line(self.lines[self.lc].as_slice());
        self.lc = self.lc + 1;
        Some(instruction)
    }
}

/// A unit that the lexer hands out.
pub enum Token {
    Instruction(Instruction),
}

/// Decodes every line of a program, in order.
pub fn parse_program(program: String) -> (r: Vec<Instruction>)
    ensures
        r@ == lines_of(program@).map_values(|l: Seq<char>| decoded_line(l)),
{
    let mut lexer = Lexer::new(program);
    let ghost ls = lexer.lines();
    let mut out: Vec<Instruction> = Vec::new();
    assert(ls.take(0).map_values(|l: Seq<char>| decoded_line(l)) =~= Seq::<Instruction>::empty());
    loop
        invariant
            lexer.lines() == ls,
            ls == lines_of(program@),
            lexer.cursor() <= ls.len(),
            out@ == ls.take(lexer.cursor() as int).map_values(|l: Seq<char>| decoded_line(l)),
        ensures
            out@ == ls.map_values(|l: Seq<char>| decoded_line(l)),
        decreases ls.len() - lexer.cursor(),
    {
        let ghost k = lexer.cursor() as int;
        match lexer.next_line() {
            Some(instruction) => {
                out.push(instruction);
                assert(ls.take(k + 1).map_values(|l: Seq<char>| decoded_line(l)) =~= ls.take(
                    k,
                ).map_values(|l: Seq<char>| decoded_line(l)).push(decoded_line(ls[k])));
            },
            None => {
                assert(ls.take(k) =~= ls);
                assert(out@ =~= ls.map_values(|l: Seq<char>| decoded_line(l)));
                break;
            },
        }
    }
    out
}

} // verus!
