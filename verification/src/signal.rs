//! A small processor with one register and a screen of forty columns.
//!
//! Each instruction takes one cycle. During a cycle the register is read
//! twice: for the signal strength, which counts in cycles 20, 60, 100 and
//! so on, and for the pixel that the screen draws in that cycle. An `addx`
//! line stands for two instructions, of which the second changes the
//! register.

use vstd::prelude::*;
use vstd::string::StringExecFns;
use crate::text::{
    chars_of, parse_signed, signed_in_range, split_words, starts_with, strings_view, words, Blank,
};

verus! {

/// What an instruction does when its cycle ends.
#[derive(Clone, Copy, Debug, PartialEq, Eq, Structural)]
pub enum InstructionType {
    /// Nothing.
    Noop,
    /// Adds the number to the register.
    Addx(isize),
}

/// One instruction, which takes one cycle.
#[derive(Clone, Copy, Debug, PartialEq, Eq, Structural)]
pub struct Instruction {
    pub t: InstructionType,
}

/// The word that opens a line which changes the register, `addx`.
pub open spec fn addx_word() -> Seq<char> {
    seq!['a', 'd', 'd', 'x']
}

/// The instructions that a line stands for. A line that begins with `addx`
/// ends in a number and stands for a pause and the addition of that
/// number; it stands for nothing where its last word is no number in
/// range. Any other line stands for a pause.
pub open spec fn parse_instruction_spec(line: Seq<char>) -> Option<Seq<Instruction>> {
    if addx_word().is_prefix_of(line) {
        match signed_in_range(words(line, Blank::Unicode).last(), isize::MIN as int, isize::MAX as int) {
            Some(value) => Some(
                seq![
                    Instruction { t: InstructionType::Noop },
                    Instruction { t: InstructionType::Addx(value as isize) },
                ],
            ),
            None => None,
        }
    } else {
        Some(seq![Instruction { t: InstructionType::Noop }])
    }
}

/// The signal strength that cycle number `cycles` adds while the register
/// holds `x`: their product in the cycles 20, 60, 100 and so on, and
/// nothing in any other cycle.
pub open spec fn signal_at(x: int, cycles: int) -> int {
    if cycles >= 0 && cycles % 40 == 20 {
        x * cycles
    } else {
        0
    }
}

/// The pixel in column `row` while the register holds `x`: lit where the
/// column is `x` or next to it.
pub open spec fn pixel(x: int, row: int) -> char {
    if x - 1 <= row <= x + 1 {
        '#'
    } else {
        '.'
    }
}

/// Whether `v` is a machine number.
pub open spec fn fits(v: int) -> bool {
    isize::MIN <= v <= isize::MAX
}

/// Reads the instructions of a line, where the line stands for any.
pub fn try_parse_instruction(line: &str) -> (r: Option<Vec<Instruction>>)
    ensures
        match r {
            Some(found) => parse_instruction_spec(line@) == Some(found@),
            None => parse_instruction_spec(line@) is None,
        },
{
    proof {
        reveal_strlit("addx");
        assert("addx"@ =~= addx_word());
    }
    let mut found: Vec<Instruction> = Vec::new();
    found.push(Instruction { t: InstructionType::Noop });
    if starts_with(line, "addx") {
        let w = split_words(line, Blank::Unicode);
        if w.len() == 0 {
            return None;
        }
        proof {
            assert(strings_view(w@)[w@.len() - 1] == w@[w@.len() - 1]@);
        }
        let last = chars_of(w[w.len() - 1].as_str());
        match parse_signed(&last, isize::MIN as i64, isize::MAX as i64) {
            Some(value) => {
                found.push(Instruction { t: InstructionType::Addx(value as isize) });
                proof {
                    assert(found@ =~= seq![
                        Instruction { t: InstructionType::Noop },
                        Instruction { t: InstructionType::Addx(value as isize) },
                    ]);
                }
                Some(found)
            },
            None => None,
        }
    } else {
        proof {
            assert(found@ =~= seq![Instruction { t: InstructionType::Noop }]);
        }
        Some(found)
    }
}

/// The instructions of a line.
pub fn parse_instruction(line: &str) -> (found: Vec<Instruction>)
    requires
        parse_instruction_spec(line@) is Some,
    ensures
        parse_instruction_spec(line@) == Some(found@),
{
    match try_parse_instruction(line) {
        Some(found) => found,
        None => Vec::new(),
    }
}

/// The signal strength that cycle number `cycles` adds while the register
/// holds `x`.
pub fn first_interrupt(x: &isize, cycles: &isize) -> (signal: isize)
    requires
        fits(signal_at(*x as int, *cycles as int)),
    ensures
        signal == signal_at(*x as int, *cycles as int),
{
    if *cycles >= 0 && *cycles % 40 == 20 {
        return *x * *cycles;
    }
    0
}

/// The signal strength that cycle number `cycles` adds while the register
/// holds `x`, where it is a machine number.
pub fn checked_first_interrupt(x: &isize, cycles: &isize) -> (r: Option<isize>)
    ensures
        match r {
            Some(signal) => signal == signal_at(*x as int, *cycles as int),
            None => !fits(signal_at(*x as int, *cycles as int)),
        },
{
    if *cycles >= 0 && *cycles % 40 == 20 {
        x.checked_mul(*cycles)
    } else {
        Some(0)
    }
}

/// The pixel in column `row` while the register holds `x`.
pub fn second_interrupt(x: &isize, row: &isize) -> (c: char)
    ensures
        c == pixel(*x as int, *row as int),
{
    if *row == *x || (*x > isize::MIN && *row == *x - 1) || (*x < isize::MAX && *row == *x + 1) {
        '#'
    } else {
        '.'
    }
}

/// The processor and its screen between two cycles.
#[derive(Debug)]
pub struct Cpu {
    /// The number of cycles so far.
    pub cycles: isize,
    /// The register.
    pub x: isize,
    /// The sum of the signal strengths so far.
    pub signal_sums: isize,
    /// The column that the next cycle draws.
    pub row_i: isize,
    /// The rows of the screen that are complete.
    pub screen: Vec<String>,
    /// The pixels of the row that is being drawn.
    pub row: String,
}

/// A `Cpu` as a mathematical value.
pub struct CpuView {
    pub cycles: int,
    pub x: int,
    pub signal_sums: int,
    pub row_i: int,
    pub screen: Seq<Seq<char>>,
    pub row: Seq<char>,
}

impl View for Cpu {
    type V = CpuView;

    open spec fn view(&self) -> CpuView {
        CpuView {
            cycles: self.cycles as int,
            x: self.x as int,
            signal_sums: self.signal_sums as int,
            row_i: self.row_i as int,
            screen: strings_view(self.screen@),
            row: self.row@,
        }
    }
}

/// The processor before the first cycle: the register holds one and the
/// screen is empty.
pub open spec fn start_cpu() -> CpuView {
    CpuView { cycles: 0, x: 1, signal_sums: 0, row_i: 0, screen: Seq::empty(), row: Seq::empty() }
}

/// The processor after the cycle of one instruction; nothing where a
/// number leaves the range of the machine. The cycle counts, adds its
/// signal strength and draws its pixel while the register holds its old
/// value; then the instruction takes effect. Every fortieth cycle
/// completes a row of the screen.
pub open spec fn tick(s: CpuView, t: InstructionType) -> Option<CpuView> {
    let cycles = s.cycles + 1;
    let signal = s.signal_sums + signal_at(s.x, cycles);
    let x = match t {
        InstructionType::Addx(value) => s.x + value,
        InstructionType::Noop => s.x,
    };
    let row = s.row.push(pixel(s.x, s.row_i));
    if !fits(cycles) || !fits(signal_at(s.x, cycles)) || !fits(signal) || !fits(x) {
        None
    } else if cycles % 40 == 0 {
        Some(
            CpuView {
                cycles,
                x,
                signal_sums: signal,
                row_i: 0,
                screen: s.screen.push(row),
                row: Seq::empty(),
            },
        )
    } else {
        Some(
            CpuView { cycles, x, signal_sums: signal, row_i: s.row_i + 1, screen: s.screen, row },
        )
    }
}

/// The processor after the cycles of `program`, in order.
pub open spec fn execute(s: CpuView, program: Seq<Instruction>) -> Option<CpuView>
    decreases program.len(),
{
    if program.len() == 0 {
        Some(s)
    } else {
        match execute(s, program.drop_last()) {
            Some(before) => tick(before, program.last().t),
            None => None,
        }
    }
}

/// The processor after the instructions of all `lines`, from the start;
/// nothing where a line stands for no instructions or a number leaves the
/// range of the machine.
pub open spec fn run_lines(lines: Seq<Seq<char>>) -> Option<CpuView>
    decreases lines.len(),
{
    if lines.len() == 0 {
        Some(start_cpu())
    } else {
        match (run_lines(lines.drop_last()), parse_instruction_spec(lines.last())) {
            (Some(before), Some(program)) => execute(before, program),
            _ => None,
        }
    }
}

/// A program that has failed fails whatever follows.
pub proof fn lemma_execute_stays_failed(s: CpuView, program: Seq<Instruction>, k: int)
    requires
        0 <= k <= program.len(),
    ensures
        execute(s, program.take(k)) is None ==> execute(s, program) is None,
    decreases program.len(),
{
    if k < program.len() {
        assert(program.drop_last().take(k) =~= program.take(k));
        lemma_execute_stays_failed(s, program.drop_last(), k);
    } else {
        assert(program.take(k) =~= program);
    }
}

/// A run that has failed fails whatever follows.
pub proof fn lemma_run_stays_failed(lines: Seq<Seq<char>>, k: int)
    requires
        0 <= k <= lines.len(),
    ensures
        run_lines(lines.take(k)) is None ==> run_lines(lines) is None,
    decreases lines.len(),
{
    if k < lines.len() {
        assert(lines.drop_last().take(k) =~= lines.take(k));
        lemma_run_stays_failed(lines.drop_last(), k);
    } else {
        assert(lines.take(k) =~= lines);
    }
}

impl Cpu {
    /// Whether the processor is in step with its screen: the column is
    /// the cycle count modulo forty, and as many pixels are drawn.
    pub open spec fn wf(&self) -> bool {
        &&& 0 <= self.cycles
        &&& self.row_i == self.cycles % 40
        &&& self.row@.len() == self.row_i
    }

    /// The processor before the first cycle.
    pub fn new() -> (cpu: Cpu)
        ensures
            cpu@ == start_cpu(),
            cpu.wf(),
    {
        let cpu = Cpu {
            cycles: 0,
            x: 1,
            signal_sums: 0,
            row_i: 0,
            screen: Vec::new(),
            row: String::new(),
        };
        assert(cpu@.screen =~= start_cpu().screen);
        cpu
    }

    /// Runs the cycle of one instruction. Where a number would leave the
    /// range of the machine, the answer is `false` and the processor stays
    /// as it is.
    pub fn tick(&mut self, instruction: &Instruction) -> (done: bool)
        requires
            old(self).wf(),
        ensures
            final(self).wf(),
            match tick(old(self)@, instruction.t) {
                Some(after) => done && final(self)@ == after,
                None => !done && final(self)@ == old(self)@,
            },
    {
        proof {
            reveal_strlit("#");
            reveal_strlit(".");
            assert("#"@ =~= seq!['#']);
            assert("."@ =~= seq!['.']);
        }
        let ghost before = self@;
        if self.cycles == isize::MAX {
            return false;
        }
        let cycles: isize = self.cycles + 1;
        let signal = match checked_first_interrupt(&self.x, &cycles) {
            Some(strength) => match self.signal_sums.checked_add(strength) {
                Some(signal) => signal,
                None => {
                    return false;
                },
            },
            None => {
                return false;
            },
        };
        let x = match instruction.t {
            InstructionType::Addx(value) => match self.x.checked_add(value) {
                Some(x) => x,
                None => {
                    return false;
                },
            },
            InstructionType::Noop => self.x,
        };
        let lit = second_interrupt(&self.x, &self.row_i) == '#';
        if lit {
            self.row.append("#");
        } else {
            self.row.append(".");
        }
        assert(self.row@ =~= before.row.push(pixel(before.x, before.row_i)));
        self.cycles = cycles;
        self.signal_sums = signal;
        self.x = x;
        if cycles % 40 == 0 {
            let mut row = String::new();
            std::mem::swap(&mut row, &mut self.row);
            assert(strings_view(self.screen@.push(row)) =~= strings_view(self.screen@).push(row@));
            self.screen.push(row);
            self.row_i = 0;
        } else {
            self.row_i = self.row_i + 1;
        }
        true
    }

    /// Runs the cycles of `program`, in order. The answer is `false` where
    /// a number would leave the range of the machine.
    pub fn execute(&mut self, program: &Vec<Instruction>) -> (done: bool)
        requires
            old(self).wf(),
        ensures
            final(self).wf(),
            match execute(old(self)@, program@) {
                Some(after) => done && final(self)@ == after,
                None => !done,
            },
    {
        let ghost before = self@;
        let mut i: usize = 0;
        assert(program@.take(0) =~= Seq::<Instruction>::empty());
        while i < program.len()
            invariant
                self.wf(),
                before == old(self)@,
                0 <= i <= program@.len(),
                execute(before, program@.take(i as int)) == Some(self@),
            decreases program@.len() - i,
        {
            proof {
                assert(program@.take(i + 1).drop_last() =~= program@.take(i as int));
            }
            if !self.tick(&program[i]) {
                proof {
                    lemma_execute_stays_failed(before, program@, i + 1);
                }
                return false;
            }
            i += 1;
        }
        proof {
            assert(program@.take(i as int) =~= program@);
        }
        true
    }
}

/// Runs the program that `lines` write on a processor at its start;
/// nothing where a line stands for no instructions or a number would
/// leave the range of the machine.
pub fn run_program(lines: &Vec<String>) -> (r: Option<Cpu>)
    ensures
        match r {
            Some(cpu) => run_lines(strings_view(lines@)) == Some(cpu@) && cpu.wf(),
            None => run_lines(strings_view(lines@)) is None,
        },
{
    let ghost all = strings_view(lines@);
    let mut cpu = Cpu::new();
    let mut i: usize = 0;
    assert(all.take(0) =~= Seq::<Seq<char>>::empty());
    while i < lines.len()
        invariant
            all == strings_view(lines@),
            cpu.wf(),
            0 <= i <= lines@.len(),
            run_lines(all.take(i as int)) == Some(cpu@),
        decreases lines@.len() - i,
    {
        proof {
            assert(all.take(i + 1).drop_last() =~= all.take(i as int));
            assert(all.take(i + 1).last() == lines@[i as int]@);
            lemma_run_stays_failed(all, i + 1);
        }
        match try_parse_instruction(lines[i].as_str()) {
            Some(program) => {
                if !cpu.execute(&program) {
                    return None;
                }
            },
            None => {
                return None;
            },
        }
        i += 1;
    }
    proof {
        assert(all.take(i as int) =~= all);
    }
    Some(cpu)
}

} // verus!
