//! Stacks of crates, and the crane that moves crates between them.
//!
//! The input is a drawing of nine stacks, a blank line, and one line for
//! each move of the crane. In the drawing a crate is a label, and the
//! column of the label tells the stack.

use vstd::prelude::*;
use vstd::slice::slice_subrange;
use crate::pattern::{matches_of, matches_somewhere, pattern_accepted, Pattern};
use crate::text::{char_text, chars_of, decimal_u64, parse_u64, strings_view};

verus! {

/// A crate, known by the label that the drawing gives it.
#[derive(Clone, Copy, Debug, PartialEq, Eq, Structural)]
pub struct ElfCrate {
    pub label: char,
}

/// The nine stacks; in each the bottom crate comes first.
#[derive(Debug)]
pub struct ElfCrates {
    pub stacks: Vec<Vec<ElfCrate>>,
}

/// Why the input cannot be read, or the crane cannot do as told.
#[derive(Clone, Copy, Debug, PartialEq, Eq, Structural)]
pub enum CraneError {
    /// A pattern was rejected.
    PatternRejected,
    /// A label of the drawing stands in a column that belongs to none of
    /// the nine stacks.
    LabelOffGrid,
    /// No blank line parts the drawing from the moves.
    NoSeparator,
    /// A line of the moves holds fewer than three numbers.
    MoveUnreadable,
    /// A move names a stack other than 1 to 9.
    NoSuchStack,
    /// A move asks for more crates than the stack holds.
    TooFewCrates,
    /// A stack is empty at the end, so it has no top crate.
    EmptyStack,
}

/// The number of stacks.
pub open spec fn stack_count() -> int {
    9
}

/// The labels of a stack, bottom first.
pub open spec fn labels(stack: Seq<ElfCrate>) -> Seq<char> {
    Seq::new(stack.len(), |i: int| stack[i].label)
}

impl View for ElfCrates {
    type V = Seq<Seq<char>>;

    open spec fn view(&self) -> Seq<Seq<char>> {
        Seq::new(self.stacks@.len(), |i: int| labels(self.stacks@[i]@))
    }
}

/// Nine empty stacks.
pub open spec fn empty_stacks() -> Seq<Seq<char>> {
    Seq::new(9, |i: int| Seq::<char>::empty())
}

/// The stacks after the crane has moved the top crate of stack `from`
/// onto stack `to`.
pub open spec fn move_one(stacks: Seq<Seq<char>>, from: int, to: int) -> Seq<Seq<char>> {
    let lifted = stacks.update(from, stacks[from].drop_last());
    lifted.update(to, lifted[to].push(stacks[from].last()))
}

/// The stacks after the crane has moved the top `amount` crates of stack
/// `from` onto stack `to` in one go, so that they keep their order.
pub open spec fn move_many(stacks: Seq<Seq<char>>, amount: int, from: int, to: int) -> Seq<Seq<char>> {
    let kept = stacks[from].len() - amount;
    let lifted = stacks.update(from, stacks[from].take(kept));
    lifted.update(to, lifted[to] + stacks[from].skip(kept))
}

/// The number of the stack, counted from one, whose label stands in
/// column `index` of a drawing: each stack is four columns wide.
pub open spec fn crate_index(index: int) -> int {
    (index + 3) / 4
}

/// The number of the stack, from one on, that column `index` of a drawing
/// belongs to: `index` over four, rounded up.
pub fn get_crate_index(index: usize) -> (r: usize)
    ensures
        r == crate_index(index as int),
{
    index / 4 + if index % 4 == 0 {
        0
    } else {
        1
    }
}

impl ElfCrates {
    /// Whether there are nine stacks.
    pub open spec fn wf(&self) -> bool {
        self.stacks@.len() == stack_count()
    }

    /// Nine empty stacks.
    pub fn new() -> (crates: ElfCrates)
        ensures
            crates.wf(),
            crates@ == empty_stacks(),
    {
        let mut stacks: Vec<Vec<ElfCrate>> = Vec::new();
        let mut i: usize = 0;
        while i < 9
            invariant
                0 <= i <= 9,
                stacks@.len() == i,
                forall|j: int| 0 <= j < i ==> (#[trigger] stacks@[j])@.len() == 0,
            decreases 9 - i,
        {
            stacks.push(Vec::new());
            i += 1;
        }
        let crates = ElfCrates { stacks };
        assert(crates@ =~= empty_stacks()) by {
            assert forall|j: int| 0 <= j < 9 implies #[trigger] crates@[j] =~= Seq::<char>::empty() by {
                assert(crates.stacks@[j]@.len() == 0);
            }
        }
        crates
    }

    /// The number of crates on stack `x`.
    pub fn count_crates(&self, x: usize) -> (count: usize)
        requires
            x < self.stacks@.len(),
        ensures
            count == self@[x as int].len(),
    {
        self.stacks[x].len()
    }

    /// Puts `item` on top of stack `x`.
    pub fn put(&mut self, x: usize, item: ElfCrate)
        requires
            x < old(self).stacks@.len(),
        ensures
            final(self).stacks@.len() == old(self).stacks@.len(),
            final(self)@ == old(self)@.update(x as int, old(self)@[x as int].push(item.label)),
    {
        let ghost before = self@;
        self.stacks[x].push(item);
        assert(self@ =~= before.update(x as int, before[x as int].push(item.label))) by {
            assert forall|j: int| 0 <= j < self@.len() implies #[trigger] self@[j] =~= before.update(
                x as int,
                before[x as int].push(item.label),
            )[j] by {
                if j != x {
                    assert(self.stacks@[j] == old(self).stacks@[j]);
                }
            }
        }
    }

    /// Moves the top crate of stack `from_stack_index` onto stack
    /// `to_stack_index`.
    pub fn move_crate(&mut self, from_stack_index: usize, to_stack_index: usize)
        requires
            from_stack_index < old(self).stacks@.len(),
            to_stack_index < old(self).stacks@.len(),
            old(self)@[from_stack_index as int].len() > 0,
        ensures
            final(self).stacks@.len() == old(self).stacks@.len(),
            final(self)@ == move_one(old(self)@, from_stack_index as int, to_stack_index as int),
    {
        self.move_crates(1, from_stack_index, to_stack_index);
        proof {
            let stack = old(self)@[from_stack_index as int];
            assert(stack.take(stack.len() - 1) =~= stack.drop_last());
            assert(stack.skip(stack.len() - 1) =~= seq![stack.last()]);
            let lifted = old(self)@.update(from_stack_index as int, stack.drop_last());
            assert(lifted[to_stack_index as int] + seq![stack.last()] =~= lifted[to_stack_index as int].push(
                stack.last(),
            ));
        }
    }

    /// Moves the top `amount` crates of stack `from_stack_index` onto
    /// stack `to_stack_index` in one go, so that they keep their order.
    pub fn move_crates(&mut self, amount: usize, from_stack_index: usize, to_stack_index: usize)
        requires
            from_stack_index < old(self).stacks@.len(),
            to_stack_index < old(self).stacks@.len(),
            amount <= old(self)@[from_stack_index as int].len(),
        ensures
            final(self).stacks@.len() == old(self).stacks@.len(),
            final(self)@ == move_many(
                old(self)@,
                amount as int,
                from_stack_index as int,
                to_stack_index as int,
            ),
    {
        let ghost before = self@;
        let ghost source = self.stacks@[from_stack_index as int]@;
        let kept: usize = self.stacks[from_stack_index].len() - amount;
        let mut lifted: Vec<ElfCrate> = self.stacks[from_stack_index].split_off(kept);
        let ghost between = self@;
        let ghost target = self.stacks@[to_stack_index as int]@;
        self.stacks[to_stack_index].append(&mut lifted);
        proof {
            let after = move_many(before, amount as int, from_stack_index as int, to_stack_index as int);
            assert(between =~= before.update(
                from_stack_index as int,
                before[from_stack_index as int].take(kept as int),
            )) by {
                assert forall|j: int| 0 <= j < between.len() implies #[trigger] between[j]
                    =~= before.update(
                    from_stack_index as int,
                    before[from_stack_index as int].take(kept as int),
                )[j] by {}
            }
            assert forall|j: int| 0 <= j < self@.len() implies #[trigger] self@[j] =~= after[j] by {
                if j == to_stack_index {
                    assert(self.stacks@[j]@ =~= target + source.skip(kept as int));
                }
            }
            assert(self@ =~= after);
        }
    }
}

/// The pattern of a label in a drawing: one character that is neither
/// white space nor a bracket nor a digit.
pub open spec fn label_pattern() -> Seq<char> {
    r"^[^\s\[\]\d]$"@
}

/// The pattern of a number in a move: a run of digits.
pub open spec fn number_pattern() -> Seq<char> {
    r"\d+"@
}

/// Whether `c` is a label.
pub open spec fn is_label(c: char) -> bool {
    matches_somewhere(label_pattern(), seq![c])
}

/// The number of bytes that `c` takes in a line of text.
pub open spec fn byte_width(c: char) -> nat {
    if (c as u32) < 0x80 {
        1
    } else if (c as u32) < 0x800 {
        2
    } else if (c as u32) < 0x10000 {
        3
    } else {
        4
    }
}

/// The column of character `k` of `line`, counted in bytes from zero.
pub open spec fn column(line: Seq<char>, k: int) -> nat
    decreases k,
{
    if k <= 0 {
        0
    } else {
        column(line, k - 1) + byte_width(line[k - 1])
    }
}

/// The stacks after the character `c` in column `at` of a drawing is
/// read: a label is put on the stack that its column belongs to, and any
/// other character changes nothing.
pub open spec fn place_label(stacks: Seq<Seq<char>>, at: nat, c: char, label: bool) -> Result<
    Seq<Seq<char>>,
    CraneError,
> {
    let n = crate_index(at as int);
    if !label {
        Ok(stacks)
    } else if 1 <= n <= stack_count() {
        Ok(stacks.update(n - 1, stacks[n - 1].push(c)))
    } else {
        Err(CraneError::LabelOffGrid)
    }
}

/// The stacks after the labels among the first `n` characters of `line`
/// are put on their stacks, from left to right.
pub open spec fn draw_line_among(stacks: Seq<Seq<char>>, line: Seq<char>, n: int) -> Result<
    Seq<Seq<char>>,
    CraneError,
>
    decreases n,
{
    if n <= 0 {
        Ok(stacks)
    } else {
        match draw_line_among(stacks, line, n - 1) {
            Ok(before) => place_label(before, column(line, n - 1), line[n - 1], is_label(line[n - 1])),
            Err(e) => Err(e),
        }
    }
}

/// The stacks after all labels of `line` are put on their stacks.
pub open spec fn draw_line(stacks: Seq<Seq<char>>, line: Seq<char>) -> Result<Seq<Seq<char>>, CraneError> {
    draw_line_among(stacks, line, line.len() as int)
}

/// The stacks that a drawing shows. The last line of the drawing is the
/// bottom of the stacks, so the lines are read from the last to the first.
pub open spec fn draw_lines(lines: Seq<Seq<char>>) -> Result<Seq<Seq<char>>, CraneError>
    decreases lines.len(),
{
    if lines.len() == 0 {
        Ok(empty_stacks())
    } else {
        match draw_lines(lines.drop_first()) {
            Ok(below) => draw_line(below, lines.first()),
            Err(e) => Err(e),
        }
    }
}

/// The number that a run of digits writes, where it is a machine number.
pub open spec fn machine_number(text: Seq<char>) -> Option<usize> {
    match decimal_u64(text) {
        Some(v) => if v <= usize::MAX {
            Some(v as usize)
        } else {
            None
        },
        None => None,
    }
}

/// The machine numbers among the first `n` of `found`, in order.
pub open spec fn numbers_among(found: Seq<Seq<char>>, n: int) -> Seq<usize>
    decreases n,
{
    if n <= 0 {
        Seq::empty()
    } else {
        match machine_number(found[n - 1]) {
            Some(v) => numbers_among(found, n - 1).push(v),
            None => numbers_among(found, n - 1),
        }
    }
}

/// The move that the numbers found in a line write: how many crates, from
/// which stack, to which stack. What is no machine number is passed over,
/// and so is what follows the third number.
pub open spec fn move_of(found: Seq<Seq<char>>) -> Option<(usize, usize, usize)> {
    let numbers = numbers_among(found, found.len() as int);
    if numbers.len() >= 3 {
        Some((numbers[0], numbers[1], numbers[2]))
    } else {
        None
    }
}

/// The moves that the first `n` of `lines` write.
pub open spec fn moves_among(lines: Seq<Seq<char>>, n: int) -> Option<Seq<(usize, usize, usize)>>
    decreases n,
{
    if n <= 0 {
        Some(Seq::empty())
    } else {
        match (moves_among(lines, n - 1), move_of(matches_of(number_pattern(), lines[n - 1]))) {
            (Some(before), Some(m)) => Some(before.push(m)),
            _ => None,
        }
    }
}

/// The number of bytes that `c` takes in a line of text.
fn width_of(c: char) -> (w: u128)
    ensures
        w == byte_width(c),
{
    let n: u32 = c as u32;
    if n < 0x80 {
        1
    } else if n < 0x800 {
        2
    } else if n < 0x10000 {
        3
    } else {
        4
    }
}

/// Reads the character `c` that stands in column `at` of a drawing, of
/// which `label` says whether it is a label. A label is put on its stack;
/// where its column belongs to none of the nine stacks, the stacks stay as
/// they are.
pub fn place(stacks: &mut ElfCrates, at: u128, c: char, label: bool) -> (r: Result<(), CraneError>)
    requires
        old(stacks).wf(),
    ensures
        final(stacks).wf(),
        match place_label(old(stacks)@, at as nat, c, label) {
            Ok(after) => r is Ok && final(stacks)@ == after,
            Err(e) => r == Err::<(), CraneError>(e) && final(stacks)@ == old(stacks)@,
        },
{
    if !label {
        return Ok(());
    }
    if at == 0 || at > 36 {
        return Err(CraneError::LabelOffGrid);
    }
    let x: usize = get_crate_index(at as usize) - 1;
    stacks.put(x, ElfCrate { label: c });
    Ok(())
}

/// Reads the drawing of the stacks. The last line is the bottom of the
/// stacks; each character that is a label goes on the stack that its
/// column belongs to.
pub fn parse_crates(crates: &[String]) -> (r: Result<ElfCrates, CraneError>)
    ensures
        match r {
            Ok(stacks) => stacks.wf() && pattern_accepted(label_pattern()) && draw_lines(
                strings_view(crates@),
            ) == Ok::<Seq<Seq<char>>, CraneError>(stacks@),
            Err(CraneError::PatternRejected) => !pattern_accepted(label_pattern()),
            Err(e) => pattern_accepted(label_pattern()) && draw_lines(strings_view(crates@)) == Err::<
                Seq<Seq<char>>,
                CraneError,
            >(e),
        },
{
    let ghost all = strings_view(crates@);
    let pattern = match Pattern::compile(r"^[^\s\[\]\d]$") {
        Ok(pattern) => pattern,
        Err(_) => {
            return Err(CraneError::PatternRejected);
        },
    };
    let mut stacks = ElfCrates::new();
    let mut i: usize = crates.len();
    assert(all.skip(i as int) =~= Seq::<Seq<char>>::empty());
    while i > 0
        invariant
            all == strings_view(crates@),
            pattern@ == label_pattern(),
            pattern_accepted(label_pattern()),
            0 <= i <= crates@.len(),
            stacks.wf(),
            draw_lines(all.skip(i as int)) == Ok::<Seq<Seq<char>>, CraneError>(stacks@),
        decreases i,
    {
        let ghost below = stacks@;
        let line = chars_of(crates[i - 1].as_str());
        proof {
            assert(all.skip(i - 1).drop_first() =~= all.skip(i as int));
            assert(all.skip(i - 1).first() == line@);
            lemma_draw_lines_suffix(all, i - 1);
        }
        let mut at: u128 = 0;
        let mut k: usize = 0;
        while k < line.len()
            invariant
                pattern@ == label_pattern(),
                pattern_accepted(label_pattern()),
                0 <= k <= line@.len(),
                stacks.wf(),
                at == column(line@, k as int),
                at <= 4 * k,
                draw_line_among(below, line@, k as int) == Ok::<Seq<Seq<char>>, CraneError>(stacks@),
                draw_line(below, line@) matches Err(e) ==> draw_lines(strings_view(crates@)) == Err::<
                    Seq<Seq<char>>,
                    CraneError,
                >(e),
            decreases line@.len() - k,
        {
            let c: char = line[k];
            let text = char_text(c);
            proof {
                lemma_draw_line_prefix(below, line@, k + 1);
            }
            let found = pattern.is_match(text.as_str());
            match place(&mut stacks, at, c, found) {
                Ok(()) => {},
                Err(e) => {
                    return Err(e);
                },
            }
            at = at + width_of(c);
            k += 1;
        }
        i -= 1;
    }
    proof {
        assert(all.skip(0) =~= all);
    }
    Ok(stacks)
}

/// A drawing that cannot be read from some line on cannot be read at all.
pub proof fn lemma_draw_lines_suffix(lines: Seq<Seq<char>>, k: int)
    requires
        0 <= k <= lines.len(),
    ensures
        draw_lines(lines.skip(k)) matches Err(e) ==> draw_lines(lines) == Err::<Seq<Seq<char>>, CraneError>(
            e,
        ),
    decreases k,
{
    if k > 0 {
        assert(lines.skip(k - 1).drop_first() =~= lines.skip(k));
        lemma_draw_lines_suffix(lines, k - 1);
    } else {
        assert(lines.skip(0) =~= lines);
    }
}

/// A line that cannot be drawn up to some character cannot be drawn.
pub proof fn lemma_draw_line_prefix(stacks: Seq<Seq<char>>, line: Seq<char>, k: int)
    requires
        0 <= k <= line.len(),
    ensures
        draw_line_among(stacks, line, k) matches Err(e) ==> draw_line(stacks, line) == Err::<
            Seq<Seq<char>>,
            CraneError,
        >(e),
    decreases line.len() - k,
{
    if k < line.len() {
        lemma_draw_line_prefix(stacks, line, k + 1);
    }
}

/// Reads a move from the numbers found in its line: the first three that
/// are machine numbers.
pub fn read_move(found: &Vec<String>) -> (r: Option<(usize, usize, usize)>)
    ensures
        r == move_of(strings_view(found@)),
{
    let ghost texts = strings_view(found@);
    let mut numbers: Vec<usize> = Vec::new();
    let mut i: usize = 0;
    while i < found.len()
        invariant
            texts == strings_view(found@),
            0 <= i <= found@.len(),
            numbers@ == numbers_among(texts, i as int),
        decreases found@.len() - i,
    {
        let word = chars_of(found[i].as_str());
        assert(texts[i as int] == word@);
        match parse_u64(&word) {
            Some(v) => {
                if v <= usize::MAX as u64 {
                    numbers.push(v as usize);
                }
            },
            None => {},
        }
        i += 1;
    }
    if numbers.len() >= 3 {
        Some((numbers[0], numbers[1], numbers[2]))
    } else {
        None
    }
}

/// Reads the moves of the crane. The first of `moves` is the blank line
/// that parts the drawing from the moves and is not read; each line after
/// it writes one move.
pub fn parse_moves(moves: &[String]) -> (r: Result<Vec<(usize, usize, usize)>, CraneError>)
    ensures
        match r {
            Ok(found) => moves@.len() > 0 && pattern_accepted(number_pattern()) && moves_among(
                strings_view(moves@).skip(1),
                moves@.len() - 1,
            ) == Some(found@),
            Err(CraneError::NoSeparator) => moves@.len() == 0,
            Err(CraneError::PatternRejected) => moves@.len() > 0 && !pattern_accepted(number_pattern()),
            Err(e) => e == CraneError::MoveUnreadable && moves@.len() > 0 && pattern_accepted(
                number_pattern(),
            ) && moves_among(strings_view(moves@).skip(1), moves@.len() - 1) is None,
        },
{
    if moves.len() == 0 {
        return Err(CraneError::NoSeparator);
    }
    let ghost lines = strings_view(moves@).skip(1);
    let pattern = match Pattern::compile(r"\d+") {
        Ok(pattern) => pattern,
        Err(_) => {
            return Err(CraneError::PatternRejected);
        },
    };
    let mut crate_moves: Vec<(usize, usize, usize)> = Vec::new();
    let mut i: usize = 1;
    while i < moves.len()
        invariant
            lines == strings_view(moves@).skip(1),
            pattern@ == number_pattern(),
            pattern_accepted(number_pattern()),
            1 <= i <= moves@.len(),
            moves_among(lines, i - 1) == Some(crate_moves@),
        decreases moves@.len() - i,
    {
        proof {
            assert(lines[i - 1] == moves@[i as int]@);
            lemma_moves_among_stay_lost(lines, i as int, moves@.len() - 1);
        }
        let found = pattern.find_all(moves[i].as_str());
        match read_move(&found) {
            Some(m) => {
                crate_moves.push(m);
            },
            None => {
                return Err(CraneError::MoveUnreadable);
            },
        }
        i += 1;
    }
    Ok(crate_moves)
}

/// Moves that cannot be read up to some line cannot be read.
pub proof fn lemma_moves_among_stay_lost(lines: Seq<Seq<char>>, k: int, n: int)
    requires
        k <= n,
    ensures
        moves_among(lines, k) is None ==> moves_among(lines, n) is None,
    decreases n - k,
{
    if k < n {
        lemma_moves_among_stay_lost(lines, k, n - 1);
    }
}

/// The stacks after one move of the crane: `m` holds the number of
/// crates, the stack to take them from and the stack to put them on, with
/// the stacks counted from one.
pub open spec fn apply_move(stacks: Seq<Seq<char>>, m: (usize, usize, usize)) -> Result<
    Seq<Seq<char>>,
    CraneError,
> {
    if !(1 <= m.1 <= stack_count() && 1 <= m.2 <= stack_count()) {
        Err(CraneError::NoSuchStack)
    } else if m.0 > stacks[m.1 - 1].len() {
        Err(CraneError::TooFewCrates)
    } else {
        Ok(move_many(stacks, m.0 as int, m.1 - 1, m.2 - 1))
    }
}

/// The stacks after all of `moves`, in order.
pub open spec fn apply_moves(stacks: Seq<Seq<char>>, moves: Seq<(usize, usize, usize)>) -> Result<
    Seq<Seq<char>>,
    CraneError,
>
    decreases moves.len(),
{
    if moves.len() == 0 {
        Ok(stacks)
    } else {
        match apply_moves(stacks, moves.drop_last()) {
            Ok(before) => apply_move(before, moves.last()),
            Err(e) => Err(e),
        }
    }
}

/// The labels of the top crates of the first `n` stacks, where none of
/// these stacks is empty.
pub open spec fn tops_among(stacks: Seq<Seq<char>>, n: int) -> Option<Seq<char>>
    decreases n,
{
    if n <= 0 {
        Some(Seq::empty())
    } else {
        match tops_among(stacks, n - 1) {
            Some(before) => if stacks[n - 1].len() > 0 {
                Some(before.push(stacks[n - 1].last()))
            } else {
                None
            },
            None => None,
        }
    }
}

/// The position of the first empty line at or after `from`.
pub open spec fn first_blank(lines: Seq<Seq<char>>, from: int) -> Option<int>
    decreases lines.len() - from,
{
    if from < 0 || from >= lines.len() {
        None
    } else if lines[from].len() == 0 {
        Some(from)
    } else {
        first_blank(lines, from + 1)
    }
}

/// The labels of the top crates after the crane has done all its moves:
/// the lines before the first blank line are the drawing, the lines after
/// it the moves.
pub open spec fn rearranged(lines: Seq<Seq<char>>) -> Result<Seq<char>, CraneError> {
    match first_blank(lines, 0) {
        None => Err(CraneError::NoSeparator),
        Some(blank) => match draw_lines(lines.take(blank)) {
            Err(e) => Err(e),
            Ok(stacks) => match moves_among(lines.skip(blank).skip(1), lines.len() - blank - 1) {
                None => Err(CraneError::MoveUnreadable),
                Some(moves) => match apply_moves(stacks, moves) {
                    Err(e) => Err(e),
                    Ok(after) => match tops_among(after, stack_count()) {
                        None => Err(CraneError::EmptyStack),
                        Some(tops) => Ok(tops),
                    },
                },
            },
        },
    }
}

/// Moves that have failed fail whatever follows.
pub proof fn lemma_apply_moves_prefix(stacks: Seq<Seq<char>>, moves: Seq<(usize, usize, usize)>, k: int)
    requires
        0 <= k <= moves.len(),
    ensures
        apply_moves(stacks, moves.take(k)) matches Err(e) ==> apply_moves(stacks, moves) == Err::<
            Seq<Seq<char>>,
            CraneError,
        >(e),
    decreases moves.len(),
{
    if k < moves.len() {
        assert(moves.drop_last().take(k) =~= moves.take(k));
        lemma_apply_moves_prefix(stacks, moves.drop_last(), k);
    } else {
        assert(moves.take(k) =~= moves);
    }
}

/// The crane fails only for want of a stack or of crates.
pub proof fn lemma_apply_moves_errors(stacks: Seq<Seq<char>>, moves: Seq<(usize, usize, usize)>)
    ensures
        apply_moves(stacks, moves) matches Err(e) ==> e == CraneError::NoSuchStack || e
            == CraneError::TooFewCrates,
    decreases moves.len(),
{
    if moves.len() > 0 {
        lemma_apply_moves_errors(stacks, moves.drop_last());
    }
}

/// Tops that are missing among the first stacks are missing among more.
pub proof fn lemma_tops_stay_lost(stacks: Seq<Seq<char>>, k: int, n: int)
    requires
        k <= n,
    ensures
        tops_among(stacks, k) is None ==> tops_among(stacks, n) is None,
    decreases n - k,
{
    if k < n {
        lemma_tops_stay_lost(stacks, k, n - 1);
    }
}

impl ElfCrates {
    /// Carries out one move of the crane, with the stacks counted from
    /// one. Where the move cannot be done, the stacks stay as they are.
    pub fn apply_move(&mut self, m: (usize, usize, usize)) -> (r: Result<(), CraneError>)
        requires
            old(self).wf(),
        ensures
            final(self).wf(),
            match apply_move(old(self)@, m) {
                Ok(after) => r is Ok && final(self)@ == after,
                Err(e) => r == Err::<(), CraneError>(e) && final(self)@ == old(self)@,
            },
    {
        let (amount, from, to) = m;
        if from < 1 || from > 9 || to < 1 || to > 9 {
            return Err(CraneError::NoSuchStack);
        }
        if amount > self.count_crates(from - 1) {
            return Err(CraneError::TooFewCrates);
        }
        self.move_crates(amount, from - 1, to - 1);
        Ok(())
    }

    /// The labels of the top crates, from the first stack to the last;
    /// nothing where a stack is empty.
    pub fn top_labels(&self) -> (r: Option<Vec<char>>)
        requires
            self.wf(),
        ensures
            match r {
                Some(tops) => tops_among(self@, stack_count()) == Some(tops@),
                None => tops_among(self@, stack_count()) is None,
            },
    {
        let mut tops: Vec<char> = Vec::new();
        let mut i: usize = 0;
        while i < 9
            invariant
                self.wf(),
                0 <= i <= 9,
                tops_among(self@, i as int) == Some(tops@),
            decreases 9 - i,
        {
            let stack = &self.stacks[i];
            proof {
                lemma_tops_stay_lost(self@, i + 1, 9);
            }
            if stack.len() == 0 {
                return None;
            }
            tops.push(stack[stack.len() - 1].label);
            i += 1;
        }
        Some(tops)
    }
}

/// Reads a drawing of stacks and the moves of the crane, carries out the
/// moves, and tells the labels of the top crates. The lines before the
/// first blank line are the drawing, the lines after it the moves.
pub fn rearrange(lines: &Vec<String>) -> (r: Result<Vec<char>, CraneError>)
    ensures
        match r {
            Ok(tops) => pattern_accepted(label_pattern()) && pattern_accepted(number_pattern())
                && rearranged(strings_view(lines@)) == Ok::<Seq<char>, CraneError>(tops@),
            Err(CraneError::PatternRejected) => first_blank(strings_view(lines@), 0) is Some && (
            !pattern_accepted(label_pattern()) || !pattern_accepted(number_pattern())),
            Err(e) => rearranged(strings_view(lines@)) == Err::<Seq<char>, CraneError>(e),
        },
{
    let ghost all = strings_view(lines@);
    let mut blank: usize = 0;
    while blank < lines.len() && !lines[blank].as_str().is_empty()
        invariant
            all == strings_view(lines@),
            0 <= blank <= lines@.len(),
            first_blank(all, 0) == first_blank(all, blank as int),
        decreases lines@.len() - blank,
    {
        assert(all[blank as int] == lines@[blank as int]@);
        blank += 1;
    }
    if blank >= lines.len() {
        return Err(CraneError::NoSeparator);
    }
    assert(all[blank as int] == lines@[blank as int]@);
    let drawing = slice_subrange(lines.as_slice(), 0, blank);
    let rest = slice_subrange(lines.as_slice(), blank, lines.len());
    proof {
        assert(strings_view(drawing@) =~= all.take(blank as int));
        assert(strings_view(rest@) =~= all.skip(blank as int));
    }
    let mut stacks = match parse_crates(drawing) {
        Ok(stacks) => stacks,
        Err(e) => {
            return Err(e);
        },
    };
    let moves = match parse_moves(rest) {
        Ok(moves) => moves,
        Err(e) => {
            return Err(e);
        },
    };
    let ghost drawn = stacks@;
    let mut i: usize = 0;
    proof {
        assert(moves@.take(0) =~= Seq::<(usize, usize, usize)>::empty());
        lemma_apply_moves_errors(drawn, moves@);
    }
    while i < moves.len()
        invariant
            0 <= i <= moves@.len(),
            stacks.wf(),
            apply_moves(drawn, moves@.take(i as int)) == Ok::<Seq<Seq<char>>, CraneError>(stacks@),
            apply_moves(drawn, moves@) matches Err(e) ==> e != CraneError::PatternRejected && rearranged(
                strings_view(lines@),
            ) == Err::<Seq<char>, CraneError>(e),
        decreases moves@.len() - i,
    {
        proof {
            assert(moves@.take(i + 1).drop_last() =~= moves@.take(i as int));
            lemma_apply_moves_prefix(drawn, moves@, i + 1);
        }
        match stacks.apply_move(moves[i]) {
            Ok(()) => {},
            Err(e) => {
                return Err(e);
            },
        }
        i += 1;
    }
    proof {
        assert(moves@.take(i as int) =~= moves@);
    }
    match stacks.top_labels() {
        Some(tops) => Ok(tops),
        None => Err(CraneError::EmptyStack),
    }
}

} // verus!
