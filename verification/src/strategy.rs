//! Rock, paper, scissors by the book: each line holds the shape that the
//! opponent plays and the outcome that the round should have.
//!
//! The shapes are `A` for rock, `B` for paper and `C` for scissors; the
//! outcomes are `X` for a loss, `Y` for a draw and `Z` for a win. The two
//! are set apart by one blank.

use std::collections::HashMap;
use vstd::prelude::*;
use crate::text::{chars_of, strings_view};

verus! {

/// The position of the first blank at or after `from`, or the length of
/// `line` when no blank follows.
pub open spec fn next_blank(line: Seq<char>, from: int) -> int
    decreases line.len() - from,
{
    if from < 0 || from >= line.len() {
        line.len() as int
    } else if line[from] == ' ' {
        from
    } else {
        next_blank(line, from + 1)
    }
}

/// The points for playing a shape: one for rock, two for paper, three
/// for scissors.
pub open spec fn shape_score(shape: char) -> int {
    if shape == 'A' {
        1
    } else if shape == 'B' {
        2
    } else {
        3
    }
}

/// The shape that loses against `shape`.
pub open spec fn loser_against(shape: char) -> char {
    if shape == 'A' {
        'C'
    } else if shape == 'B' {
        'A'
    } else {
        'B'
    }
}

/// The shape that wins against `shape`.
pub open spec fn winner_against(shape: char) -> char {
    if shape == 'A' {
        'B'
    } else if shape == 'B' {
        'C'
    } else {
        'A'
    }
}

/// The points of a round in which the opponent plays `shape` and the
/// round ends in `outcome`: the points for the shape that brings the
/// outcome about, and three more for a draw or six for a win.
pub open spec fn points(shape: char, outcome: char) -> int {
    if outcome == 'X' {
        shape_score(loser_against(shape))
    } else if outcome == 'Y' {
        shape_score(shape) + 3
    } else {
        shape_score(winner_against(shape)) + 6
    }
}

/// One round: the outcome that it should have, the shape to play for
/// that outcome, and the points that it brings.
#[derive(Clone, Copy, Debug, PartialEq, Eq, Structural)]
pub struct Round {
    pub outcome: char,
    pub played: char,
    pub score: i32,
}

/// The shape to play so that a round against `shape` ends in `outcome`.
pub open spec fn shape_for(shape: char, outcome: char) -> char {
    if outcome == 'X' {
        loser_against(shape)
    } else if outcome == 'Y' {
        shape
    } else {
        winner_against(shape)
    }
}

/// The round that `line` writes. The text before the first blank is the
/// shape, the text between the first and the second blank, or the end of
/// the line, the outcome. Nothing where either is missing or is none of
/// its three letters.
pub open spec fn round_of(line: Seq<char>) -> Option<Round> {
    let first = next_blank(line, 0);
    let second = next_blank(line, first + 1);
    if first == 1 && first < line.len() && second == first + 2 && (line[0] == 'A' || line[0] == 'B'
        || line[0] == 'C') && (line[2] == 'X' || line[2] == 'Y' || line[2] == 'Z') {
        Some(
            Round {
                outcome: line[2],
                played: shape_for(line[0], line[2]),
                score: points(line[0], line[2]) as i32,
            },
        )
    } else {
        None
    }
}

/// The points of the round that `line` writes, where it writes one.
pub open spec fn round_points(line: Seq<char>) -> Option<int> {
    match round_of(line) {
        Some(round) => Some(round.score as int),
        None => None,
    }
}

/// The points of the first `n` rounds together; nothing where a line
/// writes no round or the points do not fit in 32 bits.
pub open spec fn points_among(lines: Seq<Seq<char>>, n: int) -> Option<int>
    decreases n,
{
    if n <= 0 {
        Some(0)
    } else {
        match (points_among(lines, n - 1), round_points(lines[n - 1])) {
            (Some(before), Some(round)) => if before + round <= i32::MAX {
                Some(before + round)
            } else {
                None
            },
            _ => None,
        }
    }
}

/// Points that are lost stay lost.
pub proof fn lemma_points_stay_lost(lines: Seq<Seq<char>>, k: int, n: int)
    requires
        k <= n,
    ensures
        points_among(lines, k) is None ==> points_among(lines, n) is None,
    decreases n - k,
{
    if k < n {
        lemma_points_stay_lost(lines, k, n - 1);
    }
}

/// The next blank is not found before the place where the search begins.
pub proof fn lemma_next_blank_bound(line: Seq<char>, from: int)
    requires
        0 <= from <= line.len(),
    ensures
        from <= next_blank(line, from) <= line.len(),
    decreases line.len() - from,
{
    if from < line.len() && line[from] != ' ' {
        lemma_next_blank_bound(line, from + 1);
    }
}

/// A round is worth one to nine points.
pub proof fn lemma_points_range(shape: char, outcome: char)
    ensures
        1 <= points(shape, outcome) <= 9,
{
}

/// The points for each shape, by the number of its letter.
pub open spec fn score_table() -> Map<u32, i32> {
    Map::<u32, i32>::empty().insert('A' as u32, 1).insert('B' as u32, 2).insert('C' as u32, 3)
}

/// The shape that loses against each shape, by the number of its letter.
pub open spec fn losing_table() -> Map<u32, char> {
    Map::<u32, char>::empty().insert('A' as u32, 'C').insert('B' as u32, 'A').insert('C' as u32, 'B')
}

/// The shape that wins against each shape, by the number of its letter.
pub open spec fn winning_table() -> Map<u32, char> {
    Map::<u32, char>::empty().insert('A' as u32, 'B').insert('B' as u32, 'C').insert('C' as u32, 'A')
}

/// The three tables of the game, each keyed by the number of a shape's
/// letter.
pub struct Book {
    move_scores: HashMap<u32, i32>,
    losing_moves: HashMap<u32, char>,
    winning_moves: HashMap<u32, char>,
}

impl Book {
    /// Whether the tables hold what the rules of the game say.
    pub closed spec fn wf(&self) -> bool {
        &&& self.move_scores@ == score_table()
        &&& self.losing_moves@ == losing_table()
        &&& self.winning_moves@ == winning_table()
    }

    /// The tables of the game.
    pub fn new() -> (book: Book)
        ensures
            book.wf(),
    {
        let mut move_scores: HashMap<u32, i32> = HashMap::new();
        move_scores.insert('A' as u32, 1);
        move_scores.insert('B' as u32, 2);
        move_scores.insert('C' as u32, 3);
        let mut losing_moves: HashMap<u32, char> = HashMap::new();
        losing_moves.insert('A' as u32, 'C');
        losing_moves.insert('B' as u32, 'A');
        losing_moves.insert('C' as u32, 'B');
        let mut winning_moves: HashMap<u32, char> = HashMap::new();
        winning_moves.insert('A' as u32, 'B');
        winning_moves.insert('B' as u32, 'C');
        winning_moves.insert('C' as u32, 'A');
        Book { move_scores, losing_moves, winning_moves }
    }

    /// The points for playing `shape`, where it is one of the three.
    fn score_of(&self, shape: char) -> (r: Option<i32>)
        requires
            self.wf(),
        ensures
            r == if shape == 'A' || shape == 'B' || shape == 'C' {
                Some(shape_score(shape) as i32)
            } else {
                None
            },
    {
        let key: u32 = shape as u32;
        proof {
            vstd::utf8::char_u32_cast(shape, key);
        }
        match self.move_scores.get(&key) {
            Some(score) => Some(*score),
            None => None,
        }
    }

    /// The points of the round that `line` writes.
    pub fn round_score(&self, line: &str) -> (r: Option<i32>)
        requires
            self.wf(),
        ensures
            match r {
                Some(score) => round_points(line@) == Some(score as int),
                None => round_points(line@) is None,
            },
    {
        match self.read_round(line) {
            Some(round) => Some(round.score),
            None => None,
        }
    }

    /// The round that `line` writes.
    pub fn read_round(&self, line: &str) -> (r: Option<Round>)
        requires
            self.wf(),
        ensures
            r == round_of(line@),
    {
        let chars = chars_of(line);
        let n: usize = chars.len();
        proof {
            reveal_with_fuel(next_blank, 4);
        }
        if n < 3 || chars[0] == ' ' || chars[1] != ' ' || chars[2] == ' ' {
            return None;
        }
        if n > 3 && chars[3] != ' ' {
            proof {
                lemma_next_blank_bound(line@, 4);
            }
            return None;
        }
        let shape: char = chars[0];
        let outcome: char = chars[2];
        let key: u32 = shape as u32;
        proof {
            vstd::utf8::char_u32_cast(shape, key);
        }
        if outcome == 'X' {
            match self.losing_moves.get(&key) {
                Some(played) => match self.score_of(*played) {
                    Some(score) => Some(Round { outcome, played: *played, score }),
                    None => None,
                },
                None => None,
            }
        } else if outcome == 'Y' {
            match self.score_of(shape) {
                Some(score) => Some(Round { outcome, played: shape, score: score + 3 }),
                None => None,
            }
        } else if outcome == 'Z' {
            match self.winning_moves.get(&key) {
                Some(played) => match self.score_of(*played) {
                    Some(score) => Some(Round { outcome, played: *played, score: score + 6 }),
                    None => None,
                },
                None => None,
            }
        } else {
            None
        }
    }
}

/// The points of the round that `line` writes.
pub fn round_score(line: &str) -> (r: Option<i32>)
    ensures
        match r {
            Some(score) => round_points(line@) == Some(score as int),
            None => round_points(line@) is None,
        },
{
    Book::new().round_score(line)
}

/// The points of all rounds together; nothing where a line writes no
/// round or the points do not fit in 32 bits.
pub fn total_score(lines: &Vec<String>) -> (r: Option<i32>)
    ensures
        match r {
            Some(total) => points_among(strings_view(lines@), lines@.len() as int) == Some(total as int),
            None => points_among(strings_view(lines@), lines@.len() as int) is None,
        },
{
    let ghost all = strings_view(lines@);
    let book = Book::new();
    let mut sum: i32 = 0;
    let mut i: usize = 0;
    while i < lines.len()
        invariant
            all == strings_view(lines@),
            book.wf(),
            0 <= i <= lines@.len(),
            0 <= sum,
            points_among(all, i as int) == Some(sum as int),
        decreases lines@.len() - i,
    {
        proof {
            assert(all[i as int] == lines@[i as int]@);
            lemma_points_stay_lost(all, i + 1, lines@.len() as int);
        }
        match book.round_score(lines[i].as_str()) {
            Some(score) => {
                proof {
                    lemma_points_range(lines@[i as int]@[0], lines@[i as int]@[2]);
                    assert(round_of(lines@[i as int]@) is Some);
                }
                match sum.checked_add(score) {
                    Some(next) => {
                        sum = next;
                    },
                    None => {
                        return None;
                    },
                }
            },
            None => {
                return None;
            },
        }
        i += 1;
    }
    Some(sum)
}

} // verus!
