//! A square patch of trees: which trees can be seen from outside the
//! patch, and how far one can see from a tree.
//!
//! The trees stand in rows; `x` counts along a row from the left and `y`
//! counts the rows from the top.

use vstd::prelude::*;
use vstd::string::StringExecFns;
use crate::paint::{paint_height, shows};
use crate::roots::{floor_root, floor_sqrt, lemma_floor_sqrt};
use crate::text::{chars_of, decimal_digits, decimal_string, digit_value, is_digit, strings_view};

verus! {

/// The place of a tree.
#[derive(Clone, Copy, Debug, PartialEq, Eq, Structural)]
pub struct Pos {
    pub x: usize,
    pub y: usize,
}

/// A tree: its place and its height.
#[derive(Clone, Copy, Debug, PartialEq, Eq, Structural)]
pub struct Tree {
    pub pos: Pos,
    pub height: usize,
}

/// One of the four directions in the patch.
#[derive(Clone, Copy, Debug, PartialEq, Eq, Structural)]
pub enum Direction {
    Left,
    Top,
    Right,
    Bottom,
}

/// The trees of a patch, row after row.
#[derive(Debug)]
pub struct TreeGrid {
    pub trees: Vec<Tree>,
}

/// A place with coordinates that are whole numbers of any size.
pub struct Spot {
    pub x: int,
    pub y: int,
}

impl View for Pos {
    type V = Spot;

    open spec fn view(&self) -> Spot {
        Spot { x: self.x as int, y: self.y as int }
    }
}

/// The direction that undoes `direction`.
pub open spec fn opposite_of(direction: Direction) -> Direction {
    match direction {
        Direction::Left => Direction::Right,
        Direction::Top => Direction::Bottom,
        Direction::Right => Direction::Left,
        Direction::Bottom => Direction::Top,
    }
}

/// The largest coordinate in a square patch of `count` trees: the side of
/// the square, rounded down, less one.
pub open spec fn width_of(count: nat) -> int {
    floor_sqrt(count) - 1
}

/// Whether a patch of `count` trees has room for a step from `pos` in
/// `direction`.
pub open spec fn has_room(count: nat, pos: Spot, direction: Direction) -> bool {
    match direction {
        Direction::Left => pos.x > 0,
        Direction::Top => pos.y > 0,
        Direction::Right => pos.x < width_of(count),
        Direction::Bottom => pos.y < width_of(count),
    }
}

/// The place one step from `pos` in `direction`.
pub open spec fn step(pos: Spot, direction: Direction) -> Spot {
    match direction {
        Direction::Left => Spot { x: pos.x - 1, y: pos.y },
        Direction::Top => Spot { x: pos.x, y: pos.y - 1 },
        Direction::Right => Spot { x: pos.x + 1, y: pos.y },
        Direction::Bottom => Spot { x: pos.x, y: pos.y + 1 },
    }
}

/// The number of steps that a patch of `count` trees has room for from
/// `pos` in `direction`.
pub open spec fn room(count: nat, pos: Spot, direction: Direction) -> nat {
    match direction {
        Direction::Left => if pos.x > 0 {
            pos.x as nat
        } else {
            0
        },
        Direction::Top => if pos.y > 0 {
            pos.y as nat
        } else {
            0
        },
        Direction::Right => if pos.x < width_of(count) {
            (width_of(count) - pos.x) as nat
        } else {
            0
        },
        Direction::Bottom => if pos.y < width_of(count) {
            (width_of(count) - pos.y) as nat
        } else {
            0
        },
    }
}

/// The position in `trees` of the first tree at or after `from` that
/// stands at `pos`.
pub open spec fn tree_from(trees: Seq<Tree>, pos: Spot, from: int) -> Option<int>
    decreases trees.len() - from,
{
    if from < 0 || from >= trees.len() {
        None
    } else if trees[from].pos@ == pos {
        Some(from)
    } else {
        tree_from(trees, pos, from + 1)
    }
}

/// The position in `trees` of the first tree that stands at `pos`.
pub open spec fn tree_at(trees: Seq<Tree>, pos: Spot) -> Option<int> {
    tree_from(trees, pos, 0)
}

/// The position in `trees` of the tree next to `pos` in `direction`.
pub open spec fn neighbour_of(trees: Seq<Tree>, pos: Spot, direction: Direction) -> Option<int> {
    if has_room(trees.len(), pos, direction) {
        tree_at(trees, step(pos, direction))
    } else {
        None
    }
}

/// How many trees one sees from `pos` in `direction`, when looking from a
/// height of `height`: the trees are counted up to the first that is at
/// least that high, or to the end of the patch.
pub open spec fn scenic(trees: Seq<Tree>, height: usize, pos: Spot, direction: Direction) -> nat
    decreases room(trees.len(), pos, direction),
{
    if !has_room(trees.len(), pos, direction) {
        0
    } else {
        match tree_at(trees, step(pos, direction)) {
            Some(j) => if trees[j].height >= height {
                1
            } else {
                1 + scenic(trees, height, step(pos, direction), direction)
            },
            None => 0,
        }
    }
}

/// What `tree_from` finds: the first tree at `pos`, or nothing when no
/// tree stands there.
pub proof fn lemma_tree_from(trees: Seq<Tree>, pos: Spot, from: int)
    requires
        0 <= from,
    ensures
        match tree_from(trees, pos, from) {
            Some(j) => {
                &&& from <= j < trees.len()
                &&& trees[j].pos@ == pos
                &&& forall|k: int| from <= k < j ==> (#[trigger] trees[k]).pos@ != pos
            },
            None => forall|k: int| from <= k < trees.len() ==> (#[trigger] trees[k]).pos@ != pos,
        },
    decreases trees.len() - from,
{
    if from < trees.len() && trees[from].pos@ != pos {
        lemma_tree_from(trees, pos, from + 1);
    }
}

/// One sees no more trees than there is room for.
pub proof fn lemma_scenic_bound(trees: Seq<Tree>, height: usize, pos: Spot, direction: Direction)
    ensures
        scenic(trees, height, pos, direction) <= room(trees.len(), pos, direction),
    decreases room(trees.len(), pos, direction),
{
    if has_room(trees.len(), pos, direction) {
        lemma_scenic_bound(trees, height, step(pos, direction), direction);
    }
}

/// The opposite of a direction.
pub fn get_opposite_direction(direction: &Direction) -> (r: Direction)
    ensures
        r == opposite_of(*direction),
{
    match direction {
        Direction::Left => Direction::Right,
        Direction::Top => Direction::Bottom,
        Direction::Right => Direction::Left,
        Direction::Bottom => Direction::Top,
    }
}

impl Pos {
    /// The place one step from this one in `direction`.
    pub fn pos_after_move(&self, direction: &Direction) -> (r: Pos)
        requires
            *direction == Direction::Left ==> self.x > 0,
            *direction == Direction::Top ==> self.y > 0,
            *direction == Direction::Right ==> self.x < usize::MAX,
            *direction == Direction::Bottom ==> self.y < usize::MAX,
        ensures
            r@ == step(self@, *direction),
    {
        match direction {
            Direction::Left => Pos { x: self.x - 1, y: self.y },
            Direction::Top => Pos { x: self.x, y: self.y - 1 },
            Direction::Right => Pos { x: self.x + 1, y: self.y },
            Direction::Bottom => Pos { x: self.x, y: self.y + 1 },
        }
    }
}

impl Tree {
    /// The tree as text, `x:.., y:.., h:..`.
    pub fn to_text(&self) -> (text: String)
        ensures
            text@ == seq!['x', ':'] + decimal_digits(self.pos.x as nat) + seq![',', ' ', 'y', ':']
                + decimal_digits(self.pos.y as nat) + seq![',', ' ', 'h', ':'] + decimal_digits(
                self.height as nat,
            ),
    {
        proof {
            reveal_strlit("x:");
            reveal_strlit(", y:");
            reveal_strlit(", h:");
            assert("x:"@ =~= seq!['x', ':']);
            assert(", y:"@ =~= seq![',', ' ', 'y', ':']);
            assert(", h:"@ =~= seq![',', ' ', 'h', ':']);
        }
        let mut text = "x:".to_owned();
        text.append(decimal_string(self.pos.x as u128).as_str());
        text.append(", y:");
        text.append(decimal_string(self.pos.y as u128).as_str());
        text.append(", h:");
        text.append(decimal_string(self.height as u128).as_str());
        text
    }
}

impl TreeGrid {
    /// The largest coordinate of a patch that holds a tree is a machine
    /// number of 32 bits or fewer.
    pub proof fn lemma_width_fits(&self)
        requires
            self.trees@.len() > 0,
        ensures
            0 <= width_of(self.trees@.len()) < 0x1_0000_0000,
            width_of(self.trees@.len()) < usize::MAX,
    {
        assert(self.trees.len() == self.trees@.len());
        lemma_floor_sqrt(self.trees@.len());
        let r = floor_sqrt(self.trees@.len());
        if r == 0 {
            assert((r + 1) * (r + 1) == 1) by (nonlinear_arith)
                requires
                    r == 0,
            ;
        }
        assert(r <= 0x1_0000_0000 && r <= r * r) by (nonlinear_arith)
            requires
                r >= 1,
                r * r <= 0xffff_ffff_ffff_ffff,
        ;
    }

    /// The largest coordinate of the patch.
    pub fn get_width(&self) -> (w: usize)
        requires
            self.trees@.len() > 0,
        ensures
            w == width_of(self.trees@.len()),
    {
        proof {
            self.lemma_width_fits();
        }
        (floor_root(self.trees.len() as u128) - 1) as usize
    }

    /// The first tree that stands at `tree_pos`.
    pub fn get_tree(&self, tree_pos: &Pos) -> (r: Option<&Tree>)
        ensures
            match r {
                Some(tree) => tree_at(self.trees@, tree_pos@) matches Some(j) && *tree == self.trees@[j],
                None => tree_at(self.trees@, tree_pos@) is None,
            },
    {
        let mut i: usize = 0;
        while i < self.trees.len()
            invariant
                0 <= i <= self.trees@.len(),
                tree_at(self.trees@, tree_pos@) == tree_from(self.trees@, tree_pos@, i as int),
            decreases self.trees@.len() - i,
        {
            if self.trees[i].pos == *tree_pos {
                return Some(&self.trees[i]);
            }
            i += 1;
        }
        None
    }

    /// Whether the patch has room for a step from `tree_pos` in
    /// `direction`.
    pub fn has_neighbour(&self, tree_pos: &Pos, direction: &Direction) -> (r: bool)
        requires
            self.trees@.len() > 0,
        ensures
            r == has_room(self.trees@.len(), tree_pos@, *direction),
    {
        match direction {
            Direction::Left => tree_pos.x > 0,
            Direction::Top => tree_pos.y > 0,
            Direction::Right => tree_pos.x < self.get_width(),
            Direction::Bottom => tree_pos.y < self.get_width(),
        }
    }

    /// The tree next to `tree_pos` in `direction`.
    pub fn get_neighbour(&self, tree_pos: &Pos, direction: &Direction) -> (r: Option<&Tree>)
        requires
            self.trees@.len() > 0,
        ensures
            match r {
                Some(tree) => neighbour_of(self.trees@, tree_pos@, *direction) matches Some(j) && *tree
                    == self.trees@[j],
                None => neighbour_of(self.trees@, tree_pos@, *direction) is None,
            },
    {
        if self.has_neighbour(tree_pos, direction) {
            proof {
                self.lemma_width_fits();
            }
            return self.get_tree(&tree_pos.pos_after_move(direction));
        }
        None
    }

    /// The height of the tree next to `tree_pos` in `direction`.
    pub fn get_neighbour_height(&self, tree_pos: &Pos, direction: &Direction) -> (r: Option<usize>)
        requires
            self.trees@.len() > 0,
        ensures
            match r {
                Some(height) => neighbour_of(self.trees@, tree_pos@, *direction) matches Some(j)
                    && height == self.trees@[j].height,
                None => neighbour_of(self.trees@, tree_pos@, *direction) is None,
            },
    {
        if !self.has_neighbour(tree_pos, direction) {
            return None;
        }
        if let Some(neigh) = self.get_neighbour(tree_pos, direction) {
            return Some(neigh.height);
        }
        None
    }

    /// Whether `tree_pos` lies on the edge of the patch in `direction`.
    pub fn is_tree_on_edge(&self, tree_pos: &Pos, direction: &Direction) -> (r: bool)
        requires
            self.trees@.len() > 0,
        ensures
            r == !has_room(self.trees@.len(), tree_pos@, *direction),
    {
        !self.has_neighbour(tree_pos, direction)
    }

    /// How many trees one sees from the tree at `tree_pos` in
    /// `direction`.
    pub fn calculate_scenic_score(&self, tree_pos: &Pos, direction: &Direction) -> (score: usize)
        requires
            self.trees@.len() > 0,
            tree_at(self.trees@, tree_pos@) is Some,
        ensures
            score == scenic(
                self.trees@,
                self.trees@[tree_at(self.trees@, tree_pos@)->0].height,
                tree_pos@,
                *direction,
            ),
    {
        let start: Tree = match self.get_tree(tree_pos) {
            Some(tree) => *tree,
            None => Tree { pos: *tree_pos, height: 0 },
        };
        let ghost total = scenic(self.trees@, start.height, tree_pos@, *direction);
        proof {
            lemma_scenic_bound(self.trees@, start.height, tree_pos@, *direction);
            self.lemma_width_fits();
        }
        let mut score: usize = 0;
        let mut current: Pos = *tree_pos;
        loop
            invariant_except_break
                score + scenic(self.trees@, start.height, current@, *direction) == total,
            invariant
                self.trees@.len() > 0,
                total <= usize::MAX,
            ensures
                score == total,
            decreases room(self.trees@.len(), current@, *direction),
        {
            proof {
                lemma_tree_from(self.trees@, step(current@, *direction), 0);
            }
            if let Some(neigh) = self.get_neighbour(&current, direction) {
                score += 1;
                if neigh.height >= start.height {
                    break ;
                }
                current = neigh.pos;
            } else {
                break ;
            }
        }
        score
    }

    /// The product of the numbers of trees that one sees from the tree at
    /// `tree_pos` in the four directions; zero for a place on the edge of
    /// the patch.
    pub fn total_scenic_score(&self, tree_pos: &Pos) -> (total: u128)
        requires
            self.trees@.len() > 0,
            tree_at(self.trees@, tree_pos@) is Some,
        ensures
            total == total_scenic(self.trees@, tree_pos@),
    {
        if self.is_tree_on_edge(tree_pos, &Direction::Bottom) || self.is_tree_on_edge(
            tree_pos,
            &Direction::Left,
        ) || self.is_tree_on_edge(tree_pos, &Direction::Right) || self.is_tree_on_edge(
            tree_pos,
            &Direction::Top,
        ) {
            return 0;
        }
        let ghost height = self.trees@[tree_at(self.trees@, tree_pos@)->0].height;
        let bottom: u128 = self.calculate_scenic_score(tree_pos, &Direction::Bottom) as u128;
        let left: u128 = self.calculate_scenic_score(tree_pos, &Direction::Left) as u128;
        let right: u128 = self.calculate_scenic_score(tree_pos, &Direction::Right) as u128;
        let top: u128 = self.calculate_scenic_score(tree_pos, &Direction::Top) as u128;
        proof {
            lemma_tree_from(self.trees@, tree_pos@, 0);
            lemma_scenic_bound(self.trees@, height, tree_pos@, Direction::Bottom);
            lemma_scenic_bound(self.trees@, height, tree_pos@, Direction::Left);
            lemma_scenic_bound(self.trees@, height, tree_pos@, Direction::Right);
            lemma_scenic_bound(self.trees@, height, tree_pos@, Direction::Top);
            self.lemma_width_fits();
            assert(bottom * left < 0x1_0000_0000_0000_0000) by (nonlinear_arith)
                requires
                    bottom < 0x1_0000_0000,
                    left < 0x1_0000_0000,
            ;
            assert(bottom * left * right < 0x1_0000_0000_0000_0000_0000_0000) by (nonlinear_arith)
                requires
                    bottom * left < 0x1_0000_0000_0000_0000,
                    right < 0x1_0000_0000,
            ;
            assert(bottom * left * right * top < 0x1_0000_0000_0000_0000_0000_0000_0000_0000)
                by (nonlinear_arith)
                requires
                    bottom * left * right < 0x1_0000_0000_0000_0000_0000_0000,
                    top < 0x1_0000_0000,
            ;
        }
        let total = bottom * left * right * top;
        total
    }
}

/// The tree that the digit `c` in column `x` of row `y` stands for.
pub open spec fn tree_of(c: char, x: int, y: int) -> Tree {
    Tree { pos: Pos { x: x as usize, y: y as usize }, height: digit_value(c) as usize }
}

/// The trees that the first `n` characters of row `y` stand for; nothing
/// where one of them is no digit.
pub open spec fn row_among(line: Seq<char>, y: int, n: int) -> Option<Seq<Tree>>
    decreases n,
{
    if n <= 0 {
        Some(Seq::empty())
    } else {
        match row_among(line, y, n - 1) {
            Some(before) => if is_digit(line[n - 1]) {
                Some(before.push(tree_of(line[n - 1], n - 1, y)))
            } else {
                None
            },
            None => None,
        }
    }
}

/// The trees that the first `n` of `lines` stand for, row after row.
pub open spec fn patch_among(lines: Seq<Seq<char>>, n: int) -> Option<Seq<Tree>>
    decreases n,
{
    if n <= 0 {
        Some(Seq::empty())
    } else {
        match (patch_among(lines, n - 1), row_among(lines[n - 1], n - 1, lines[n - 1].len() as int)) {
            (Some(before), Some(row)) => Some(before + row),
            _ => None,
        }
    }
}

/// Rows that cannot be read up to some character cannot be read.
pub proof fn lemma_row_stays_lost(line: Seq<char>, y: int, k: int, n: int)
    requires
        k <= n,
    ensures
        row_among(line, y, k) is None ==> row_among(line, y, n) is None,
    decreases n - k,
{
    if k < n {
        lemma_row_stays_lost(line, y, k, n - 1);
    }
}

/// A patch that cannot be read up to some row cannot be read.
pub proof fn lemma_patch_stays_lost(lines: Seq<Seq<char>>, k: int, n: int)
    requires
        k <= n,
    ensures
        patch_among(lines, k) is None ==> patch_among(lines, n) is None,
    decreases n - k,
{
    if k < n {
        lemma_patch_stays_lost(lines, k, n - 1);
    }
}

/// Reads a patch of trees: each line is a row, each digit the height of a
/// tree. Nothing where a character is no digit.
pub fn parse_grid(lines: &Vec<String>) -> (r: Option<TreeGrid>)
    ensures
        match r {
            Some(grid) => patch_among(strings_view(lines@), lines@.len() as int) == Some(grid.trees@),
            None => patch_among(strings_view(lines@), lines@.len() as int) is None,
        },
{
    let ghost all = strings_view(lines@);
    let mut trees: Vec<Tree> = Vec::new();
    let mut y: usize = 0;
    while y < lines.len()
        invariant
            all == strings_view(lines@),
            0 <= y <= lines@.len(),
            patch_among(all, y as int) == Some(trees@),
        decreases lines@.len() - y,
    {
        let line = chars_of(lines[y].as_str());
        let ghost before = trees@;
        proof {
            assert(all[y as int] == line@);
            lemma_patch_stays_lost(all, y + 1, lines@.len() as int);
        }
        let mut x: usize = 0;
        assert(trees@ =~= before + Seq::<Tree>::empty());
        while x < line.len()
            invariant
                0 <= x <= line@.len(),
                row_among(line@, y as int, x as int) matches Some(row) && trees@ == before + row,
                row_among(line@, y as int, line@.len() as int) is None ==> patch_among(
                    strings_view(lines@),
                    lines@.len() as int,
                ) is None,
            decreases line@.len() - x,
        {
            let c: char = line[x];
            proof {
                lemma_row_stays_lost(line@, y as int, x + 1, line@.len() as int);
            }
            if !('0' <= c && c <= '9') {
                return None;
            }
            let height: usize = (c as u32 - '0' as u32) as usize;
            proof {
                let row = row_among(line@, y as int, x as int)->0;
                assert((before + row).push(tree_of(c, x as int, y as int)) =~= before + row.push(
                    tree_of(c, x as int, y as int),
                ));
            }
            trees.push(Tree { pos: Pos { x, y }, height });
            x += 1;
        }
        y += 1;
    }
    Some(TreeGrid { trees })
}

/// One tree of a painted patch.
pub struct Cell {
    /// The height of the tree on the background of its scenic score.
    pub text: colored::ColoredString,
    /// Whether the tree is the last of its row.
    pub ends_row: bool,
}

impl TreeGrid {
    /// Every tree of the patch is found at its own place, though maybe
    /// not first.
    pub proof fn lemma_trees_are_found(&self, i: int)
        requires
            0 <= i < self.trees@.len(),
        ensures
            tree_at(self.trees@, self.trees@[i].pos@) is Some,
    {
        lemma_tree_from(self.trees@, self.trees@[i].pos@, 0);
    }

    /// The best scenic score of any tree of the patch; nothing for a
    /// patch without trees.
    pub fn best_scenic_score(&self) -> (r: Option<u128>)
        ensures
            match r {
                Some(best) => {
                    &&& exists|i: int|
                        0 <= i < self.trees@.len() && total_scenic(
                            self.trees@,
                            (#[trigger] self.trees@[i]).pos@,
                        ) == best
                    &&& forall|i: int|
                        0 <= i < self.trees@.len() ==> total_scenic(
                            self.trees@,
                            (#[trigger] self.trees@[i]).pos@,
                        ) <= best
                },
                None => self.trees@.len() == 0,
            },
    {
        let mut best: Option<u128> = None;
        let mut i: usize = 0;
        while i < self.trees.len()
            invariant
                0 <= i <= self.trees@.len(),
                match best {
                    Some(best) => {
                        &&& exists|j: int|
                            0 <= j < i && total_scenic(self.trees@, (#[trigger] self.trees@[j]).pos@)
                                == best
                        &&& forall|j: int|
                            0 <= j < i ==> total_scenic(self.trees@, (#[trigger] self.trees@[j]).pos@)
                                <= best
                    },
                    None => i == 0,
                },
            decreases self.trees@.len() - i,
        {
            proof {
                self.lemma_trees_are_found(i as int);
            }
            let score = self.total_scenic_score(&self.trees[i].pos);
            let better = match best {
                Some(best) => score >= best,
                None => true,
            };
            if better {
                best = Some(score);
            }
            i += 1;
        }
        best
    }

    /// The patch as painted cells, tree after tree: each shows the height
    /// of its tree on the background of the tree's scenic score, and
    /// knows whether its row ends with it.
    pub fn paint_scores(&self) -> (cells: Vec<Cell>)
        ensures
            cells@.len() == self.trees@.len(),
            forall|i: int|
                0 <= i < self.trees@.len() ==> shows(
                    (#[trigger] cells@[i]).text,
                    self.trees@[i].height as nat,
                    total_scenic(self.trees@, self.trees@[i].pos@),
                ) && cells@[i].ends_row == (self.trees@[i].pos.x == width_of(self.trees@.len())),
    {
        let mut cells: Vec<Cell> = Vec::new();
        let mut i: usize = 0;
        while i < self.trees.len()
            invariant
                0 <= i <= self.trees@.len(),
                cells@.len() == i,
                forall|j: int|
                    0 <= j < i ==> shows(
                        (#[trigger] cells@[j]).text,
                        self.trees@[j].height as nat,
                        total_scenic(self.trees@, self.trees@[j].pos@),
                    ) && cells@[j].ends_row == (self.trees@[j].pos.x == width_of(self.trees@.len())),
            decreases self.trees@.len() - i,
        {
            proof {
                self.lemma_trees_are_found(i as int);
            }
            let tree = self.trees[i];
            let score = self.total_scenic_score(&tree.pos);
            let text = paint_height(tree.height, score);
            cells.push(Cell { text, ends_row: tree.pos.x == self.get_width() });
            i += 1;
        }
        cells
    }
}

/// The scenic score of the tree at `pos`: the product of the numbers of
/// trees that one sees from it in the four directions, and zero on the
/// edge of the patch.
pub open spec fn total_scenic(trees: Seq<Tree>, pos: Spot) -> nat {
    if !has_room(trees.len(), pos, Direction::Bottom) || !has_room(trees.len(), pos, Direction::Left)
        || !has_room(trees.len(), pos, Direction::Right) || !has_room(
        trees.len(),
        pos,
        Direction::Top,
    ) {
        0
    } else {
        let height = trees[tree_at(trees, pos)->0].height;
        scenic(trees, height, pos, Direction::Bottom) * scenic(trees, height, pos, Direction::Left)
            * scenic(trees, height, pos, Direction::Right) * scenic(
            trees,
            height,
            pos,
            Direction::Top,
        )
    }
}

} // verus!
