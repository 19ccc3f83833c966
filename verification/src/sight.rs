//! Which trees of a square patch can be seen from outside.
//!
//! A tree can be seen from an edge of the patch when every tree between
//! it and that edge is lower. A line is a row or a column as one walks it
//! from an edge: the tree on the edge has depth zero, the next one depth
//! one, and so on.

use vstd::prelude::*;
use vstd::string::StringExecFns;
use crate::grid::{
    has_room, lemma_tree_from, opposite_of, step, tree_at, width_of, Direction, Pos, Spot, Tree,
    TreeGrid,
};
use crate::roots::{floor_sqrt, lemma_floor_sqrt};
use crate::text::{decimal_digits, decimal_string};

verus! {

/// The side of a square patch of `count` trees.
pub open spec fn side_of(count: nat) -> int {
    floor_sqrt(count) as int
}

/// Whether `trees` is a square patch, row after row: the tree at position
/// `i` stands in column `x` of row `y` where `i == y * side + x`.
pub open spec fn is_square(trees: Seq<Tree>) -> bool {
    let n = side_of(trees.len());
    &&& n >= 1
    &&& n * n == trees.len()
    &&& forall|i: int|
        0 <= i < trees.len() ==> (#[trigger] trees[i]).pos.x < n && trees[i].pos.y * n + trees[i].pos.x
            == i
}

/// The place at depth `s` of line `line`, walked from the edge
/// `direction`.
pub open spec fn line_spot(n: int, direction: Direction, line: int, s: int) -> Spot {
    match direction {
        Direction::Left => Spot { x: s, y: line },
        Direction::Right => Spot { x: n - 1 - s, y: line },
        Direction::Top => Spot { x: line, y: s },
        Direction::Bottom => Spot { x: line, y: n - 1 - s },
    }
}

/// The line through `at` that is walked from the edge `direction`: the
/// row for the left and right edges, the column for the others.
pub open spec fn line_of(direction: Direction, at: Spot) -> int {
    match direction {
        Direction::Left => at.y,
        Direction::Right => at.y,
        Direction::Top => at.x,
        Direction::Bottom => at.x,
    }
}

/// How deep `at` lies in the patch, seen from the edge `direction`.
pub open spec fn depth_of(n: int, direction: Direction, at: Spot) -> int {
    match direction {
        Direction::Left => at.x,
        Direction::Right => n - 1 - at.x,
        Direction::Top => at.y,
        Direction::Bottom => n - 1 - at.y,
    }
}

/// The height of the tree at `at` in a square patch.
pub open spec fn height_at(trees: Seq<Tree>, at: Spot) -> usize {
    trees[at.y * side_of(trees.len()) + at.x].height
}

/// Whether the tree at `at` can be seen from the edge `direction`: every
/// tree between it and that edge is lower.
pub open spec fn seen_from(trees: Seq<Tree>, direction: Direction, at: Spot) -> bool {
    let n = side_of(trees.len());
    forall|s: int|
        0 <= s < depth_of(n, direction, at) ==> height_at(
            trees,
            #[trigger] line_spot(n, direction, line_of(direction, at), s),
        ) < height_at(trees, at)
}

/// Whether the tree at `at` can be seen from outside the patch.
pub open spec fn is_visible(trees: Seq<Tree>, at: Spot) -> bool {
    ||| seen_from(trees, Direction::Left, at)
    ||| seen_from(trees, Direction::Top, at)
    ||| seen_from(trees, Direction::Right, at)
    ||| seen_from(trees, Direction::Bottom, at)
}

/// Whether a tree at `at` is in the list.
pub open spec fn listed(list: Seq<Tree>, at: Spot) -> bool {
    exists|k: int| 0 <= k < list.len() && (#[trigger] list[k]).pos@ == at
}

/// Whether the list holds trees of the patch only, and none twice.
pub open spec fn list_of_patch(list: Seq<Tree>, trees: Seq<Tree>) -> bool {
    &&& forall|k: int|
        0 <= k < list.len() ==> exists|i: int| 0 <= i < trees.len() && #[trigger] list[k] == trees[i]
    &&& forall|k1: int, k2: int|
        0 <= k1 < k2 < list.len() ==> (#[trigger] list[k1]).pos != (#[trigger] list[k2]).pos
}

/// A row and a column tell one place of the patch.
pub proof fn lemma_cell(n: int, x1: int, y1: int, x2: int, y2: int)
    requires
        0 <= x1 < n,
        0 <= x2 < n,
        y1 * n + x1 == y2 * n + x2,
    ensures
        x1 == x2,
        y1 == y2,
{
    if y1 < y2 {
        assert(y2 * n >= y1 * n + n) by (nonlinear_arith)
            requires
                y1 < y2,
                n > 0,
        ;
    } else if y2 < y1 {
        assert(y1 * n >= y2 * n + n) by (nonlinear_arith)
            requires
                y2 < y1,
                n > 0,
        ;
    }
}

/// In a square patch the tree in column `x` of row `y` is found at
/// position `y * side + x`; outside the square no tree is found.
pub proof fn lemma_square_lookup(trees: Seq<Tree>, at: Spot)
    requires
        is_square(trees),
    ensures
        0 <= at.x < side_of(trees.len()) && 0 <= at.y < side_of(trees.len()) ==> tree_at(trees, at)
            == Some(at.y * side_of(trees.len()) + at.x) && 0 <= at.y * side_of(trees.len()) + at.x
            < trees.len(),
        !(0 <= at.x < side_of(trees.len()) && 0 <= at.y < side_of(trees.len())) ==> tree_at(trees, at)
            is None,
{
    let n = side_of(trees.len());
    lemma_tree_from(trees, at, 0);
    if 0 <= at.x < n && 0 <= at.y < n {
        let j = at.y * n + at.x;
        assert(0 <= j < n * n) by (nonlinear_arith)
            requires
                0 <= at.x < n,
                0 <= at.y < n,
                j == at.y * n + at.x,
        ;
        lemma_cell(n, trees[j].pos.x as int, trees[j].pos.y as int, at.x, at.y);
        match tree_at(trees, at) {
            Some(found) => {
                lemma_cell(n, trees[found].pos.x as int, trees[found].pos.y as int, at.x, at.y);
            },
            None => {
                assert(trees[j].pos@ == at);
            },
        }
    } else {
        match tree_at(trees, at) {
            Some(found) => {
                let y = trees[found].pos.y as int;
                let x = trees[found].pos.x as int;
                assert(y < n) by (nonlinear_arith)
                    requires
                        y * n + x < n * n,
                        0 <= x,
                        n > 0,
                ;
            },
            None => {},
        }
    }
}

/// Every tree of a square patch stands inside the square, and the largest
/// coordinate is the side less one.
pub proof fn lemma_square_bounds(trees: Seq<Tree>, i: int)
    requires
        is_square(trees),
        0 <= i < trees.len(),
    ensures
        0 <= trees[i].pos.x < side_of(trees.len()),
        0 <= trees[i].pos.y < side_of(trees.len()),
        width_of(trees.len()) == side_of(trees.len()) - 1,
        tree_at(trees, trees[i].pos@) == Some(i),
{
    let n = side_of(trees.len());
    let y = trees[i].pos.y as int;
    let x = trees[i].pos.x as int;
    assert(y < n) by (nonlinear_arith)
        requires
            y * n + x < n * n,
            0 <= x,
            n > 0,
    ;
    lemma_square_lookup(trees, trees[i].pos@);
}

/// Whether a tree at `at` is in `list`.
fn is_listed(list: &Vec<Tree>, at: &Pos) -> (r: bool)
    ensures
        r == listed(list@, at@),
{
    let mut k: usize = 0;
    while k < list.len()
        invariant
            0 <= k <= list@.len(),
            forall|j: int| 0 <= j < k ==> (#[trigger] list@[j]).pos@ != at@,
        decreases list@.len() - k,
    {
        if list[k].pos == *at {
            return true;
        }
        k += 1;
    }
    false
}

/// Adds the tree at position `index` of the patch to the list, unless it
/// is there already.
fn note(grid: &TreeGrid, index: Ghost<int>, tree: Tree, list: &mut Vec<Tree>)
    requires
        is_square(grid.trees@),
        0 <= index@ < grid.trees@.len(),
        tree == grid.trees@[index@],
        list_of_patch(old(list)@, grid.trees@),
    ensures
        list_of_patch(final(list)@, grid.trees@),
        forall|at: Spot| listed(final(list)@, at) <==> listed(old(list)@, at) || at == tree.pos@,
{
    let ghost before = list@;
    if !is_listed(list, &tree.pos) {
        list.push(tree);
        proof {
            assert(list@[before.len() as int] == tree);
            assert forall|at: Spot| listed(list@, at) <==> listed(before, at) || at == tree.pos@ by {
                if listed(before, at) {
                    let k = choose|k: int| 0 <= k < before.len() && (#[trigger] before[k]).pos@ == at;
                    assert(list@[k].pos@ == at);
                }
                if listed(list@, at) {
                    let k = choose|k: int| 0 <= k < list@.len() && (#[trigger] list@[k]).pos@ == at;
                    if k < before.len() {
                        assert(before[k].pos@ == at);
                    }
                }
            }
            assert forall|k1: int, k2: int| 0 <= k1 < k2 < list@.len() implies (#[trigger] list@[k1]).pos
                != (#[trigger] list@[k2]).pos by {
                if k2 == before.len() {
                    assert(before[k1].pos@ != tree.pos@);
                }
            }
        }
    }
}

impl TreeGrid {
    /// Whether the patch is a square, row after row.
    pub fn is_well_formed(&self) -> (r: bool)
        ensures
            r == is_square(self.trees@),
    {
        let count: usize = self.trees.len();
        if count == 0 {
            proof {
                lemma_floor_sqrt(0);
            }
            return false;
        }
        proof {
            lemma_floor_sqrt(count as nat);
            self.lemma_width_fits();
        }
        let n: usize = self.get_width() + 1;
        assert(n * n <= count) by (nonlinear_arith)
            requires
                n == floor_sqrt(count as nat),
                floor_sqrt(count as nat) * floor_sqrt(count as nat) <= count,
        ;
        if n * n != count {
            return false;
        }
        let mut i: usize = 0;
        while i < count
            invariant
                count == self.trees@.len(),
                n == side_of(count as nat),
                1 <= n,
                n * n == count,
                0 <= i <= count,
                forall|j: int|
                    0 <= j < i ==> (#[trigger] self.trees@[j]).pos.x < n && self.trees@[j].pos.y * n
                        + self.trees@[j].pos.x == j,
            decreases count - i,
        {
            let pos = self.trees[i].pos;
            if pos.x >= n || pos.y >= n {
                proof {
                    if is_square(self.trees@) {
                        lemma_square_bounds(self.trees@, i as int);
                    }
                }
                return false;
            }
            assert(pos.y * n + pos.x <= usize::MAX) by (nonlinear_arith)
                requires
                    pos.y < n,
                    pos.x < n,
                    n * n <= usize::MAX,
            ;
            if pos.y * n + pos.x != i {
                return false;
            }
            i += 1;
        }
        true
    }

    /// Walks one line of the patch from the tree on its edge and lists
    /// every tree of the line that can be seen from that edge.
    fn look_along(&self, direction: &Direction, index: Ghost<int>, edge: Tree, list: &mut Vec<Tree>)
        requires
            is_square(self.trees@),
            0 <= index@ < self.trees@.len(),
            edge == self.trees@[index@],
            depth_of(side_of(self.trees@.len()), *direction, edge.pos@) == 0,
            list_of_patch(old(list)@, self.trees@),
        ensures
            list_of_patch(final(list)@, self.trees@),
            forall|j: int|
                0 <= j < self.trees@.len() ==> (listed(final(list)@, (#[trigger] self.trees@[j]).pos@) <==> listed(
                    old(list)@,
                    self.trees@[j].pos@,
                ) || (line_of(*direction, self.trees@[j].pos@) == line_of(*direction, edge.pos@)
                    && seen_from(self.trees@, *direction, self.trees@[j].pos@))),
    {
        let ghost trees = self.trees@;
        let ghost n = side_of(trees.len());
        let ghost line = line_of(*direction, edge.pos@);
        let ghost before = list@;
        let back = get_opposite(direction);
        proof {
            lemma_square_bounds(trees, index@);
        }
        note(self, index, edge, list);
        let mut current: Tree = edge;
        let mut highest: Tree = edge;
        let ghost mut s: int = 0;
        let ghost mut top: int = 0;
        proof {
            assert forall|j: int| 0 <= j < trees.len() implies (listed(list@, (#[trigger] trees[j]).pos@) <==> listed(
                before,
                trees[j].pos@,
            ) || (line_of(*direction, trees[j].pos@) == line && depth_of(n, *direction, trees[j].pos@)
                <= 0 && seen_from(trees, *direction, trees[j].pos@))) by {
                lemma_square_bounds(trees, j);
                if line_of(*direction, trees[j].pos@) == line && depth_of(n, *direction, trees[j].pos@)
                    <= 0 {
                    assert(trees[j].pos@ == edge.pos@);
                }
            }
        }
        loop
            invariant
                is_square(self.trees@),
                trees == self.trees@,
                n == side_of(trees.len()),
                back == opposite_of(*direction),
                line == line_of(*direction, edge.pos@),
                0 <= line < n,
                0 <= s < n,
                current.pos@ == line_spot(n, *direction, line, s),
                list_of_patch(list@, trees),
                0 <= top <= s,
                highest.height == height_at(trees, line_spot(n, *direction, line, top)),
                forall|t: int|
                    0 <= t <= s ==> height_at(trees, #[trigger] line_spot(n, *direction, line, t))
                        <= highest.height,
                forall|j: int|
                    0 <= j < trees.len() ==> (listed(list@, (#[trigger] trees[j]).pos@) <==> listed(
                        before,
                        trees[j].pos@,
                    ) || (line_of(*direction, trees[j].pos@) == line && depth_of(
                        n,
                        *direction,
                        trees[j].pos@,
                    ) <= s && seen_from(trees, *direction, trees[j].pos@))),
            ensures
                s == n - 1,
                list_of_patch(list@, trees),
                forall|j: int|
                    0 <= j < trees.len() ==> (listed(list@, (#[trigger] trees[j]).pos@) <==> listed(
                        before,
                        trees[j].pos@,
                    ) || (line_of(*direction, trees[j].pos@) == line && depth_of(
                        n,
                        *direction,
                        trees[j].pos@,
                    ) <= s && seen_from(trees, *direction, trees[j].pos@))),
            decreases n - s,
        {
            let ghost next = line_spot(n, *direction, line, s + 1);
            let ghost listed_before = list@;
            proof {
                lemma_square_lookup(trees, next);
                lemma_square_lookup(trees, current.pos@);
                assert(step(current.pos@, back) == next);
                assert(has_room(trees.len(), current.pos@, back) <==> s < n - 1) by {
                    lemma_floor_sqrt(trees.len());
                }
            }
            match self.get_neighbour(&current.pos, &back) {
                Some(neigh) => {
                    let neigh: Tree = *neigh;
                    let ghost at = next.y * n + next.x;
                    proof {
                        assert(neigh == trees[at]);
                        lemma_square_bounds(trees, at);
                        lemma_cell(n, neigh.pos.x as int, neigh.pos.y as int, next.x, next.y);
                        assert(neigh.pos@ == next);
                        assert(seen_from(trees, *direction, next) <==> neigh.height > highest.height) by {
                            assert(line_of(*direction, next) == line);
                            assert(depth_of(n, *direction, next) == s + 1);
                            assert(height_at(trees, next) == neigh.height);
                            if neigh.height > highest.height {
                                assert forall|t: int| 0 <= t < s + 1 implies height_at(
                                    trees,
                                    #[trigger] line_spot(n, *direction, line, t),
                                ) < neigh.height by {}
                            } else {
                                assert(height_at(trees, line_spot(n, *direction, line, top))
                                    >= neigh.height);
                            }
                        }
                    }
                    if neigh.height > highest.height {
                        note(self, Ghost(at), neigh, list);
                    }
                    current = neigh;
                    if current.height > highest.height {
                        highest = current;
                        proof {
                            top = s + 1;
                        }
                    }
                    proof {
                        assert forall|j: int| 0 <= j < trees.len() implies (listed(
                            list@,
                            (#[trigger] trees[j]).pos@,
                        ) <==> listed(before, trees[j].pos@) || (line_of(*direction, trees[j].pos@)
                            == line && depth_of(n, *direction, trees[j].pos@) <= s + 1 && seen_from(
                            trees,
                            *direction,
                            trees[j].pos@,
                        ))) by {
                            lemma_square_bounds(trees, j);
                            if line_of(*direction, trees[j].pos@) == line && depth_of(
                                n,
                                *direction,
                                trees[j].pos@,
                            ) == s + 1 {
                                assert(trees[j].pos@ == next);
                            }
                            if trees[j].pos@ == next {
                                lemma_cell(
                                    n,
                                    trees[j].pos.x as int,
                                    trees[j].pos.y as int,
                                    next.x,
                                    next.y,
                                );
                            }
                        }
                        assert forall|t: int| 0 <= t <= s + 1 implies height_at(
                            trees,
                            #[trigger] line_spot(n, *direction, line, t),
                        ) <= highest.height by {}
                        s = s + 1;
                    }
                },
                None => {
                    break ;
                },
            }
        }
        proof {
            assert forall|j: int| 0 <= j < trees.len() implies (listed(list@, (#[trigger] trees[j]).pos@) <==> listed(
                before,
                trees[j].pos@,
            ) || (line_of(*direction, trees[j].pos@) == line && seen_from(
                trees,
                *direction,
                trees[j].pos@,
            ))) by {
                lemma_square_bounds(trees, j);
            }
        }
    }
}

impl TreeGrid {
    /// Lists every tree that can be seen from the edge `direction`, line
    /// after line.
    fn look_from(&self, direction: &Direction, list: &mut Vec<Tree>)
        requires
            is_square(self.trees@),
            list_of_patch(old(list)@, self.trees@),
        ensures
            list_of_patch(final(list)@, self.trees@),
            forall|j: int|
                0 <= j < self.trees@.len() ==> (listed(final(list)@, (#[trigger] self.trees@[j]).pos@) <==> listed(
                    old(list)@,
                    self.trees@[j].pos@,
                ) || seen_from(self.trees@, *direction, self.trees@[j].pos@)),
    {
        let ghost trees = self.trees@;
        let ghost n = side_of(trees.len());
        let ghost before = list@;
        let count: usize = self.trees.len();
        let mut i: usize = 0;
        while i < count
            invariant
                is_square(self.trees@),
                trees == self.trees@,
                n == side_of(trees.len()),
                count == trees.len(),
                0 <= i <= count,
                list_of_patch(list@, trees),
                forall|j: int|
                    0 <= j < trees.len() ==> (listed(list@, (#[trigger] trees[j]).pos@) <==> listed(
                        before,
                        trees[j].pos@,
                    ) || (edge_index(n, *direction, line_of(*direction, trees[j].pos@)) < i && seen_from(
                        trees,
                        *direction,
                        trees[j].pos@,
                    ))),
            decreases count - i,
        {
            let tree: Tree = self.trees[i];
            let ghost line = line_of(*direction, tree.pos@);
            proof {
                lemma_square_bounds(trees, i as int);
            }
            if self.is_tree_on_edge(&tree.pos, direction) {
                let ghost listed_before = list@;
                self.look_along(direction, Ghost(i as int), tree, list);
                proof {
                    assert(edge_index(n, *direction, line) == i);
                    assert forall|j: int| 0 <= j < trees.len() implies (listed(
                        list@,
                        (#[trigger] trees[j]).pos@,
                    ) <==> listed(before, trees[j].pos@) || (edge_index(
                        n,
                        *direction,
                        line_of(*direction, trees[j].pos@),
                    ) < i + 1 && seen_from(trees, *direction, trees[j].pos@))) by {
                        lemma_square_bounds(trees, j);
                        lemma_edge_index(n, *direction, line_of(*direction, trees[j].pos@), line);
                    }
                }
            } else {
                proof {
                    assert forall|j: int| 0 <= j < trees.len() implies edge_index(
                        n,
                        *direction,
                        line_of(*direction, (#[trigger] trees[j]).pos@),
                    ) != i by {
                        lemma_square_bounds(trees, j);
                        let l = line_of(*direction, trees[j].pos@);
                        let spot = line_spot(n, *direction, l, 0);
                        if edge_index(n, *direction, l) == i {
                            lemma_cell(n, tree.pos.x as int, tree.pos.y as int, spot.x, spot.y);
                        }
                    }
                }
            }
            i += 1;
        }
        proof {
            assert forall|j: int| 0 <= j < trees.len() implies edge_index(
                n,
                *direction,
                line_of(*direction, (#[trigger] trees[j]).pos@),
            ) < count by {
                lemma_square_bounds(trees, j);
                let l = line_of(*direction, trees[j].pos@);
                lemma_square_lookup(trees, line_spot(n, *direction, l, 0));
            }
        }
    }

    /// The trees that can be seen from outside the patch: first those
    /// seen from the left, then from the top, from the right and from the
    /// bottom, each tree once.
    pub fn get_visible_trees(&self) -> (visible: Vec<Tree>)
        requires
            is_square(self.trees@),
        ensures
            list_of_patch(visible@, self.trees@),
            forall|j: int|
                0 <= j < self.trees@.len() ==> (listed(visible@, (#[trigger] self.trees@[j]).pos@)
                    <==> is_visible(self.trees@, self.trees@[j].pos@)),
    {
        let mut visible: Vec<Tree> = Vec::new();
        self.look_from(&Direction::Left, &mut visible);
        self.look_from(&Direction::Top, &mut visible);
        self.look_from(&Direction::Right, &mut visible);
        self.look_from(&Direction::Bottom, &mut visible);
        visible
    }
}

impl TreeGrid {
    /// The trees that can be seen from outside the patch, where the patch
    /// is a square; nothing for any other list of trees.
    pub fn visible_trees(&self) -> (r: Option<Vec<Tree>>)
        ensures
            match r {
                Some(visible) => {
                    &&& is_square(self.trees@)
                    &&& list_of_patch(visible@, self.trees@)
                    &&& forall|j: int|
                        0 <= j < self.trees@.len() ==> (listed(visible@, (#[trigger] self.trees@[j]).pos@)
                            <==> is_visible(self.trees@, self.trees@[j].pos@))
                },
                None => !is_square(self.trees@),
            },
    {
        if self.is_well_formed() {
            Some(self.get_visible_trees())
        } else {
            None
        }
    }
}

/// What stands for a tree that cannot be seen.
pub open spec fn hidden_mark() -> Seq<char> {
    seq!['â', '–', '’']
}

/// The picture of the first `n` trees: the height of each tree that is
/// listed, a mark for any other tree, and a line break after the last
/// tree of a row.
pub open spec fn picture_among(trees: Seq<Tree>, list: Seq<Tree>, n: int) -> Seq<char>
    decreases n,
{
    if n <= 0 {
        Seq::empty()
    } else {
        picture_among(trees, list, n - 1) + (if listed(list, trees[n - 1].pos@) {
            decimal_digits(trees[n - 1].height as nat)
        } else {
            hidden_mark()
        }) + (if trees[n - 1].pos.x == width_of(trees.len()) {
            seq!['\n']
        } else {
            Seq::empty()
        })
    }
}

/// The picture of the patch, and below it the number of listed trees.
pub open spec fn picture(trees: Seq<Tree>, list: Seq<Tree>) -> Seq<char> {
    picture_among(trees, list, trees.len() as int) + seq!['c', 'o', 'u', 'n', 't', ' ']
        + decimal_digits(list.len()) + seq!['\n']
}

impl TreeGrid {
    /// Draws the patch with the heights of the trees in `visible` and a
    /// mark for every other tree, and writes the number of trees in
    /// `visible` below it.
    pub fn draw_visible(&self, visible: &Vec<Tree>) -> (text: String)
        ensures
            text@ == picture(self.trees@, visible@),
    {
        proof {
            reveal_strlit("â–’");
            reveal_strlit("\n");
            reveal_strlit("count ");
            assert("â–’"@ =~= hidden_mark());
            assert("\n"@ =~= seq!['\n']);
            assert("count "@ =~= seq!['c', 'o', 'u', 'n', 't', ' ']);
        }
        let mut text = String::new();
        let mut i: usize = 0;
        while i < self.trees.len()
            invariant
                0 <= i <= self.trees@.len(),
                text@ == picture_among(self.trees@, visible@, i as int),
                "â–’"@ == hidden_mark(),
                "\n"@ == seq!['\n'],
            decreases self.trees@.len() - i,
        {
            let t: Tree = self.trees[i];
            if is_listed(visible, &t.pos) {
                text.append(decimal_string(t.height as u128).as_str());
            } else {
                text.append("â–’");
            }
            if t.pos.x == self.get_width() {
                text.append("\n");
            }
            assert(text@ =~= picture_among(self.trees@, visible@, i + 1));
            i += 1;
        }
        text.append("count ");
        text.append(decimal_string(visible.len() as u128).as_str());
        text.append("\n");
        text
    }
}

/// The position in a square patch of the tree on the edge `direction` of
/// line `line`.
pub open spec fn edge_index(n: int, direction: Direction, line: int) -> int {
    line_spot(n, direction, line, 0).y * n + line_spot(n, direction, line, 0).x
}

/// Lines with different numbers begin at different trees, in the order
/// of their numbers.
pub proof fn lemma_edge_index(n: int, direction: Direction, l1: int, l2: int)
    requires
        n >= 1,
        0 <= l1 < n,
        0 <= l2 < n,
    ensures
        l1 < l2 <==> edge_index(n, direction, l1) < edge_index(n, direction, l2),
        l1 == l2 <==> edge_index(n, direction, l1) == edge_index(n, direction, l2),
{
    assert(l1 < l2 ==> l1 * n + n <= l2 * n) by (nonlinear_arith)
        requires
            n >= 1,
    ;
    assert(l2 < l1 ==> l2 * n + n <= l1 * n) by (nonlinear_arith)
        requires
            n >= 1,
    ;
}

/// The opposite of a direction.
fn get_opposite(direction: &Direction) -> (r: Direction)
    ensures
        r == opposite_of(*direction),
{
    crate::grid::get_opposite_direction(direction)
}

} // verus!
