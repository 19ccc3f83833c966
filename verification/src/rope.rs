//! A rope on a grid: the head is pulled step by step, the tail follows,
//! and the places that the tail visits are recorded.

use vstd::prelude::*;
use vstd::string::StringExecFns;
use crate::roots::floor_root;
use crate::text::{
    chars_of, parse_signed, signed_digits, signed_in_range, signed_string, split_words, str_eq,
    strings_view, words, Blank,
};

verus! {

/// One of the four directions on the grid.
#[derive(Clone, Copy, Debug, PartialEq, Eq, Structural)]
pub enum Direction {
    Up,
    Left,
    Down,
    Right,
}

/// A pull on the head of the rope: a direction and a number of steps.
#[derive(Clone, Copy, Debug, PartialEq, Eq, Structural)]
pub struct Move {
    pub direction: Direction,
    pub distance: isize,
}

/// A place on the grid.
#[derive(Clone, Copy, Debug, PartialEq, Eq, Structural)]
pub struct Point {
    pub x: isize,
    pub y: isize,
}

/// A place on the unbounded grid.
pub struct Place {
    pub x: int,
    pub y: int,
}

impl View for Point {
    type V = Place;

    open spec fn view(&self) -> Place {
        Place { x: self.x as int, y: self.y as int }
    }
}

/// The direction that undoes `direction`.
pub open spec fn opposite_of(direction: Direction) -> Direction {
    match direction {
        Direction::Left => Direction::Right,
        Direction::Up => Direction::Down,
        Direction::Right => Direction::Left,
        Direction::Down => Direction::Up,
    }
}

/// The place one step from `p` in `direction`: up raises `y`, right
/// raises `x`.
pub open spec fn step_from(p: Place, direction: Direction) -> Place {
    match direction {
        Direction::Left => Place { x: p.x - 1, y: p.y },
        Direction::Up => Place { x: p.x, y: p.y + 1 },
        Direction::Right => Place { x: p.x + 1, y: p.y },
        Direction::Down => Place { x: p.x, y: p.y - 1 },
    }
}

/// Whether the coordinates of `p` are machine numbers.
pub open spec fn on_grid(p: Place) -> bool {
    isize::MIN <= p.x <= isize::MAX && isize::MIN <= p.y <= isize::MAX
}

/// The square of the distance between `a` and `b`.
pub open spec fn distance_squared(a: Place, b: Place) -> int {
    (b.x - a.x) * (b.x - a.x) + (b.y - a.y) * (b.y - a.y)
}

/// Whether `r` is the whole number nearest to the square root of `n`:
/// `r - 1/2 < sqrt(n) < r + 1/2`, which for whole numbers is
/// `r * r - r < n <= r * r + r`, or `n == 0` for `r == 0`.
pub open spec fn is_nearest_root(r: int, n: int) -> bool {
    &&& 0 <= r
    &&& r == 0 || r * r - r < n
    &&& n <= r * r + r
}

/// The opposite of a direction.
pub fn opposite(direction: &Direction) -> (r: Direction)
    ensures
        r == opposite_of(*direction),
{
    match direction {
        Direction::Left => Direction::Right,
        Direction::Up => Direction::Down,
        Direction::Right => Direction::Left,
        Direction::Down => Direction::Up,
    }
}

/// Only one whole number is nearest to a square root.
pub proof fn lemma_nearest_root_unique(r1: int, r2: int, n: int)
    requires
        is_nearest_root(r1, n),
        is_nearest_root(r2, n),
    ensures
        r1 == r2,
{
    if r1 < r2 {
        assert(r1 * r1 + r1 <= r2 * r2 - r2) by (nonlinear_arith)
            requires
                0 <= r1 < r2,
        ;
    } else if r2 < r1 {
        assert(r2 * r2 + r2 <= r1 * r1 - r1) by (nonlinear_arith)
            requires
                0 <= r2 < r1,
        ;
    }
}

/// The nearest root is above one exactly from three on.
pub proof fn lemma_nearest_root_above_one(r: int, n: int)
    requires
        is_nearest_root(r, n),
    ensures
        r > 1 <==> n >= 3,
{
    if r > 1 {
        assert(r * r - r >= 2) by (nonlinear_arith)
            requires
                r >= 2,
        ;
    } else {
        assert(r * r + r <= 2) by (nonlinear_arith)
            requires
                0 <= r <= 1,
        ;
    }
}

impl Point {
    /// The place one step from this one in `direction`.
    pub fn pos_after_move(&self, direction: &Direction) -> (r: Point)
        requires
            on_grid(step_from(self@, *direction)),
        ensures
            r@ == step_from(self@, *direction),
    {
        match direction {
            Direction::Left => Point { x: self.x - 1, y: self.y },
            Direction::Up => Point { x: self.x, y: self.y + 1 },
            Direction::Right => Point { x: self.x + 1, y: self.y },
            Direction::Down => Point { x: self.x, y: self.y - 1 },
        }
    }

    /// The place one step from this one in `direction`, where that place
    /// is on the grid.
    pub fn checked_step(&self, direction: &Direction) -> (r: Option<Point>)
        ensures
            match r {
                Some(p) => p@ == step_from(self@, *direction),
                None => !on_grid(step_from(self@, *direction)),
            },
    {
        let fits = match direction {
            Direction::Left => self.x > isize::MIN,
            Direction::Up => self.y < isize::MAX,
            Direction::Right => self.x < isize::MAX,
            Direction::Down => self.y > isize::MIN,
        };
        if fits {
            Some(self.pos_after_move(direction))
        } else {
            None
        }
    }

    /// The distance to `other` as the crow flies, rounded to the nearest
    /// whole number.
    pub fn distance_from(&self, other: &Point) -> (d: usize)
        requires
            isize::MIN <= other.x - self.x <= isize::MAX,
            isize::MIN <= other.y - self.y <= isize::MAX,
        ensures
            is_nearest_root(d as int, distance_squared(self@, other@)),
    {
        let dx: i128 = other.x as i128 - self.x as i128;
        let dy: i128 = other.y as i128 - self.y as i128;
        let ax: u128 = if dx < 0 {
            (-dx) as u128
        } else {
            dx as u128
        };
        let ay: u128 = if dy < 0 {
            (-dy) as u128
        } else {
            dy as u128
        };
        proof {
            lemma_square_bound(ax as int, isize::MAX as int + 1);
            lemma_square_bound(ay as int, isize::MAX as int + 1);
            assert((isize::MAX + 1) * (isize::MAX + 1) <= 0x4000_0000_0000_0000_0000_0000_0000_0000)
                by (nonlinear_arith)
                requires
                    0 <= isize::MAX + 1 <= 0x8000_0000_0000_0000,
            ;
            assert(ax * ax == dx * dx && ay * ay == dy * dy) by (nonlinear_arith)
                requires
                    ax == dx || ax == -dx,
                    ay == dy || ay == -dy,
            ;
        }
        let n: u128 = ax * ax + ay * ay;
        let r: u128 = floor_root(n);
        assert((r + 1) * (r + 1) == r * r + 2 * r + 1) by (nonlinear_arith);
        let nearest: u128 = if n - r * r > r {
            r + 1
        } else {
            r
        };
        proof {
            assert((r + 1) * (r + 1) - (r + 1) == r * r + r) by (nonlinear_arith);
            assert((r + 1) * (r + 1) + (r + 1) >= (r + 1) * (r + 1)) by (nonlinear_arith);
            if r > 0 {
                assert(r * r - r < r * r) by (nonlinear_arith)
                    requires
                        r > 0,
                ;
            }
            assert(is_nearest_root(nearest as int, n as int));
            if nearest > usize::MAX {
                let m = isize::MAX as int + 1;
                assert(usize::MAX == 2 * m - 1);
                assert(n <= 2 * (m * m));
                assert(nearest * nearest - nearest >= 2 * (m * m)) by (nonlinear_arith)
                    requires
                        nearest >= 2 * m,
                        m >= 1,
                ;
            }
        }
        nearest as usize
    }

    /// The point as text, `(x;y)`.
    pub fn to_text(&self) -> (text: String)
        ensures
            text@ == seq!['('] + signed_digits(self.x as int) + seq![';'] + signed_digits(
                self.y as int,
            ) + seq![')'],
    {
        proof {
            reveal_strlit("(");
            reveal_strlit(";");
            reveal_strlit(")");
            assert("("@ =~= seq!['(']);
            assert(";"@ =~= seq![';']);
            assert(")"@ =~= seq![')']);
        }
        let mut text = "(".to_owned();
        text.append(signed_string(self.x as i64).as_str());
        text.append(";");
        text.append(signed_string(self.y as i64).as_str());
        text.append(")");
        text
    }
}

/// The direction that a word stands for: `U`, `R`, `D` or `L`.
pub open spec fn direction_of(word: Seq<char>) -> Option<Direction> {
    if word == seq!['U'] {
        Some(Direction::Up)
    } else if word == seq!['R'] {
        Some(Direction::Right)
    } else if word == seq!['D'] {
        Some(Direction::Down)
    } else if word == seq!['L'] {
        Some(Direction::Left)
    } else {
        None
    }
}

/// The move that a line writes: a direction letter and a number of steps,
/// set apart by blanks; what follows them is not read. Nothing where the
/// line does not begin with these two words.
pub open spec fn parse_move_spec(line: Seq<char>) -> Option<Move> {
    let w = words(line, Blank::Ascii);
    if w.len() >= 2 {
        match (direction_of(w[0]), signed_in_range(w[1], isize::MIN as int, isize::MAX as int)) {
            (Some(direction), Some(distance)) => Some(Move { direction, distance: distance as isize }),
            _ => None,
        }
    } else {
        None
    }
}

/// Reads a move, where the line writes one.
pub fn try_parse_move(line: &str) -> (r: Option<Move>)
    ensures
        r == parse_move_spec(line@),
{
    proof {
        reveal_strlit("U");
        reveal_strlit("R");
        reveal_strlit("D");
        reveal_strlit("L");
        assert("U"@ =~= seq!['U']);
        assert("R"@ =~= seq!['R']);
        assert("D"@ =~= seq!['D']);
        assert("L"@ =~= seq!['L']);
    }
    let w = split_words(line, Blank::Ascii);
    if w.len() < 2 {
        return None;
    }
    proof {
        assert(strings_view(w@)[0] == w@[0]@);
        assert(strings_view(w@)[1] == w@[1]@);
    }
    let steps = chars_of(w[1].as_str());
    let distance = match parse_signed(&steps, isize::MIN as i64, isize::MAX as i64) {
        Some(n) => n as isize,
        None => {
            return None;
        },
    };
    let raw = w[0].as_str();
    let direction = if str_eq(raw, "U") {
        Direction::Up
    } else if str_eq(raw, "R") {
        Direction::Right
    } else if str_eq(raw, "D") {
        Direction::Down
    } else if str_eq(raw, "L") {
        Direction::Left
    } else {
        return None;
    };
    Some(Move { direction, distance })
}

/// Reads a move.
pub fn parse_move(line: &str) -> (m: Move)
    requires
        parse_move_spec(line@) is Some,
    ensures
        Some(m) == parse_move_spec(line@),
{
    match try_parse_move(line) {
        Some(m) => m,
        None => Move { direction: Direction::Up, distance: 0 },
    }
}

/// A rope: where its head and its tail are, and the places that the tail
/// has visited, in the order of the first visit.
#[derive(Debug)]
pub struct Rope {
    pub head: Point,
    pub tail: Point,
    pub visited: Vec<Point>,
}

/// A rope on the unbounded grid.
pub struct RopeView {
    pub head: Place,
    pub tail: Place,
    pub visited: Seq<Place>,
}

/// Points as places.
pub open spec fn places(points: Seq<Point>) -> Seq<Place> {
    Seq::new(points.len(), |i: int| points[i]@)
}

impl View for Rope {
    type V = RopeView;

    open spec fn view(&self) -> RopeView {
        RopeView { head: self.head@, tail: self.tail@, visited: places(self.visited@) }
    }
}

/// The rope before the first pull: head and tail at the origin, which
/// counts as visited.
pub open spec fn start_rope() -> RopeView {
    RopeView {
        head: Place { x: 0, y: 0 },
        tail: Place { x: 0, y: 0 },
        visited: seq![Place { x: 0, y: 0 }],
    }
}

/// The rope after the head is pulled one step in `direction`; nothing
/// where the step leaves the grid. The tail stays while the head is near:
/// while the rounded distance is at most one, which is a squared distance
/// below three. Else the tail moves to the place right behind the head.
pub open spec fn pull_once(rope: RopeView, direction: Direction) -> Option<RopeView> {
    let head = step_from(rope.head, direction);
    if !on_grid(head) {
        None
    } else if distance_squared(head, rope.tail) >= 3 {
        let tail = step_from(head, opposite_of(direction));
        Some(
            RopeView {
                head,
                tail,
                visited: if rope.visited.contains(tail) {
                    rope.visited
                } else {
                    rope.visited.push(tail)
                },
            },
        )
    } else {
        Some(RopeView { head, tail: rope.tail, visited: rope.visited })
    }
}

/// The rope after `steps` pulls in `direction`; a number below one pulls
/// nothing.
pub open spec fn pull(rope: RopeView, direction: Direction, steps: int) -> Option<RopeView>
    decreases steps,
{
    if steps <= 0 {
        Some(rope)
    } else {
        match pull(rope, direction, steps - 1) {
            Some(before) => pull_once(before, direction),
            None => None,
        }
    }
}

/// The rope after all of `moves`, from the start.
pub open spec fn run(moves: Seq<Move>) -> Option<RopeView>
    decreases moves.len(),
{
    if moves.len() == 0 {
        Some(start_rope())
    } else {
        match run(moves.drop_last()) {
            Some(before) => pull(before, moves.last().direction, moves.last().distance as int),
            None => None,
        }
    }
}

/// Once a pull has left the grid, more steps do not bring it back.
pub proof fn lemma_pull_stays_lost(rope: RopeView, direction: Direction, k: int, steps: int)
    requires
        k <= steps,
    ensures
        pull(rope, direction, k) is None ==> pull(rope, direction, steps) is None,
    decreases steps - k,
{
    if k < steps {
        lemma_pull_stays_lost(rope, direction, k, steps - 1);
    }
}

/// Once a run has left the grid, more moves do not bring it back.
pub proof fn lemma_run_stays_lost(moves: Seq<Move>, k: int)
    requires
        0 <= k <= moves.len(),
    ensures
        run(moves.take(k)) is None ==> run(moves) is None,
    decreases moves.len(),
{
    if k < moves.len() {
        assert(moves.drop_last().take(k) =~= moves.take(k));
        lemma_run_stays_lost(moves.drop_last(), k);
    } else {
        assert(moves.take(k) =~= moves);
    }
}

impl Rope {
    /// Whether the tail is near the head: the state between pulls.
    pub open spec fn wf(&self) -> bool {
        distance_squared(self.head@, self.tail@) <= 2
    }

    /// A rope with head and tail at the origin.
    pub fn new() -> (rope: Rope)
        ensures
            rope@ == start_rope(),
            rope.wf(),
    {
        let origin = Point { x: 0, y: 0 };
        let mut visited: Vec<Point> = Vec::new();
        visited.push(origin);
        let rope = Rope { head: origin, tail: origin, visited };
        assert(rope@.visited =~= start_rope().visited);
        rope
    }

    /// Whether the tail has visited `p`.
    pub fn has_visited(&self, p: &Point) -> (r: bool)
        ensures
            r == self@.visited.contains(p@),
    {
        let mut i: usize = 0;
        while i < self.visited.len()
            invariant
                0 <= i <= self.visited@.len(),
                forall|j: int| 0 <= j < i ==> self@.visited[j] != p@,
            decreases self.visited@.len() - i,
        {
            if self.visited[i] == *p {
                assert(self@.visited[i as int] == p@);
                return true;
            }
            i += 1;
        }
        false
    }

    /// Pulls the head one step in `direction` and lets the tail follow.
    /// Where the step would leave the grid, the rope stays as it is and
    /// the answer is `false`.
    pub fn pull_once(&mut self, direction: &Direction) -> (done: bool)
        requires
            old(self).wf(),
        ensures
            final(self).wf(),
            match pull_once(old(self)@, *direction) {
                Some(after) => done && final(self)@ == after,
                None => !done && final(self)@ == old(self)@,
            },
    {
        let ghost before = self@;
        let head = match self.head.checked_step(direction) {
            Some(head) => head,
            None => {
                return false;
            },
        };
        proof {
            lemma_near(before.head, before.tail);
        }
        let distance = head.distance_from(&self.tail);
        proof {
            lemma_nearest_root_above_one(distance as int, distance_squared(head@, self.tail@));
        }
        self.head = head;
        if distance > 1 {
            let tail = head.pos_after_move(&opposite(direction));
            proof {
                let dx = tail@.x - head@.x;
                let dy = tail@.y - head@.y;
                assert(dx * dx + dy * dy == 1) by (nonlinear_arith)
                    requires
                        (dx == 0 && (dy == 1 || dy == -1)) || (dy == 0 && (dx == 1 || dx == -1)),
                ;
            }
            if !self.has_visited(&tail) {
                self.visited.push(tail);
                assert(self@.visited =~= before.visited.push(tail@));
            }
            self.tail = tail;
        }
        true
    }

    /// Carries out one move: as many pulls as the move has steps. The
    /// answer is `false` where a pull would leave the grid.
    pub fn pull(&mut self, m: &Move) -> (done: bool)
        requires
            old(self).wf(),
        ensures
            final(self).wf(),
            match pull(old(self)@, m.direction, m.distance as int) {
                Some(after) => done && final(self)@ == after,
                None => !done,
            },
    {
        let ghost before = self@;
        let mut k: isize = 0;
        while k < m.distance
            invariant
                self.wf(),
                before == old(self)@,
                0 <= k,
                k <= m.distance || k == 0,
                pull(before, m.direction, k as int) == Some(self@),
            decreases m.distance - k,
        {
            if !self.pull_once(&m.direction) {
                proof {
                    lemma_pull_stays_lost(before, m.direction, k + 1, m.distance as int);
                }
                return false;
            }
            k += 1;
        }
        true
    }
}

/// Places at a squared distance of at most two differ by at most one in
/// each coordinate.
proof fn lemma_near(a: Place, b: Place)
    requires
        distance_squared(a, b) <= 2,
    ensures
        -1 <= b.x - a.x <= 1,
        -1 <= b.y - a.y <= 1,
{
    let dx = b.x - a.x;
    let dy = b.y - a.y;
    assert(dx * dx >= 0 && dy * dy >= 0) by (nonlinear_arith);
    if dx >= 2 || dx <= -2 {
        assert(dx * dx >= 4) by (nonlinear_arith)
            requires
                dx >= 2 || dx <= -2,
        ;
    }
    if dy >= 2 || dy <= -2 {
        assert(dy * dy >= 4) by (nonlinear_arith)
            requires
                dy >= 2 || dy <= -2,
        ;
    }
}

/// Replays `moves` on a rope at the origin; nothing where a pull would
/// leave the grid.
pub fn simulate_rope(moves: &Vec<Move>) -> (r: Option<Rope>)
    ensures
        match r {
            Some(rope) => run(moves@) == Some(rope@) && rope.wf(),
            None => run(moves@) is None,
        },
{
    let mut rope = Rope::new();
    let mut i: usize = 0;
    assert(moves@.take(0) =~= Seq::<Move>::empty());
    while i < moves.len()
        invariant
            0 <= i <= moves@.len(),
            rope.wf(),
            run(moves@.take(i as int)) == Some(rope@),
        decreases moves@.len() - i,
    {
        proof {
            assert(moves@.take(i + 1).drop_last() =~= moves@.take(i as int));
        }
        if !rope.pull(&moves[i]) {
            proof {
                lemma_run_stays_lost(moves@, i + 1);
            }
            return None;
        }
        i += 1;
    }
    proof {
        assert(moves@.take(i as int) =~= moves@);
    }
    Some(rope)
}

/// The number of places that the tail visits while `moves` are replayed.
pub fn count_tail_positions(moves: &Vec<Move>) -> (r: Option<usize>)
    ensures
        match r {
            Some(count) => run(moves@) matches Some(rope) && rope.visited.len() == count,
            None => run(moves@) is None,
        },
{
    match simulate_rope(moves) {
        Some(rope) => Some(rope.visited.len()),
        None => None,
    }
}

/// A number between `-m` and `m` has a square of at most `m * m`.
proof fn lemma_square_bound(d: int, m: int)
    requires
        -m <= d <= m,
    ensures
        0 <= d * d <= m * m,
{
    assert(0 <= d * d <= m * m) by (nonlinear_arith)
        requires
            -m <= d <= m,
    ;
}

} // verus!
