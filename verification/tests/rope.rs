use elf_puzzles::rope::{
    count_tail_positions, opposite, parse_move, simulate_rope, try_parse_move, Direction, Move,
    Point, Rope,
};

fn moves(text: &[&str]) -> Vec<Move> {
    text.iter().map(|l| parse_move(l)).collect()
}

fn p(x: isize, y: isize) -> Point {
    Point { x, y }
}

#[test]
fn opposites() {
    assert_eq!(opposite(&Direction::Left), Direction::Right);
    assert_eq!(opposite(&Direction::Up), Direction::Down);
    assert_eq!(opposite(&Direction::Right), Direction::Left);
    assert_eq!(opposite(&Direction::Down), Direction::Up);
}

#[test]
fn steps_on_the_grid() {
    assert_eq!(p(0, 0).pos_after_move(&Direction::Left), p(-1, 0));
    assert_eq!(p(0, 0).pos_after_move(&Direction::Up), p(0, 1));
    assert_eq!(p(0, 0).pos_after_move(&Direction::Right), p(1, 0));
    assert_eq!(p(0, 0).pos_after_move(&Direction::Down), p(0, -1));
    assert_eq!(p(isize::MAX, 0).checked_step(&Direction::Right), None);
    assert_eq!(p(0, isize::MIN).checked_step(&Direction::Down), None);
    assert_eq!(p(isize::MAX, 0).checked_step(&Direction::Left), Some(p(isize::MAX - 1, 0)));
}

#[test]
fn rounded_distances() {
    assert_eq!(p(0, 0).distance_from(&p(0, 0)), 0);
    assert_eq!(p(0, 0).distance_from(&p(1, 0)), 1);
    assert_eq!(p(0, 0).distance_from(&p(1, 1)), 1);
    assert_eq!(p(0, 0).distance_from(&p(2, 0)), 2);
    assert_eq!(p(0, 0).distance_from(&p(2, 1)), 2);
    assert_eq!(p(0, 0).distance_from(&p(2, 2)), 3);
    assert_eq!(p(1, 1).distance_from(&p(-2, -3)), 5);
    assert_eq!(p(0, 0).distance_from(&p(1, 2)), 2);
    assert_eq!(p(0, 0).distance_from(&p(3, 2)), 4);
    assert_eq!(p(0, 0).distance_from(&p(isize::MAX, 0)), isize::MAX as usize);
    assert_eq!(p(5, -7).distance_from(&p(5, -7)), 0);
}

#[test]
fn reading_moves() {
    assert_eq!(parse_move("R 4"), Move { direction: Direction::Right, distance: 4 });
    assert_eq!(parse_move("U 12"), Move { direction: Direction::Up, distance: 12 });
    assert_eq!(parse_move("  D\t-3 rest"), Move { direction: Direction::Down, distance: -3 });
    assert_eq!(try_parse_move("L +7"), Some(Move { direction: Direction::Left, distance: 7 }));
    assert_eq!(try_parse_move("X 4"), None);
    assert_eq!(try_parse_move("R"), None);
    assert_eq!(try_parse_move("R four"), None);
    assert_eq!(try_parse_move("R\u{a0}4"), None);
    assert_eq!(try_parse_move(""), None);
    assert_eq!(try_parse_move("R 99999999999999999999"), None);
}

#[test]
fn tail_positions_of_the_sample() {
    let all = moves(&["R 4", "U 4", "L 3", "D 1", "R 4", "D 1", "L 5", "R 2"]);
    assert_eq!(count_tail_positions(&all), Some(13));
    let rope = simulate_rope(&all).unwrap();
    assert_eq!(rope.head, p(2, 2));
    assert_eq!(rope.tail, p(1, 2));
    assert_eq!(rope.visited[0], p(0, 0));
    assert_eq!(rope.visited[1], p(1, 0));
    assert_eq!(rope.visited.len(), 13);
}

#[test]
fn the_tail_stays_while_the_head_is_near() {
    let mut rope = Rope::new();
    assert!(rope.pull_once(&Direction::Right));
    assert_eq!((rope.head, rope.tail), (p(1, 0), p(0, 0)));
    assert!(rope.pull_once(&Direction::Up));
    assert_eq!((rope.head, rope.tail), (p(1, 1), p(0, 0)));
    assert!(rope.pull_once(&Direction::Up));
    assert_eq!((rope.head, rope.tail), (p(1, 2), p(1, 1)));
    assert_eq!(rope.visited, vec![p(0, 0), p(1, 1)]);
    assert!(rope.has_visited(&p(1, 1)));
    assert!(!rope.has_visited(&p(1, 0)));
}

#[test]
fn moves_without_steps() {
    let mut rope = Rope::new();
    assert!(rope.pull(&Move { direction: Direction::Left, distance: 0 }));
    assert!(rope.pull(&Move { direction: Direction::Left, distance: -4 }));
    assert_eq!(rope.head, p(0, 0));
    assert_eq!(count_tail_positions(&Vec::new()), Some(1));
}

#[test]
fn a_pull_off_the_grid_fails() {
    let mut rope = Rope {
        head: p(isize::MAX - 1, 0),
        tail: p(isize::MAX - 1, 0),
        visited: vec![],
    };
    assert!(!rope.pull(&Move { direction: Direction::Right, distance: 2 }));
    assert!(!rope.pull_once(&Direction::Right));
    assert_eq!(rope.head, p(isize::MAX, 0));
}

#[test]
fn points_as_text() {
    assert_eq!(p(3, -14).to_text(), "(3;-14)");
    assert_eq!(p(0, 0).to_text(), "(0;0)");
}
