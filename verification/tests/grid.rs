use colored::Colorize;
use elf_puzzles::grid::{
    get_opposite_direction, parse_grid, Direction, Pos, Tree, TreeGrid,
};
use elf_puzzles::paint::{choose_background, get_height_color, paint_height};
use elf_puzzles::roots::floor_root;

fn patch(rows: &[&str]) -> TreeGrid {
    parse_grid(&rows.iter().map(|r| r.to_string()).collect()).unwrap()
}

fn sample() -> TreeGrid {
    patch(&["30373", "25512", "65332", "33549", "35390"])
}

fn at(x: usize, y: usize) -> Pos {
    Pos { x, y }
}

#[test]
fn whole_square_roots() {
    assert_eq!(floor_root(0), 0);
    assert_eq!(floor_root(1), 1);
    assert_eq!(floor_root(24), 4);
    assert_eq!(floor_root(25), 5);
    assert_eq!(floor_root(26), 5);
    assert_eq!(floor_root(u128::MAX), u64::MAX as u128);
}

#[test]
fn reading_a_patch() {
    let grid = patch(&["12", "34"]);
    assert_eq!(
        grid.trees,
        vec![
            Tree { pos: at(0, 0), height: 1 },
            Tree { pos: at(1, 0), height: 2 },
            Tree { pos: at(0, 1), height: 3 },
            Tree { pos: at(1, 1), height: 4 },
        ]
    );
    assert!(parse_grid(&vec!["12".to_string(), "3x".to_string()]).is_none());
    assert!(parse_grid(&vec!["١٢".to_string()]).is_none());
    assert_eq!(parse_grid(&Vec::new()).unwrap().trees, vec![]);
}

#[test]
fn width_is_the_largest_coordinate() {
    assert_eq!(sample().get_width(), 4);
    assert_eq!(patch(&["1"]).get_width(), 0);
    assert_eq!(patch(&["12", "3"]).get_width(), 0);
    assert_eq!(patch(&["12", "34", "5"]).get_width(), 1);
}

#[test]
fn opposite_directions() {
    assert_eq!(get_opposite_direction(&Direction::Left), Direction::Right);
    assert_eq!(get_opposite_direction(&Direction::Top), Direction::Bottom);
    assert_eq!(get_opposite_direction(&Direction::Right), Direction::Left);
    assert_eq!(get_opposite_direction(&Direction::Bottom), Direction::Top);
}

#[test]
fn steps_in_the_patch() {
    assert_eq!(at(2, 2).pos_after_move(&Direction::Left), at(1, 2));
    assert_eq!(at(2, 2).pos_after_move(&Direction::Top), at(2, 1));
    assert_eq!(at(2, 2).pos_after_move(&Direction::Right), at(3, 2));
    assert_eq!(at(2, 2).pos_after_move(&Direction::Bottom), at(2, 3));
}

#[test]
fn neighbours_and_edges() {
    let grid = sample();
    assert_eq!(grid.get_tree(&at(1, 2)), Some(&Tree { pos: at(1, 2), height: 5 }));
    assert_eq!(grid.get_tree(&at(5, 0)), None);
    assert!(grid.has_neighbour(&at(1, 0), &Direction::Left));
    assert!(!grid.has_neighbour(&at(0, 0), &Direction::Left));
    assert!(!grid.has_neighbour(&at(1, 0), &Direction::Top));
    assert!(grid.has_neighbour(&at(3, 0), &Direction::Right));
    assert!(!grid.has_neighbour(&at(4, 0), &Direction::Right));
    assert!(!grid.has_neighbour(&at(0, 4), &Direction::Bottom));
    assert!(grid.is_tree_on_edge(&at(0, 4), &Direction::Bottom));
    assert!(!grid.is_tree_on_edge(&at(0, 3), &Direction::Bottom));
    assert_eq!(
        grid.get_neighbour(&at(1, 1), &Direction::Right),
        Some(&Tree { pos: at(2, 1), height: 5 })
    );
    assert_eq!(grid.get_neighbour(&at(4, 1), &Direction::Right), None);
    assert_eq!(grid.get_neighbour_height(&at(1, 1), &Direction::Top), Some(0));
    assert_eq!(grid.get_neighbour_height(&at(1, 1), &Direction::Bottom), Some(5));
    assert_eq!(grid.get_neighbour_height(&at(0, 1), &Direction::Left), None);
}

#[test]
fn scenic_scores_of_the_sample() {
    let grid = sample();
    assert_eq!(grid.calculate_scenic_score(&at(2, 1), &Direction::Top), 1);
    assert_eq!(grid.calculate_scenic_score(&at(2, 1), &Direction::Left), 1);
    assert_eq!(grid.calculate_scenic_score(&at(2, 1), &Direction::Right), 2);
    assert_eq!(grid.calculate_scenic_score(&at(2, 1), &Direction::Bottom), 2);
    assert_eq!(grid.total_scenic_score(&at(2, 1)), 4);
    assert_eq!(grid.total_scenic_score(&at(2, 3)), 8);
    assert_eq!(grid.total_scenic_score(&at(0, 2)), 0);
    assert_eq!(grid.total_scenic_score(&at(4, 4)), 0);
    assert_eq!(grid.best_scenic_score(), Some(8));
    assert_eq!(TreeGrid { trees: vec![] }.best_scenic_score(), None);
}

#[test]
fn visible_trees_of_the_sample() {
    let grid = sample();
    assert!(grid.is_well_formed());
    let visible = grid.get_visible_trees();
    assert_eq!(visible.len(), 21);
    let hidden: Vec<Pos> = grid
        .trees
        .iter()
        .filter(|t| !visible.contains(t))
        .map(|t| t.pos)
        .collect();
    assert_eq!(hidden, vec![at(3, 1), at(2, 2), at(1, 3), at(3, 3)]);
    assert_eq!(visible[0], Tree { pos: at(0, 0), height: 3 });
    assert_eq!(visible[1], Tree { pos: at(3, 0), height: 7 });
}

#[test]
fn picture_of_the_sample() {
    let grid = sample();
    let visible = grid.get_visible_trees();
    assert_eq!(
        grid.draw_visible(&visible),
        "30373\n255â–’2\n65â–’32\n3â–’5â–’9\n35390\ncount 21\n"
    );
    assert_eq!(
        patch(&["12", "3"]).draw_visible(&vec![Tree { pos: at(0, 1), height: 3 }]),
        "â–’\nâ–’3\ncount 1\n"
    );
}

#[test]
fn patches_that_are_no_squares() {
    assert!(patch(&["1"]).is_well_formed());
    assert!(patch(&["12", "34"]).is_well_formed());
    assert!(!patch(&["123", "4"]).is_well_formed());
    assert!(!patch(&["12", "3"]).is_well_formed());
    assert!(!TreeGrid { trees: vec![] }.is_well_formed());
    assert!(!TreeGrid { trees: vec![Tree { pos: at(1, 0), height: 1 }] }.is_well_formed());
}

#[test]
fn visible_trees_are_told_of_squares_only() {
    assert_eq!(sample().visible_trees().map(|v| v.len()), Some(21));
    assert_eq!(patch(&["12", "3"]).visible_trees(), None);
    assert_eq!(TreeGrid { trees: vec![] }.visible_trees(), None);
    assert_eq!(patch(&["5"]).visible_trees(), Some(vec![Tree { pos: at(0, 0), height: 5 }]));
}

#[test]
fn a_single_tree_is_visible() {
    let grid = patch(&["7"]);
    assert_eq!(grid.get_visible_trees(), vec![Tree { pos: at(0, 0), height: 7 }]);
    assert_eq!(grid.total_scenic_score(&at(0, 0)), 0);
}

#[test]
fn trees_as_text() {
    assert_eq!(Tree { pos: at(3, 14), height: 9 }.to_text(), "x:3, y:14, h:9");
}

#[test]
fn backgrounds_of_scores() {
    assert_eq!(get_height_color(&5, &0), " 5".on_blue());
    assert_eq!(get_height_color(&5, &1), " 5".on_bright_blue());
    assert_eq!(get_height_color(&5, &2), " 5".on_cyan());
    assert_eq!(get_height_color(&5, &3), " 5".on_bright_cyan());
    assert_eq!(get_height_color(&5, &4), " 5".on_green());
    assert_eq!(get_height_color(&5, &10), " 5".on_green());
    assert_eq!(get_height_color(&5, &11), " 5".on_bright_green());
    assert_eq!(get_height_color(&5, &50_000), " 5".on_bright_green());
    assert_eq!(get_height_color(&5, &50_001), " 5".on_yellow());
    assert_eq!(get_height_color(&5, &100_000), " 5".on_yellow());
    assert_eq!(get_height_color(&12, &100_001), " 12".on_bright_yellow());
    assert_eq!(get_height_color(&5, &200_000), " 5".on_bright_yellow());
    assert_eq!(get_height_color(&5, &200_001), " 5".on_bright_red());
    assert_eq!(get_height_color(&5, &300_000), " 5".on_bright_red());
    assert_eq!(get_height_color(&5, &300_001), " 5".on_red());
    assert_eq!(paint_height(0, u128::MAX), " 0".on_red());
    assert_eq!(choose_background(7), colored::Color::Green);
}

#[test]
fn painted_patch() {
    let cells = sample().paint_scores();
    assert_eq!(cells.len(), 25);
    assert_eq!(cells[0].text, " 3".on_blue());
    assert_eq!(cells[7].text, " 5".on_green());
    assert_eq!(cells[17].text, " 5".on_green());
    assert_eq!(cells[6].text, " 5".on_bright_blue());
    let ends: Vec<usize> = (0..25).filter(|i| cells[*i].ends_row).collect();
    assert_eq!(ends, vec![4, 9, 14, 19, 24]);
}
