use elf_puzzles::crates::{
    get_crate_index, parse_crates, parse_moves, place, read_move, rearrange, CraneError, ElfCrate,
    ElfCrates,
};

fn lines(text: &[&str]) -> Vec<String> {
    text.iter().map(|l| l.to_string()).collect()
}

fn labels(crates: &ElfCrates) -> Vec<String> {
    crates
        .stacks
        .iter()
        .map(|s| s.iter().map(|c| c.label).collect())
        .collect()
}

fn sample() -> Vec<String> {
    lines(&[
        "    [D]    ",
        "[N] [C]    ",
        "[Z] [M] [P]",
        " 1   2   3 ",
        "",
        "move 1 from 2 to 1",
        "move 3 from 1 to 3",
        "move 2 from 2 to 1",
        "move 1 from 1 to 2",
    ])
}

#[test]
fn columns_and_stacks() {
    assert_eq!(get_crate_index(0), 0);
    assert_eq!(get_crate_index(1), 1);
    assert_eq!(get_crate_index(4), 1);
    assert_eq!(get_crate_index(5), 2);
    assert_eq!(get_crate_index(33), 9);
    assert_eq!(get_crate_index(36), 9);
    assert_eq!(get_crate_index(37), 10);
}

#[test]
fn drawing_of_the_sample() {
    let crates = parse_crates(&sample()[0..4]).unwrap();
    assert_eq!(labels(&crates), vec!["ZN", "MCD", "P", "", "", "", "", "", ""]);
}

#[test]
fn labels_outside_the_nine_stacks() {
    assert_eq!(parse_crates(&lines(&["Z"])).err(), Some(CraneError::LabelOffGrid));
    let wide = " ".repeat(37) + "Z";
    assert_eq!(parse_crates(&[wide]).err(), Some(CraneError::LabelOffGrid));
    let last = " ".repeat(36) + "Z";
    let crates = parse_crates(&[last]).unwrap();
    assert_eq!(labels(&crates)[8], "Z");
}

#[test]
fn columns_count_bytes() {
    let crates = parse_crates(&lines(&[" é [Q"])).unwrap();
    assert_eq!(labels(&crates), vec!["é", "Q", "", "", "", "", "", "", ""]);
}

#[test]
fn labels_are_put_where_they_belong() {
    let mut crates = ElfCrates::new();
    assert_eq!(place(&mut crates, 5, 'x', true), Ok(()));
    assert_eq!(place(&mut crates, 0, 'y', true), Err(CraneError::LabelOffGrid));
    assert_eq!(place(&mut crates, 37, 'y', true), Err(CraneError::LabelOffGrid));
    assert_eq!(place(&mut crates, 9, 'z', false), Ok(()));
    assert_eq!(place(&mut crates, 0, 'z', false), Ok(()));
    assert_eq!(labels(&crates)[1], "x");
    assert_eq!(crates.count_crates(1), 1);
    assert_eq!(crates.count_crates(0), 0);
}

#[test]
fn moves_of_the_sample() {
    assert_eq!(
        parse_moves(&sample()[4..]),
        Ok(vec![(1, 2, 1), (3, 1, 3), (2, 2, 1), (1, 1, 2)])
    );
    assert_eq!(parse_moves(&lines(&[""])), Ok(vec![]));
    assert_eq!(parse_moves(&[]), Err(CraneError::NoSeparator));
    assert_eq!(parse_moves(&lines(&["", "move 1 from 2"])), Err(CraneError::MoveUnreadable));
}

#[test]
fn numbers_of_a_move() {
    let found = |t: &[&str]| t.iter().map(|s| s.to_string()).collect::<Vec<String>>();
    assert_eq!(read_move(&found(&["1", "2", "3"])), Some((1, 2, 3)));
    assert_eq!(read_move(&found(&["1", "2", "3", "4"])), Some((1, 2, 3)));
    assert_eq!(read_move(&found(&["1", "99999999999999999999999", "2", "3"])), Some((1, 2, 3)));
    assert_eq!(read_move(&found(&["٣", "1", "2", "3"])), Some((1, 2, 3)));
    assert_eq!(read_move(&found(&["1", "2"])), None);
}

#[test]
fn crane_moves_one_crate() {
    let mut crates = parse_crates(&sample()[0..4]).unwrap();
    crates.move_crate(1, 0);
    assert_eq!(labels(&crates)[0], "ZND");
    assert_eq!(labels(&crates)[1], "MC");
    crates.move_crate(0, 0);
    assert_eq!(labels(&crates)[0], "ZND");
}

#[test]
fn crane_moves_many_crates_in_order() {
    let mut crates = parse_crates(&sample()[0..4]).unwrap();
    crates.move_crates(1, 1, 0);
    crates.move_crates(3, 0, 2);
    assert_eq!(labels(&crates)[0], "");
    assert_eq!(labels(&crates)[2], "PZND");
    crates.move_crates(2, 1, 0);
    crates.move_crates(1, 0, 1);
    assert_eq!(labels(&crates)[0], "M");
    assert_eq!(labels(&crates)[1], "C");
    assert_eq!(labels(&crates)[2], "PZND");
    crates.move_crates(0, 2, 1);
    assert_eq!(labels(&crates)[1], "C");
    crates.move_crates(2, 2, 2);
    assert_eq!(labels(&crates)[2], "PZND");
}

#[test]
fn moves_that_cannot_be_done() {
    let mut crates = parse_crates(&sample()[0..4]).unwrap();
    assert_eq!(crates.apply_move((1, 0, 1)), Err(CraneError::NoSuchStack));
    assert_eq!(crates.apply_move((1, 1, 10)), Err(CraneError::NoSuchStack));
    assert_eq!(crates.apply_move((3, 1, 2)), Err(CraneError::TooFewCrates));
    assert_eq!(crates.apply_move((2, 1, 2)), Ok(()));
    assert_eq!(labels(&crates), vec!["", "MCDZN", "P", "", "", "", "", "", ""]);
    assert_eq!(crates.top_labels(), None);
}

#[test]
fn sample_leaves_stacks_empty() {
    assert_eq!(rearrange(&sample()), Err(CraneError::EmptyStack));
}

#[test]
fn nine_stacks_rearranged() {
    let input = lines(&[
        "[K]",
        "[J]",
        "[A] [B] [C] [D] [E] [F] [G] [H] [I]",
        " 1   2   3   4   5   6   7   8   9 ",
        "",
        "move 2 from 1 to 9",
        "move 1 from 9 to 5",
    ]);
    assert_eq!(rearrange(&input), Ok("ABCDKFGHJ".chars().collect()));
}

#[test]
fn input_without_a_blank_line() {
    assert_eq!(rearrange(&lines(&["[A]", "move 1 from 1 to 2"])), Err(CraneError::NoSeparator));
    assert_eq!(rearrange(&Vec::new()), Err(CraneError::NoSeparator));
}

#[test]
fn a_crate_is_its_label() {
    assert_eq!(ElfCrate { label: 'a' }, ElfCrate { label: 'a' });
    assert_ne!(ElfCrate { label: 'a' }, ElfCrate { label: 'b' });
}
