use elf_puzzles::calories::{group_sums, largest, top_three, top_three_sum};
use elf_puzzles::strategy::{round_score, total_score, Book, Round};

fn lines(text: &[&str]) -> Vec<String> {
    text.iter().map(|l| l.to_string()).collect()
}

fn sample() -> Vec<String> {
    lines(&[
        "1000", "2000", "3000", "", "4000", "", "5000", "6000", "", "7000", "8000", "9000", "",
        "10000", "",
    ])
}

#[test]
fn sums_of_the_groups() {
    assert_eq!(group_sums(&sample()), Some(vec![6000, 4000, 11000, 24000, 10000]));
    assert_eq!(group_sums(&Vec::new()), Some(vec![]));
    assert_eq!(group_sums(&lines(&["", ""])), Some(vec![0, 0]));
    assert_eq!(group_sums(&lines(&["-5", "+7", ""])), Some(vec![2]));
}

#[test]
fn a_group_counts_once_it_is_closed() {
    let mut open = sample();
    open.pop();
    assert_eq!(group_sums(&open), Some(vec![6000, 4000, 11000, 24000]));
}

#[test]
fn lines_that_are_no_numbers() {
    assert_eq!(group_sums(&lines(&["1000", "x", ""])), None);
    assert_eq!(group_sums(&lines(&[" 1000", ""])), None);
    assert_eq!(group_sums(&lines(&["2147483648", ""])), None);
    assert_eq!(group_sums(&lines(&["2147483647", "1", ""])), None);
    assert_eq!(group_sums(&lines(&["2147483647", "-1", ""])), Some(vec![2147483646]));
}

#[test]
fn the_most_calories() {
    assert_eq!(largest(&vec![6000, 4000, 11000, 24000, 10000]), Some(24000));
    assert_eq!(largest(&vec![-3, -7]), Some(-3));
    assert_eq!(largest(&vec![]), None);
}

#[test]
fn the_three_largest() {
    assert_eq!(top_three(&vec![6000, 4000, 11000, 24000, 10000]), Some((24000, 11000, 10000)));
    assert_eq!(top_three_sum(&vec![6000, 4000, 11000, 24000, 10000]), Some(45000));
    assert_eq!(top_three(&vec![1, 3, 2]), Some((3, 2, 1)));
    assert_eq!(top_three(&vec![5, 5, 5, 5]), Some((5, 5, 5)));
    assert_eq!(top_three(&vec![1, 2]), None);
    assert_eq!(top_three_sum(&vec![1, 2]), None);
    assert_eq!(top_three_sum(&vec![i32::MAX, 1, 0, -9]), None);
    assert_eq!(top_three_sum(&vec![i32::MAX, -1, 0, -9]), Some(i32::MAX - 1));
}

#[test]
fn points_of_a_round() {
    assert_eq!(round_score("A Y"), Some(4));
    assert_eq!(round_score("B X"), Some(1));
    assert_eq!(round_score("C Z"), Some(7));
    assert_eq!(round_score("A X"), Some(3));
    assert_eq!(round_score("A Z"), Some(8));
    assert_eq!(round_score("B Y"), Some(5));
    assert_eq!(round_score("B Z"), Some(9));
    assert_eq!(round_score("C X"), Some(2));
    assert_eq!(round_score("C Y"), Some(6));
    assert_eq!(round_score("A Y and more"), Some(4));
}

#[test]
fn lines_that_are_no_rounds() {
    assert_eq!(round_score(""), None);
    assert_eq!(round_score("A"), None);
    assert_eq!(round_score("A "), None);
    assert_eq!(round_score("AY"), None);
    assert_eq!(round_score("A  Y"), None);
    assert_eq!(round_score(" A Y"), None);
    assert_eq!(round_score("A Yes"), None);
    assert_eq!(round_score("D Y"), None);
    assert_eq!(round_score("A W"), None);
    assert_eq!(round_score("A\tY"), None);
}

#[test]
fn points_of_all_rounds() {
    assert_eq!(total_score(&lines(&["A Y", "B X", "C Z"])), Some(12));
    assert_eq!(total_score(&Vec::new()), Some(0));
    assert_eq!(total_score(&lines(&["A Y", "B"])), None);
}

#[test]
fn rounds_in_detail() {
    let book = Book::new();
    assert_eq!(book.read_round("A Y"), Some(Round { outcome: 'Y', played: 'A', score: 4 }));
    assert_eq!(book.read_round("B X"), Some(Round { outcome: 'X', played: 'A', score: 1 }));
    assert_eq!(book.read_round("C Z"), Some(Round { outcome: 'Z', played: 'A', score: 7 }));
    assert_eq!(book.read_round("A X"), Some(Round { outcome: 'X', played: 'C', score: 3 }));
    assert_eq!(book.read_round("B Z"), Some(Round { outcome: 'Z', played: 'C', score: 9 }));
    assert_eq!(book.read_round("D Z"), None);
    assert_eq!(book.read_round("A Q"), None);
    assert_eq!(book.round_score("C Y"), Some(6));
    assert_eq!(book.round_score("CY"), None);
}
