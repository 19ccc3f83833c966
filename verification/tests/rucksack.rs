use elf_puzzles::rucksack::{
    checked_group_prio_sum, checked_prio_sum, find_common_char, find_group_common_char,
    find_rucksack_priority, get_char_priority, get_common_char, get_group_common_char,
    get_group_prio_sum, get_prio_sum, split_compartments,
};

fn sacks() -> Vec<String> {
    [
        "vJrwpWtwJgWrhcsFMMfFFhFp",
        "jqHRNqRjqzjGDLGLrsFMfFZSrLrFZsSL",
        "PmmdzqPrVvPwwTWBwg",
        "wMqvLMZHhHMvwLHjbvcjnnSBnvTQFn",
        "ttgJtRGJQctTZtZT",
        "CrZsJsPPZsGzwwsLwLmpwMDw",
    ]
    .iter()
    .map(|l| l.to_string())
    .collect()
}

#[test]
fn priorities_of_letters() {
    assert_eq!(get_char_priority('a'), 1);
    assert_eq!(get_char_priority('p'), 16);
    assert_eq!(get_char_priority('z'), 26);
    assert_eq!(get_char_priority('A'), 27);
    assert_eq!(get_char_priority('L'), 38);
    assert_eq!(get_char_priority('Z'), 52);
    assert_eq!(get_char_priority('0'), 10);
}

#[test]
fn common_item_of_two_compartments() {
    assert_eq!(get_common_char("vJrwpWtwJgWr", "hcsFMMfFFhFp"), 'p');
    assert_eq!(find_common_char("vJrwpWtwJgWr", "hcsFMMfFFhFp"), Some('p'));
    assert_eq!(find_common_char("abc", "xyz"), None);
    assert_eq!(find_common_char("", "xyz"), None);
}

#[test]
fn the_last_common_item_counts() {
    assert_eq!(get_common_char("ab", "xaybz"), 'b');
    assert_eq!(get_common_char("ab", "xbyaz"), 'a');
}

#[test]
fn badge_of_a_group() {
    let all = sacks();
    assert_eq!(get_group_common_char(&all[0..3]), 'r');
    assert_eq!(get_group_common_char(&all[3..6]), 'Z');
    assert_eq!(find_group_common_char(&all[1..4]), Some('q'));
    let apart = vec!["abc".to_string(), "abd".to_string(), "xbz".to_string(), "b".to_string()];
    assert_eq!(find_group_common_char(&apart), Some('b'));
    assert_eq!(find_group_common_char(&apart[1..]), Some('b'));
    let none = vec!["abc".to_string(), "abd".to_string(), "xyz".to_string()];
    assert_eq!(find_group_common_char(&none), None);
}

#[test]
fn sum_of_priorities() {
    assert_eq!(get_prio_sum(&sacks()), 157);
    assert_eq!(checked_prio_sum(&sacks()), Some(157));
    assert_eq!(checked_prio_sum(&Vec::new()), Some(0));
}

#[test]
fn sum_of_badge_priorities() {
    assert_eq!(get_group_prio_sum(&sacks()), 70);
    assert_eq!(checked_group_prio_sum(&sacks()), Some(70));
    let mut five = sacks();
    five.pop();
    assert_eq!(checked_group_prio_sum(&five), Some(18));
}

#[test]
fn rucksacks_without_a_priority() {
    assert_eq!(find_rucksack_priority("abcd"), None);
    assert_eq!(find_rucksack_priority("a-b-"), None);
    assert_eq!(find_rucksack_priority("aé"), None);
    assert_eq!(find_rucksack_priority("éé"), Some(233 - 96));
    assert_eq!(find_rucksack_priority("aba"), Some(1));
    assert_eq!(checked_prio_sum(&vec!["abab".to_string(), "abcd".to_string()]), None);
}

#[test]
fn compartments_are_the_two_halves() {
    assert_eq!(
        split_compartments("vJrwpWtwJgWrhcsFMMfFFhFp"),
        Some(("vJrwpWtwJgWr", "hcsFMMfFFhFp"))
    );
    assert_eq!(split_compartments("abc"), Some(("a", "bc")));
    assert_eq!(split_compartments(""), Some(("", "")));
    assert_eq!(split_compartments("aé"), Some(("a", "é")));
    assert_eq!(split_compartments("éa"), None);
    assert_eq!(split_compartments("éé"), Some(("é", "é")));
}
