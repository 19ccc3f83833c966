use elf_puzzles::ranges::{count_overlaps, get_overlap, tally_match, OverlapCount, RangeError};

fn pairs(text: &[&str]) -> Vec<String> {
    text.iter().map(|l| l.to_string()).collect()
}

fn groups(text: &[&str]) -> Vec<Option<String>> {
    text.iter().map(|g| Some(g.to_string())).collect()
}

#[test]
fn distance_of_two_ranges() {
    assert_eq!(get_overlap([&2, &4], [&6, &8]), 2);
    assert_eq!(get_overlap([&5, &7], [&7, &9]), 0);
    assert_eq!(get_overlap([&2, &8], [&3, &7]), -4);
    assert_eq!(get_overlap([&6, &6], [&4, &6]), 0);
}

#[test]
fn pairs_of_the_sample() {
    let lines = pairs(&["2-4,6-8", "2-3,4-5", "5-7,7-9", "2-8,3-7", "6-6,4-6", "2-6,4-8"]);
    assert_eq!(count_overlaps(&lines), Ok(OverlapCount { overlapping: 4, contained: 2 }));
}

#[test]
fn lines_without_a_pair_count_for_nothing() {
    let lines = pairs(&["", "2-4,6-8 ", "x2-8,3-7", "2-8;3-7", "1-1,1-1"]);
    assert_eq!(count_overlaps(&lines), Ok(OverlapCount { overlapping: 1, contained: 1 }));
    assert_eq!(count_overlaps(&Vec::new()), Ok(OverlapCount { overlapping: 0, contained: 0 }));
}

#[test]
fn sections_that_do_not_fit() {
    let lines = pairs(&["1-2,3-2147483648"]);
    assert_eq!(count_overlaps(&lines), Err(RangeError::SectionUnreadable));
    let lines = pairs(&["1-2,3-2147483647"]);
    assert_eq!(count_overlaps(&lines), Ok(OverlapCount { overlapping: 0, contained: 0 }));
    let lines = pairs(&["1-2,٣-4"]);
    assert_eq!(count_overlaps(&lines), Err(RangeError::SectionUnreadable));
}

#[test]
fn one_match_at_a_time() {
    let zero = OverlapCount { overlapping: 0, contained: 0 };
    assert_eq!(
        tally_match(zero, &groups(&["2-8,3-7", "2", "8", "3", "7"])),
        Ok(OverlapCount { overlapping: 1, contained: 1 })
    );
    assert_eq!(
        tally_match(zero, &groups(&["5-7,7-9", "5", "7", "7", "9"])),
        Ok(OverlapCount { overlapping: 1, contained: 0 })
    );
    assert_eq!(tally_match(zero, &groups(&["2-4,6-8", "2", "4", "6", "8"])), Ok(zero));
    assert_eq!(
        tally_match(zero, &groups(&["2-4", "2", "4"])),
        Err(RangeError::SectionUnreadable)
    );
    assert_eq!(
        tally_match(zero, &vec![Some("x".to_string()), None, None, None, None]),
        Err(RangeError::SectionUnreadable)
    );
}
