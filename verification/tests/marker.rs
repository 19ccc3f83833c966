use elf_puzzles::marker::{all_unique_chars, find_marker};

#[test]
fn windows_of_different_characters() {
    assert_eq!(all_unique_chars(3, "jpqm".to_string()), Some((3, "jpqm".to_string())));
    assert_eq!(all_unique_chars(0, "mjqj".to_string()), None);
    assert_eq!(all_unique_chars(7, "".to_string()), Some((7, "".to_string())));
    assert_eq!(all_unique_chars(1, "a".to_string()), Some((1, "a".to_string())));
}

#[test]
fn characters_of_more_than_one_byte_spoil_a_window() {
    assert_eq!(all_unique_chars(0, "abé".to_string()), None);
    assert_eq!(find_marker("éabcd", 4), Some(5));
}

#[test]
fn start_of_packet() {
    assert_eq!(find_marker("mjqjpqmgbljsphdztnvjfqwrcgsmlb", 4), Some(7));
    assert_eq!(find_marker("bvwbjplbgvbhsrlpgdmjqwftvncz", 4), Some(5));
    assert_eq!(find_marker("nppdvjthqldpwncqszvftbrmjlhg", 4), Some(6));
    assert_eq!(find_marker("nznrnfrfntjfmvfwmzdfjlvtqnbhcprsg", 4), Some(10));
    assert_eq!(find_marker("zcfzfwzzqfrljwzlrfnpqdbhtmscgvjw", 4), Some(11));
}

#[test]
fn start_of_message() {
    assert_eq!(find_marker("mjqjpqmgbljsphdztnvjfqwrcgsmlb", 14), Some(19));
    assert_eq!(find_marker("bvwbjplbgvbhsrlpgdmjqwftvncz", 14), Some(23));
    assert_eq!(find_marker("nppdvjthqldpwncqszvftbrmjlhg", 14), Some(23));
    assert_eq!(find_marker("nznrnfrfntjfmvfwmzdfjlvtqnbhcprsg", 14), Some(29));
    assert_eq!(find_marker("zcfzfwzzqfrljwzlrfnpqdbhtmscgvjw", 14), Some(26));
}

#[test]
fn streams_without_a_marker() {
    assert_eq!(find_marker("aaaaaaa", 2), None);
    assert_eq!(find_marker("abc", 4), None);
    assert_eq!(find_marker("", 1), None);
    assert_eq!(find_marker("abcd", 4), Some(4));
    assert_eq!(find_marker("a", 1), Some(1));
}

#[test]
fn a_repeated_character_far_apart_spoils_a_window() {
    assert_eq!(all_unique_chars(0, "abcdefghijklma".to_string()), None);
    assert_eq!(
        all_unique_chars(2, "abcdefghijklmn".to_string()),
        Some((2, "abcdefghijklmn".to_string()))
    );
    assert_eq!(find_marker("aabcdefghijklmab", 14), None);
    assert_eq!(find_marker("aabcdefghijklmno", 14), Some(15));
}
