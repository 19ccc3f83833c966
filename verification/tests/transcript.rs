use elf_puzzles::text::{
    chars_of, decimal_string, parse_signed, parse_u64, signed_string, spaces, split_words,
    starts_with, str_eq, Blank,
};
use elf_puzzles::transcript::{get_command_type, parse_line, Event, HistoryItemType, ParseError};

fn event(line: &str) -> Result<String, ParseError> {
    parse_line(line).map(|e| format!("{:?}", e))
}

#[test]
fn kinds_of_lines() {
    assert_eq!(get_command_type("$ cd /"), Ok(HistoryItemType::CD));
    assert_eq!(get_command_type("$ cd abc"), Ok(HistoryItemType::CD));
    assert_eq!(get_command_type("$ cd .."), Ok(HistoryItemType::CD));
    assert_eq!(get_command_type("$ ls"), Ok(HistoryItemType::LS));
    assert_eq!(get_command_type("dir a"), Ok(HistoryItemType::FILE));
    assert_eq!(get_command_type("123 a"), Ok(HistoryItemType::FILE));
}

#[test]
fn lines_of_no_shape_have_no_kind() {
    assert_eq!(get_command_type("$ cdx"), Err(ParseError::UnrecognizedLine));
    assert_eq!(get_command_type("$ lsx"), Err(ParseError::UnrecognizedLine));
    assert_eq!(get_command_type("$ pwd"), Err(ParseError::UnrecognizedLine));
    assert_eq!(get_command_type(""), Err(ParseError::UnrecognizedLine));
    assert_eq!(get_command_type(" $ cd a"), Err(ParseError::UnrecognizedLine));
    assert_eq!(get_command_type("$ c"), Err(ParseError::UnrecognizedLine));
    assert_eq!(get_command_type("$ cd"), Err(ParseError::UnrecognizedLine));
    assert_eq!(get_command_type("$ ls -l"), Err(ParseError::UnrecognizedLine));
    assert_eq!(get_command_type("abc def"), Err(ParseError::SizeUnparseable));
    assert_eq!(get_command_type("12x a"), Err(ParseError::SizeUnparseable));
}

#[test]
fn the_four_shapes() {
    assert!(matches!(parse_line("$ cd abc"), Ok(Event::Enter(name)) if name == "abc"));
    assert!(matches!(parse_line("$ cd /"), Ok(Event::Enter(name)) if name == "/"));
    assert!(matches!(parse_line("$ cd .."), Ok(Event::Leave)));
    assert!(matches!(parse_line("$ ls"), Ok(Event::List)));
    assert!(matches!(parse_line("dir xyz"), Ok(Event::DirEntry(name)) if name == "xyz"));
    assert!(matches!(parse_line("8504156 c.dat"), Ok(Event::FileEntry(name, 8504156)) if name == "c.dat"));
    assert!(matches!(parse_line("0 empty"), Ok(Event::FileEntry(name, 0)) if name == "empty"));
}

#[test]
fn blanks_between_words_do_not_matter() {
    assert!(matches!(parse_line("$ cd   abc  "), Ok(Event::Enter(name)) if name == "abc"));
    assert!(matches!(parse_line("  12\tf"), Ok(Event::FileEntry(name, 12)) if name == "f"));
    assert!(matches!(parse_line("dir\u{a0}d"), Ok(Event::DirEntry(name)) if name == "d"));
}

#[test]
fn lines_of_no_shape() {
    assert_eq!(event("$ cd"), Err(ParseError::UnrecognizedLine));
    assert_eq!(event("$ cd a b"), Err(ParseError::UnrecognizedLine));
    assert_eq!(event("$ cdx a"), Err(ParseError::UnrecognizedLine));
    assert_eq!(event("$ ls -l"), Err(ParseError::UnrecognizedLine));
    assert_eq!(event("$ pwd"), Err(ParseError::UnrecognizedLine));
    assert_eq!(event("$"), Err(ParseError::UnrecognizedLine));
    assert_eq!(event(""), Err(ParseError::UnrecognizedLine));
    assert_eq!(event("dir"), Err(ParseError::UnrecognizedLine));
    assert_eq!(event("12 a b"), Err(ParseError::UnrecognizedLine));
    assert_eq!(event(" $ cd a"), Err(ParseError::UnrecognizedLine));
}

#[test]
fn sizes_that_are_no_numbers() {
    assert_eq!(event("12x4 a.txt"), Err(ParseError::SizeUnparseable));
    assert_eq!(event("-5 a"), Err(ParseError::SizeUnparseable));
    assert_eq!(event("+5 a"), Err(ParseError::SizeUnparseable));
    assert_eq!(event("directory a"), Err(ParseError::SizeUnparseable));
    assert_eq!(event("18446744073709551616 big"), Err(ParseError::SizeUnparseable));
    assert!(matches!(
        parse_line("18446744073709551615 big"),
        Ok(Event::FileEntry(_, 18446744073709551615))
    ));
}

#[test]
fn words_of_a_line() {
    assert_eq!(split_words("  a bc   d ", Blank::Unicode), vec!["a", "bc", "d"]);
    assert_eq!(split_words("", Blank::Unicode), Vec::<String>::new());
    assert_eq!(split_words(" \t ", Blank::Ascii), Vec::<String>::new());
    assert_eq!(split_words("a\u{a0}b", Blank::Unicode), vec!["a", "b"]);
    assert_eq!(split_words("a\u{a0}b", Blank::Ascii), vec!["a\u{a0}b"]);
    assert_eq!(split_words("a\u{b}b", Blank::Unicode), vec!["a", "b"]);
    assert_eq!(split_words("a\u{b}b", Blank::Ascii), vec!["a\u{b}b"]);
    assert_eq!(split_words("é ü", Blank::Ascii), vec!["é", "ü"]);
}

#[test]
fn numbers_in_base_ten() {
    assert_eq!(parse_u64(&chars_of("0")), Some(0));
    assert_eq!(parse_u64(&chars_of("007")), Some(7));
    assert_eq!(parse_u64(&chars_of("18446744073709551615")), Some(u64::MAX));
    assert_eq!(parse_u64(&chars_of("18446744073709551616")), None);
    assert_eq!(parse_u64(&chars_of("")), None);
    assert_eq!(parse_u64(&chars_of("1a")), None);
    assert_eq!(parse_u64(&chars_of("٣")), None);
    assert_eq!(parse_signed(&chars_of("-12"), -100, 100), Some(-12));
    assert_eq!(parse_signed(&chars_of("+12"), -100, 100), Some(12));
    assert_eq!(parse_signed(&chars_of("100"), -100, 100), Some(100));
    assert_eq!(parse_signed(&chars_of("101"), -100, 100), None);
    assert_eq!(parse_signed(&chars_of("-"), -100, 100), None);
    assert_eq!(parse_signed(&chars_of("--1"), -100, 100), None);
    assert_eq!(
        parse_signed(&chars_of("-9223372036854775808"), i64::MIN, i64::MAX),
        Some(i64::MIN)
    );
    assert_eq!(parse_signed(&chars_of("9223372036854775808"), i64::MIN, i64::MAX), None);
}

#[test]
fn numbers_as_text() {
    assert_eq!(decimal_string(0), "0");
    assert_eq!(decimal_string(48381165), "48381165");
    assert_eq!(decimal_string(u128::MAX), "340282366920938463463374607431768211455");
    assert_eq!(signed_string(-40), "-40");
    assert_eq!(signed_string(i64::MIN), "-9223372036854775808");
    assert_eq!(spaces(3), "   ");
    assert_eq!(spaces(0), "");
}

#[test]
fn comparing_text() {
    assert!(str_eq("abc", "abc"));
    assert!(!str_eq("abc", "abd"));
    assert!(!str_eq("abc", "ab"));
    assert!(starts_with("$ cd x", "$ cd"));
    assert!(!starts_with("$ c", "$ cd"));
    assert!(starts_with("x", ""));
}
