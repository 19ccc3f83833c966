//! Reading a shell transcript line by line.
//!
//! A transcript is the log of a session in which somebody walked through a
//! directory tree with `cd` and listed directories with `ls`. Each line is
//! one of four shapes:
//!
//! ```text
//! $ cd <name|..>     a directory change
//! $ ls               a listing request
//! dir <name>         a listed subdirectory
//! <size> <name>      a listed file
//! ```
//!
//! `parse_line` turns one line into an `Event`, or says why it cannot.

use vstd::prelude::*;
use crate::text::{
    chars_of, decimal_u64, lemma_words_are_runs, parse_u64, split_words, starts_with, str_eq,
    strings_view, words, Blank,
};

verus! {

/// The kind of a transcript line.
#[derive(Clone, Copy, Debug, PartialEq, Eq, Structural)]
pub enum HistoryItemType {
    /// A directory change, `$ cd <name|..>`.
    CD,
    /// A listing request, `$ ls`.
    LS,
    /// An entry of a listing, `dir <name>` or `<size> <name>`.
    FILE,
}

/// Why a line is not a transcript line.
#[derive(Clone, Copy, Debug, PartialEq, Eq, Structural)]
pub enum ParseError {
    /// The line has none of the four shapes.
    UnrecognizedLine,
    /// The line has the shape of a file entry, but its first word is not a
    /// decimal number of at most 64 bits.
    SizeUnparseable,
}

/// What one transcript line reports.
#[derive(Debug)]
pub enum Event {
    /// `$ cd <name>`: the session moves into the directory `name`.
    Enter(String),
    /// `$ cd ..`: the session moves to the parent directory.
    Leave,
    /// `$ ls`: the entries that follow belong to the current directory.
    List,
    /// `dir <name>`: the current directory holds a subdirectory `name`.
    DirEntry(String),
    /// `<size> <name>`: the current directory holds a file `name` of `size`
    /// bytes.
    FileEntry(String, u64),
}

/// An `Event` as a mathematical value.
pub enum EventView {
    Enter(Seq<char>),
    Leave,
    List,
    DirEntry(Seq<char>),
    FileEntry(Seq<char>, u64),
}

impl View for Event {
    type V = EventView;

    open spec fn view(&self) -> EventView {
        match self {
            Event::Enter(name) => EventView::Enter(name@),
            Event::Leave => EventView::Leave,
            Event::List => EventView::List,
            Event::DirEntry(name) => EventView::DirEntry(name@),
            Event::FileEntry(name, size) => EventView::FileEntry(name@, *size),
        }
    }
}

/// The marker of a directory change, `$ cd`.
pub open spec fn cd_marker() -> Seq<char> {
    seq!['$', ' ', 'c', 'd']
}

/// The marker of a listing request, `$ ls`.
pub open spec fn ls_marker() -> Seq<char> {
    seq!['$', ' ', 'l', 's']
}

/// The word that opens a subdirectory entry, `dir`.
pub open spec fn dir_word() -> Seq<char> {
    seq!['d', 'i', 'r']
}

/// The target that stands for the parent directory, `..`.
pub open spec fn parent_token() -> Seq<char> {
    seq!['.', '.']
}

/// The kind that the first four characters of `line` announce. Whether
/// the line keeps that promise is for `parse_line_spec` to say.
pub open spec fn announced_kind(line: Seq<char>) -> HistoryItemType {
    if cd_marker().is_prefix_of(line) {
        HistoryItemType::CD
    } else if ls_marker().is_prefix_of(line) {
        HistoryItemType::LS
    } else {
        HistoryItemType::FILE
    }
}

/// What `line` reports, or why it is no transcript line.
///
/// A directory change is exactly the three words `$`, `cd` and a target; a
/// listing request exactly the two words `$` and `ls`. An entry is exactly
/// two words, the first of which does not begin with `$`: `dir` and a name,
/// or a decimal size and a name.
pub open spec fn parse_line_spec(line: Seq<char>) -> Result<EventView, ParseError> {
    let w = words(line, Blank::Unicode);
    match announced_kind(line) {
        HistoryItemType::CD => {
            if w.len() == 3 && w[0] == seq!['$'] && w[1] == seq!['c', 'd'] {
                if w[2] == parent_token() {
                    Ok(EventView::Leave)
                } else {
                    Ok(EventView::Enter(w[2]))
                }
            } else {
                Err(ParseError::UnrecognizedLine)
            }
        },
        HistoryItemType::LS => {
            if w.len() == 2 && w[0] == seq!['$'] && w[1] == seq!['l', 's'] {
                Ok(EventView::List)
            } else {
                Err(ParseError::UnrecognizedLine)
            }
        },
        HistoryItemType::FILE => {
            if w.len() != 2 || w[0].first() == '$' {
                Err(ParseError::UnrecognizedLine)
            } else if w[0] == dir_word() {
                Ok(EventView::DirEntry(w[1]))
            } else {
                match decimal_u64(w[0]) {
                    Some(size) => Ok(EventView::FileEntry(w[1], size)),
                    None => Err(ParseError::SizeUnparseable),
                }
            }
        },
    }
}

/// The outcome of parsing as a mathematical value.
pub open spec fn parsed_view(r: Result<Event, ParseError>) -> Result<EventView, ParseError> {
    match r {
        Ok(event) => Ok(event@),
        Err(e) => Err(e),
    }
}

/// The kind of line that reports `event`: a directory change, a listing
/// request, or an entry of a listing.
pub open spec fn kind_of(event: EventView) -> HistoryItemType {
    match event {
        EventView::Enter(_) => HistoryItemType::CD,
        EventView::Leave => HistoryItemType::CD,
        EventView::List => HistoryItemType::LS,
        EventView::DirEntry(_) => HistoryItemType::FILE,
        EventView::FileEntry(_, _) => HistoryItemType::FILE,
    }
}

/// Tells the kind of a transcript line. A line of none of the four shapes
/// has no kind: it fails as it does in `parse_line`.
pub fn get_command_type(item: &str) -> (r: Result<HistoryItemType, ParseError>)
    ensures
        match parse_line_spec(item@) {
            Ok(event) => r == Ok::<HistoryItemType, ParseError>(kind_of(event)),
            Err(e) => r == Err::<HistoryItemType, ParseError>(e),
        },
{
    match parse_line(item) {
        Ok(Event::Enter(_)) => Ok(HistoryItemType::CD),
        Ok(Event::Leave) => Ok(HistoryItemType::CD),
        Ok(Event::List) => Ok(HistoryItemType::LS),
        Ok(Event::DirEntry(_)) => Ok(HistoryItemType::FILE),
        Ok(Event::FileEntry(_, _)) => Ok(HistoryItemType::FILE),
        Err(e) => Err(e),
    }
}

/// Tells what the first four characters of a line announce.
fn announced(item: &str) -> (kind: HistoryItemType)
    ensures
        kind == announced_kind(item@),
{
    proof {
        reveal_strlit("$ cd");
        reveal_strlit("$ ls");
        assert("$ cd"@ =~= cd_marker());
        assert("$ ls"@ =~= ls_marker());
    }
    if starts_with(item, "$ cd") {
        return HistoryItemType::CD;
    }
    if starts_with(item, "$ ls") {
        return HistoryItemType::LS;
    }
    HistoryItemType::FILE
}

/// Reads one transcript line.
pub fn parse_line(line: &str) -> (r: Result<Event, ParseError>)
    ensures
        parsed_view(r) == parse_line_spec(line@),
{
    proof {
        reveal_strlit("$");
        reveal_strlit("cd");
        reveal_strlit("ls");
        reveal_strlit("dir");
        reveal_strlit("..");
        assert("$"@ =~= seq!['$']);
        assert("cd"@ =~= seq!['c', 'd']);
        assert("ls"@ =~= seq!['l', 's']);
        assert("dir"@ =~= dir_word());
        assert(".."@ =~= parent_token());
    }
    let kind = announced(line);
    let mut w = split_words(line, Blank::Unicode);
    let ghost all = words(line@, Blank::Unicode);
    proof {
        assert forall|k: int| 0 <= k < w@.len() implies (#[trigger] w@[k])@ == all[k] by {
            assert(strings_view(w@)[k] == w@[k]@);
        }
    }
    match kind {
        HistoryItemType::CD => {
            if w.len() == 3 && str_eq(w[0].as_str(), "$") && str_eq(w[1].as_str(), "cd") {
                if str_eq(w[2].as_str(), "..") {
                    Ok(Event::Leave)
                } else {
                    match w.pop() {
                        Some(target) => Ok(Event::Enter(target)),
                        None => Err(ParseError::UnrecognizedLine),
                    }
                }
            } else {
                Err(ParseError::UnrecognizedLine)
            }
        },
        HistoryItemType::LS => {
            if w.len() == 2 && str_eq(w[0].as_str(), "$") && str_eq(w[1].as_str(), "ls") {
                Ok(Event::List)
            } else {
                Err(ParseError::UnrecognizedLine)
            }
        },
        HistoryItemType::FILE => {
            if w.len() != 2 {
                return Err(ParseError::UnrecognizedLine);
            }
            let first = chars_of(w[0].as_str());
            proof {
                lemma_words_are_runs(line@, 0, 0, Blank::Unicode);
            }
            if first[0] == '$' {
                return Err(ParseError::UnrecognizedLine);
            }
            let is_dir = str_eq(w[0].as_str(), "dir");
            let size = parse_u64(&first);
            match w.pop() {
                Some(name) => {
                    if is_dir {
                        Ok(Event::DirEntry(name))
                    } else {
                        match size {
                            Some(n) => Ok(Event::FileEntry(name, n)),
                            None => Err(ParseError::SizeUnparseable),
                        }
                    }
                },
                None => Err(ParseError::UnrecognizedLine),
            }
        },
    }
}

} // verus!
