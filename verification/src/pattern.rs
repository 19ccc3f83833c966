//! Regular expressions, by way of the `regex` crate.
//!
//! Nothing here is proved: each function states what the crate's
//! documentation says of the call that it makes. What a pattern matches is
//! not spelled out; it has a name, which the contracts of the callers
//! speak of.

use vstd::prelude::*;

verus! {

/// A compiled regular expression.
#[verifier::external_type_specification]
#[verifier::external_body]
pub struct ExRegex(regex::Regex);

/// The error of `regex::Regex::new`.
#[verifier::external_type_specification]
#[verifier::external_body]
pub struct ExRegexError(regex::Error);

/// Whether `regex::Regex::new` accepts `pattern`.
pub uninterp spec fn pattern_accepted(pattern: Seq<char>) -> bool;

/// Whether `regex::Regex::is_match` finds a match of `pattern` anywhere in
/// `text`.
pub uninterp spec fn matches_somewhere(pattern: Seq<char>, text: Seq<char>) -> bool;

/// The texts of the successive matches of `pattern` in `text` that do not
/// overlap, as `regex::Regex::find_iter` yields them.
pub uninterp spec fn matches_of(pattern: Seq<char>, text: Seq<char>) -> Seq<Seq<char>>;

/// The successive matches of `pattern` in `text` that do not overlap, as
/// `regex::Regex::captures_iter` yields them: for each match the text of
/// every group, the whole match first, and nothing for a group that took
/// no part in the match.
pub uninterp spec fn captures_of(pattern: Seq<char>, text: Seq<char>) -> Seq<Seq<Option<Seq<char>>>>;

/// The groups of one match as mathematical values.
pub open spec fn groups_view(groups: Seq<Option<String>>) -> Seq<Option<Seq<char>>> {
    Seq::new(
        groups.len(),
        |i: int|
            match groups[i] {
                Some(text) => Some(text@),
                None => None,
            },
    )
}

/// The groups of all matches as mathematical values.
pub open spec fn captures_view(found: Seq<Vec<Option<String>>>) -> Seq<Seq<Option<Seq<char>>>> {
    Seq::new(found.len(), |i: int| groups_view(found[i]@))
}

/// A pattern that has been compiled, together with its text. The only way
/// to one is `Pattern::compile`, so the two always belong together.
pub struct Pattern {
    source: String,
    compiled: regex::Regex,
}

impl View for Pattern {
    type V = Seq<char>;

    /// The text of the pattern.
    closed spec fn view(&self) -> Seq<char> {
        self.source@
    }
}

impl Pattern {
    /// Calls `regex::Regex::new`. The claim: an error comes back exactly
    /// for a text that `Regex::new` rejects, and else the compiled pattern
    /// of that text.
    #[verifier::external_body]
    pub(crate) fn compile(source: &str) -> (r: Result<Pattern, regex::Error>)
        ensures
            match r {
                Ok(pattern) => pattern_accepted(source@) && pattern@ == source@,
                Err(_) => !pattern_accepted(source@),
            },
    {
        let compiled = regex::Regex::new(source)?;
        Ok(Pattern { source: source.to_string(), compiled })
    }

    /// Calls `regex::Regex::is_match`. The claim: the answer is that of
    /// `is_match` for this pattern and `text`.
    #[verifier::external_body]
    pub(crate) fn is_match(&self, text: &str) -> (found: bool)
        ensures
            found == matches_somewhere(self@, text@),
    {
        self.compiled.is_match(text)
    }

    /// Calls `regex::Regex::find_iter`. The claim: the result holds the
    /// matched texts in the order in which the iterator yields them.
    #[verifier::external_body]
    pub(crate) fn find_all(&self, text: &str) -> (found: Vec<String>)
        ensures
            crate::text::strings_view(found@) == matches_of(self@, text@),
    {
        self.compiled.find_iter(text).map(|m| m.as_str().to_string()).collect()
    }

    /// Calls `regex::Regex::captures_iter`. The claim: the result holds
    /// the groups of every match in the order in which the iterators
    /// yield them.
    #[verifier::external_body]
    pub(crate) fn captures(&self, text: &str) -> (found: Vec<Vec<Option<String>>>)
        ensures
            captures_view(found@) == captures_of(self@, text@),
    {
        self.compiled.captures_iter(text).map(
            |c| c.iter().map(|m| m.map(|m| m.as_str().to_string())).collect(),
        ).collect()
    }
}

} // verus!
