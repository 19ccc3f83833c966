//! Verified solvers for a series of small text puzzles.
//!
//! The heart of the crate rebuilds a directory tree from the transcript of
//! a shell session and answers questions about the sizes of the
//! directories: `transcript` reads the lines, `tree` replays them,
//! `tree_proofs` holds what is proved of every tree, `query` answers the
//! questions and `listing` writes the tree as text.
//!
//! The other modules solve one puzzle each: `calories`, `strategy`,
//! `rucksack`, `ranges`, `crates`, `marker`, `grid` with `sight`, `rope`
//! and `signal`. They share `text` for words and numbers, `roots` for
//! square roots, `pattern` for regular expressions and `paint` for
//! coloured text.
//!
//! Every executable function carries a contract that says what it
//! returns, and no function panics on an input that its contract allows.

pub mod text;
pub mod roots;
pub mod pattern;
pub mod paint;

pub mod transcript;
pub mod tree;
pub mod tree_proofs;
pub mod query;
pub mod listing;

pub mod calories;
pub mod strategy;
pub mod rucksack;
pub mod ranges;
pub mod crates;
pub mod marker;
pub mod grid;
pub mod sight;
pub mod rope;
pub mod signal;
