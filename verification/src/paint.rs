//! Coloured text, by way of the `colored` crate.

use vstd::prelude::*;
use vstd::string::StringExecFns;
use colored::Colorize;
use crate::text::{decimal_digits, decimal_string};

verus! {

/// A colour of the terminal.
#[verifier::external_type_specification]
pub struct ExColor(colored::Color);

/// The set of styles of a coloured text.
#[verifier::external_type_specification]
#[verifier::external_body]
pub struct ExStyle(colored::Style);

/// A text with its colours.
#[verifier::external_type_specification]
pub struct ExColoredString(colored::ColoredString);

/// Calls `colored::Colorize::on_color` on `text`. The claim, as the source
/// of the crate has it: the result holds a copy of the text and `color`
/// as its background, and no colour of the text itself.
#[verifier::external_body]
pub(crate) fn on_color(text: &str, color: colored::Color) -> (painted: colored::ColoredString)
    ensures
        painted.input@ == text@,
        painted.bgcolor == Some(color),
        painted.fgcolor is None,
{
    text.on_color(color)
}

/// The background that shows a scenic score: from blue for the lowest
/// scores by way of cyan, green and yellow to red for the highest.
pub open spec fn background_for(score: nat) -> colored::Color {
    if score == 0 {
        colored::Color::Blue
    } else if score == 1 {
        colored::Color::BrightBlue
    } else if score == 2 {
        colored::Color::Cyan
    } else if score == 3 {
        colored::Color::BrightCyan
    } else if score <= 10 {
        colored::Color::Green
    } else if score <= 50_000 {
        colored::Color::BrightGreen
    } else if score <= 100_000 {
        colored::Color::Yellow
    } else if score <= 200_000 {
        colored::Color::BrightYellow
    } else if score <= 300_000 {
        colored::Color::BrightRed
    } else {
        colored::Color::Red
    }
}

/// Chooses the background for a scenic score.
pub fn choose_background(score: u128) -> (color: colored::Color)
    ensures
        color == background_for(score as nat),
{
    if score == 0 {
        colored::Color::Blue
    } else if score == 1 {
        colored::Color::BrightBlue
    } else if score == 2 {
        colored::Color::Cyan
    } else if score == 3 {
        colored::Color::BrightCyan
    } else if score <= 10 {
        colored::Color::Green
    } else if score <= 50_000 {
        colored::Color::BrightGreen
    } else if score <= 100_000 {
        colored::Color::Yellow
    } else if score <= 200_000 {
        colored::Color::BrightYellow
    } else if score <= 300_000 {
        colored::Color::BrightRed
    } else {
        colored::Color::Red
    }
}

/// Whether `painted` shows `height` on the background of `score`: a blank
/// and the height as its text, no colour of the text itself.
pub open spec fn shows(painted: colored::ColoredString, height: nat, score: nat) -> bool {
    &&& painted.input@ == seq![' '] + decimal_digits(height)
    &&& painted.bgcolor == Some(background_for(score))
    &&& painted.fgcolor is None
}

/// The height of a tree on the background of its scenic score.
pub fn paint_height(height: usize, score: u128) -> (painted: colored::ColoredString)
    ensures
        shows(painted, height as nat, score as nat),
{
    proof {
        reveal_strlit(" ");
        assert(" "@ =~= seq![' ']);
    }
    let mut text = " ".to_owned();
    text.append(decimal_string(height as u128).as_str());
    on_color(text.as_str(), choose_background(score))
}

/// The height of a tree on the background of its scenic score.
pub fn get_height_color(height: &usize, score: &usize) -> (painted: colored::ColoredString)
    ensures
        shows(painted, *height as nat, *score as nat),
{
    paint_height(*height, *score as u128)
}

} // verus!
