//! The control sequences of the terminal, as the `termion` crate writes
//! them.

use crate::path::decimal;
use vstd::prelude::*;

verus! {

/// The sequence that moves the cursor to column `x` of row `y`, both counted
/// from one.
pub open spec fn goto_spec(x: u16, y: u16) -> Seq<char> {
    seq!['\x1b', '['] + decimal(y as nat) + seq![';'] + decimal(x as nat) + seq!['H']
}

/// The sequence that clears the whole screen.
pub open spec fn clear_all_spec() -> Seq<char> {
    seq!['\x1b', '[', '2', 'J']
}

/// The sequence that hides the cursor.
pub open spec fn hide_cursor_spec() -> Seq<char> {
    seq!['\x1b', '[', '?', '2', '5', 'l']
}

/// The sequence that turns the foreground yellow.
pub open spec fn yellow_spec() -> Seq<char> {
    seq!['\x1b', '[', '3', '8', ';', '5', ';', '3', 'm']
}

/// The sequence that turns the foreground back to the terminal's default.
pub open spec fn reset_spec() -> Seq<char> {
    seq!['\x1b', '[', '3', '9', 'm']
}

/// `String::from` on `termion::cursor::Goto`: the escape, the row and the
/// column as decimal numerals with a semicolon between them, and `H`.
#[verifier::external_body]
pub(crate) fn goto(x: u16, y: u16) -> (sequence: String)
    ensures
        sequence@ == goto_spec(x, y),
{
    String::from(termion::cursor::Goto(x, y))
}

/// `termion::clear::All` as text: the fixed sequence that clears the screen.
#[verifier::external_body]
pub(crate) fn clear_all() -> (sequence: String)
    ensures
        sequence@ == clear_all_spec(),
{
    format!("{}", termion::clear::All)
}

/// `termion::cursor::Hide` as text: the fixed sequence that hides the
/// cursor.
#[verifier::external_body]
pub(crate) fn hide_cursor() -> (sequence: String)
    ensures
        sequence@ == hide_cursor_spec(),
{
    format!("{}", termion::cursor::Hide)
}

/// `termion::color::Fg(termion::color::Yellow)` as text: the sequence for a
/// yellow foreground, or nothing where the process runs with colours
/// switched off by its environment.
#[verifier::external_body]
pub(crate) fn fg_yellow() -> (sequence: String)
    ensures
        sequence@ == yellow_spec() || sequence@ == Seq::<char>::empty(),
{
    format!("{}", termion::color::Fg(termion::color::Yellow))
}

/// `termion::color::Fg(termion::color::Reset)` as text: the fixed sequence
/// that restores the default foreground.
#[verifier::external_body]
pub(crate) fn fg_reset() -> (sequence: String)
    ensures
        sequence@ == reset_spec(),
{
    format!("{}", termion::color::Fg(termion::color::Reset))
}

} // verus!
