//! The terminal control sequences that the line editor and the shell emit.
//!
//! The sequences themselves come from termion; this module states what each
//! one is and composes them into the strings that are written to the terminal.

use vstd::prelude::*;
use crate::text::decimal;

verus! {

/// The control sequence introducer, `ESC [`.
pub open spec fn csi() -> Seq<char> {
    seq!['\x1b', '[']
}

/// The sequence that erases the line the cursor is on.
pub open spec fn clear_line_seq() -> Seq<char> {
    csi() + seq!['2', 'K']
}

/// The sequence that moves the cursor `n` columns to the left.
pub open spec fn left_seq(n: nat) -> Seq<char> {
    csi() + decimal(n) + seq!['D']
}

/// The sequence that moves the cursor `n` columns to the right.
pub open spec fn right_seq(n: nat) -> Seq<char> {
    csi() + decimal(n) + seq!['C']
}

/// The sequences that select a steady and then a blinking bar as the cursor.
pub open spec fn bar_cursor_seq() -> Seq<char> {
    csi() + seq!['6', ' ', 'q'] + csi() + seq!['5', ' ', 'q']
}

/// The most columns that a single movement sequence can carry.
pub const MAX_MOVE: usize = 65535;

/// The text that moves the cursor `n` columns to the left: nothing for
/// zero, and otherwise as many sequences of at most `MAX_MOVE` columns as
/// it takes.
pub open spec fn left_by(n: nat) -> Seq<char>
    decreases n,
{
    if n == 0 {
        Seq::empty()
    } else if n <= MAX_MOVE {
        left_seq(n)
    } else {
        left_seq(MAX_MOVE as nat) + left_by((n - MAX_MOVE) as nat)
    }
}

/// The text that moves the cursor `n` columns to the right, built as
/// `left_by` is.
pub open spec fn right_by(n: nat) -> Seq<char>
    decreases n,
{
    if n == 0 {
        Seq::empty()
    } else if n <= MAX_MOVE {
        right_seq(n)
    } else {
        right_seq(MAX_MOVE as nat) + right_by((n - MAX_MOVE) as nat)
    }
}

/// termion's `clear::CurrentLine`, written out through its `Display` impl,
/// is the fixed text `ESC [ 2 K`.
#[verifier::external_body]
fn clear_current_line() -> (text: String)
    ensures
        text@ == clear_line_seq(),
{
    termion::clear::CurrentLine.to_string()
}

/// termion's `cursor::Left(n)`, written out through its `Display` impl, is
/// `ESC [`, the decimal numeral of `n`, and `D`.
#[verifier::external_body]
fn cursor_left(n: u16) -> (text: String)
    ensures
        text@ == left_seq(n as nat),
{
    termion::cursor::Left(n).to_string()
}

/// termion's `cursor::Right(n)`, written out through its `Display` impl, is
/// `ESC [`, the decimal numeral of `n`, and `C`.
#[verifier::external_body]
fn cursor_right(n: u16) -> (text: String)
    ensures
        text@ == right_seq(n as nat),
{
    termion::cursor::Right(n).to_string()
}

/// termion's `cursor::SteadyBar`, written out through its `Display` impl, is
/// the fixed text `ESC [ 6 SPACE q`.
#[verifier::external_body]
fn steady_bar() -> (text: String)
    ensures
        text@ == csi() + seq!['6', ' ', 'q'],
{
    termion::cursor::SteadyBar.to_string()
}

/// termion's `cursor::BlinkingBar`, written out through its `Display` impl,
/// is the fixed text `ESC [ 5 SPACE q`.
#[verifier::external_body]
fn blinking_bar() -> (text: String)
    ensures
        text@ == csi() + seq!['5', ' ', 'q'],
{
    termion::cursor::BlinkingBar.to_string()
}

/// Appends to `out` the sequence that erases the current line.
pub fn push_clear_line(out: &mut String)
    ensures
        final(out)@ == old(out)@ + clear_line_seq(),
{
    let piece = clear_current_line();
    out.append(piece.as_str());
}

/// Appends to `out` the text that moves the cursor `n` columns to the left.
pub fn push_left(out: &mut String, n: usize)
    ensures
        final(out)@ == old(out)@ + left_by(n as nat),
{
    let mut left: usize = n;
    assert(out@ + left_by(left as nat) == old(out)@ + left_by(n as nat));
    while left > MAX_MOVE
        invariant
            out@ + left_by(left as nat) == old(out)@ + left_by(n as nat),
        decreases left,
    {
        let ghost before = out@;
        let piece = cursor_left(65535u16);
        out.append(piece.as_str());
        left = left - MAX_MOVE;
        assert(out@ + left_by(left as nat) == before + (left_seq(MAX_MOVE as nat) + left_by(
            left as nat,
        )));
    }
    if left > 0 {
        let piece = cursor_left(left as u16);
        out.append(piece.as_str());
    } else {
        assert(out@ + Seq::<char>::empty() == out@);
    }
}

/// Appends to `out` the text that moves the cursor `n` columns to the right.
pub fn push_right(out: &mut String, n: usize)
    ensures
        final(out)@ == old(out)@ + right_by(n as nat),
{
    let mut left: usize = n;
    assert(out@ + right_by(left as nat) == old(out)@ + right_by(n as nat));
    while left > MAX_MOVE
        invariant
            out@ + right_by(left as nat) == old(out)@ + right_by(n as nat),
        decreases left,
    {
        let ghost before = out@;
        let piece = cursor_right(65535u16);
        out.append(piece.as_str());
        left = left - MAX_MOVE;
        assert(out@ + right_by(left as nat) == before + (right_seq(MAX_MOVE as nat) + right_by(
            left as nat,
        )));
    }
    if left > 0 {
        let piece = cursor_right(left as u16);
        out.append(piece.as_str());
    } else {
        assert(out@ + Seq::<char>::empty() == out@);
    }
}

/// The text that moves the cursor `n` columns to the left.
pub fn move_left(n: usize) -> (text: String)
    ensures
        text@ == left_by(n as nat),
{
    let mut text = String::new();
    push_left(&mut text, n);
    assert(Seq::<char>::empty() + left_by(n as nat) == left_by(n as nat));
    text
}

/// The text that moves the cursor `n` columns to the right.
pub fn move_right(n: usize) -> (text: String)
    ensures
        text@ == right_by(n as nat),
{
    let mut text = String::new();
    push_right(&mut text, n);
    assert(Seq::<char>::empty() + right_by(n as nat) == right_by(n as nat));
    text
}

/// The text that selects the bar cursor: first the steady bar, then the
/// blinking one.
pub fn bar_cursor() -> (text: String)
    ensures
        text@ == bar_cursor_seq(),
{
    let mut text = steady_bar();
    let blinking = blinking_bar();
    text.append(blinking.as_str());
    text
}

} // verus!
