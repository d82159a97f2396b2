//! The lexical check that a finished line has to pass before it is handed on.
//!
//! The check is tinytoken's tokenizer, set up for shell input: digits count
//! as word characters, single quotes delimit strings as double quotes do, and
//! `=` is a symbol next to the default `.`.

use vstd::prelude::*;
use tinytoken::error::TokenizationError;
use tinytoken::{Loc, Tokenizer};

verus! {

/// Why a line was refused, with the zero-based line and column of the spot.
#[derive(Debug, Clone, Copy, PartialEq, Eq)]
pub enum LexError {
    /// A character literal that holds more than one character.
    NotAValidChar { line: usize, column: usize },
    /// A digit separator that no digit follows.
    UnexpectedDigitSeparator { line: usize, column: usize },
}

/// What tinytoken's tokenizer, set up as described above, makes of `line`:
/// acceptance, or the error it reports.
pub uninterp spec fn lex_outcome(line: Seq<char>) -> Result<(), LexError>;

/// Runs `Tokenizer::tokenize` of tinytoken over `line`, with
/// `ignore_numbers(true)`, `parse_char_as_string(true)` and `add_symbol('=')`.
/// The tokens are dropped; an error is handed on variant by variant.
#[verifier::external_body]
pub(crate) fn lex(line: &str) -> (outcome: Result<(), LexError>)
    ensures
        outcome == lex_outcome(line@),
{
    let tokenizer = Tokenizer::builder()
        .ignore_numbers(true)
        .parse_char_as_string(true)
        .add_symbol('=')
        .build(line);
    match tokenizer.tokenize() {
        Ok(_) => Ok(()),
        Err(TokenizationError::NotAValidChar(Loc(line, column))) => {
            Err(LexError::NotAValidChar { line, column })
        },
        Err(TokenizationError::UnexpectedDigitSeparator(Loc(line, column))) => {
            Err(LexError::UnexpectedDigitSeparator { line, column })
        },
    }
}

} // verus!
