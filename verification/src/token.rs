//! The tokenizer: words, quoted strings and symbols, each with the column at
//! which it starts.
//!
//! Which characters count as alphanumeric is decided by the standard library
//! over all of Unicode. The scanning itself is stated and verified for any
//! such classification, handed in as one flag per character.

use vstd::prelude::*;
use crate::error::CmdParsingError;
use crate::text::chars_of;

verus! {

/// The zero-based column at which a token starts.
#[derive(Debug, Clone, Copy, PartialEq, Eq)]
pub struct Col(pub u32);

/// The single-character symbols.
#[allow(non_camel_case_types)]
#[derive(Debug, Clone, Copy, PartialEq, Eq)]
pub enum Sym {
    PIPE,
    EQUAL,
}

/// One lexical unit of a line.
#[derive(Debug, PartialEq, Eq)]
pub enum Token {
    /// A bare word, escapes resolved.
    Word(String, Col),
    /// `|` or `=`.
    Symbol(Sym, Col),
    /// The inside of a quoted string, escapes resolved.
    Str(String, Col),
}

/// A token as a mathematical value.
pub enum TokenModel {
    Word(Seq<char>, int),
    Symbol(Sym, int),
    Str(Seq<char>, int),
}

impl View for Token {
    type V = TokenModel;

    open spec fn view(&self) -> TokenModel {
        match self {
            Token::Word(text, col) => TokenModel::Word(text@, col.0 as int),
            Token::Symbol(sym, col) => TokenModel::Symbol(*sym, col.0 as int),
            Token::Str(text, col) => TokenModel::Str(text@, col.0 as int),
        }
    }
}

/// The models of a sequence of tokens.
pub open spec fn models(tokens: Seq<Token>) -> Seq<TokenModel> {
    Seq::new(tokens.len(), |i: int| tokens[i]@)
}

/// Whether the standard library counts `c` as alphanumeric.
pub uninterp spec fn is_alphanumeric(c: char) -> bool;

/// The alphanumeric flags of the characters of `chars`.
pub open spec fn classes(chars: Seq<char>) -> Seq<bool> {
    Seq::new(chars.len(), |i: int| is_alphanumeric(chars[i]))
}

/// `char::is_alphanumeric` of the standard library.
#[verifier::external_body]
fn alphanumeric(c: char) -> (yes: bool)
    ensures
        yes == is_alphanumeric(c),
{
    c.is_alphanumeric()
}

/// The rest of a word from `at` on: its text and the position behind it.
/// Alphanumeric characters and `_` belong to the word, a `\` is skipped and
/// makes the next character belong to it, and anything else ends the word.
pub open spec fn word_tail(chars: Seq<char>, alnum: Seq<bool>, at: int, escaped: bool) -> (
    Seq<char>,
    int,
)
    decreases chars.len() - at,
{
    if at < 0 || at >= chars.len() {
        (Seq::empty(), at)
    } else if escaped || alnum[at] || chars[at] == '_' {
        let (text, end) = word_tail(chars, alnum, at + 1, false);
        (seq![chars[at]] + text, end)
    } else if chars[at] == '\\' {
        word_tail(chars, alnum, at + 1, true)
    } else {
        (Seq::empty(), at)
    }
}

/// The word that starts at `at`, and the position behind it. The first
/// character is always consumed; it belongs to the word when it is `$`,
/// alphanumeric or `_`.
pub open spec fn word_at(chars: Seq<char>, alnum: Seq<bool>, at: int) -> (TokenModel, int) {
    let head = if chars[at] == '$' || alnum[at] || chars[at] == '_' {
        seq![chars[at]]
    } else {
        Seq::empty()
    };
    let (text, end) = word_tail(chars, alnum, at + 1, false);
    (TokenModel::Word(head + text, at), end)
}

/// The rest of a quoted string from `at` on: its text and the position
/// behind it. The string ends behind the first unescaped `del`, or at the
/// end of the input; a `\` is skipped and makes the next character literal.
pub open spec fn string_tail(chars: Seq<char>, del: char, at: int, escaped: bool) -> (
    Seq<char>,
    int,
)
    decreases chars.len() - at,
{
    if at < 0 || at >= chars.len() {
        (Seq::empty(), at)
    } else if chars[at] == del && !escaped {
        (Seq::empty(), at + 1)
    } else if chars[at] == '\\' && !escaped {
        string_tail(chars, del, at + 1, true)
    } else {
        let (text, end) = string_tail(chars, del, at + 1, false);
        (seq![chars[at]] + text, end)
    }
}

/// The quoted string whose opening quote stands at `at`, and the position
/// behind it.
pub open spec fn string_at(chars: Seq<char>, at: int) -> (TokenModel, int) {
    let (text, end) = string_tail(chars, chars[at], at + 1, false);
    (TokenModel::Str(text, at), end)
}

/// A word or string tail ends at or behind its start and inside the input.
pub proof fn lemma_tail_ends(
    chars: Seq<char>,
    alnum: Seq<bool>,
    del: char,
    at: int,
    escaped: bool,
)
    requires
        0 <= at <= chars.len(),
    ensures
        at <= word_tail(chars, alnum, at, escaped).1 <= chars.len(),
        at <= string_tail(chars, del, at, escaped).1 <= chars.len(),
    decreases chars.len() - at,
{
    if at < chars.len() {
        lemma_tail_ends(chars, alnum, del, at + 1, false);
        lemma_tail_ends(chars, alnum, del, at + 1, true);
    }
}

/// The token that starts at `at`, if one does, and the position behind it.
/// A space yields no token.
pub open spec fn token_at(chars: Seq<char>, alnum: Seq<bool>, at: int) -> (
    Option<TokenModel>,
    int,
) {
    let c = chars[at];
    if c == ' ' {
        (None, at + 1)
    } else if c == '=' {
        (Some(TokenModel::Symbol(Sym::EQUAL, at)), at + 1)
    } else if c == '|' {
        (Some(TokenModel::Symbol(Sym::PIPE, at)), at + 1)
    } else if c == '"' || c == '\'' {
        (Some(string_at(chars, at).0), string_at(chars, at).1)
    } else {
        (Some(word_at(chars, alnum, at).0), word_at(chars, alnum, at).1)
    }
}

/// The tokens of the input from `at` on.
pub open spec fn tokens_from(chars: Seq<char>, alnum: Seq<bool>, at: int) -> Seq<TokenModel>
    decreases chars.len() - at,
    via tokens_from_decreases
{
    if at < 0 || at >= chars.len() {
        Seq::empty()
    } else {
        let (token, end) = token_at(chars, alnum, at);
        let rest = tokens_from(chars, alnum, end);
        match token {
            Some(t) => seq![t] + rest,
            None => rest,
        }
    }
}

#[via_fn]
proof fn tokens_from_decreases(chars: Seq<char>, alnum: Seq<bool>, at: int) {
    if 0 <= at < chars.len() {
        lemma_tail_ends(chars, alnum, chars[at], at + 1, false);
    }
}

/// The tokens of a whole line.
pub open spec fn tokens_of(chars: Seq<char>, alnum: Seq<bool>) -> Seq<TokenModel> {
    tokens_from(chars, alnum, 0)
}

/// The column at which a token starts.
pub open spec fn column(token: TokenModel) -> int {
    match token {
        TokenModel::Word(_, col) => col,
        TokenModel::Symbol(_, col) => col,
        TokenModel::Str(_, col) => col,
    }
}

/// Tokens come in the order of the line: every token starts inside the
/// part of the line that was scanned, and each starts behind the one before.
pub proof fn lemma_tokens_in_order(chars: Seq<char>, alnum: Seq<bool>, at: int)
    requires
        0 <= at,
    ensures
        forall|i: int|
            0 <= i < tokens_from(chars, alnum, at).len() ==> at <= column(
                #[trigger] tokens_from(chars, alnum, at)[i],
            ) < chars.len(),
        forall|i: int, j: int|
            0 <= i < j < tokens_from(chars, alnum, at).len() ==> column(
                #[trigger] tokens_from(chars, alnum, at)[i],
            ) < column(#[trigger] tokens_from(chars, alnum, at)[j]),
    decreases chars.len() - at,
{
    if at < chars.len() {
        let (token, end) = token_at(chars, alnum, at);
        lemma_tail_ends(chars, alnum, chars[at], at + 1, false);
        lemma_tokens_in_order(chars, alnum, end);
        let rest = tokens_from(chars, alnum, end);
        let all = tokens_from(chars, alnum, at);
        match token {
            Some(t) => {
                assert(all == seq![t] + rest);
                assert(column(t) == at);
                assert forall|i: int| 0 <= i < all.len() implies at <= column(#[trigger] all[i])
                    < chars.len() by {
                    if i > 0 {
                        assert(all[i] == rest[i - 1]);
                    }
                }
                assert forall|i: int, j: int| 0 <= i < j < all.len() implies column(
                    #[trigger] all[i],
                ) < column(#[trigger] all[j]) by {
                    assert(all[j] == rest[j - 1]);
                    if i > 0 {
                        assert(all[i] == rest[i - 1]);
                    }
                }
            },
            None => {
                assert(all == rest);
            },
        }
    }
}

/// Scans the word that starts at column `*col` and moves `*col` behind it.
pub fn make_word(chars: &Vec<char>, alnum: &Vec<bool>, col: &mut u32) -> (tok: Token)
    requires
        chars.len() == alnum.len(),
        chars.len() <= u32::MAX,
        *old(col) < chars.len(),
    ensures
        (tok@, *final(col) as int) == word_at(chars@, alnum@, *old(col) as int),
        *old(col) < *final(col) <= chars.len(),
{
    let start: u32 = *col;
    let mut word = String::new();
    let mut is_escaped = false;
    let first_char = chars[start as usize];
    if first_char == '$' || alnum[start as usize] || first_char == '_' {
        word.push(first_char);
    }
    let ghost head = word@;
    let n: usize = chars.len();
    let mut at: usize = start as usize + 1;
    loop
        invariant_except_break
            n == chars.len(),
            n == alnum.len(),
            n <= u32::MAX,
            start < at <= n,
            ({
                let (text, end) = word_tail(chars@, alnum@, at as int, is_escaped);
                let (whole, last) = word_tail(chars@, alnum@, start + 1, false);
                word@ + text == head + whole && end == last
            }),
        ensures
            start < at <= n,
            word@ == head + word_tail(chars@, alnum@, start + 1, false).0,
            at == word_tail(chars@, alnum@, start + 1, false).1,
        decreases n - at,
    {
        if at >= n {
            assert(word@ + Seq::<char>::empty() == word@);
            break;
        }
        let c = chars[at];
        let ghost before = word@;
        let ghost rest = word_tail(chars@, alnum@, at + 1, false).0;
        if is_escaped || alnum[at] || c == '_' {
            word.push(c);
            is_escaped = false;
            at += 1;
            assert(before + (seq![c] + rest) == before.push(c) + rest);
        } else if c == '\\' {
            is_escaped = true;
            at += 1;
        } else {
            assert(word@ + Seq::<char>::empty() == word@);
            break;
        }
    }
    *col = at as u32;
    Token::Word(word, Col(start))
}

/// Scans the quoted string whose opening quote `del` stands at column
/// `*col` and moves `*col` behind it.
pub fn build_string(chars: &Vec<char>, col: &mut u32, del: char) -> (tok: Token)
    requires
        chars.len() <= u32::MAX,
        *old(col) < chars.len(),
        chars@[*old(col) as int] == del,
    ensures
        (tok@, *final(col) as int) == string_at(chars@, *old(col) as int),
        *old(col) < *final(col) <= chars.len(),
{
    let start: u32 = *col;
    let mut string = String::new();
    let mut is_escaped = false;
    let n: usize = chars.len();
    let mut at: usize = start as usize + 1;
    loop
        invariant_except_break
            n == chars.len(),
            n <= u32::MAX,
            start < at <= n,
            ({
                let (text, end) = string_tail(chars@, del, at as int, is_escaped);
                let (whole, last) = string_tail(chars@, del, start + 1, false);
                string@ + text == whole && end == last
            }),
        ensures
            start < at <= n,
            string@ == string_tail(chars@, del, start + 1, false).0,
            at == string_tail(chars@, del, start + 1, false).1,
        decreases n - at,
    {
        if at >= n {
            assert(string@ + Seq::<char>::empty() == string@);
            break;
        }
        let c = chars[at];
        let ghost before = string@;
        let ghost rest = string_tail(chars@, del, at + 1, false).0;
        at += 1;
        if c == del && !is_escaped {
            assert(string@ + Seq::<char>::empty() == string@);
            break;
        }
        if c == '\\' && !is_escaped {
            is_escaped = true;
            continue;
        }
        string.push(c);
        is_escaped = false;
        assert(before + (seq![c] + rest) == before.push(c) + rest);
    }
    *col = at as u32;
    Token::Str(string, Col(start))
}

/// Tokenizes `chars`, given for each character whether it is alphanumeric.
pub fn tokenize_classified(chars: &Vec<char>, alnum: &Vec<bool>) -> (tokens: Vec<Token>)
    requires
        chars.len() == alnum.len(),
        chars.len() <= u32::MAX,
    ensures
        models(tokens@) == tokens_of(chars@, alnum@),
{
    let mut tokens: Vec<Token> = Vec::new();
    let mut col: u32 = 0;
    let n: usize = chars.len();
    assert(models(tokens@) == Seq::<TokenModel>::empty());
    while (col as usize) < n
        invariant
            n == chars.len(),
            n == alnum.len(),
            n <= u32::MAX,
            col <= n,
            models(tokens@) + tokens_from(chars@, alnum@, col as int) == tokens_of(
                chars@,
                alnum@,
            ),
        decreases n - col,
    {
        let c = chars[col as usize];
        let ghost before = models(tokens@);
        let ghost here = token_at(chars@, alnum@, col as int);
        let ghost rest = tokens_from(chars@, alnum@, here.1);
        if c == ' ' {
            col += 1;
        } else if c == '=' {
            tokens.push(Token::Symbol(Sym::EQUAL, Col(col)));
            col += 1;
        } else if c == '|' {
            tokens.push(Token::Symbol(Sym::PIPE, Col(col)));
            col += 1;
        } else if c == '"' {
            let tok = build_string(chars, &mut col, '"');
            tokens.push(tok);
        } else if c == '\'' {
            let tok = build_string(chars, &mut col, '\'');
            tokens.push(tok);
        } else {
            let tok = make_word(chars, alnum, &mut col);
            tokens.push(tok);
        }
        proof {
            assert(col == here.1);
            match here.0 {
                Some(t) => {
                    assert(models(tokens@) == before.push(t));
                    assert(before + (seq![t] + rest) == before.push(t) + rest);
                },
                None => {
                    assert(models(tokens@) == before);
                },
            }
        }
    }
    assert(models(tokens@) + Seq::<TokenModel>::empty() == models(tokens@));
    tokens
}

/// For each character of `chars`, whether the standard library counts it as
/// alphanumeric.
pub fn classify(chars: &Vec<char>) -> (alnum: Vec<bool>)
    ensures
        alnum@ == classes(chars@),
{
    let mut alnum: Vec<bool> = Vec::new();
    let mut at: usize = 0;
    while at < chars.len()
        invariant
            at <= chars.len(),
            alnum@ == classes(chars@.take(at as int)),
        decreases chars.len() - at,
    {
        alnum.push(alphanumeric(chars[at]));
        at += 1;
        assert(alnum@ == classes(chars@.take(at as int)));
    }
    assert(chars@.take(at as int) == chars@);
    alnum
}

impl Token {
    /// Splits `line` into tokens, left to right. The only line that is
    /// refused is one too long for its columns to be counted.
    pub fn tokenize(line: &str) -> (result: Result<Vec<Token>, CmdParsingError>)
        ensures
            match result {
                Ok(tokens) => line@.len() <= u32::MAX && models(tokens@) == tokens_of(
                    line@,
                    classes(line@),
                ),
                Err(error) => line@.len() > u32::MAX && error == CmdParsingError::LineTooLong,
            },
    {
        let chars = chars_of(line);
        if chars.len() > u32::MAX as usize {
            return Err(CmdParsingError::LineTooLong);
        }
        let alnum = classify(&chars);
        Ok(tokenize_classified(&chars, &alnum))
    }
}

} // verus!
