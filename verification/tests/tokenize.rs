use dsh::error::CmdParsingError;
use dsh::token::{build_string, classify, make_word, tokenize_classified, Col, Sym, Token};

fn chars(text: &str) -> Vec<char> {
    text.chars().collect()
}

fn word(text: &str, col: u32) -> Token {
    Token::Word(text.to_string(), Col(col))
}

fn string(text: &str, col: u32) -> Token {
    Token::Str(text.to_string(), Col(col))
}

#[test]
fn words_and_spaces() {
    let tokens = Token::tokenize("ls -la").unwrap();
    assert_eq!(tokens, vec![word("ls", 0), word("la", 3)]);
}

#[test]
fn the_empty_line_has_no_tokens() {
    assert_eq!(Token::tokenize("").unwrap(), vec![]);
    assert_eq!(Token::tokenize("   ").unwrap(), vec![]);
}

#[test]
fn symbols() {
    let tokens = Token::tokenize("A=1 | b").unwrap();
    assert_eq!(
        tokens,
        vec![
            word("A", 0),
            Token::Symbol(Sym::EQUAL, Col(1)),
            word("1", 2),
            Token::Symbol(Sym::PIPE, Col(4)),
            word("b", 6),
        ]
    );
}

#[test]
fn quoted_strings() {
    let tokens = Token::tokenize("echo \"a b\" 'c'").unwrap();
    assert_eq!(tokens, vec![word("echo", 0), string("a b", 5), string("c", 11)]);
}

#[test]
fn the_other_quote_is_text_inside_a_string() {
    let tokens = Token::tokenize("\"it's\"x").unwrap();
    assert_eq!(tokens, vec![string("it's", 0), word("x", 6)]);
}

#[test]
fn escapes_inside_a_string() {
    let tokens = Token::tokenize("\"a\\\"b\\\\c\" d").unwrap();
    assert_eq!(tokens, vec![string("a\"b\\c", 0), word("d", 10)]);
}

#[test]
fn an_unterminated_string_runs_to_the_end() {
    let tokens = Token::tokenize("a \"bc d").unwrap();
    assert_eq!(tokens, vec![word("a", 0), string("bc d", 2)]);
    let tokens = Token::tokenize("'").unwrap();
    assert_eq!(tokens, vec![string("", 0)]);
}

#[test]
fn a_leading_dollar_belongs_to_the_word() {
    let tokens = Token::tokenize("$HOME a$b").unwrap();
    assert_eq!(tokens, vec![word("$HOME", 0), word("a", 6), word("$b", 7)]);
}

#[test]
fn escapes_inside_a_word() {
    let tokens = Token::tokenize("a\\ b c\\").unwrap();
    assert_eq!(tokens, vec![word("a b", 0), word("c", 5)]);
}

#[test]
fn the_first_character_of_a_word_is_always_consumed() {
    let tokens = Token::tokenize("#ab \\|").unwrap();
    assert_eq!(
        tokens,
        vec![word("ab", 0), word("", 4), Token::Symbol(Sym::PIPE, Col(5))]
    );
}

#[test]
fn letters_and_digits_of_any_script_are_word_characters() {
    let tokens = Token::tokenize("été_1 ٣x").unwrap();
    assert_eq!(tokens, vec![word("été_1", 0), word("٣x", 6)]);
}

#[test]
fn columns_count_characters() {
    let tokens = Token::tokenize("é=\"ü\" z").unwrap();
    assert_eq!(
        tokens,
        vec![word("é", 0), Token::Symbol(Sym::EQUAL, Col(1)), string("ü", 2), word("z", 6)]
    );
}

#[test]
fn classification_follows_the_standard_library() {
    assert_eq!(classify(&chars("a1_ é-")), vec![true, true, false, false, true, false]);
}

#[test]
fn tokenizing_under_a_given_classification() {
    let text = chars("ab-c");
    let all = vec![true, true, true, true];
    assert_eq!(tokenize_classified(&text, &all), vec![word("ab-c", 0)]);
    let none = vec![false, false, false, false];
    assert_eq!(
        tokenize_classified(&text, &none),
        vec![word("", 0), word("", 1), word("", 2), word("", 3)]
    );
}

#[test]
fn make_word_moves_the_column_behind_the_word() {
    let text = chars("ab\\-c d");
    let alnum = classify(&text);
    let mut col: u32 = 0;
    let tok = make_word(&text, &alnum, &mut col);
    assert_eq!(tok, word("ab-c", 0));
    assert_eq!(col, 5);
}

#[test]
fn build_string_moves_the_column_behind_the_closing_quote() {
    let text = chars("x'a\\'b' y");
    let mut col: u32 = 1;
    let tok = build_string(&text, &mut col, '\'');
    assert_eq!(tok, string("a'b", 1));
    assert_eq!(col, 7);
}

#[test]
fn the_parsing_error_has_a_text() {
    assert_eq!(CmdParsingError::LineTooLong.to_string(), "LineTooLong".to_string());
}
