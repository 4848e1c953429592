use minicc::lexer::{lex, LexError};
use minicc::tokens::Token;

#[test]
fn test_if_it_runs_without_crashing() {
    let s = "int main() {\n    return 2;\n}";
    let _ = lex(s);
}

#[test]
fn test_lex_one_token_keyword_int() {
    let s = "int ";
    let expected = vec![Token::KeywordInt, Token::EOF];
    let actual = lex(s).unwrap();
    assert_eq!(expected, actual);
}

#[test]
fn test_lex_one_token_keyword_return() {
    let s = "return ";
    let expected = vec![Token::KeywordReturn, Token::EOF];
    let actual = lex(s).unwrap();
    assert_eq!(expected, actual);
}

#[test]
fn test_lex_one_token_identifier_only_letters() {
    let s = "hello";
    let expected = vec![Token::Identifier("hello".to_string()), Token::EOF];
    let actual = lex(s).unwrap();
    assert_eq!(expected, actual);
}

#[test]
fn test_lex_one_token_identifier_letters_and_numbers() {
    let s = "hello1234";
    let expected = vec![Token::Identifier("hello1234".to_string()), Token::EOF];
    let actual = lex(s).unwrap();
    assert_eq!(expected, actual);
}

#[test]
fn test_lex_one_token_numeric_constant_no_decimal() {
    let s = "1234";
    let expected = vec![Token::NumericConstant("1234".to_string()), Token::EOF];
    let actual = lex(s).unwrap();
    assert_eq!(expected, actual);
}

#[test]
fn test_lex_one_token_numeric_constant_with_decimal() {
    let s = "1234.5678";
    let expected = vec![Token::NumericConstant("1234.5678".to_string()), Token::EOF];
    let actual = lex(s).unwrap();
    assert_eq!(expected, actual);
}

#[test]
fn test_lex_punctuation_tokens() {
    let s = "(){};";
    let expected = vec![
        Token::OpenParenthesis,
        Token::CloseParenthesis,
        Token::OpenCurlyBrace,
        Token::CloseCurlyBrace,
        Token::Semicolon,
        Token::EOF,
    ];
    let actual = lex(s).unwrap();
    assert_eq!(expected, actual);
}

#[test]
fn test_works_with_valid_simple_program() {
    let s = "int main() {\n    return 2;\n}";
    let expected: Vec<Token> = vec![
        Token::KeywordInt,
        Token::Identifier("main".to_string()),
        Token::OpenParenthesis,
        Token::CloseParenthesis,
        Token::OpenCurlyBrace,
        Token::KeywordReturn,
        Token::NumericConstant("2".to_string()),
        Token::Semicolon,
        Token::CloseCurlyBrace,
        Token::EOF,
    ];
    let actual = lex(s).unwrap();
    assert_eq!(expected, actual);
}

#[test]
fn test_lex_operator_tokens() {
    let s = "- ~ ! + * /";
    let expected = vec![
        Token::Minus,
        Token::Tilde,
        Token::ExclamationPoint,
        Token::Plus,
        Token::Asterisk,
        Token::ForwardSlash,
        Token::EOF,
    ];
    let actual = lex(s).unwrap();
    assert_eq!(expected, actual);
}

#[test]
fn test_lex_empty_input_is_just_the_end_marker() {
    assert_eq!(lex("").unwrap(), vec![Token::EOF]);
}

#[test]
fn test_lex_rejects_unknown_character() {
    assert_eq!(lex("@"), Err(LexError { position: 0 }));
}

#[test]
fn test_lex_rejects_dangling_decimal_point() {
    // the fractional part of a literal needs a digit, so the dot matches no rule
    assert_eq!(lex("12."), Err(LexError { position: 2 }));
}

#[test]
fn test_lex_keyword_needs_following_space() {
    // without a trailing space, "int" is an ordinary identifier
    let actual = lex("int").unwrap();
    assert_eq!(
        actual,
        vec![Token::Identifier("int".to_string()), Token::EOF]
    );
}
