use vstd::prelude::*;

verus! {

/// One lexical token, as the lexer hands them to the parser.
///
/// `Identifier` and `NumericConstant` carry the matched text; `EOF` is the
/// explicit end-of-stream marker that terminates every well-formed stream.
#[derive(Debug, PartialEq, Eq)]
pub enum Token {
    KeywordInt,
    KeywordReturn,
    Identifier(String),
    NumericConstant(String),
    OpenParenthesis,
    CloseParenthesis,
    OpenCurlyBrace,
    CloseCurlyBrace,
    Semicolon,
    Minus,
    Tilde,
    ExclamationPoint,
    Plus,
    Asterisk,
    ForwardSlash,
    EOF,
}

/// The mathematical shape of a token: like `Token`, but with the carried
/// text abstracted to a sequence of characters. The lexer's specification
/// is stated over sequences of lexemes.
pub enum Lexeme {
    KeywordInt,
    KeywordReturn,
    Identifier(Seq<char>),
    NumericConstant(Seq<char>),
    OpenParenthesis,
    CloseParenthesis,
    OpenCurlyBrace,
    CloseCurlyBrace,
    Semicolon,
    Minus,
    Tilde,
    ExclamationPoint,
    Plus,
    Asterisk,
    ForwardSlash,
    EOF,
}

impl View for Token {
    type V = Lexeme;

    open spec fn view(&self) -> Lexeme {
        match self {
            Token::KeywordInt => Lexeme::KeywordInt,
            Token::KeywordReturn => Lexeme::KeywordReturn,
            Token::Identifier(s) => Lexeme::Identifier(s@),
            Token::NumericConstant(s) => Lexeme::NumericConstant(s@),
            Token::OpenParenthesis => Lexeme::OpenParenthesis,
            Token::CloseParenthesis => Lexeme::CloseParenthesis,
            Token::OpenCurlyBrace => Lexeme::OpenCurlyBrace,
            Token::CloseCurlyBrace => Lexeme::CloseCurlyBrace,
            Token::Semicolon => Lexeme::Semicolon,
            Token::Minus => Lexeme::Minus,
            Token::Tilde => Lexeme::Tilde,
            Token::ExclamationPoint => Lexeme::ExclamationPoint,
            Token::Plus => Lexeme::Plus,
            Token::Asterisk => Lexeme::Asterisk,
            Token::ForwardSlash => Lexeme::ForwardSlash,
            Token::EOF => Lexeme::EOF,
        }
    }
}

} // verus!
