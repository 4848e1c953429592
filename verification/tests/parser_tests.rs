use minicc::parser::{
    parse, BinaryOperation, Expected, Expression, ParseError, Program, Statement, UnaryOperation,
};
use minicc::tokens::Token;

/// Wraps an expression's tokens in `int main() { return EXPR; }`.
fn program_tokens(expression_tokens: Vec<Token>) -> Vec<Token> {
    let mut toks = vec![
        Token::KeywordInt,
        Token::Identifier("main".to_string()),
        Token::OpenParenthesis,
        Token::CloseParenthesis,
        Token::OpenCurlyBrace,
        Token::KeywordReturn,
    ];
    toks.extend(expression_tokens);
    toks.push(Token::Semicolon);
    toks.push(Token::CloseCurlyBrace);
    toks.push(Token::EOF);
    toks
}

fn body_expression(p: Program) -> Expression {
    let Program(f) = p;
    let Statement::Return(e) = f.1;
    e
}

fn num(text: &str) -> Token {
    Token::NumericConstant(text.to_string())
}

#[test]
fn test_parse_minimal_program() {
    let toks = program_tokens(vec![num("2")]);
    let p = parse(toks).unwrap();
    let Program(f) = p;
    assert_eq!(f.0, "main");
    assert_eq!(f.1, Statement::Return(Expression::Constant(2)));
}

#[test]
fn test_precedence_multiplication_binds_tighter() {
    // 1 + 2 * 3 must parse as Add(1, Multiply(2, 3))
    let toks = program_tokens(vec![
        num("1"),
        Token::Plus,
        num("2"),
        Token::Asterisk,
        num("3"),
    ]);
    let e = body_expression(parse(toks).unwrap());
    let expected = Expression::BinaryOpExpression(
        BinaryOperation::Add,
        Box::new(Expression::Constant(1)),
        Box::new(Expression::BinaryOpExpression(
            BinaryOperation::Multiply,
            Box::new(Expression::Constant(2)),
            Box::new(Expression::Constant(3)),
        )),
    );
    assert_eq!(e, expected);
}

#[test]
fn test_subtraction_is_left_associative() {
    // 8 - 4 - 2 must parse as Subtract(Subtract(8, 4), 2)
    let toks = program_tokens(vec![
        num("8"),
        Token::Minus,
        num("4"),
        Token::Minus,
        num("2"),
    ]);
    let e = body_expression(parse(toks).unwrap());
    let expected = Expression::BinaryOpExpression(
        BinaryOperation::Subtract,
        Box::new(Expression::BinaryOpExpression(
            BinaryOperation::Subtract,
            Box::new(Expression::Constant(8)),
            Box::new(Expression::Constant(4)),
        )),
        Box::new(Expression::Constant(2)),
    );
    assert_eq!(e, expected);
}

#[test]
fn test_unary_operators_chain_with_negation_innermost() {
    // !~-5 must parse as LogicalNot(BitwiseNot(Negation(5)))
    let toks = program_tokens(vec![
        Token::ExclamationPoint,
        Token::Tilde,
        Token::Minus,
        num("5"),
    ]);
    let e = body_expression(parse(toks).unwrap());
    let expected = Expression::UnaryOpExpression(
        UnaryOperation::LogicalNot,
        Box::new(Expression::UnaryOpExpression(
            UnaryOperation::BitwiseNot,
            Box::new(Expression::UnaryOpExpression(
                UnaryOperation::Negation,
                Box::new(Expression::Constant(5)),
            )),
        )),
    );
    assert_eq!(e, expected);
}

#[test]
fn test_parentheses_override_precedence() {
    // (1 + 2) * 3 must parse as Multiply(Add(1, 2), 3)
    let toks = program_tokens(vec![
        Token::OpenParenthesis,
        num("1"),
        Token::Plus,
        num("2"),
        Token::CloseParenthesis,
        Token::Asterisk,
        num("3"),
    ]);
    let e = body_expression(parse(toks).unwrap());
    let expected = Expression::BinaryOpExpression(
        BinaryOperation::Multiply,
        Box::new(Expression::BinaryOpExpression(
            BinaryOperation::Add,
            Box::new(Expression::Constant(1)),
            Box::new(Expression::Constant(2)),
        )),
        Box::new(Expression::Constant(3)),
    );
    assert_eq!(e, expected);
}

#[test]
fn test_empty_stream_is_a_syntax_error() {
    let r = parse(vec![]);
    assert_eq!(
        r,
        Err(ParseError::SyntaxError(Expected::KeywordInt, None))
    );
}

#[test]
fn test_stream_missing_end_marker_is_a_syntax_error() {
    let mut toks = program_tokens(vec![num("2")]);
    toks.pop(); // drop the end-of-stream marker
    let r = parse(toks);
    assert_eq!(r, Err(ParseError::SyntaxError(Expected::EndOfStream, None)));
}

#[test]
fn test_prematurely_ended_stream_is_a_syntax_error() {
    let r = parse(vec![Token::KeywordInt]);
    assert_eq!(r, Err(ParseError::SyntaxError(Expected::Identifier, None)));
}

#[test]
fn test_unexpected_token_reports_expected_and_found() {
    let r = parse(vec![Token::Plus]);
    assert_eq!(
        r,
        Err(ParseError::SyntaxError(
            Expected::KeywordInt,
            Some(Token::Plus)
        ))
    );
}

#[test]
fn test_trailing_input_after_complete_program() {
    let mut toks = program_tokens(vec![num("2")]);
    toks.push(Token::Semicolon);
    let r = parse(toks);
    assert_eq!(r, Err(ParseError::TrailingInputError(Token::Semicolon)));
}

#[test]
fn test_fractional_literal_is_a_number_format_error() {
    let toks = program_tokens(vec![num("1234.5678")]);
    let r = parse(toks);
    assert_eq!(
        r,
        Err(ParseError::NumberFormatError("1234.5678".to_string()))
    );
}

#[test]
fn test_overflowing_literal_is_a_number_format_error() {
    // one past the largest 32-bit signed value
    let toks = program_tokens(vec![num("2147483648")]);
    let r = parse(toks);
    assert_eq!(
        r,
        Err(ParseError::NumberFormatError("2147483648".to_string()))
    );
}

#[test]
fn test_largest_literal_parses() {
    let toks = program_tokens(vec![num("2147483647")]);
    let e = body_expression(parse(toks).unwrap());
    assert_eq!(e, Expression::Constant(2147483647));
}

#[test]
fn test_literal_with_leading_zeros_parses() {
    let toks = program_tokens(vec![num("0042")]);
    let e = body_expression(parse(toks).unwrap());
    assert_eq!(e, Expression::Constant(42));
}

#[test]
fn test_missing_close_parenthesis_is_a_syntax_error() {
    let toks = program_tokens(vec![Token::OpenParenthesis, num("2")]);
    let r = parse(toks);
    assert_eq!(
        r,
        Err(ParseError::SyntaxError(
            Expected::CloseParenthesis,
            Some(Token::Semicolon)
        ))
    );
}
