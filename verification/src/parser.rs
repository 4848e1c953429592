//! Recursive-descent parser for the expression grammar:
//!
//! ```text
//! program    := "int" IDENTIFIER "(" ")" "{" statement "}" END
//! statement  := "return" expression ";"
//! expression := term (("+" | "-") term)*
//! term       := factor (("*" | "/") factor)*
//! factor     := "(" expression ")" | ("-" | "~" | "!") factor | NUMBER
//! ```
//!
//! The two tiers `expression` / `term` give `*` and `/` higher precedence
//! than `+` and `-`; both tiers fold left-associatively. The meaning of the
//! grammar is written down once, as the spec functions `spec_parse_*`, and
//! every executable parsing function is proved to return exactly what its
//! spec function says, for every token stream.

use crate::tokens::Token;
use vstd::prelude::*;
use vstd::string::StrSliceExecFns;

verus! {

// ===== Abstract syntax tree =====

/// A whole program: exactly one function.
#[derive(Debug, PartialEq, Eq)]
pub struct Program(pub Function);

/// A function: its name and its single body statement.
#[derive(Debug, PartialEq, Eq)]
pub struct Function(pub String, pub Statement);

#[derive(Debug, PartialEq, Eq)]
pub enum Statement {
    Return(Expression),
}

#[derive(Debug, PartialEq, Eq)]
pub enum Expression {
    Constant(i32),
    UnaryOpExpression(UnaryOperation, Box<Expression>),
    BinaryOpExpression(BinaryOperation, Box<Expression>, Box<Expression>),
}

#[derive(Debug, PartialEq, Eq, Clone, Copy)]
pub enum UnaryOperation {
    Negation,
    BitwiseNot,
    LogicalNot,
}

#[derive(Debug, PartialEq, Eq, Clone, Copy)]
pub enum BinaryOperation {
    Add,
    Subtract,
    Multiply,
    Divide,
}

// ===== Errors =====

/// The grammar construct the parser was looking for when it failed.
#[derive(Debug, PartialEq, Eq, Clone, Copy)]
pub enum Expected {
    KeywordInt,
    Identifier,
    OpenParenthesis,
    CloseParenthesis,
    OpenCurlyBrace,
    CloseCurlyBrace,
    KeywordReturn,
    Semicolon,
    Factor,
    EndOfStream,
}

#[derive(Debug, PartialEq, Eq)]
pub enum ParseError {
    /// The stream does not match the grammar: what was expected, and the
    /// offending token (`None` when the stream ended prematurely).
    SyntaxError(Expected, Option<Token>),
    /// A numeric literal's text does not denote a value of the target
    /// integer width (32-bit signed).
    NumberFormatError(String),
    /// A token follows the end-of-stream marker of a complete program.
    TrailingInputError(Token),
}

// ===== Numeric literals =====

pub open spec fn is_digit(c: char) -> bool {
    48 <= c as u32 <= 57
}

pub open spec fn digit_value(c: char) -> int {
    c as u32 - 48
}

pub open spec fn all_digits(s: Seq<char>) -> bool {
    forall|i: int| 0 <= i < s.len() ==> is_digit(#[trigger] s[i])
}

/// The non-negative integer that a run of decimal digits denotes.
pub open spec fn digits_value(s: Seq<char>) -> int
    decreases s.len(),
{
    if s.len() == 0 {
        0
    } else {
        digits_value(s.drop_last()) * 10 + digit_value(s.last())
    }
}

/// A numeric literal is accepted iff it is a non-empty run of decimal
/// digits whose value fits the target integer width.
pub open spec fn valid_literal(s: Seq<char>) -> bool {
    s.len() > 0 && all_digits(s) && digits_value(s) <= i32::MAX
}

pub proof fn lemma_digits_value_nonneg(s: Seq<char>)
    requires
        all_digits(s),
    ensures
        digits_value(s) >= 0,
    decreases s.len(),
{
    if s.len() > 0 {
        assert(all_digits(s.drop_last()));
        lemma_digits_value_nonneg(s.drop_last());
    }
}

/// Appending more digits can only grow the denoted value.
pub proof fn lemma_digits_value_monotonic(s: Seq<char>, j: int)
    requires
        all_digits(s),
        0 <= j <= s.len(),
    ensures
        digits_value(s.take(j)) <= digits_value(s),
    decreases s.len(),
{
    if j == s.len() {
        assert(s.take(j) =~= s);
    } else {
        let head = s.drop_last();
        assert(all_digits(head));
        assert(s.take(j) =~= head.take(j));
        lemma_digits_value_monotonic(head, j);
        lemma_digits_value_nonneg(head);
    }
}

// ===== The grammar, as spec functions =====
//
// Each `spec_parse_*` function consumes a prefix of the given token
// sequence and returns the node parsed together with the unconsumed
// suffix, or the error that the grammar prescribes. The `rest.len() <
// toks.len()` guards only serve the termination measure: a factor always
// consumes at least one token (`lemma_parse_factor_progress`), so the
// stopping branches they introduce are never taken.

/// factor := "(" expression ")" | ("-" | "~" | "!") factor | NUMBER
pub open spec fn spec_parse_factor(toks: Seq<Token>) -> Result<(Expression, Seq<Token>), ParseError>
    decreases toks.len(), 1int,
{
    if toks.len() == 0 {
        Err(ParseError::SyntaxError(Expected::Factor, None))
    } else {
        match toks[0] {
            Token::OpenParenthesis => match spec_parse_expression(toks.skip(1)) {
                Ok((e, rest)) => if rest.len() > 0 && rest[0] is CloseParenthesis {
                    Ok((e, rest.skip(1)))
                } else if rest.len() == 0 {
                    Err(ParseError::SyntaxError(Expected::CloseParenthesis, None))
                } else {
                    Err(ParseError::SyntaxError(Expected::CloseParenthesis, Some(rest[0])))
                },
                Err(e) => Err(e),
            },
            Token::Minus => match spec_parse_factor(toks.skip(1)) {
                Ok((e, rest)) => Ok(
                    (Expression::UnaryOpExpression(UnaryOperation::Negation, Box::new(e)), rest),
                ),
                Err(e) => Err(e),
            },
            Token::Tilde => match spec_parse_factor(toks.skip(1)) {
                Ok((e, rest)) => Ok(
                    (Expression::UnaryOpExpression(UnaryOperation::BitwiseNot, Box::new(e)), rest),
                ),
                Err(e) => Err(e),
            },
            Token::ExclamationPoint => match spec_parse_factor(toks.skip(1)) {
                Ok((e, rest)) => Ok(
                    (Expression::UnaryOpExpression(UnaryOperation::LogicalNot, Box::new(e)), rest),
                ),
                Err(e) => Err(e),
            },
            Token::NumericConstant(text) => if valid_literal(text@) {
                Ok((Expression::Constant(digits_value(text@) as i32), toks.skip(1)))
            } else {
                Err(ParseError::NumberFormatError(text))
            },
            _ => Err(ParseError::SyntaxError(Expected::Factor, Some(toks[0]))),
        }
    }
}

/// The `(("*" | "/") factor)*` tail of a term, folded left-associatively
/// onto `left`.
pub open spec fn spec_parse_term_chain(left: Expression, toks: Seq<Token>) -> Result<
    (Expression, Seq<Token>),
    ParseError,
>
    decreases toks.len(), 1int,
{
    if toks.len() > 0 && (toks[0] is Asterisk || toks[0] is ForwardSlash) {
        let op = if toks[0] is Asterisk {
            BinaryOperation::Multiply
        } else {
            BinaryOperation::Divide
        };
        match spec_parse_factor(toks.skip(1)) {
            Ok((f, rest)) => {
                let folded = Expression::BinaryOpExpression(op, Box::new(left), Box::new(f));
                if rest.len() < toks.len() {
                    spec_parse_term_chain(folded, rest)
                } else {
                    Ok((folded, rest))
                }
            },
            Err(e) => Err(e),
        }
    } else {
        Ok((left, toks))
    }
}

/// term := factor (("*" | "/") factor)*
pub open spec fn spec_parse_term(toks: Seq<Token>) -> Result<(Expression, Seq<Token>), ParseError>
    decreases toks.len(), 2int,
{
    match spec_parse_factor(toks) {
        Ok((f, rest)) => if rest.len() < toks.len() {
            spec_parse_term_chain(f, rest)
        } else {
            Ok((f, rest))
        },
        Err(e) => Err(e),
    }
}

/// The `(("+" | "-") term)*` tail of an expression, folded
/// left-associatively onto `left`.
pub open spec fn spec_parse_expression_chain(left: Expression, toks: Seq<Token>) -> Result<
    (Expression, Seq<Token>),
    ParseError,
>
    decreases toks.len(), 3int,
{
    if toks.len() > 0 && (toks[0] is Plus || toks[0] is Minus) {
        let op = if toks[0] is Plus {
            BinaryOperation::Add
        } else {
            BinaryOperation::Subtract
        };
        match spec_parse_term(toks.skip(1)) {
            Ok((t, rest)) => {
                let folded = Expression::BinaryOpExpression(op, Box::new(left), Box::new(t));
                if rest.len() < toks.len() {
                    spec_parse_expression_chain(folded, rest)
                } else {
                    Ok((folded, rest))
                }
            },
            Err(e) => Err(e),
        }
    } else {
        Ok((left, toks))
    }
}

/// expression := term (("+" | "-") term)*
pub open spec fn spec_parse_expression(toks: Seq<Token>) -> Result<
    (Expression, Seq<Token>),
    ParseError,
>
    decreases toks.len(), 4int,
{
    match spec_parse_term(toks) {
        Ok((t, rest)) => if rest.len() < toks.len() {
            spec_parse_expression_chain(t, rest)
        } else {
            Ok((t, rest))
        },
        Err(e) => Err(e),
    }
}

/// statement := "return" expression ";"
pub open spec fn spec_parse_statement(toks: Seq<Token>) -> Result<
    (Statement, Seq<Token>),
    ParseError,
> {
    if toks.len() == 0 {
        Err(ParseError::SyntaxError(Expected::KeywordReturn, None))
    } else if !(toks[0] is KeywordReturn) {
        Err(ParseError::SyntaxError(Expected::KeywordReturn, Some(toks[0])))
    } else {
        match spec_parse_expression(toks.skip(1)) {
            Ok((e, rest)) => if rest.len() > 0 && rest[0] is Semicolon {
                Ok((Statement::Return(e), rest.skip(1)))
            } else if rest.len() == 0 {
                Err(ParseError::SyntaxError(Expected::Semicolon, None))
            } else {
                Err(ParseError::SyntaxError(Expected::Semicolon, Some(rest[0])))
            },
            Err(e) => Err(e),
        }
    }
}

/// function := "int" IDENTIFIER "(" ")" "{" statement "}"
pub open spec fn spec_parse_function(toks: Seq<Token>) -> Result<
    (Function, Seq<Token>),
    ParseError,
> {
    if toks.len() == 0 {
        Err(ParseError::SyntaxError(Expected::KeywordInt, None))
    } else if !(toks[0] is KeywordInt) {
        Err(ParseError::SyntaxError(Expected::KeywordInt, Some(toks[0])))
    } else if toks.len() == 1 {
        Err(ParseError::SyntaxError(Expected::Identifier, None))
    } else {
        match toks[1] {
            Token::Identifier(name) => if toks.len() == 2 {
                Err(ParseError::SyntaxError(Expected::OpenParenthesis, None))
            } else if !(toks[2] is OpenParenthesis) {
                Err(ParseError::SyntaxError(Expected::OpenParenthesis, Some(toks[2])))
            } else if toks.len() == 3 {
                Err(ParseError::SyntaxError(Expected::CloseParenthesis, None))
            } else if !(toks[3] is CloseParenthesis) {
                Err(ParseError::SyntaxError(Expected::CloseParenthesis, Some(toks[3])))
            } else if toks.len() == 4 {
                Err(ParseError::SyntaxError(Expected::OpenCurlyBrace, None))
            } else if !(toks[4] is OpenCurlyBrace) {
                Err(ParseError::SyntaxError(Expected::OpenCurlyBrace, Some(toks[4])))
            } else {
                match spec_parse_statement(toks.skip(5)) {
                    Ok((s, rest)) => if rest.len() > 0 && rest[0] is CloseCurlyBrace {
                        Ok((Function(name, s), rest.skip(1)))
                    } else if rest.len() == 0 {
                        Err(ParseError::SyntaxError(Expected::CloseCurlyBrace, None))
                    } else {
                        Err(ParseError::SyntaxError(Expected::CloseCurlyBrace, Some(rest[0])))
                    },
                    Err(e) => Err(e),
                }
            },
            _ => Err(ParseError::SyntaxError(Expected::Identifier, Some(toks[1]))),
        }
    }
}

/// program := function END, with nothing after the end marker.
pub open spec fn spec_parse_program(toks: Seq<Token>) -> Result<Program, ParseError> {
    match spec_parse_function(toks) {
        Ok((f, rest)) => if rest.len() == 0 {
            Err(ParseError::SyntaxError(Expected::EndOfStream, None))
        } else if !(rest[0] is EOF) {
            Err(ParseError::SyntaxError(Expected::EndOfStream, Some(rest[0])))
        } else if rest.len() > 1 {
            Err(ParseError::TrailingInputError(rest[1]))
        } else {
            Ok(Program(f))
        },
        Err(e) => Err(e),
    }
}

// ===== Every grammar production consumes what it matches =====

/// `rest` is what remains of `toks` after consuming a prefix.
pub open spec fn suffix_of(rest: Seq<Token>, toks: Seq<Token>) -> bool {
    rest.len() <= toks.len() && rest == toks.skip(toks.len() - rest.len())
}

proof fn lemma_skip_suffix(toks: Seq<Token>, k: int)
    requires
        0 <= k <= toks.len(),
    ensures
        suffix_of(toks.skip(k), toks),
{
    assert(toks.skip(toks.len() - toks.skip(k).len()) =~= toks.skip(k));
}

proof fn lemma_suffix_trans(a: Seq<Token>, b: Seq<Token>, c: Seq<Token>)
    requires
        suffix_of(a, b),
        suffix_of(b, c),
    ensures
        suffix_of(a, c),
{
    assert(c.skip(c.len() - a.len()) =~= b.skip(b.len() - a.len()));
}

pub proof fn lemma_parse_factor_progress(toks: Seq<Token>)
    ensures
        spec_parse_factor(toks) matches Ok((e, rest)) ==> rest.len() < toks.len() && suffix_of(
            rest,
            toks,
        ),
    decreases toks.len(), 1int,
{
    if toks.len() > 0 {
        lemma_skip_suffix(toks, 1);
        match toks[0] {
            Token::OpenParenthesis => {
                lemma_parse_expression_progress(toks.skip(1));
                match spec_parse_expression(toks.skip(1)) {
                    Ok((e, rest0)) => {
                        lemma_suffix_trans(rest0, toks.skip(1), toks);
                        if rest0.len() > 0 && rest0[0] is CloseParenthesis {
                            lemma_skip_suffix(rest0, 1);
                            lemma_suffix_trans(rest0.skip(1), rest0, toks);
                        }
                    },
                    _ => {},
                }
            },
            Token::Minus => {
                lemma_parse_factor_progress(toks.skip(1));
                match spec_parse_factor(toks.skip(1)) {
                    Ok((e, rest)) => {
                        lemma_suffix_trans(rest, toks.skip(1), toks);
                    },
                    _ => {},
                }
            },
            Token::Tilde => {
                lemma_parse_factor_progress(toks.skip(1));
                match spec_parse_factor(toks.skip(1)) {
                    Ok((e, rest)) => {
                        lemma_suffix_trans(rest, toks.skip(1), toks);
                    },
                    _ => {},
                }
            },
            Token::ExclamationPoint => {
                lemma_parse_factor_progress(toks.skip(1));
                match spec_parse_factor(toks.skip(1)) {
                    Ok((e, rest)) => {
                        lemma_suffix_trans(rest, toks.skip(1), toks);
                    },
                    _ => {},
                }
            },
            _ => {},
        }
    }
}

pub proof fn lemma_parse_term_chain_progress(left: Expression, toks: Seq<Token>)
    ensures
        spec_parse_term_chain(left, toks) matches Ok((e, rest)) ==> rest.len() <= toks.len()
            && suffix_of(rest, toks),
    decreases toks.len(), 1int,
{
    if toks.len() > 0 && (toks[0] is Asterisk || toks[0] is ForwardSlash) {
        let op = if toks[0] is Asterisk {
            BinaryOperation::Multiply
        } else {
            BinaryOperation::Divide
        };
        lemma_skip_suffix(toks, 1);
        lemma_parse_factor_progress(toks.skip(1));
        match spec_parse_factor(toks.skip(1)) {
            Ok((f, rest)) => {
                lemma_suffix_trans(rest, toks.skip(1), toks);
                let folded = Expression::BinaryOpExpression(op, Box::new(left), Box::new(f));
                if rest.len() < toks.len() {
                    lemma_parse_term_chain_progress(folded, rest);
                    match spec_parse_term_chain(folded, rest) {
                        Ok((e2, rest2)) => {
                            lemma_suffix_trans(rest2, rest, toks);
                        },
                        _ => {},
                    }
                }
            },
            _ => {},
        }
    } else {
        assert(toks.skip(toks.len() - toks.len()) =~= toks);
    }
}

pub proof fn lemma_parse_term_progress(toks: Seq<Token>)
    ensures
        spec_parse_term(toks) matches Ok((e, rest)) ==> rest.len() < toks.len() && suffix_of(
            rest,
            toks,
        ),
    decreases toks.len(), 2int,
{
    lemma_parse_factor_progress(toks);
    match spec_parse_factor(toks) {
        Ok((f, rest)) => {
            if rest.len() < toks.len() {
                lemma_parse_term_chain_progress(f, rest);
                match spec_parse_term_chain(f, rest) {
                    Ok((e2, rest2)) => {
                        lemma_suffix_trans(rest2, rest, toks);
                    },
                    _ => {},
                }
            }
        },
        _ => {},
    }
}

pub proof fn lemma_parse_expression_chain_progress(left: Expression, toks: Seq<Token>)
    ensures
        spec_parse_expression_chain(left, toks) matches Ok((e, rest)) ==> rest.len() <= toks.len()
            && suffix_of(rest, toks),
    decreases toks.len(), 3int,
{
    if toks.len() > 0 && (toks[0] is Plus || toks[0] is Minus) {
        let op = if toks[0] is Plus {
            BinaryOperation::Add
        } else {
            BinaryOperation::Subtract
        };
        lemma_skip_suffix(toks, 1);
        lemma_parse_term_progress(toks.skip(1));
        match spec_parse_term(toks.skip(1)) {
            Ok((t, rest)) => {
                lemma_suffix_trans(rest, toks.skip(1), toks);
                let folded = Expression::BinaryOpExpression(op, Box::new(left), Box::new(t));
                if rest.len() < toks.len() {
                    lemma_parse_expression_chain_progress(folded, rest);
                    match spec_parse_expression_chain(folded, rest) {
                        Ok((e2, rest2)) => {
                            lemma_suffix_trans(rest2, rest, toks);
                        },
                        _ => {},
                    }
                }
            },
            _ => {},
        }
    } else {
        assert(toks.skip(toks.len() - toks.len()) =~= toks);
    }
}

pub proof fn lemma_parse_expression_progress(toks: Seq<Token>)
    ensures
        spec_parse_expression(toks) matches Ok((e, rest)) ==> rest.len() < toks.len() && suffix_of(
            rest,
            toks,
        ),
    decreases toks.len(), 4int,
{
    lemma_parse_term_progress(toks);
    match spec_parse_term(toks) {
        Ok((t, rest)) => {
            if rest.len() < toks.len() {
                lemma_parse_expression_chain_progress(t, rest);
                match spec_parse_expression_chain(t, rest) {
                    Ok((e2, rest2)) => {
                        lemma_suffix_trans(rest2, rest, toks);
                    },
                    _ => {},
                }
            }
        },
        _ => {},
    }
}

pub proof fn lemma_parse_statement_progress(toks: Seq<Token>)
    ensures
        spec_parse_statement(toks) matches Ok((s, rest)) ==> rest.len() < toks.len() && suffix_of(
            rest,
            toks,
        ),
{
    if toks.len() > 0 && toks[0] is KeywordReturn {
        lemma_skip_suffix(toks, 1);
        lemma_parse_expression_progress(toks.skip(1));
        match spec_parse_expression(toks.skip(1)) {
            Ok((e, rest)) => {
                lemma_suffix_trans(rest, toks.skip(1), toks);
                if rest.len() > 0 && rest[0] is Semicolon {
                    lemma_skip_suffix(rest, 1);
                    lemma_suffix_trans(rest.skip(1), rest, toks);
                }
            },
            _ => {},
        }
    }
}

pub proof fn lemma_parse_function_progress(toks: Seq<Token>)
    ensures
        spec_parse_function(toks) matches Ok((f, rest)) ==> rest.len() < toks.len() && suffix_of(
            rest,
            toks,
        ),
{
    if toks.len() > 4 && toks[0] is KeywordInt && toks[1] is Identifier && toks[2]
        is OpenParenthesis && toks[3] is CloseParenthesis && toks[4] is OpenCurlyBrace {
        lemma_skip_suffix(toks, 5);
        lemma_parse_statement_progress(toks.skip(5));
        match spec_parse_statement(toks.skip(5)) {
            Ok((s, rest)) => {
                lemma_suffix_trans(rest, toks.skip(5), toks);
                if rest.len() > 0 && rest[0] is CloseCurlyBrace {
                    lemma_skip_suffix(rest, 1);
                    lemma_suffix_trans(rest.skip(1), rest, toks);
                }
            },
            _ => {},
        }
    }
}

// ===== The executable parser =====

/// Parses the text of a numeric-literal token, yielding exactly the
/// constant that `spec_parse_factor` prescribes for it.
fn parse_constant(text: String) -> (r: Result<Expression, ParseError>)
    ensures
        r == (if valid_literal(text@) {
            Ok::<Expression, ParseError>(Expression::Constant(digits_value(text@) as i32))
        } else {
            Err::<Expression, ParseError>(ParseError::NumberFormatError(text))
        }),
{
    let n = text.as_str().unicode_len();
    if n == 0 {
        return Err(ParseError::NumberFormatError(text));
    }
    let mut i: usize = 0;
    let mut acc: i32 = 0;
    while i < n
        invariant
            i <= n,
            n == text@.len(),
            all_digits(text@.take(i as int)),
            acc == digits_value(text@.take(i as int)),
            acc >= 0,
        decreases n - i,
    {
        let c = text.as_str().get_char(i);
        let cv = c as u32;
        if cv < 48 || 57 < cv {
            proof {
                assert(!is_digit(text@[i as int]));
            }
            return Err(ParseError::NumberFormatError(text));
        }
        let d = (cv - 48) as i32;
        proof {
            assert(text@.take(i + 1).drop_last() =~= text@.take(i as int));
            assert(text@.take(i + 1).last() == text@[i as int]);
        }
        let scaled = match acc.checked_mul(10) {
            Some(v) => v,
            None => {
                proof {
                    if all_digits(text@) {
                        lemma_digits_value_nonneg(text@.take(i + 1));
                        lemma_digits_value_monotonic(text@, i + 1);
                    }
                }
                return Err(ParseError::NumberFormatError(text));
            },
        };
        acc = match scaled.checked_add(d) {
            Some(v) => v,
            None => {
                proof {
                    if all_digits(text@) {
                        lemma_digits_value_monotonic(text@, i + 1);
                    }
                }
                return Err(ParseError::NumberFormatError(text));
            },
        };
        i = i + 1;
    }
    proof {
        assert(text@.take(n as int) =~= text@);
    }
    Ok(Expression::Constant(acc))
}

fn is_term_operator(t: &Token) -> (r: bool)
    ensures
        r <==> (*t is Asterisk || *t is ForwardSlash),
{
    matches!(t, Token::Asterisk | Token::ForwardSlash)
}

fn is_expression_operator(t: &Token) -> (r: bool)
    ensures
        r <==> (*t is Plus || *t is Minus),
{
    matches!(t, Token::Plus | Token::Minus)
}

fn parse_factor(tokens: &mut Vec<Token>) -> (r: Result<Expression, ParseError>)
    ensures
        match r {
            Ok(e) => spec_parse_factor(old(tokens)@) == Ok::<(Expression, Seq<Token>), ParseError>(
                (e, final(tokens)@),
            ),
            Err(err) => spec_parse_factor(old(tokens)@) == Err::<
                (Expression, Seq<Token>),
                ParseError,
            >(err),
        },
    decreases old(tokens)@.len(), 1int,
{
    if tokens.len() == 0 {
        return Err(ParseError::SyntaxError(Expected::Factor, None));
    }
    let t = tokens.remove(0);
    proof {
        assert(tokens@ =~= old(tokens)@.skip(1));
    }
    match t {
        Token::OpenParenthesis => {
            let e = match parse_expression(tokens) {
                Ok(e) => e,
                Err(err) => return Err(err),
            };
            if tokens.len() == 0 {
                return Err(ParseError::SyntaxError(Expected::CloseParenthesis, None));
            }
            let ghost rest0 = tokens@;
            let t2 = tokens.remove(0);
            proof {
                assert(tokens@ =~= rest0.skip(1));
            }
            match t2 {
                Token::CloseParenthesis => Ok(e),
                other => Err(ParseError::SyntaxError(Expected::CloseParenthesis, Some(other))),
            }
        },
        Token::Minus => match parse_factor(tokens) {
            Ok(e) => Ok(Expression::UnaryOpExpression(UnaryOperation::Negation, Box::new(e))),
            Err(err) => Err(err),
        },
        Token::Tilde => match parse_factor(tokens) {
            Ok(e) => Ok(Expression::UnaryOpExpression(UnaryOperation::BitwiseNot, Box::new(e))),
            Err(err) => Err(err),
        },
        Token::ExclamationPoint => match parse_factor(tokens) {
            Ok(e) => Ok(Expression::UnaryOpExpression(UnaryOperation::LogicalNot, Box::new(e))),
            Err(err) => Err(err),
        },
        Token::NumericConstant(text) => parse_constant(text),
        other => Err(ParseError::SyntaxError(Expected::Factor, Some(other))),
    }
}

fn parse_term(tokens: &mut Vec<Token>) -> (r: Result<Expression, ParseError>)
    ensures
        match r {
            Ok(e) => spec_parse_term(old(tokens)@) == Ok::<(Expression, Seq<Token>), ParseError>(
                (e, final(tokens)@),
            ),
            Err(err) => spec_parse_term(old(tokens)@) == Err::<
                (Expression, Seq<Token>),
                ParseError,
            >(err),
        },
    decreases old(tokens)@.len(), 2int,
{
    let ghost orig = tokens@;
    let mut acc = match parse_factor(tokens) {
        Ok(e) => e,
        Err(err) => return Err(err),
    };
    proof {
        lemma_parse_factor_progress(orig);
    }
    while tokens.len() > 0 && is_term_operator(&tokens[0])
        invariant
            orig == old(tokens)@,
            tokens@.len() < orig.len(),
            spec_parse_term(orig) == spec_parse_term_chain(acc, tokens@),
        decreases tokens@.len(),
    {
        let ghost cur = tokens@;
        let t = tokens.remove(0);
        proof {
            assert(tokens@ =~= cur.skip(1));
        }
        let op = if matches!(&t, Token::Asterisk) {
            BinaryOperation::Multiply
        } else {
            BinaryOperation::Divide
        };
        let rhs = match parse_factor(tokens) {
            Ok(e) => e,
            Err(err) => return Err(err),
        };
        proof {
            lemma_parse_factor_progress(cur.skip(1));
        }
        acc = Expression::BinaryOpExpression(op, Box::new(acc), Box::new(rhs));
    }
    Ok(acc)
}

fn parse_expression(tokens: &mut Vec<Token>) -> (r: Result<Expression, ParseError>)
    ensures
        match r {
            Ok(e) => spec_parse_expression(old(tokens)@) == Ok::<
                (Expression, Seq<Token>),
                ParseError,
            >((e, final(tokens)@)),
            Err(err) => spec_parse_expression(old(tokens)@) == Err::<
                (Expression, Seq<Token>),
                ParseError,
            >(err),
        },
    decreases old(tokens)@.len(), 4int,
{
    let ghost orig = tokens@;
    let mut acc = match parse_term(tokens) {
        Ok(e) => e,
        Err(err) => return Err(err),
    };
    proof {
        lemma_parse_term_progress(orig);
    }
    while tokens.len() > 0 && is_expression_operator(&tokens[0])
        invariant
            orig == old(tokens)@,
            tokens@.len() < orig.len(),
            spec_parse_expression(orig) == spec_parse_expression_chain(acc, tokens@),
        decreases tokens@.len(),
    {
        let ghost cur = tokens@;
        let t = tokens.remove(0);
        proof {
            assert(tokens@ =~= cur.skip(1));
        }
        let op = if matches!(&t, Token::Plus) {
            BinaryOperation::Add
        } else {
            BinaryOperation::Subtract
        };
        let rhs = match parse_term(tokens) {
            Ok(e) => e,
            Err(err) => return Err(err),
        };
        proof {
            lemma_parse_term_progress(cur.skip(1));
        }
        acc = Expression::BinaryOpExpression(op, Box::new(acc), Box::new(rhs));
    }
    Ok(acc)
}

fn parse_statement(tokens: &mut Vec<Token>) -> (r: Result<Statement, ParseError>)
    ensures
        match r {
            Ok(s) => spec_parse_statement(old(tokens)@) == Ok::<
                (Statement, Seq<Token>),
                ParseError,
            >((s, final(tokens)@)),
            Err(err) => spec_parse_statement(old(tokens)@) == Err::<
                (Statement, Seq<Token>),
                ParseError,
            >(err),
        },
{
    if tokens.len() == 0 {
        return Err(ParseError::SyntaxError(Expected::KeywordReturn, None));
    }
    let t = tokens.remove(0);
    proof {
        assert(tokens@ =~= old(tokens)@.skip(1));
    }
    match t {
        Token::KeywordReturn => {},
        other => {
            return Err(ParseError::SyntaxError(Expected::KeywordReturn, Some(other)));
        },
    }
    let e = match parse_expression(tokens) {
        Ok(e) => e,
        Err(err) => return Err(err),
    };
    if tokens.len() == 0 {
        return Err(ParseError::SyntaxError(Expected::Semicolon, None));
    }
    let ghost rest = tokens@;
    let t2 = tokens.remove(0);
    proof {
        assert(tokens@ =~= rest.skip(1));
    }
    match t2 {
        Token::Semicolon => Ok(Statement::Return(e)),
        other => Err(ParseError::SyntaxError(Expected::Semicolon, Some(other))),
    }
}

fn parse_function(tokens: &mut Vec<Token>) -> (r: Result<Function, ParseError>)
    ensures
        match r {
            Ok(f) => spec_parse_function(old(tokens)@) == Ok::<
                (Function, Seq<Token>),
                ParseError,
            >((f, final(tokens)@)),
            Err(err) => spec_parse_function(old(tokens)@) == Err::<
                (Function, Seq<Token>),
                ParseError,
            >(err),
        },
{
    if tokens.len() == 0 {
        return Err(ParseError::SyntaxError(Expected::KeywordInt, None));
    }
    let t = tokens.remove(0);
    proof {
        assert(tokens@ =~= old(tokens)@.skip(1));
    }
    match t {
        Token::KeywordInt => {},
        other => {
            return Err(ParseError::SyntaxError(Expected::KeywordInt, Some(other)));
        },
    }
    if tokens.len() == 0 {
        return Err(ParseError::SyntaxError(Expected::Identifier, None));
    }
    let t = tokens.remove(0);
    proof {
        assert(tokens@ =~= old(tokens)@.skip(2));
    }
    let name = match t {
        Token::Identifier(s) => s,
        other => {
            return Err(ParseError::SyntaxError(Expected::Identifier, Some(other)));
        },
    };
    if tokens.len() == 0 {
        return Err(ParseError::SyntaxError(Expected::OpenParenthesis, None));
    }
    let t = tokens.remove(0);
    proof {
        assert(tokens@ =~= old(tokens)@.skip(3));
    }
    match t {
        Token::OpenParenthesis => {},
        other => {
            return Err(ParseError::SyntaxError(Expected::OpenParenthesis, Some(other)));
        },
    }
    if tokens.len() == 0 {
        return Err(ParseError::SyntaxError(Expected::CloseParenthesis, None));
    }
    let t = tokens.remove(0);
    proof {
        assert(tokens@ =~= old(tokens)@.skip(4));
    }
    match t {
        Token::CloseParenthesis => {},
        other => {
            return Err(ParseError::SyntaxError(Expected::CloseParenthesis, Some(other)));
        },
    }
    if tokens.len() == 0 {
        return Err(ParseError::SyntaxError(Expected::OpenCurlyBrace, None));
    }
    let t = tokens.remove(0);
    proof {
        assert(tokens@ =~= old(tokens)@.skip(5));
    }
    match t {
        Token::OpenCurlyBrace => {},
        other => {
            return Err(ParseError::SyntaxError(Expected::OpenCurlyBrace, Some(other)));
        },
    }
    let s = match parse_statement(tokens) {
        Ok(s) => s,
        Err(err) => return Err(err),
    };
    if tokens.len() == 0 {
        return Err(ParseError::SyntaxError(Expected::CloseCurlyBrace, None));
    }
    let ghost rest = tokens@;
    let t = tokens.remove(0);
    proof {
        assert(tokens@ =~= rest.skip(1));
    }
    match t {
        Token::CloseCurlyBrace => Ok(Function(name, s)),
        other => Err(ParseError::SyntaxError(Expected::CloseCurlyBrace, Some(other))),
    }
}

/// Parses a whole token stream into a program.
///
/// The result is exactly `spec_parse_program(tokens@)`: the unique tree the
/// grammar gives the stream, or the error the grammar prescribes —
/// `SyntaxError` on a mismatch or premature end, `NumberFormatError` on an
/// unusable numeric literal, `TrailingInputError` when tokens follow the
/// end-of-stream marker.
pub fn parse(tokens: Vec<Token>) -> (r: Result<Program, ParseError>)
    ensures
        match r {
            Ok(p) => spec_parse_program(tokens@) == Ok::<Program, ParseError>(p),
            Err(err) => spec_parse_program(tokens@) == Err::<Program, ParseError>(err),
        },
{
    let mut toks = tokens;
    let f = match parse_function(&mut toks) {
        Ok(f) => f,
        Err(err) => return Err(err),
    };
    if toks.len() == 0 {
        return Err(ParseError::SyntaxError(Expected::EndOfStream, None));
    }
    let ghost rest = toks@;
    let t = toks.remove(0);
    proof {
        assert(toks@ =~= rest.skip(1));
    }
    match t {
        Token::EOF => {},
        other => {
            return Err(ParseError::SyntaxError(Expected::EndOfStream, Some(other)));
        },
    }
    if toks.len() > 0 {
        let extra = toks.remove(0);
        return Err(ParseError::TrailingInputError(extra));
    }
    Ok(Program(f))
}

} // verus!
