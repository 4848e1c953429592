//! The lexer: turns source text into the token stream the parser consumes.
//!
//! The rules are ordered, and at each position the first that matches wins;
//! within a rule the match is as long as possible. Blanks separate tokens
//! and are dropped. The keywords `int` and `return` are only recognised
//! with a following space; otherwise a run of identifier characters is one
//! `Identifier` token. A numeric literal is a run of digits, optionally
//! followed by a decimal point and a second run of digits (the parser, not
//! the lexer, rejects fractional literals). Everything the rules do not
//! cover fails with a [`LexError`] naming the offending position.
//!
//! The meaning of the rules is the spec function [`spec_lex`]; [`lex`] is
//! proved to return exactly what it says for every input.

use crate::parser::is_digit;
use crate::tokens::{Lexeme, Token};
use vstd::prelude::*;
use vstd::string::StrSliceExecFns;

verus! {

/// No lexical rule matches the text at this character offset.
#[derive(Debug, PartialEq, Eq, Clone, Copy)]
pub struct LexError {
    pub position: usize,
}

// ===== Character classes =====

/// The blank characters the lexer skips: the ASCII whitespace set.
pub open spec fn is_space_char(c: char) -> bool {
    c == ' ' || c == '\t' || c == '\n' || c == '\r' || c == '\u{b}' || c == '\u{c}'
}

pub open spec fn is_ident_start_char(c: char) -> bool {
    ('a' as u32 <= c as u32 && c as u32 <= 'z' as u32) || ('A' as u32 <= c as u32 && c as u32
        <= 'Z' as u32) || c == '_'
}

pub open spec fn is_ident_char(c: char) -> bool {
    is_ident_start_char(c) || is_digit(c)
}

/// Single-character tokens: punctuation and the operators.
pub open spec fn single_char_lexeme(c: char) -> Option<Lexeme> {
    if c == '(' {
        Some(Lexeme::OpenParenthesis)
    } else if c == ')' {
        Some(Lexeme::CloseParenthesis)
    } else if c == '{' {
        Some(Lexeme::OpenCurlyBrace)
    } else if c == '}' {
        Some(Lexeme::CloseCurlyBrace)
    } else if c == ';' {
        Some(Lexeme::Semicolon)
    } else if c == '-' {
        Some(Lexeme::Minus)
    } else if c == '~' {
        Some(Lexeme::Tilde)
    } else if c == '!' {
        Some(Lexeme::ExclamationPoint)
    } else if c == '+' {
        Some(Lexeme::Plus)
    } else if c == '*' {
        Some(Lexeme::Asterisk)
    } else if c == '/' {
        Some(Lexeme::ForwardSlash)
    } else {
        None
    }
}

// ===== Longest-match scans =====

/// How many identifier characters run from position `i`.
pub open spec fn ident_run(s: Seq<char>, i: int) -> int
    decreases (if 0 <= i && i <= s.len() {
        s.len() - i
    } else {
        0int
    }),
{
    if 0 <= i && i < s.len() && is_ident_char(s[i]) {
        1 + ident_run(s, i + 1)
    } else {
        0
    }
}

/// How many digits run from position `i`.
pub open spec fn digit_run(s: Seq<char>, i: int) -> int
    decreases (if 0 <= i && i <= s.len() {
        s.len() - i
    } else {
        0int
    }),
{
    if 0 <= i && i < s.len() && is_digit(s[i]) {
        1 + digit_run(s, i + 1)
    } else {
        0
    }
}

/// The length of a numeric literal at `i`: digits, then a fractional part
/// only where a digit follows the decimal point.
pub open spec fn number_run(s: Seq<char>, i: int) -> int {
    let d = digit_run(s, i);
    if i + d < s.len() && s[i + d] == '.' && i + d + 1 < s.len() && is_digit(s[i + d + 1]) {
        d + 1 + digit_run(s, i + d + 1)
    } else {
        d
    }
}

pub proof fn lemma_ident_run_bounds(s: Seq<char>, i: int)
    requires
        0 <= i <= s.len(),
    ensures
        0 <= ident_run(s, i),
        i + ident_run(s, i) <= s.len(),
    decreases s.len() - i,
{
    if i < s.len() && is_ident_char(s[i]) {
        lemma_ident_run_bounds(s, i + 1);
    }
}

pub proof fn lemma_digit_run_bounds(s: Seq<char>, i: int)
    requires
        0 <= i <= s.len(),
    ensures
        0 <= digit_run(s, i),
        i + digit_run(s, i) <= s.len(),
        i < s.len() && is_digit(s[i]) ==> 1 <= digit_run(s, i),
    decreases s.len() - i,
{
    if i < s.len() && is_digit(s[i]) {
        lemma_digit_run_bounds(s, i + 1);
    }
}

pub proof fn lemma_number_run_bounds(s: Seq<char>, i: int)
    requires
        0 <= i <= s.len(),
    ensures
        digit_run(s, i) <= number_run(s, i),
        i + number_run(s, i) <= s.len(),
{
    lemma_digit_run_bounds(s, i);
    let d = digit_run(s, i);
    if i + d < s.len() && s[i + d] == '.' && i + d + 1 < s.len() && is_digit(s[i + d + 1]) {
        lemma_digit_run_bounds(s, i + d + 1);
    }
}

// ===== Keywords =====

/// `int` followed by a space begins at `i`.
pub open spec fn keyword_int_at(s: Seq<char>, i: int) -> bool {
    i + 4 <= s.len() && s[i] == 'i' && s[i + 1] == 'n' && s[i + 2] == 't' && s[i + 3] == ' '
}

/// `return` followed by a space begins at `i`.
pub open spec fn keyword_return_at(s: Seq<char>, i: int) -> bool {
    i + 7 <= s.len() && s[i] == 'r' && s[i + 1] == 'e' && s[i + 2] == 't' && s[i + 3] == 'u' && s[i
        + 4] == 'r' && s[i + 5] == 'n' && s[i + 6] == ' '
}

// ===== The rule table, as one spec function =====

pub open spec fn prepend(t: Lexeme, rest: Result<Seq<Lexeme>, LexError>) -> Result<
    Seq<Lexeme>,
    LexError,
> {
    match rest {
        Ok(ts) => Ok(seq![t] + ts),
        Err(e) => Err(e),
    }
}

/// The tokens of `s` from position `i` on: first matching rule, longest
/// match, ending in the explicit end-of-stream marker.
pub open spec fn spec_lex(s: Seq<char>, i: int) -> Result<Seq<Lexeme>, LexError>
    decreases (if 0 <= i && i <= s.len() {
        s.len() - i
    } else {
        0int
    })
        via spec_lex_decreases
{
    if i < 0 || i >= s.len() {
        Ok(seq![Lexeme::EOF])
    } else if is_space_char(s[i]) {
        spec_lex(s, i + 1)
    } else if keyword_int_at(s, i) {
        prepend(Lexeme::KeywordInt, spec_lex(s, i + 4))
    } else if keyword_return_at(s, i) {
        prepend(Lexeme::KeywordReturn, spec_lex(s, i + 7))
    } else if is_ident_start_char(s[i]) {
        let l = 1 + ident_run(s, i + 1);
        prepend(Lexeme::Identifier(s.subrange(i, i + l)), spec_lex(s, i + l))
    } else if is_digit(s[i]) {
        let l = number_run(s, i);
        prepend(Lexeme::NumericConstant(s.subrange(i, i + l)), spec_lex(s, i + l))
    } else {
        match single_char_lexeme(s[i]) {
            Some(lexeme) => prepend(lexeme, spec_lex(s, i + 1)),
            None => Err(LexError { position: i as usize }),
        }
    }
}

#[via_fn]
proof fn spec_lex_decreases(s: Seq<char>, i: int) {
    if 0 <= i && i < s.len() {
        lemma_ident_run_bounds(s, i + 1);
        lemma_digit_run_bounds(s, i);
        lemma_number_run_bounds(s, i);
    }
}

/// The lexemes that a token sequence carries.
pub open spec fn lexemes_of(tokens: Seq<Token>) -> Seq<Lexeme> {
    tokens.map_values(|t: Token| t@)
}

// ===== The executable lexer =====

fn is_space(c: char) -> (r: bool)
    ensures
        r == is_space_char(c),
{
    c == ' ' || c == '\t' || c == '\n' || c == '\r' || c == '\u{b}' || c == '\u{c}'
}

fn is_ident_start(c: char) -> (r: bool)
    ensures
        r == is_ident_start_char(c),
{
    let v = c as u32;
    (97 <= v && v <= 122) || (65 <= v && v <= 90) || c == '_'
}

fn is_ident_continue(c: char) -> (r: bool)
    ensures
        r == is_ident_char(c),
{
    let v = c as u32;
    (97 <= v && v <= 122) || (65 <= v && v <= 90) || c == '_' || (48 <= v && v <= 57)
}

fn is_decimal_digit(c: char) -> (r: bool)
    ensures
        r == is_digit(c),
{
    let v = c as u32;
    48 <= v && v <= 57
}

fn keyword_int_here(s: &str, i: usize, n: usize) -> (r: bool)
    requires
        n == s@.len(),
        i < n,
    ensures
        r == keyword_int_at(s@, i as int),
{
    n - i >= 4 && s.get_char(i) == 'i' && s.get_char(i + 1) == 'n' && s.get_char(i + 2) == 't'
        && s.get_char(i + 3) == ' '
}

fn keyword_return_here(s: &str, i: usize, n: usize) -> (r: bool)
    requires
        n == s@.len(),
        i < n,
    ensures
        r == keyword_return_at(s@, i as int),
{
    n - i >= 7 && s.get_char(i) == 'r' && s.get_char(i + 1) == 'e' && s.get_char(i + 2) == 't'
        && s.get_char(i + 3) == 'u' && s.get_char(i + 4) == 'r' && s.get_char(i + 5) == 'n'
        && s.get_char(i + 6) == ' '
}

/// One lexing step: what the whole result looks like after a rule emits
/// `tok` at position `i` and moves on to position `j`.
proof fn lemma_lex_step(s: Seq<char>, i: int, j: int, tok: Lexeme, prefix: Seq<Lexeme>)
    requires
        spec_lex(s, i) == prepend(tok, spec_lex(s, j)),
        spec_lex(s, 0) == (match spec_lex(s, i) {
            Ok(rest) => Ok::<Seq<Lexeme>, LexError>(prefix + rest),
            Err(e) => Err::<Seq<Lexeme>, LexError>(e),
        }),
    ensures
        spec_lex(s, 0) == (match spec_lex(s, j) {
            Ok(rest) => Ok::<Seq<Lexeme>, LexError>((prefix + seq![tok]) + rest),
            Err(e) => Err::<Seq<Lexeme>, LexError>(e),
        }),
{
    match spec_lex(s, j) {
        Ok(rest) => {
            assert(prefix + (seq![tok] + rest) =~= (prefix + seq![tok]) + rest);
        },
        Err(_) => {},
    }
}

/// Splits source text into tokens, ending with the end-of-stream marker.
///
/// The result is exactly what `spec_lex` prescribes: `Ok` with the token
/// sequence whose lexemes are `spec_lex(input_str@, 0)`, or the `LexError`
/// naming the first position where no rule matches.
pub fn lex(input_str: &str) -> (r: Result<Vec<Token>, LexError>)
    ensures
        match r {
            Ok(v) => spec_lex(input_str@, 0) == Ok::<Seq<Lexeme>, LexError>(lexemes_of(v@)),
            Err(e) => spec_lex(input_str@, 0) == Err::<Seq<Lexeme>, LexError>(e),
        },
{
    let ghost s = input_str@;
    let n = input_str.unicode_len();
    let mut out: Vec<Token> = Vec::new();
    let mut i: usize = 0;
    while i < n
        invariant
            i <= n,
            n == s.len(),
            s == input_str@,
            spec_lex(s, 0) == (match spec_lex(s, i as int) {
                Ok(rest) => Ok::<Seq<Lexeme>, LexError>(lexemes_of(out@) + rest),
                Err(e) => Err::<Seq<Lexeme>, LexError>(e),
            }),
        decreases n - i,
    {
        let ghost prefix = lexemes_of(out@);
        let c = input_str.get_char(i);
        if is_space(c) {
            i = i + 1;
        } else if keyword_int_here(input_str, i, n) {
            proof {
                lemma_lex_step(s, i as int, i + 4, Lexeme::KeywordInt, prefix);
            }
            out.push(Token::KeywordInt);
            proof {
                assert(lexemes_of(out@) =~= prefix + seq![Lexeme::KeywordInt]);
            }
            i = i + 4;
        } else if keyword_return_here(input_str, i, n) {
            proof {
                lemma_lex_step(s, i as int, i + 7, Lexeme::KeywordReturn, prefix);
            }
            out.push(Token::KeywordReturn);
            proof {
                assert(lexemes_of(out@) =~= prefix + seq![Lexeme::KeywordReturn]);
            }
            i = i + 7;
        } else if is_ident_start(c) {
            let mut j = i + 1;
            while j < n && is_ident_continue(input_str.get_char(j))
                invariant
                    i < j <= n,
                    n == s.len(),
                    s == input_str@,
                    ident_run(s, i + 1) == (j - i - 1) + ident_run(s, j as int),
                decreases n - j,
            {
                j = j + 1;
            }
            proof {
                assert(ident_run(s, j as int) == 0);
                assert(1 + ident_run(s, i + 1) == j - i);
            }
            let text = input_str.substring_char(i, j).to_owned();
            let ghost lexeme = Lexeme::Identifier(s.subrange(i as int, j as int));
            proof {
                lemma_lex_step(s, i as int, j as int, lexeme, prefix);
            }
            out.push(Token::Identifier(text));
            proof {
                assert(lexemes_of(out@) =~= prefix + seq![lexeme]);
            }
            i = j;
        } else if is_decimal_digit(c) {
            let mut j = i + 1;
            while j < n && is_decimal_digit(input_str.get_char(j))
                invariant
                    i < j <= n,
                    n == s.len(),
                    s == input_str@,
                    digit_run(s, i as int) == (j - i) + digit_run(s, j as int),
                decreases n - j,
            {
                j = j + 1;
            }
            proof {
                assert(digit_run(s, j as int) == 0);
                assert(digit_run(s, i as int) == j - i);
            }
            let mut end = j;
            if j < n && input_str.get_char(j) == '.' && j + 1 < n && is_decimal_digit(
                input_str.get_char(j + 1),
            ) {
                let mut k = j + 2;
                proof {
                    lemma_digit_run_bounds(s, j + 2);
                }
                while k < n && is_decimal_digit(input_str.get_char(k))
                    invariant
                        j + 2 <= k <= n,
                        n == s.len(),
                        s == input_str@,
                        is_digit(s[j + 1]),
                        digit_run(s, j + 1) == (k - j - 1) + digit_run(s, k as int),
                    decreases n - k,
                {
                    k = k + 1;
                }
                proof {
                    assert(digit_run(s, k as int) == 0);
                    assert(digit_run(s, j + 1) == k - j - 1);
                }
                end = k;
            }
            proof {
                assert(number_run(s, i as int) == end - i);
            }
            let text = input_str.substring_char(i, end).to_owned();
            let ghost lexeme = Lexeme::NumericConstant(s.subrange(i as int, end as int));
            proof {
                lemma_lex_step(s, i as int, end as int, lexeme, prefix);
            }
            out.push(Token::NumericConstant(text));
            proof {
                assert(lexemes_of(out@) =~= prefix + seq![lexeme]);
            }
            i = end;
        } else {
            let tok: Token = if c == '(' {
                Token::OpenParenthesis
            } else if c == ')' {
                Token::CloseParenthesis
            } else if c == '{' {
                Token::OpenCurlyBrace
            } else if c == '}' {
                Token::CloseCurlyBrace
            } else if c == ';' {
                Token::Semicolon
            } else if c == '-' {
                Token::Minus
            } else if c == '~' {
                Token::Tilde
            } else if c == '!' {
                Token::ExclamationPoint
            } else if c == '+' {
                Token::Plus
            } else if c == '*' {
                Token::Asterisk
            } else if c == '/' {
                Token::ForwardSlash
            } else {
                return Err(LexError { position: i });
            };
            proof {
                lemma_lex_step(s, i as int, i + 1, tok@, prefix);
            }
            out.push(tok);
            proof {
                assert(lexemes_of(out@) =~= prefix + seq![out@.last()@]);
            }
            i = i + 1;
        }
    }
    let ghost prefix = lexemes_of(out@);
    out.push(Token::EOF);
    proof {
        assert(lexemes_of(out@) =~= prefix + seq![Lexeme::EOF]);
    }
    Ok(out)
}

} // verus!
