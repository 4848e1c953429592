//! A verified front end and back end for a miniature C-like language.
//!
//! The pipeline is: a token stream (produced by [`lexer::lex`]) is parsed by
//! [`parser::parse`] into a [`parser::Program`] tree, which
//! [`code_generator::generate_code`] lowers to textual assembly for a
//! single-accumulator target. The [`machine`] module gives the emitted
//! instructions a semantics, so that properties of the generated code can be
//! stated and proved.

pub mod code_generator;
pub mod laws;
pub mod lexer;
pub mod machine;
pub mod parser;
pub mod tokens;

pub use tokens::Token;
