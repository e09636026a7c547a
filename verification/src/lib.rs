//! A lexer for simple arithmetic expressions: decimal numbers, the four
//! binary operators `+ - * /` and spaces.
//!
//! The lexer is a state machine that is fed one character at a time and
//! hands out at most one token per character. Every executable function is
//! verified against a mathematical model of the token stream.

pub mod error;
pub mod generate;
pub mod grammar;
pub mod laws;
pub mod lexer;
pub mod numeral;
pub mod outside;
pub mod token;
pub mod tokenize;

pub use error::{ExpressionLexingError, LexingError, NumberLexingError};
pub use lexer::{Lexer, LexerView, Profile, State};
pub use numeral::{is_digit, Numeral, NumeralView};
pub use token::{get_operator_kind, OperatorKind, Token, TokenView};
pub use tokenize::{tokenize, tokenize_with};
