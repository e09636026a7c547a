//! The errors that lexing can end in.

use vstd::prelude::*;

verus! {

/// A number that is not written as the grammar asks. Only the first of
/// these can come from a lexer of the canonical profile; the others are what
/// the strict profile refuses on top of it.
#[derive(Debug, PartialEq, Eq, Copy, Clone, Structural)]
pub enum NumberLexingError {
    /// A decimal point was not followed at once by a digit.
    ExpectedDigitAfterPoint,
    /// Strict profile: a decimal point came after digits other than a
    /// single zero.
    NonZeroIntegerBeforePoint,
    /// Strict profile: a decimal point came where a number begins.
    MissingIntegerBeforePoint,
    /// Strict profile: a digit came after a leading zero.
    ExpectedPointAfterZero,
}

/// An expression that is not built as the grammar asks.
///
/// A character that cannot come where it stands is always reported as
/// `UnexpectedCharacter`, whether a number or an operator was owed there, and
/// so is a digit that follows the spaces after a number.
#[derive(Debug, PartialEq, Eq, Copy, Clone, Structural)]
pub enum ExpressionLexingError {
    /// The character cannot come where it stands.
    UnexpectedCharacter(char),
    /// The input ended where a number was still owed.
    UnexpectedEOI,
}

/// Why an input was rejected.
#[derive(Debug, PartialEq, Eq, Copy, Clone, Structural)]
pub enum LexingError {
    IncorrectNumber(NumberLexingError),
    IncorrectExpression(ExpressionLexingError),
}

} // verus!
