//! Tokens and their mathematical views.

use crate::numeral::{Numeral, NumeralView};
use vstd::prelude::*;

verus! {

/// One of the four binary operators.
#[derive(Copy, Clone, PartialEq, Eq, Debug, Structural)]
pub enum OperatorKind {
    Subtract,
    Add,
    Divide,
    Multiply,
}

/// The operator that the character `c` denotes, if any.
pub open spec fn operator_of(c: char) -> Option<OperatorKind> {
    if c == '-' {
        Some(OperatorKind::Subtract)
    } else if c == '+' {
        Some(OperatorKind::Add)
    } else if c == '/' {
        Some(OperatorKind::Divide)
    } else if c == '*' {
        Some(OperatorKind::Multiply)
    } else {
        None
    }
}

/// The character that denotes the operator `kind`.
pub open spec fn operator_symbol(kind: OperatorKind) -> char {
    match kind {
        OperatorKind::Subtract => '-',
        OperatorKind::Add => '+',
        OperatorKind::Divide => '/',
        OperatorKind::Multiply => '*',
    }
}

/// The operator a character stands for, or `None` for any other character.
pub fn get_operator_kind(c: char) -> (kind: Option<OperatorKind>)
    ensures
        kind == operator_of(c),
{
    match c {
        '-' => Some(OperatorKind::Subtract),
        '+' => Some(OperatorKind::Add),
        '/' => Some(OperatorKind::Divide),
        '*' => Some(OperatorKind::Multiply),
        _ => None,
    }
}

/// One lexical unit of an expression.
#[derive(Debug, PartialEq, Eq)]
pub enum Token {
    /// One of `+ - * /`.
    Operator(OperatorKind),
    /// A decimal number.
    Number(Numeral),
    /// One space character. Runs of spaces give one token per space.
    Whitespace,
}

/// The mathematical view of a [`Token`].
pub enum TokenView {
    Operator(OperatorKind),
    Number(NumeralView),
    Whitespace,
}

impl TokenView {
    /// A number token carries a well-formed numeral.
    pub open spec fn wf(self) -> bool {
        self matches TokenView::Number(n) ==> n.wf()
    }

    /// The characters that the token is written with.
    pub open spec fn text(self) -> Seq<char> {
        match self {
            TokenView::Operator(kind) => seq![operator_symbol(kind)],
            TokenView::Number(n) => n.text(),
            TokenView::Whitespace => seq![' '],
        }
    }
}

impl View for Token {
    type V = TokenView;

    open spec fn view(&self) -> TokenView {
        match self {
            Token::Operator(kind) => TokenView::Operator(*kind),
            Token::Number(n) => TokenView::Number(n@),
            Token::Whitespace => TokenView::Whitespace,
        }
    }
}

impl Clone for Token {
    fn clone(&self) -> (r: Token)
        ensures
            r@ == self@,
    {
        match self {
            Token::Operator(kind) => Token::Operator(*kind),
            Token::Number(n) => Token::Number(n.clone()),
            Token::Whitespace => Token::Whitespace,
        }
    }
}

/// The views of a sequence of tokens.
pub open spec fn views(tokens: Seq<Token>) -> Seq<TokenView> {
    tokens.map_values(|t: Token| t@)
}

/// The text of a sequence of tokens: their texts one after the other.
pub open spec fn render(tokens: Seq<TokenView>) -> Seq<char>
    decreases tokens.len(),
{
    if tokens.len() == 0 {
        Seq::empty()
    } else {
        render(tokens.drop_last()) + tokens.last().text()
    }
}

} // verus!
