//! Tokens: the lexical units of an expression.

use vstd::prelude::*;

verus! {

/// One of the four binary operators.
#[derive(Clone, Copy, Debug, PartialEq, Eq, Structural)]
pub enum Operator {
    Add,
    Subtract,
    Multiply,
    Divide,
}

/// A lexical unit of an expression.
///
/// A number keeps the characters it was written with; `-` is a plain operator
/// whether it stands for subtraction or for negation.
#[derive(Clone, Debug, PartialEq, Eq)]
pub enum Token {
    Number(Vec<char>),
    Operator(Operator),
    LeftParen,
    RightParen,
}

/// The mathematical value of a [`Token`].
pub enum SpecToken {
    Number(Seq<char>),
    Operator(Operator),
    LeftParen,
    RightParen,
}

impl View for Token {
    type V = SpecToken;

    open spec fn view(&self) -> SpecToken {
        match *self {
            Token::Number(text) => SpecToken::Number(text@),
            Token::Operator(op) => SpecToken::Operator(op),
            Token::LeftParen => SpecToken::LeftParen,
            Token::RightParen => SpecToken::RightParen,
        }
    }
}

impl DeepView for Token {
    type V = SpecToken;

    open spec fn deep_view(&self) -> SpecToken {
        self@
    }
}

/// Whether `c` is one of the ten decimal digits.
pub open spec fn is_digit(c: char) -> bool {
    '0' <= c <= '9'
}

/// Whether `c` can stand in a number: a decimal digit or the decimal point.
pub open spec fn is_number_char(c: char) -> bool {
    is_digit(c) || c == '.'
}

} // verus!
