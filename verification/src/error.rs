//! The ways in which an evaluation can fail.

use vstd::prelude::*;

verus! {

/// Why an expression has no value.
#[derive(Clone, Debug, PartialEq, Eq)]
pub enum CalcError {
    /// Nothing is left of the input once its whitespace is removed.
    EmptyExpression,
    /// The input holds a character that no token can contain.
    InvalidCharacter(char),
    /// A run of digits and decimal points that is no number: to the lexer,
    /// which wants a digit and at most one decimal point, or to the
    /// arithmetic that is to read it.
    InvalidNumber(Vec<char>),
    /// An operand was expected where the tokens end.
    UnexpectedEnd,
    /// An operand was expected where a token stands that cannot begin one.
    UnexpectedToken,
    /// A `(` is not matched by a `)` behind the expression it opens.
    UnclosedParen,
    /// The right operand of a division is zero. The library's machine ends
    /// an evaluation with this error; the parser never does.
    DivisionByZero,
    /// Tokens are left behind a complete expression.
    TrailingTokens,
}

/// The mathematical value of a [`CalcError`].
pub enum SpecError {
    EmptyExpression,
    InvalidCharacter(char),
    InvalidNumber(Seq<char>),
    UnexpectedEnd,
    UnexpectedToken,
    UnclosedParen,
    DivisionByZero,
    TrailingTokens,
}

impl View for CalcError {
    type V = SpecError;

    open spec fn view(&self) -> SpecError {
        match *self {
            CalcError::EmptyExpression => SpecError::EmptyExpression,
            CalcError::InvalidCharacter(c) => SpecError::InvalidCharacter(c),
            CalcError::InvalidNumber(text) => SpecError::InvalidNumber(text@),
            CalcError::UnexpectedEnd => SpecError::UnexpectedEnd,
            CalcError::UnexpectedToken => SpecError::UnexpectedToken,
            CalcError::UnclosedParen => SpecError::UnclosedParen,
            CalcError::DivisionByZero => SpecError::DivisionByZero,
            CalcError::TrailingTokens => SpecError::TrailingTokens,
        }
    }
}

impl DeepView for CalcError {
    type V = SpecError;

    open spec fn deep_view(&self) -> SpecError {
        self@
    }
}

impl SpecError {
    /// The message that reports this error to a person.
    pub open spec fn message(self) -> Seq<char> {
        match self {
            SpecError::EmptyExpression => "Empty expression"@,
            SpecError::InvalidCharacter(c) => "Invalid character: "@.push(c),
            SpecError::InvalidNumber(text) => "Invalid number: "@ + text,
            SpecError::UnexpectedEnd => "Unexpected end of expression"@,
            SpecError::UnexpectedToken => "Unexpected token"@,
            SpecError::UnclosedParen => "Missing closing parenthesis"@,
            SpecError::DivisionByZero => "Division by zero"@,
            SpecError::TrailingTokens => "Unexpected tokens"@,
        }
    }
}

/// `String::push` of the standard library, which vstd leaves unspecified:
/// the string afterwards is the string before with `ch` appended.
pub assume_specification[ String::push ](s: &mut String, ch: char)
    ensures
        final(s)@ == old(s)@.push(ch),
;

impl CalcError {
    /// Renders the error as the message shown to a person.
    pub fn message(&self) -> (text: String)
        ensures
            text@ == self@.message(),
    {
        match self {
            CalcError::EmptyExpression => "Empty expression".to_owned(),
            CalcError::InvalidCharacter(c) => {
                let mut text = "Invalid character: ".to_owned();
                text.push(*c);
                text
            },
            CalcError::InvalidNumber(literal) => {
                let mut text = "Invalid number: ".to_owned();
                let mut i: usize = 0;
                while i < literal.len()
                    invariant
                        i <= literal.len(),
                        text@ == "Invalid number: "@ + literal@.take(i as int),
                    decreases literal.len() - i,
                {
                    text.push(literal[i]);
                    assert(literal@.take(i + 1) == literal@.take(i as int).push(
                        literal@[i as int],
                    ));
                    i += 1;
                }
                text
            },
            CalcError::UnexpectedEnd => "Unexpected end of expression".to_owned(),
            CalcError::UnexpectedToken => "Unexpected token".to_owned(),
            CalcError::UnclosedParen => "Missing closing parenthesis".to_owned(),
            CalcError::DivisionByZero => "Division by zero".to_owned(),
            CalcError::TrailingTokens => "Unexpected tokens".to_owned(),
        }
    }
}

} // verus!
