//! A calculator for arithmetic expressions, with its parser proved.
//!
//! An expression such as `(2 + 3) * -4.5` is scanned into tokens and parsed
//! by recursive descent with the usual precedence: unary minus binds tighter
//! than `*` and `/`, which bind tighter than `+` and `-`; binary operators
//! group to the left.
//!
//! The numbers of the calculator are IEEE doubles, of whose arithmetic
//! nothing is proved here. So the arithmetic is a parameter: [`calculate`]
//! takes it as four functions, and what is proved holds whatever they
//! compute. Between parser and arithmetic stands the [`Evaluation`]: the
//! steps of arithmetic in the exact order in which they are carried out,
//! and the error, if any, that ends the evaluation once they are done.
//!
//! - [`token`], [`error`], [`evaluation`]: the data.
//! - [`lexer`]: from text to tokens; [`spelling`]: that the tokens spell the
//!   text.
//! - [`parser`]: from tokens to steps; [`safety`]: that the steps can be
//!   carried out.
//! - [`arithmetic`]: the machine that carries the steps out.
//! - [`calculator`]: from text to value.
//! - [`grammar`], [`meaning`]: expressions as trees, and that the calculator
//!   computes the value of the tree.

pub mod arithmetic;
pub mod calculator;
pub mod error;
pub mod evaluation;
pub mod grammar;
pub mod lexer;
pub mod meaning;
pub mod parser;
pub mod safety;
pub mod spelling;
pub mod token;

pub use calculator::calculate;
pub use error::CalcError;
pub use evaluation::{Evaluation, Step};
pub use lexer::{is_number, is_whitespace, strip_whitespace, tokenize, tokenize_chars};
pub use parser::{
    evaluate_tokens, parse_expression, parse_factor, parse_primary, parse_term,
};
pub use token::{Operator, Token};
