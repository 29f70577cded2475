//! What an expression means: the value of its tree, and that the
//! calculator computes it.

use vstd::prelude::*;

use crate::arithmetic::Arithmetic;
use crate::calculator::evaluation_of;
use crate::error::SpecError;
use crate::evaluation::SpecStep;
use crate::grammar::{lemma_text_evaluates, Expr};
use crate::lexer::stripped;

verus! {

impl<N> Arithmetic<N> {
    /// The value of an expression read as a tree: the operands of an
    /// operator are computed from left to right, and the first error ends
    /// the computation.
    pub open spec fn value(self, e: Expr) -> Result<N, SpecError>
        decreases e,
    {
        match e {
            Expr::Number(text) => self.read(text),
            Expr::Group(inner) => self.value(*inner),
            Expr::Negate(inner) => match self.value(*inner) {
                Ok(number) => Ok((self.negate)(number)),
                Err(error) => Err(error),
            },
            Expr::Binary(op, left, right) => match self.value(*left) {
                Ok(x) => match self.value(*right) {
                    Ok(y) => self.combine(op, x, y),
                    Err(error) => Err(error),
                },
                Err(error) => Err(error),
            },
        }
    }

    /// Carrying out the arithmetic of a tree in its order puts the value of
    /// the tree on the stack, or ends with the error that the value is.
    pub proof fn lemma_postfix_computes_value(self, e: Expr, stack: Seq<N>)
        ensures
            self.run(e.postfix(), stack) == match self.value(e) {
                Ok(number) => Ok(stack.push(number)),
                Err(error) => Err(error),
            },
        decreases e,
    {
        match e {
            Expr::Number(text) => {
                self.lemma_run_push(Seq::empty(), SpecStep::Push(text), stack);
            },
            Expr::Group(inner) => {
                self.lemma_postfix_computes_value(*inner, stack);
            },
            Expr::Negate(inner) => {
                self.lemma_postfix_computes_value(*inner, stack);
                self.lemma_run_push(inner.postfix(), SpecStep::Negate, stack);
                match self.value(*inner) {
                    Ok(number) => {
                        assert(stack.push(number).drop_last() == stack);
                    },
                    Err(_) => {},
                }
            },
            Expr::Binary(op, left, right) => {
                self.lemma_postfix_computes_value(*left, stack);
                self.lemma_run_concat(left.postfix(), right.postfix(), stack);
                self.lemma_run_push(left.postfix() + right.postfix(), SpecStep::Apply(op), stack);
                match self.value(*left) {
                    Ok(x) => {
                        self.lemma_postfix_computes_value(*right, stack.push(x));
                        match self.value(*right) {
                            Ok(y) => {
                                let both = stack.push(x).push(y);
                                assert(both.take(both.len() - 2) == stack);
                            },
                            Err(_) => {},
                        }
                    },
                    Err(_) => {},
                }
            },
        }
    }

    /// The calculator computes the value of the expression it is given, in
    /// every arithmetic.
    ///
    /// `text` is any text that, without its whitespace, is that of a tree
    /// `e` that the grammar describes and whose numbers are numbers.
    pub proof fn lemma_evaluation_computes_value(self, e: Expr, text: Seq<char>)
        requires
            e.grammatical(),
            e.well_written(),
            stripped(text) == e.text(),
        ensures
            self.outcome(evaluation_of(text)) == self.value(e),
    {
        lemma_text_evaluates(e, text);
        self.lemma_postfix_computes_value(e, Seq::empty());
    }
}

} // verus!
