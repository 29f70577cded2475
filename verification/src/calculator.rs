//! The calculator: from the text of an expression to its evaluation.

use vstd::prelude::*;

use crate::arithmetic::{agrees, callable, computes, ends, Arithmetic};
use crate::error::{CalcError, SpecError};
use crate::evaluation::{Evaluation, SpecEvaluation, SpecStep, Step};
use crate::lexer::{
    lemma_stripped_insert, lemma_stripped_twice, scan, spec_is_whitespace, strip_whitespace,
    stripped, tokenize_chars,
};
use crate::parser::evaluation_of_tokens;
use crate::token::Operator;

verus! {

/// An evaluation that ends with `error` before any arithmetic.
pub open spec fn failed(error: SpecError) -> SpecEvaluation {
    SpecEvaluation { steps: Seq::empty(), failure: Some(error) }
}

/// What evaluating the text `expression` amounts to.
///
/// Whitespace counts for nothing. An expression with nothing else in it is
/// empty; one whose text does not scan fails as the scan does; otherwise the
/// evaluation is that of its tokens.
pub open spec fn evaluation_of(expression: Seq<char>) -> SpecEvaluation {
    let text = stripped(expression);
    if text.len() == 0 {
        failed(SpecError::EmptyExpression)
    } else {
        match scan(text, 0) {
            Ok(tokens) => evaluation_of_tokens(tokens),
            Err(error) => failed(error),
        }
    }
}

impl Evaluation {
    /// Scans and parses the arithmetic expression written in `expression`.
    ///
    /// Every text has an evaluation: there is none on which this fails to
    /// return, and what it returns can always be carried out.
    pub fn of(expression: &str) -> (e: Evaluation)
        ensures
            e@ == evaluation_of(expression@),
            e@.well_formed(),
    {
        let text = strip_whitespace(expression);
        if text.len() == 0 {
            return fail(CalcError::EmptyExpression);
        }
        match tokenize_chars(text.as_slice()) {
            Ok(tokens) => Evaluation::of_tokens(tokens.as_slice()),
            Err(error) => fail(error),
        }
    }
}

/// Evaluates the arithmetic expression written in `expression`, in the
/// arithmetic that the four functions compute, to its value or to the first
/// error on the way.
///
/// The functions are those that [`Evaluation::run`] takes.
pub fn calculate<N>(
    expression: &str,
    number: impl Fn(&[char]) -> Option<N>,
    negate: impl Fn(N) -> N,
    apply: impl Fn(Operator, N, N) -> N,
    is_zero: impl Fn(&N) -> bool,
) -> (r: Result<N, CalcError>)
    requires
        callable(number, negate, apply, is_zero),
    ensures
        ends(r, evaluation_of(expression@)),
        forall|a: Arithmetic<N>| #[trigger]
            computes(number, negate, apply, is_zero, a) ==> agrees(
                r,
                a.outcome(evaluation_of(expression@)),
            ),
{
    Evaluation::of(expression).run(number, negate, apply, is_zero)
}

/// The evaluation that ends with `error` before any arithmetic.
fn fail(error: CalcError) -> (e: Evaluation)
    ensures
        e@ == failed(error@),
{
    let steps: Vec<Step> = Vec::new();
    proof {
        assert(steps.deep_view() =~= Seq::<SpecStep>::empty());
    }
    Evaluation::new(steps, Some(error))
}

/// Evaluating depends on nothing but the text: whatever two calls of
/// [`Evaluation::of`] return for the same text is the same evaluation.
pub proof fn lemma_same_text_same_evaluation(
    a: Seq<char>,
    b: Seq<char>,
    first: Evaluation,
    second: Evaluation,
)
    requires
        a == b,
        first@ == evaluation_of(a),
        second@ == evaluation_of(b),
    ensures
        first@ == second@,
{
}

/// Evaluating again gives the same: whatever two calls of [`calculate`]
/// return for one text in one arithmetic, they return the same number or
/// the same error.
pub proof fn lemma_same_text_same_value<N>(
    a: Arithmetic<N>,
    text: Seq<char>,
    first: Result<N, CalcError>,
    second: Result<N, CalcError>,
)
    requires
        agrees(first, a.outcome(evaluation_of(text))),
        agrees(second, a.outcome(evaluation_of(text))),
    ensures
        match first {
            Ok(number) => second matches Ok(n) && n == number,
            Err(error) => second matches Err(e) && e@ == error@,
        },
{
}

/// Whitespace counts for nothing: two texts that are the same once their
/// whitespace is removed have the same evaluation.
pub proof fn lemma_whitespace_counts_for_nothing(a: Seq<char>, b: Seq<char>)
    requires
        stripped(a) == stripped(b),
    ensures
        evaluation_of(a) == evaluation_of(b),
{
}

/// A text evaluates as it does with its whitespace removed.
pub proof fn lemma_evaluation_of_stripped(text: Seq<char>)
    ensures
        evaluation_of(stripped(text)) == evaluation_of(text),
{
    lemma_stripped_twice(text);
}

/// A whitespace character put anywhere into a text, also in the middle of a
/// number, leaves the evaluation as it was.
pub proof fn lemma_whitespace_inserted(text: Seq<char>, i: int, c: char)
    requires
        0 <= i <= text.len(),
        spec_is_whitespace(c),
    ensures
        evaluation_of(text.insert(i, c)) == evaluation_of(text),
{
    lemma_stripped_insert(text, i, c);
}

} // verus!
