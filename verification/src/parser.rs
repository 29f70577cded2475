//! The parser: from tokens to the steps of an evaluation.
//!
//! The grammar, from the loosest binding to the tightest:
//!
//! ```text
//! Expression := Term
//! Term       := Factor (('+' | '-') Factor)*
//! Factor     := Primary (('*' | '/') Primary)*
//! Primary    := Number | '(' Expression ')' | '-' Primary
//! ```
//!
//! Parsing and evaluating are one pass over the tokens: each rule emits the
//! arithmetic of its production at the moment it would be carried out. What
//! comes out is the expression in postfix order, a program for a stack of
//! numbers.

use vstd::prelude::*;

use crate::arithmetic::{agrees, callable, computes, ends, Arithmetic};
use crate::error::{CalcError, SpecError};
use crate::evaluation::{Evaluation, SpecEvaluation, SpecStep, Step};
use crate::lexer::remaining;
use crate::safety::lemma_token_evaluation_well_formed;
use crate::token::{Operator, SpecToken, Token};

verus! {

/// What a grammar rule makes of the tokens in front of it.
pub enum Parse {
    /// The rule matched `consumed` tokens and emitted `steps`.
    Done { steps: Seq<SpecStep>, consumed: nat },
    /// The rule failed with `error`, after it had emitted `steps`.
    Failed { steps: Seq<SpecStep>, error: SpecError },
}

impl Parse {
    /// The steps emitted, whether the rule matched or failed.
    pub open spec fn steps(self) -> Seq<SpecStep> {
        match self {
            Parse::Done { steps, .. } => steps,
            Parse::Failed { steps, .. } => steps,
        }
    }

    /// This parse as the continuation of a part that matched `consumed`
    /// tokens and emitted `steps`.
    pub open spec fn behind(self, steps: Seq<SpecStep>, consumed: nat) -> Parse {
        match self {
            Parse::Done { steps: more, consumed: further } => Parse::Done {
                steps: steps + more,
                consumed: consumed + further,
            },
            Parse::Failed { steps: more, error } => Parse::Failed { steps: steps + more, error },
        }
    }
}

/// The operator at index `pos`, where that token is `+` or `-`.
pub open spec fn additive_at(ts: Seq<SpecToken>, pos: nat) -> Option<Operator> {
    if pos < ts.len() {
        match ts[pos as int] {
            SpecToken::Operator(Operator::Add) => Some(Operator::Add),
            SpecToken::Operator(Operator::Subtract) => Some(Operator::Subtract),
            _ => None,
        }
    } else {
        None
    }
}

/// The operator at index `pos`, where that token is `*` or `/`.
pub open spec fn multiplicative_at(ts: Seq<SpecToken>, pos: nat) -> Option<Operator> {
    if pos < ts.len() {
        match ts[pos as int] {
            SpecToken::Operator(Operator::Multiply) => Some(Operator::Multiply),
            SpecToken::Operator(Operator::Divide) => Some(Operator::Divide),
            _ => None,
        }
    } else {
        None
    }
}

/// Whether the token at index `pos` is `)`.
pub open spec fn closes_at(ts: Seq<SpecToken>, pos: nat) -> bool {
    pos < ts.len() && ts[pos as int] is RightParen
}

/// `Primary := Number | '(' Expression ')' | '-' Primary`, at index `pos`.
pub open spec fn primary(ts: Seq<SpecToken>, pos: nat) -> Parse
    decreases remaining(ts.len(), pos), 0nat,
{
    if pos >= ts.len() {
        Parse::Failed { steps: Seq::empty(), error: SpecError::UnexpectedEnd }
    } else {
        match ts[pos as int] {
            SpecToken::Number(text) => Parse::Done {
                steps: seq![SpecStep::Push(text)],
                consumed: 1,
            },
            SpecToken::LeftParen => match expression(ts, pos + 1) {
                Parse::Done { steps, consumed } => if closes_at(ts, pos + 1 + consumed) {
                    Parse::Done { steps, consumed: consumed + 2 }
                } else {
                    Parse::Failed { steps, error: SpecError::UnclosedParen }
                },
                failed => failed,
            },
            SpecToken::Operator(Operator::Subtract) => match primary(ts, pos + 1) {
                Parse::Done { steps, consumed } => Parse::Done {
                    steps: steps.push(SpecStep::Negate),
                    consumed: consumed + 1,
                },
                failed => failed,
            },
            _ => Parse::Failed { steps: Seq::empty(), error: SpecError::UnexpectedToken },
        }
    }
}

/// `(('*' | '/') Primary)*`, at index `pos`: what follows the first operand
/// of a factor.
pub open spec fn factor_tail(ts: Seq<SpecToken>, pos: nat) -> Parse
    decreases remaining(ts.len(), pos), 1nat,
{
    match multiplicative_at(ts, pos) {
        Some(op) => match primary(ts, pos + 1) {
            Parse::Done { steps, consumed } => factor_tail(ts, pos + 1 + consumed).behind(
                steps.push(SpecStep::Apply(op)),
                1 + consumed,
            ),
            failed => failed,
        },
        None => Parse::Done { steps: Seq::empty(), consumed: 0 },
    }
}

/// `Factor := Primary (('*' | '/') Primary)*`, at index `pos`.
pub open spec fn factor(ts: Seq<SpecToken>, pos: nat) -> Parse
    decreases remaining(ts.len(), pos), 2nat,
{
    match primary(ts, pos) {
        Parse::Done { steps, consumed } => factor_tail(ts, pos + consumed).behind(steps, consumed),
        failed => failed,
    }
}

/// `(('+' | '-') Factor)*`, at index `pos`: what follows the first operand
/// of a term.
pub open spec fn term_tail(ts: Seq<SpecToken>, pos: nat) -> Parse
    decreases remaining(ts.len(), pos), 3nat,
{
    match additive_at(ts, pos) {
        Some(op) => match factor(ts, pos + 1) {
            Parse::Done { steps, consumed } => term_tail(ts, pos + 1 + consumed).behind(
                steps.push(SpecStep::Apply(op)),
                1 + consumed,
            ),
            failed => failed,
        },
        None => Parse::Done { steps: Seq::empty(), consumed: 0 },
    }
}

/// `Term := Factor (('+' | '-') Factor)*`, at index `pos`.
pub open spec fn term(ts: Seq<SpecToken>, pos: nat) -> Parse
    decreases remaining(ts.len(), pos), 4nat,
{
    match factor(ts, pos) {
        Parse::Done { steps, consumed } => term_tail(ts, pos + consumed).behind(steps, consumed),
        failed => failed,
    }
}

/// `Expression := Term`, at index `pos`.
pub open spec fn expression(ts: Seq<SpecToken>, pos: nat) -> Parse
    decreases remaining(ts.len(), pos), 5nat,
{
    term(ts, pos)
}

/// Whether a rule that began at index `pos` and returned `r` did what
/// `expected` says: on a match the index behind the tokens it consumed, on
/// a failure its error.
pub open spec fn parsed(r: Result<usize, CalcError>, pos: usize, expected: Parse) -> bool {
    match expected {
        Parse::Done { consumed, .. } => r matches Ok(next) && next == pos + consumed,
        Parse::Failed { error, .. } => r matches Err(e) && e@ == error,
    }
}

/// The operator of the token at index `pos`, where it is `+` or `-`.
fn additive(tokens: &[Token], pos: usize) -> (r: Option<Operator>)
    ensures
        r == additive_at(tokens.deep_view(), pos as nat),
{
    if pos < tokens.len() {
        match &tokens[pos] {
            Token::Operator(Operator::Add) => Some(Operator::Add),
            Token::Operator(Operator::Subtract) => Some(Operator::Subtract),
            _ => None,
        }
    } else {
        None
    }
}

/// The operator of the token at index `pos`, where it is `*` or `/`.
fn multiplicative(tokens: &[Token], pos: usize) -> (r: Option<Operator>)
    ensures
        r == multiplicative_at(tokens.deep_view(), pos as nat),
{
    if pos < tokens.len() {
        match &tokens[pos] {
            Token::Operator(Operator::Multiply) => Some(Operator::Multiply),
            Token::Operator(Operator::Divide) => Some(Operator::Divide),
            _ => None,
        }
    } else {
        None
    }
}

/// Whether the token at index `pos` is `)`.
fn closes(tokens: &[Token], pos: usize) -> (r: bool)
    ensures
        r == closes_at(tokens.deep_view(), pos as nat),
{
    if pos < tokens.len() {
        match &tokens[pos] {
            Token::RightParen => true,
            _ => false,
        }
    } else {
        false
    }
}

/// Appends `step` to `steps`.
fn emit(steps: &mut Vec<Step>, step: Step)
    ensures
        final(steps).deep_view() == old(steps).deep_view().push(step@),
{
    steps.push(step);
}

/// Parses a primary at index `pos`: a number, a parenthesised expression,
/// or a negated primary.
///
/// Returns the index behind the primary, and appends to `steps` what it
/// emits, also where it fails.
pub fn parse_primary(tokens: &[Token], pos: usize, steps: &mut Vec<Step>) -> (r: Result<
    usize,
    CalcError,
>)
    ensures
        final(steps).deep_view() == old(steps).deep_view() + primary(
            tokens.deep_view(),
            pos as nat,
        ).steps(),
        parsed(r, pos, primary(tokens.deep_view(), pos as nat)),
        r matches Ok(next) ==> pos < next <= tokens.len(),
    decreases remaining(tokens.len() as nat, pos as nat), 0nat,
{
    if pos >= tokens.len() {
        return Err(CalcError::UnexpectedEnd);
    }
    match &tokens[pos] {
        Token::Number(text) => {
            emit(steps, Step::Push(text.clone()));
            Ok(pos + 1)
        },
        Token::LeftParen => {
            let next = parse_expression(tokens, pos + 1, steps)?;
            if closes(tokens, next) {
                Ok(next + 1)
            } else {
                Err(CalcError::UnclosedParen)
            }
        },
        Token::Operator(Operator::Subtract) => {
            let next = parse_primary(tokens, pos + 1, steps)?;
            emit(steps, Step::Negate);
            Ok(next)
        },
        _ => Err(CalcError::UnexpectedToken),
    }
}

/// A continuation put behind one part, and the whole behind another, is
/// the continuation behind both parts in their order.
proof fn lemma_behind_behind(
    rest: Parse,
    second: Seq<SpecStep>,
    m: nat,
    first: Seq<SpecStep>,
    n: nat,
)
    ensures
        rest.behind(second, m).behind(first, n) == rest.behind(first + second, n + m),
{
    assert(first + (second + rest.steps()) == (first + second) + rest.steps());
}

/// Parses a factor at index `pos`: primaries joined by `*` and `/`, grouped
/// to the left.
///
/// Returns the index behind the factor, and appends to `steps` what it
/// emits, also where it fails.
pub fn parse_factor(tokens: &[Token], pos: usize, steps: &mut Vec<Step>) -> (r: Result<
    usize,
    CalcError,
>)
    ensures
        final(steps).deep_view() == old(steps).deep_view() + factor(
            tokens.deep_view(),
            pos as nat,
        ).steps(),
        parsed(r, pos, factor(tokens.deep_view(), pos as nat)),
        r matches Ok(next) ==> pos < next <= tokens.len(),
    decreases remaining(tokens.len() as nat, pos as nat), 2nat,
{
    let ghost ts = tokens.deep_view();
    let ghost before = steps.deep_view();
    let mut next = parse_primary(tokens, pos, steps)?;
    let ghost mut emitted = primary(ts, pos as nat).steps();
    loop
        invariant
            ts == tokens.deep_view(),
            before == old(steps).deep_view(),
            pos < next <= tokens.len(),
            steps.deep_view() == before + emitted,
            factor(ts, pos as nat) == factor_tail(ts, next as nat).behind(
                emitted,
                (next - pos) as nat,
            ),
        decreases tokens.len() - next,
    {
        match multiplicative(tokens, next) {
            None => {
                return Ok(next);
            },
            Some(op) => {
                let ghost operand = primary(ts, (next + 1) as nat);
                let behind = parse_primary(tokens, next + 1, steps)?;
                emit(steps, Step::Apply(op));
                proof {
                    let more = operand.steps().push(SpecStep::Apply(op));
                    lemma_behind_behind(
                        factor_tail(ts, behind as nat),
                        more,
                        (behind - next) as nat,
                        emitted,
                        (next - pos) as nat,
                    );
                    assert((before + emitted + operand.steps()).push(SpecStep::Apply(op))
                        == before + (emitted + more));
                    emitted = emitted + more;
                }
                next = behind;
            },
        }
    }
}

/// Parses a term at index `pos`: factors joined by `+` and `-`, grouped to
/// the left.
///
/// Returns the index behind the term, and appends to `steps` what it emits,
/// also where it fails.
pub fn parse_term(tokens: &[Token], pos: usize, steps: &mut Vec<Step>) -> (r: Result<
    usize,
    CalcError,
>)
    ensures
        final(steps).deep_view() == old(steps).deep_view() + term(
            tokens.deep_view(),
            pos as nat,
        ).steps(),
        parsed(r, pos, term(tokens.deep_view(), pos as nat)),
        r matches Ok(next) ==> pos < next <= tokens.len(),
    decreases remaining(tokens.len() as nat, pos as nat), 4nat,
{
    let ghost ts = tokens.deep_view();
    let ghost before = steps.deep_view();
    let mut next = parse_factor(tokens, pos, steps)?;
    let ghost mut emitted = factor(ts, pos as nat).steps();
    loop
        invariant
            ts == tokens.deep_view(),
            before == old(steps).deep_view(),
            pos < next <= tokens.len(),
            steps.deep_view() == before + emitted,
            term(ts, pos as nat) == term_tail(ts, next as nat).behind(
                emitted,
                (next - pos) as nat,
            ),
        decreases tokens.len() - next,
    {
        match additive(tokens, next) {
            None => {
                return Ok(next);
            },
            Some(op) => {
                let ghost operand = factor(ts, (next + 1) as nat);
                let behind = parse_factor(tokens, next + 1, steps)?;
                emit(steps, Step::Apply(op));
                proof {
                    let more = operand.steps().push(SpecStep::Apply(op));
                    lemma_behind_behind(
                        term_tail(ts, behind as nat),
                        more,
                        (behind - next) as nat,
                        emitted,
                        (next - pos) as nat,
                    );
                    assert((before + emitted + operand.steps()).push(SpecStep::Apply(op))
                        == before + (emitted + more));
                    emitted = emitted + more;
                }
                next = behind;
            },
        }
    }
}

/// Parses an expression at index `pos`.
///
/// Returns the index behind the expression, and appends to `steps` what it
/// emits, also where it fails.
pub fn parse_expression(tokens: &[Token], pos: usize, steps: &mut Vec<Step>) -> (r: Result<
    usize,
    CalcError,
>)
    ensures
        final(steps).deep_view() == old(steps).deep_view() + expression(
            tokens.deep_view(),
            pos as nat,
        ).steps(),
        parsed(r, pos, expression(tokens.deep_view(), pos as nat)),
        r matches Ok(next) ==> pos < next <= tokens.len(),
    decreases remaining(tokens.len() as nat, pos as nat), 5nat,
{
    parse_term(tokens, pos, steps)
}

/// What evaluating the tokens `ts` as one expression amounts to: the steps
/// that the expression emits, and the error that ends the evaluation, which
/// is that of the expression or, where tokens are left behind it, that of
/// the tokens left.
pub open spec fn evaluation_of_tokens(ts: Seq<SpecToken>) -> SpecEvaluation {
    match expression(ts, 0) {
        Parse::Done { steps, consumed } => SpecEvaluation {
            steps,
            failure: if consumed < ts.len() {
                Some(SpecError::TrailingTokens)
            } else {
                None
            },
        },
        Parse::Failed { steps, error } => SpecEvaluation { steps, failure: Some(error) },
    }
}

impl Evaluation {
    /// Parses `tokens` as one expression that takes up all of them.
    pub fn of_tokens(tokens: &[Token]) -> (e: Evaluation)
        ensures
            e@ == evaluation_of_tokens(tokens.deep_view()),
            e@.well_formed(),
    {
        proof {
            lemma_token_evaluation_well_formed(tokens.deep_view());
        }
        let mut steps: Vec<Step> = Vec::new();
        let failure = match parse_expression(tokens, 0, &mut steps) {
            Ok(next) => if next < tokens.len() {
                Some(CalcError::TrailingTokens)
            } else {
                None
            },
            Err(error) => Some(error),
        };
        Evaluation::new(steps, failure)
    }
}

/// Evaluates `tokens` as one expression that takes up all of them, in the
/// arithmetic that the four functions compute, to its value or to the first
/// error on the way.
///
/// The functions are those that [`Evaluation::run`] takes.
pub fn evaluate_tokens<N>(
    tokens: &[Token],
    number: impl Fn(&[char]) -> Option<N>,
    negate: impl Fn(N) -> N,
    apply: impl Fn(Operator, N, N) -> N,
    is_zero: impl Fn(&N) -> bool,
) -> (r: Result<N, CalcError>)
    requires
        callable(number, negate, apply, is_zero),
    ensures
        ends(r, evaluation_of_tokens(tokens.deep_view())),
        forall|a: Arithmetic<N>| #[trigger]
            computes(number, negate, apply, is_zero, a) ==> agrees(
                r,
                a.outcome(evaluation_of_tokens(tokens.deep_view())),
            ),
{
    Evaluation::of_tokens(tokens).run(number, negate, apply, is_zero)
}

} // verus!
