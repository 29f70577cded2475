//! The steps of an evaluation never find the stack short of operands.

use vstd::prelude::*;

use crate::calculator::evaluation_of;
use crate::evaluation::{
    height_after, lemma_height_after_concat, lemma_height_after_push, SpecStep,
};
use crate::lexer::{remaining, scan, stripped};
use crate::parser::{
    additive_at, evaluation_of_tokens, expression, factor, factor_tail, multiplicative_at,
    primary, term, term_tail, Parse,
};
use crate::token::{Operator, SpecToken};

verus! {

/// Whether the steps of `p` can be carried out on a stack of `height`
/// numbers: those of a match leave `gain` numbers more, those before a
/// failure leave no fewer than there were.
pub open spec fn lifts(p: Parse, height: nat, gain: nat) -> bool {
    match p {
        Parse::Done { steps, .. } => height_after(steps, height) == Some(height + gain),
        Parse::Failed { steps, .. } => height_after(steps, height) matches Some(h) && h >= height,
    }
}

/// A continuation that can be carried out on the stack that an earlier part
/// left can be carried out behind that part.
proof fn lemma_lifts_behind(
    rest: Parse,
    first: Seq<SpecStep>,
    consumed: nat,
    height: nat,
    mid: nat,
    gain: nat,
)
    requires
        height_after(first, height) == Some(mid),
        mid >= height,
        lifts(rest, mid, gain),
    ensures
        lifts(rest.behind(first, consumed), height, (mid - height + gain) as nat),
{
    lemma_height_after_concat(first, rest.steps(), height);
}

/// A primary puts one number on the stack.
pub proof fn lemma_primary_lifts(ts: Seq<SpecToken>, pos: nat, height: nat)
    ensures
        lifts(primary(ts, pos), height, 1),
    decreases remaining(ts.len(), pos), 0nat,
{
    if pos < ts.len() {
        match ts[pos as int] {
            SpecToken::Number(text) => {
                lemma_height_after_push(Seq::empty(), SpecStep::Push(text), height);
            },
            SpecToken::LeftParen => {
                lemma_expression_lifts(ts, pos + 1, height);
            },
            SpecToken::Operator(Operator::Subtract) => {
                lemma_primary_lifts(ts, pos + 1, height);
                lemma_height_after_push(primary(ts, pos + 1).steps(), SpecStep::Negate, height);
            },
            _ => {},
        }
    }
}

/// What follows the first operand of a factor leaves the stack as high as
/// it found it.
pub proof fn lemma_factor_tail_lifts(ts: Seq<SpecToken>, pos: nat, height: nat)
    requires
        height >= 1,
    ensures
        lifts(factor_tail(ts, pos), height, 0),
    decreases remaining(ts.len(), pos), 1nat,
{
    match multiplicative_at(ts, pos) {
        Some(op) => {
            lemma_primary_lifts(ts, pos + 1, height);
            match primary(ts, pos + 1) {
                Parse::Done { steps, consumed } => {
                    lemma_height_after_push(steps, SpecStep::Apply(op), height);
                    lemma_factor_tail_lifts(ts, pos + 1 + consumed, height);
                    lemma_lifts_behind(
                        factor_tail(ts, pos + 1 + consumed),
                        steps.push(SpecStep::Apply(op)),
                        1 + consumed,
                        height,
                        height,
                        0,
                    );
                },
                _ => {},
            }
        },
        None => {},
    }
}

/// A factor puts one number on the stack.
pub proof fn lemma_factor_lifts(ts: Seq<SpecToken>, pos: nat, height: nat)
    ensures
        lifts(factor(ts, pos), height, 1),
    decreases remaining(ts.len(), pos), 2nat,
{
    lemma_primary_lifts(ts, pos, height);
    match primary(ts, pos) {
        Parse::Done { steps, consumed } => {
            lemma_factor_tail_lifts(ts, pos + consumed, height + 1);
            lemma_lifts_behind(
                factor_tail(ts, pos + consumed),
                steps,
                consumed,
                height,
                height + 1,
                0,
            );
        },
        _ => {},
    }
}

/// What follows the first operand of a term leaves the stack as high as it
/// found it.
pub proof fn lemma_term_tail_lifts(ts: Seq<SpecToken>, pos: nat, height: nat)
    requires
        height >= 1,
    ensures
        lifts(term_tail(ts, pos), height, 0),
    decreases remaining(ts.len(), pos), 3nat,
{
    match additive_at(ts, pos) {
        Some(op) => {
            lemma_factor_lifts(ts, pos + 1, height);
            match factor(ts, pos + 1) {
                Parse::Done { steps, consumed } => {
                    lemma_height_after_push(steps, SpecStep::Apply(op), height);
                    lemma_term_tail_lifts(ts, pos + 1 + consumed, height);
                    lemma_lifts_behind(
                        term_tail(ts, pos + 1 + consumed),
                        steps.push(SpecStep::Apply(op)),
                        1 + consumed,
                        height,
                        height,
                        0,
                    );
                },
                _ => {},
            }
        },
        None => {},
    }
}

/// A term puts one number on the stack.
pub proof fn lemma_term_lifts(ts: Seq<SpecToken>, pos: nat, height: nat)
    ensures
        lifts(term(ts, pos), height, 1),
    decreases remaining(ts.len(), pos), 4nat,
{
    lemma_factor_lifts(ts, pos, height);
    match factor(ts, pos) {
        Parse::Done { steps, consumed } => {
            lemma_term_tail_lifts(ts, pos + consumed, height + 1);
            lemma_lifts_behind(
                term_tail(ts, pos + consumed),
                steps,
                consumed,
                height,
                height + 1,
                0,
            );
        },
        _ => {},
    }
}

/// An expression puts one number on the stack.
pub proof fn lemma_expression_lifts(ts: Seq<SpecToken>, pos: nat, height: nat)
    ensures
        lifts(expression(ts, pos), height, 1),
    decreases remaining(ts.len(), pos), 5nat,
{
    lemma_term_lifts(ts, pos, height);
}

/// The steps of whatever the tokens `ts` evaluate to can be carried out on
/// an empty stack, and leave one number where the evaluation does not fail.
pub proof fn lemma_token_evaluation_well_formed(ts: Seq<SpecToken>)
    ensures
        evaluation_of_tokens(ts).well_formed(),
{
    lemma_expression_lifts(ts, 0, 0);
}

/// The steps of whatever a text evaluates to can be carried out on an empty
/// stack, and leave one number where the evaluation does not fail.
pub proof fn lemma_evaluation_well_formed(text: Seq<char>)
    ensures
        evaluation_of(text).well_formed(),
{
    let e = evaluation_of(text);
    if e.failure is None || e.steps.len() > 0 {
        lemma_token_evaluation_well_formed(scan(stripped(text), 0)->Ok_0);
    }
}

} // verus!
