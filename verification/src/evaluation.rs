//! Evaluations: what the parser makes of an expression.

use vstd::prelude::*;

use crate::error::{CalcError, SpecError};
use crate::token::Operator;

verus! {

/// One step of arithmetic on a stack of numbers.
#[derive(Clone, Debug, PartialEq, Eq)]
pub enum Step {
    /// Put the number written as these characters on the stack.
    Push(Vec<char>),
    /// Replace the top of the stack by its negation.
    Negate,
    /// Take the right operand, then the left operand, off the stack and put
    /// the result of the operator back. A division whose right operand is
    /// zero ends the evaluation instead.
    Apply(Operator),
}

/// The mathematical value of a [`Step`].
pub enum SpecStep {
    Push(Seq<char>),
    Negate,
    Apply(Operator),
}

impl View for Step {
    type V = SpecStep;

    open spec fn view(&self) -> SpecStep {
        match *self {
            Step::Push(text) => SpecStep::Push(text@),
            Step::Negate => SpecStep::Negate,
            Step::Apply(op) => SpecStep::Apply(op),
        }
    }
}

impl DeepView for Step {
    type V = SpecStep;

    open spec fn deep_view(&self) -> SpecStep {
        self@
    }
}

impl SpecStep {
    /// How many numbers the step takes off the stack. Every step puts one
    /// number back.
    pub open spec fn takes(self) -> nat {
        match self {
            SpecStep::Push(_) => 0,
            SpecStep::Negate => 1,
            SpecStep::Apply(_) => 2,
        }
    }
}

/// How many numbers the stack holds once `steps` are carried out on a stack
/// of `height` numbers; `None` where one of the steps finds fewer numbers on
/// the stack than it takes.
pub open spec fn height_after(steps: Seq<SpecStep>, height: nat) -> Option<nat>
    decreases steps.len(),
{
    if steps.len() == 0 {
        Some(height)
    } else {
        match height_after(steps.drop_last(), height) {
            Some(h) => if h >= steps.last().takes() {
                Some((h - steps.last().takes() + 1) as nat)
            } else {
                None
            },
            None => None,
        }
    }
}

/// One more step takes its operands off the stack that the steps before it
/// left, and puts one number back.
pub proof fn lemma_height_after_push(steps: Seq<SpecStep>, step: SpecStep, height: nat)
    ensures
        height_after(steps.push(step), height) == match height_after(steps, height) {
            Some(h) => if h >= step.takes() {
                Some((h - step.takes() + 1) as nat)
            } else {
                None
            },
            None => None,
        },
{
    assert(steps.push(step).drop_last() == steps);
}

/// Steps in two parts: the second part begins on the stack that the first
/// part left.
pub proof fn lemma_height_after_concat(first: Seq<SpecStep>, second: Seq<SpecStep>, height: nat)
    ensures
        height_after(first + second, height) == match height_after(first, height) {
            Some(h) => height_after(second, h),
            None => None,
        },
    decreases second.len(),
{
    if second.len() == 0 {
    } else {
        lemma_height_after_concat(first, second.drop_last(), height);
        assert((first + second).drop_last() == first + second.drop_last());
    }
}

/// Steps that never find the stack short of operands do not find it so
/// part of the way.
pub proof fn lemma_height_of_prefix(steps: Seq<SpecStep>, height: nat, k: int)
    requires
        height_after(steps, height) is Some,
        0 <= k <= steps.len(),
    ensures
        height_after(steps.take(k), height) is Some,
    decreases steps.len() - k,
{
    if k == steps.len() {
        assert(steps.take(k) == steps);
    } else {
        lemma_height_of_prefix(steps, height, k + 1);
        assert(steps.take(k + 1).drop_last() == steps.take(k));
    }
}

/// The mathematical value of an [`Evaluation`].
pub struct SpecEvaluation {
    pub steps: Seq<SpecStep>,
    pub failure: Option<SpecError>,
}

impl SpecEvaluation {
    /// Whether the steps can be carried out on an empty stack: none of them
    /// finds the stack short of operands, and where there is no failure
    /// exactly one number is left at the end.
    pub open spec fn well_formed(self) -> bool {
        match height_after(self.steps, 0) {
            Some(height) => self.failure is None ==> height == 1,
            None => false,
        }
    }
}

/// The mathematical value of an error that may be there.
pub open spec fn failure_view(failure: Option<CalcError>) -> Option<SpecError> {
    match failure {
        Some(error) => Some(error@),
        None => None,
    }
}

/// What evaluating an expression amounts to.
///
/// The steps are the arithmetic in the order in which it is carried out, on
/// a stack of numbers that starts empty. A step that fails ends the
/// evaluation with its error. Otherwise the failure, where there is one,
/// ends it once the steps are done; where there is none, the one number
/// left on the stack is the value of the expression.
///
/// Every evaluation is well formed: its steps never find the stack short of
/// operands.
#[derive(Debug, PartialEq, Eq)]
pub struct Evaluation {
    steps: Vec<Step>,
    failure: Option<CalcError>,
}

impl View for Evaluation {
    type V = SpecEvaluation;

    closed spec fn view(&self) -> SpecEvaluation {
        SpecEvaluation { steps: self.steps.deep_view(), failure: failure_view(self.failure) }
    }
}

impl Evaluation {
    #[verifier::type_invariant]
    spec fn carried_out_safely(self) -> bool {
        self@.well_formed()
    }

    /// Makes an evaluation of steps that can be carried out.
    pub(crate) fn new(steps: Vec<Step>, failure: Option<CalcError>) -> (e: Evaluation)
        requires
            (SpecEvaluation {
                steps: steps.deep_view(),
                failure: failure_view(failure),
            }).well_formed(),
        ensures
            e@ == (SpecEvaluation { steps: steps.deep_view(), failure: failure_view(failure) }),
    {
        Evaluation { steps, failure }
    }

    /// The steps, in the order in which they are carried out.
    pub fn steps(&self) -> (steps: &Vec<Step>)
        ensures
            steps.deep_view() == self@.steps,
            self@.well_formed(),
    {
        proof {
            use_type_invariant(self);
        }
        &self.steps
    }

    /// The error that ends the evaluation once the steps are done, if there
    /// is one.
    pub fn failure(&self) -> (failure: Option<&CalcError>)
        ensures
            match self@.failure {
                Some(error) => failure matches Some(e) && e@ == error,
                None => failure is None,
            },
    {
        self.failure.as_ref()
    }

    /// Takes the evaluation apart, into its steps and its failure.
    pub fn into_parts(self) -> (parts: (Vec<Step>, Option<CalcError>))
        ensures
            parts.0.deep_view() == self@.steps,
            failure_view(parts.1) == self@.failure,
            self@.well_formed(),
    {
        proof {
            use_type_invariant(&self);
        }
        (self.steps, self.failure)
    }
}

} // verus!
