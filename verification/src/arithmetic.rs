//! Arithmetic: what the steps of an evaluation are carried out in.
//!
//! The calculator's numbers are IEEE doubles, and nothing is proved here of
//! their arithmetic. The machine that carries out the steps takes the
//! arithmetic as four functions, and what is proved of it holds whatever
//! they compute.

use vstd::prelude::*;

use crate::error::{CalcError, SpecError};
use crate::evaluation::{
    height_after, lemma_height_after_push, lemma_height_of_prefix, Evaluation, SpecEvaluation,
    SpecStep, Step,
};
use crate::token::Operator;

verus! {

/// An arithmetic: what a written number stands for, and how numbers are
/// computed with.
#[verifier::reject_recursive_types(N)]
pub struct Arithmetic<N> {
    /// The number that a text stands for, if it stands for one.
    pub number: spec_fn(Seq<char>) -> Option<N>,
    /// The negation of a number.
    pub negate: spec_fn(N) -> N,
    /// What an operator makes of a left and a right operand.
    pub apply: spec_fn(Operator, N, N) -> N,
    /// Whether a number is zero, so that nothing is divided by it.
    pub is_zero: spec_fn(N) -> bool,
}

impl<N> Arithmetic<N> {
    /// The number that `text` stands for, or the error of a text that
    /// stands for none.
    pub open spec fn read(self, text: Seq<char>) -> Result<N, SpecError> {
        match (self.number)(text) {
            Some(number) => Ok(number),
            None => Err(SpecError::InvalidNumber(text)),
        }
    }

    /// What `op` makes of `left` and `right`: their result, or the error of
    /// dividing by zero.
    pub open spec fn combine(self, op: Operator, left: N, right: N) -> Result<N, SpecError> {
        if op == Operator::Divide && (self.is_zero)(right) {
            Err(SpecError::DivisionByZero)
        } else {
            Ok((self.apply)(op, left, right))
        }
    }

    /// The stack once `step` is carried out on `stack`, or the error that
    /// the step ends the evaluation with.
    pub open spec fn step(self, step: SpecStep, stack: Seq<N>) -> Result<Seq<N>, SpecError> {
        match step {
            SpecStep::Push(text) => match self.read(text) {
                Ok(number) => Ok(stack.push(number)),
                Err(error) => Err(error),
            },
            SpecStep::Negate => Ok(stack.drop_last().push((self.negate)(stack.last()))),
            SpecStep::Apply(op) => match self.combine(
                op,
                stack[stack.len() - 2],
                stack[stack.len() - 1],
            ) {
                Ok(result) => Ok(stack.take(stack.len() - 2).push(result)),
                Err(error) => Err(error),
            },
        }
    }

    /// The stack once `steps` are carried out on `stack` one after the
    /// other, or the error of the first step that ends the evaluation.
    pub open spec fn run(self, steps: Seq<SpecStep>, stack: Seq<N>) -> Result<Seq<N>, SpecError>
        decreases steps.len(),
    {
        if steps.len() == 0 {
            Ok(stack)
        } else {
            match self.step(steps.first(), stack) {
                Ok(next) => self.run(steps.drop_first(), next),
                Err(error) => Err(error),
            }
        }
    }

    /// What an evaluation ends with: the error of the first step that
    /// fails; else its failure, where it has one; else the number on top
    /// of the stack.
    pub open spec fn outcome(self, e: SpecEvaluation) -> Result<N, SpecError> {
        match self.run(e.steps, Seq::empty()) {
            Ok(stack) => match e.failure {
                Some(error) => Err(error),
                None => Ok(stack.last()),
            },
            Err(error) => Err(error),
        }
    }

    /// Steps in two parts: the second part is carried out on the stack that
    /// the first part left, unless the first part ended in an error.
    pub proof fn lemma_run_concat(self, first: Seq<SpecStep>, second: Seq<SpecStep>, stack: Seq<N>)
        ensures
            self.run(first + second, stack) == match self.run(first, stack) {
                Ok(mid) => self.run(second, mid),
                Err(error) => Err(error),
            },
        decreases first.len(),
    {
        if first.len() == 0 {
        } else {
            assert((first + second).drop_first() == first.drop_first() + second);
            match self.step(first.first(), stack) {
                Ok(next) => {
                    self.lemma_run_concat(first.drop_first(), second, next);
                },
                Err(_) => {},
            }
        }
    }

    /// One more step is carried out on the stack that the steps before it
    /// left.
    pub proof fn lemma_run_push(self, steps: Seq<SpecStep>, step: SpecStep, stack: Seq<N>)
        ensures
            self.run(steps.push(step), stack) == match self.run(steps, stack) {
                Ok(mid) => self.step(step, mid),
                Err(error) => Err(error),
            },
    {
        self.lemma_run_concat(steps, seq![step], stack);
        assert(steps.push(step) == steps + seq![step]);
        reveal_with_fuel(Arithmetic::run, 2);
    }

    /// Steps that never find the stack short of operands leave as many
    /// numbers on it as counting says, unless they end in an error.
    pub proof fn lemma_run_height(self, steps: Seq<SpecStep>, stack: Seq<N>)
        requires
            height_after(steps, stack.len()) is Some,
        ensures
            self.run(steps, stack) matches Ok(left) ==> left.len() == height_after(
                steps,
                stack.len(),
            )->0,
        decreases steps.len(),
    {
        if steps.len() > 0 {
            let before = steps.drop_last();
            assert(steps == before.push(steps.last()));
            self.lemma_run_push(before, steps.last(), stack);
            self.lemma_run_height(before, stack);
        }
    }

    /// A step ends an evaluation with no other error than a division by
    /// zero or a text that stands for no number.
    pub proof fn lemma_run_errors(self, steps: Seq<SpecStep>, stack: Seq<N>)
        ensures
            self.run(steps, stack) matches Err(error) ==> error is DivisionByZero
                || error is InvalidNumber,
        decreases steps.len(),
    {
        if steps.len() > 0 {
            match self.step(steps.first(), stack) {
                Ok(next) => {
                    self.lemma_run_errors(steps.drop_first(), next);
                },
                Err(_) => {},
            }
        }
    }

    /// An evaluation that is well formed and has no failure ends with the
    /// one number that its steps leave on the stack, unless a step fails.
    pub proof fn lemma_outcome_of_success(self, e: SpecEvaluation)
        requires
            e.well_formed(),
            e.failure is None,
        ensures
            match self.run(e.steps, Seq::empty()) {
                Ok(stack) => stack.len() == 1 && self.outcome(e) == Ok::<N, SpecError>(stack[0]),
                Err(error) => self.outcome(e) == Err::<N, SpecError>(error),
            },
    {
        self.lemma_run_height(e.steps, Seq::empty());
    }
}

/// Whether four functions compute in the arithmetic `a`: whatever one of
/// them returns is what `a` says.
pub open spec fn computes<
    N,
    Number: Fn(&[char]) -> Option<N>,
    Negate: Fn(N) -> N,
    Apply: Fn(Operator, N, N) -> N,
    IsZero: Fn(&N) -> bool,
>(number: Number, negate: Negate, apply: Apply, is_zero: IsZero, a: Arithmetic<N>) -> bool {
    &&& forall|text: &[char], n: Option<N>|
        call_ensures(number, (text,), n) ==> n == (a.number)(text@)
    &&& forall|x: N, y: N| call_ensures(negate, (x,), y) ==> y == (a.negate)(x)
    &&& forall|op: Operator, x: N, y: N, z: N|
        call_ensures(apply, (op, x, y), z) ==> z == (a.apply)(op, x, y)
    &&& forall|x: &N, zero: bool| call_ensures(is_zero, (x,), zero) ==> zero == (a.is_zero)(*x)
}

/// Whether each of four functions can be called on whatever it is given.
pub open spec fn callable<
    N,
    Number: Fn(&[char]) -> Option<N>,
    Negate: Fn(N) -> N,
    Apply: Fn(Operator, N, N) -> N,
    IsZero: Fn(&N) -> bool,
>(number: Number, negate: Negate, apply: Apply, is_zero: IsZero) -> bool {
    &&& forall|text: &[char]| call_requires(number, (text,))
    &&& forall|x: N| call_requires(negate, (x,))
    &&& forall|op: Operator, x: N, y: N| call_requires(apply, (op, x, y))
    &&& forall|x: &N| call_requires(is_zero, (x,))
}

/// Whether the result `r` can be what carrying out the evaluation `e`
/// ends with, whatever the arithmetic: a number only where `e` has no
/// failure, and no other error than that failure, a division by zero, or a
/// text that stands for no number.
pub open spec fn ends<N>(r: Result<N, CalcError>, e: SpecEvaluation) -> bool {
    match r {
        Ok(_) => e.failure is None,
        Err(error) => error@ is DivisionByZero || error@ is InvalidNumber || e.failure == Some(
            error@,
        ),
    }
}

/// Whether the result `r` is the outcome `expected`.
pub open spec fn agrees<N>(r: Result<N, CalcError>, expected: Result<N, SpecError>) -> bool {
    match expected {
        Ok(number) => r matches Ok(n) && n == number,
        Err(error) => r matches Err(e) && e@ == error,
    }
}

impl Evaluation {
    /// Carries out the evaluation, in the arithmetic that the four
    /// functions compute.
    ///
    /// `number` gives the number that a text stands for, `negate` the
    /// negation of a number, `apply` what an operator makes of a left and a
    /// right operand, and `is_zero` tells whether a number is zero. Before
    /// a division `is_zero` is asked of the right operand, and where it is
    /// zero `apply` is not called: the evaluation ends with
    /// [`CalcError::DivisionByZero`].
    pub fn run<N>(
        self,
        number: impl Fn(&[char]) -> Option<N>,
        negate: impl Fn(N) -> N,
        apply: impl Fn(Operator, N, N) -> N,
        is_zero: impl Fn(&N) -> bool,
    ) -> (r: Result<N, CalcError>)
        requires
            callable(number, negate, apply, is_zero),
        ensures
            ends(r, self@),
            forall|a: Arithmetic<N>| #[trigger]
                computes(number, negate, apply, is_zero, a) ==> agrees(r, a.outcome(self@)),
    {
        let ghost whole = self@;
        let ghost all = whole.steps;
        let (steps, failure) = self.into_parts();
        let mut stack: Vec<N> = Vec::new();
        let mut i: usize = 0;
        while i < steps.len()
            invariant
                i <= steps.len(),
                whole == self@,
                all == steps.deep_view(),
                all == whole.steps,
                height_after(all, 0) is Some,
                height_after(all.take(i as int), 0) == Some(stack.len() as nat),
                callable(number, negate, apply, is_zero),
                forall|a: Arithmetic<N>| #[trigger]
                    computes(number, negate, apply, is_zero, a) ==> a.run(
                        all.take(i as int),
                        Seq::empty(),
                    ) == Ok::<Seq<N>, SpecError>(stack@),
            decreases steps.len() - i,
        {
            let ghost before = stack@;
            let ghost done = all.take(i as int);
            let ghost step = all[i as int];
            proof {
                lemma_height_of_prefix(all, 0, i + 1);
                assert(all.take(i + 1) == done.push(step));
                assert(all.take(i + 1) + all.skip(i + 1) == all);
                lemma_height_after_push(done, step, 0);
            }
            match &steps[i] {
                Step::Push(text) => {
                    match number(text.as_slice()) {
                        Some(n) => {
                            stack.push(n);
                        },
                        None => {
                            proof {
                                assert forall|a: Arithmetic<N>| #[trigger]
                                    computes(number, negate, apply, is_zero, a) implies agrees(
                                    Err::<N, CalcError>(CalcError::InvalidNumber(*text)),
                                    a.outcome(whole),
                                ) by {
                                    a.lemma_run_push(done, step, Seq::empty());
                                    a.lemma_run_concat(
                                        all.take(i + 1),
                                        all.skip(i + 1),
                                        Seq::empty(),
                                    );
                                }
                            }
                            return Err(CalcError::InvalidNumber(text.clone()));
                        },
                    }
                },
                Step::Negate => {
                    let x = stack.pop().unwrap();
                    let y = negate(x);
                    stack.push(y);
                },
                Step::Apply(op) => {
                    let right = stack.pop().unwrap();
                    let left = stack.pop().unwrap();
                    let divides = match op {
                        Operator::Divide => true,
                        _ => false,
                    };
                    if divides && is_zero(&right) {
                        proof {
                            assert forall|a: Arithmetic<N>| #[trigger]
                                computes(number, negate, apply, is_zero, a) implies agrees(
                                Err::<N, CalcError>(CalcError::DivisionByZero),
                                a.outcome(whole),
                            ) by {
                                a.lemma_run_push(done, step, Seq::empty());
                                a.lemma_run_concat(all.take(i + 1), all.skip(i + 1), Seq::empty());
                            }
                        }
                        return Err(CalcError::DivisionByZero);
                    }
                    let z = apply(*op, left, right);
                    stack.push(z);
                    proof {
                        assert(before.take(before.len() - 2).push(z) == stack@);
                    }
                },
            }
            proof {
                assert forall|a: Arithmetic<N>| #[trigger]
                    computes(number, negate, apply, is_zero, a) implies a.run(
                    all.take(i + 1),
                    Seq::empty(),
                ) == Ok::<Seq<N>, SpecError>(stack@) by {
                    a.lemma_run_push(done, step, Seq::empty());
                }
            }
            i += 1;
        }
        proof {
            assert(all.take(i as int) == all);
        }
        match failure {
            Some(error) => Err(error),
            None => Ok(stack.pop().unwrap()),
        }
    }
}

} // verus!
