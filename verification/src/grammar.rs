//! Expressions as trees, and what the parser makes of a tree written out.
//!
//! The parser keeps no tree. This module says which trees the grammar
//! describes, how such a tree is written in tokens, and in what order its
//! arithmetic is carried out; and it proves that the parser, given the
//! tokens of a tree, emits exactly that order and fails nowhere.

use vstd::prelude::*;

use crate::calculator::evaluation_of;
use crate::evaluation::{SpecEvaluation, SpecStep};
use crate::lexer::{is_literal, lemma_stripped_keeps_the_rest, remaining, scan, stripped};
use crate::parser::{
    additive_at, evaluation_of_tokens, expression, factor, factor_tail, multiplicative_at,
    primary, term, term_tail, Parse,
};
use crate::spelling::{
    legible, lemma_scan_spells, lemma_written_alphabet, lemma_written_scans,
    numbers_are_literals, written,
};
use crate::token::{Operator, SpecToken};

verus! {

/// An expression, with its parentheses.
pub enum Expr {
    /// A number, by the characters it is written with.
    Number(Seq<char>),
    /// An expression in parentheses.
    Group(Box<Expr>),
    /// The negation of an expression.
    Negate(Box<Expr>),
    /// Two expressions joined by an operator, the left one first.
    Binary(Operator, Box<Expr>, Box<Expr>),
}

/// Whether `op` is `*` or `/`, the operators that bind tighter.
pub open spec fn binds_tight(op: Operator) -> bool {
    op == Operator::Multiply || op == Operator::Divide
}

impl Expr {
    /// How tightly the expression holds together: 2 for what the grammar
    /// calls a primary, 1 for a product or a quotient, 0 for a sum or a
    /// difference.
    pub open spec fn tightness(self) -> nat {
        match self {
            Expr::Binary(op, _, _) => if binds_tight(op) {
                1
            } else {
                0
            },
            _ => 2,
        }
    }

    /// Whether the tree is one that the grammar describes: written out
    /// without further parentheses, it reads as this tree and no other.
    ///
    /// Negation applies to a primary. The right operand of `*` and `/` is a
    /// primary, the left one anything but a sum or a difference. The right
    /// operand of `+` and `-` is anything but a sum or a difference, the
    /// left one anything: operators of one kind group to the left.
    pub open spec fn grammatical(self) -> bool
        decreases self,
    {
        match self {
            Expr::Number(_) => true,
            Expr::Group(inner) => inner.grammatical(),
            Expr::Negate(inner) => inner.tightness() == 2 && inner.grammatical(),
            Expr::Binary(op, left, right) => {
                &&& left.grammatical()
                &&& right.grammatical()
                &&& if binds_tight(op) {
                    left.tightness() >= 1 && right.tightness() == 2
                } else {
                    right.tightness() >= 1
                }
            },
        }
    }

    /// Whether every number in the tree is a number as the lexer accepts
    /// it.
    pub open spec fn well_written(self) -> bool
        decreases self,
    {
        match self {
            Expr::Number(text) => is_literal(text),
            Expr::Group(inner) => inner.well_written(),
            Expr::Negate(inner) => inner.well_written(),
            Expr::Binary(_, left, right) => left.well_written() && right.well_written(),
        }
    }

    /// The text of the expression: its tokens with nothing between them.
    pub open spec fn text(self) -> Seq<char> {
        written(self.tokens())
    }

    /// The tokens that the expression is written with.
    pub open spec fn tokens(self) -> Seq<SpecToken>
        decreases self,
    {
        match self {
            Expr::Number(text) => seq![SpecToken::Number(text)],
            Expr::Group(inner) => seq![SpecToken::LeftParen] + inner.tokens() + seq![
                SpecToken::RightParen,
            ],
            Expr::Negate(inner) => seq![SpecToken::Operator(Operator::Subtract)] + inner.tokens(),
            Expr::Binary(op, left, right) => left.tokens() + seq![SpecToken::Operator(op)]
                + right.tokens(),
        }
    }

    /// The arithmetic of the expression in the order in which it is carried
    /// out: the operands of an operator from left to right, then the
    /// operator.
    pub open spec fn postfix(self) -> Seq<SpecStep>
        decreases self,
    {
        match self {
            Expr::Number(text) => seq![SpecStep::Push(text)],
            Expr::Group(inner) => inner.postfix(),
            Expr::Negate(inner) => inner.postfix().push(SpecStep::Negate),
            Expr::Binary(op, left, right) => (left.postfix() + right.postfix()).push(
                SpecStep::Apply(op),
            ),
        }
    }
}

/// Whether the tokens `part` stand in `ts` from index `pos` on.
pub open spec fn stands_at(ts: Seq<SpecToken>, pos: nat, part: Seq<SpecToken>) -> bool {
    &&& pos + part.len() <= ts.len()
    &&& ts.subrange(pos as int, (pos + part.len()) as int) == part
}

/// Where two parts stand one behind the other, each of them stands.
proof fn lemma_stands_apart(ts: Seq<SpecToken>, pos: nat, a: Seq<SpecToken>, b: Seq<SpecToken>)
    requires
        stands_at(ts, pos, a + b),
    ensures
        stands_at(ts, pos, a),
        stands_at(ts, pos + a.len(), b),
{
    let whole = ts.subrange(pos as int, (pos + (a + b).len()) as int);
    assert(ts.subrange(pos as int, (pos + a.len()) as int) == whole.subrange(0, a.len() as int));
    assert((a + b).subrange(0, a.len() as int) == a);
    assert(ts.subrange((pos + a.len()) as int, (pos + a.len() + b.len()) as int) == whole.subrange(
        a.len() as int,
        (a + b).len() as int,
    ));
    assert((a + b).subrange(a.len() as int, (a + b).len() as int) == b);
}

/// Where a single token stands, it is the token at that index.
proof fn lemma_stands_single(ts: Seq<SpecToken>, pos: nat, token: SpecToken)
    requires
        stands_at(ts, pos, seq![token]),
    ensures
        pos < ts.len(),
        ts[pos as int] == token,
{
    assert(ts.subrange(pos as int, (pos + 1) as int)[0] == seq![token][0]);
}

/// Where two parts stand one behind the other, they stand as one.
proof fn lemma_stands_joined(ts: Seq<SpecToken>, pos: nat, a: Seq<SpecToken>, b: Seq<SpecToken>)
    requires
        stands_at(ts, pos, a),
        stands_at(ts, pos + a.len(), b),
    ensures
        stands_at(ts, pos, a + b),
{
    let whole = ts.subrange(pos as int, (pos + (a + b).len()) as int);
    assert(whole == a + b);
}

/// The token at an index stands there.
proof fn lemma_single_stands(ts: Seq<SpecToken>, pos: nat)
    requires
        pos < ts.len(),
    ensures
        stands_at(ts, pos, seq![ts[pos as int]]),
{
    assert(ts.subrange(pos as int, (pos + 1) as int) == seq![ts[pos as int]]);
}

/// Where a primary stands, the rule for primaries matches it and emits its
/// arithmetic.
pub proof fn lemma_primary_parses(ts: Seq<SpecToken>, pos: nat, e: Expr)
    requires
        e.grammatical(),
        e.tightness() == 2,
        stands_at(ts, pos, e.tokens()),
    ensures
        primary(ts, pos) == (Parse::Done { steps: e.postfix(), consumed: e.tokens().len() }),
    decreases e, 0nat,
{
    match e {
        Expr::Number(text) => {
            lemma_stands_single(ts, pos, SpecToken::Number(text));
        },
        Expr::Group(inner) => {
            let n = inner.tokens().len();
            lemma_stands_apart(
                ts,
                pos,
                seq![SpecToken::LeftParen] + inner.tokens(),
                seq![SpecToken::RightParen],
            );
            lemma_stands_apart(ts, pos, seq![SpecToken::LeftParen], inner.tokens());
            lemma_stands_single(ts, pos, SpecToken::LeftParen);
            lemma_stands_single(ts, pos + 1 + n, SpecToken::RightParen);
            lemma_term_parses(ts, pos + 1, *inner);
            assert(expression(ts, pos + 1) == (Parse::Done {
                steps: inner.postfix(),
                consumed: n,
            }));
        },
        Expr::Negate(inner) => {
            lemma_stands_apart(
                ts,
                pos,
                seq![SpecToken::Operator(Operator::Subtract)],
                inner.tokens(),
            );
            lemma_stands_single(ts, pos, SpecToken::Operator(Operator::Subtract));
            lemma_primary_parses(ts, pos + 1, *inner);
        },
        Expr::Binary(_, _, _) => {},
    }
}

/// Where a product, a quotient or a primary stands, the rule for factors
/// matches it, emits its arithmetic, and goes on from behind it.
pub proof fn lemma_factor_parses(ts: Seq<SpecToken>, pos: nat, e: Expr)
    requires
        e.grammatical(),
        e.tightness() >= 1,
        stands_at(ts, pos, e.tokens()),
    ensures
        factor(ts, pos) == factor_tail(ts, pos + e.tokens().len()).behind(
            e.postfix(),
            e.tokens().len(),
        ),
    decreases e, 1nat,
{
    match e {
        Expr::Binary(op, left, right) => {
            let nl = left.tokens().len();
            let nr = right.tokens().len();
            lemma_stands_apart(
                ts,
                pos,
                left.tokens() + seq![SpecToken::Operator(op)],
                right.tokens(),
            );
            lemma_stands_apart(ts, pos, left.tokens(), seq![SpecToken::Operator(op)]);
            lemma_stands_single(ts, pos + nl, SpecToken::Operator(op));
            lemma_factor_parses(ts, pos, *left);
            lemma_primary_parses(ts, pos + nl + 1, *right);
            let rest = factor_tail(ts, pos + nl + 1 + nr);
            let more = right.postfix().push(SpecStep::Apply(op));
            assert(left.postfix() + (more + rest.steps()) == (left.postfix() + more)
                + rest.steps());
        },
        _ => {
            lemma_primary_parses(ts, pos, e);
        },
    }
}

/// Where an expression stands with neither `*` nor `/` behind it, the rule
/// for terms matches it, emits its arithmetic, and goes on from behind it.
pub proof fn lemma_term_parses(ts: Seq<SpecToken>, pos: nat, e: Expr)
    requires
        e.grammatical(),
        stands_at(ts, pos, e.tokens()),
        multiplicative_at(ts, pos + e.tokens().len()) is None,
    ensures
        term(ts, pos) == term_tail(ts, pos + e.tokens().len()).behind(
            e.postfix(),
            e.tokens().len(),
        ),
    decreases e, 2nat,
{
    if e.tightness() >= 1 {
        lemma_factor_parses(ts, pos, e);
    } else {
        match e {
            Expr::Binary(op, left, right) => {
                let nl = left.tokens().len();
                let nr = right.tokens().len();
                lemma_stands_apart(
                    ts,
                    pos,
                    left.tokens() + seq![SpecToken::Operator(op)],
                    right.tokens(),
                );
                lemma_stands_apart(ts, pos, left.tokens(), seq![SpecToken::Operator(op)]);
                lemma_stands_single(ts, pos + nl, SpecToken::Operator(op));
                lemma_term_parses(ts, pos, *left);
                lemma_factor_parses(ts, pos + nl + 1, *right);
                let rest = term_tail(ts, pos + nl + 1 + nr);
                let more = right.postfix().push(SpecStep::Apply(op));
                assert(left.postfix() + (more + rest.steps()) == (left.postfix() + more)
                    + rest.steps());
            },
            _ => {},
        }
    }
}

/// The tokens of a tree that the grammar describes evaluate without
/// failure, to the arithmetic of the tree in its order.
///
/// So `*` and `/` are carried out before the `+` and `-` around them,
/// operators of one kind from left to right, what stands in parentheses
/// before what stands around it, and a negation before any operator that
/// its operand is joined by.
pub proof fn lemma_tree_evaluates(e: Expr)
    requires
        e.grammatical(),
    ensures
        evaluation_of_tokens(e.tokens()) == (SpecEvaluation { steps: e.postfix(), failure: None }),
{
    let ts = e.tokens();
    assert(ts.subrange(0, ts.len() as int) == ts);
    lemma_term_parses(ts, 0, e);
}

/// What the rule for primaries matches is a primary: a tree that the
/// grammar describes, written with the tokens that the rule consumed.
pub proof fn lemma_primary_has_tree(ts: Seq<SpecToken>, pos: nat) -> (e: Expr)
    requires
        primary(ts, pos) is Done,
    ensures
        e.grammatical(),
        e.tightness() == 2,
        stands_at(ts, pos, e.tokens()),
        primary(ts, pos) == (Parse::Done { steps: e.postfix(), consumed: e.tokens().len() }),
    decreases remaining(ts.len(), pos), 0nat,
{
    lemma_single_stands(ts, pos);
    match ts[pos as int] {
        SpecToken::Number(text) => Expr::Number(text),
        SpecToken::LeftParen => {
            assert(expression(ts, pos + 1) is Done);
            let inner = lemma_term_has_tree(ts, pos + 1);
            let n = inner.tokens().len();
            lemma_single_stands(ts, pos + 1 + n);
            lemma_stands_joined(ts, pos, seq![SpecToken::LeftParen], inner.tokens());
            lemma_stands_joined(
                ts,
                pos,
                seq![SpecToken::LeftParen] + inner.tokens(),
                seq![SpecToken::RightParen],
            );
            Expr::Group(Box::new(inner))
        },
        _ => {
            let inner = lemma_primary_has_tree(ts, pos + 1);
            lemma_stands_joined(
                ts,
                pos,
                seq![SpecToken::Operator(Operator::Subtract)],
                inner.tokens(),
            );
            Expr::Negate(Box::new(inner))
        },
    }
}

/// What the rule for factors matches behind a first operand `left`, which
/// stands from `start` up to `pos`, makes one tree with that operand.
proof fn lemma_factor_tail_has_tree(ts: Seq<SpecToken>, start: nat, pos: nat, left: Expr) -> (e:
    Expr)
    requires
        left.grammatical(),
        left.tightness() >= 1,
        stands_at(ts, start, left.tokens()),
        pos == start + left.tokens().len(),
        factor_tail(ts, pos) is Done,
    ensures
        e.grammatical(),
        e.tightness() >= 1,
        stands_at(ts, start, e.tokens()),
        e.tokens().len() == left.tokens().len() + factor_tail(ts, pos)->consumed,
        multiplicative_at(ts, start + e.tokens().len()) is None,
    decreases remaining(ts.len(), pos), 1nat,
{
    match multiplicative_at(ts, pos) {
        Some(op) => {
            let right = lemma_primary_has_tree(ts, pos + 1);
            let joined = Expr::Binary(op, Box::new(left), Box::new(right));
            lemma_single_stands(ts, pos);
            lemma_stands_joined(ts, start, left.tokens(), seq![SpecToken::Operator(op)]);
            lemma_stands_joined(
                ts,
                start,
                left.tokens() + seq![SpecToken::Operator(op)],
                right.tokens(),
            );
            lemma_factor_tail_has_tree(ts, start, pos + 1 + right.tokens().len(), joined)
        },
        None => left,
    }
}

/// What the rule for factors matches is a tree that the grammar describes,
/// no sum and no difference, written with the tokens that the rule
/// consumed.
pub proof fn lemma_factor_has_tree(ts: Seq<SpecToken>, pos: nat) -> (e: Expr)
    requires
        factor(ts, pos) is Done,
    ensures
        e.grammatical(),
        e.tightness() >= 1,
        stands_at(ts, pos, e.tokens()),
        multiplicative_at(ts, pos + e.tokens().len()) is None,
        factor(ts, pos) == (Parse::Done { steps: e.postfix(), consumed: e.tokens().len() }),
    decreases remaining(ts.len(), pos), 2nat,
{
    let first = lemma_primary_has_tree(ts, pos);
    let e = lemma_factor_tail_has_tree(ts, pos, pos + first.tokens().len(), first);
    lemma_factor_parses(ts, pos, e);
    e
}

/// What the rule for terms matches behind a first operand `left`, which
/// stands from `start` up to `pos`, makes one tree with that operand.
proof fn lemma_term_tail_has_tree(ts: Seq<SpecToken>, start: nat, pos: nat, left: Expr) -> (e:
    Expr)
    requires
        left.grammatical(),
        stands_at(ts, start, left.tokens()),
        pos == start + left.tokens().len(),
        multiplicative_at(ts, pos) is None,
        term_tail(ts, pos) is Done,
    ensures
        e.grammatical(),
        stands_at(ts, start, e.tokens()),
        e.tokens().len() == left.tokens().len() + term_tail(ts, pos)->consumed,
        multiplicative_at(ts, start + e.tokens().len()) is None,
        additive_at(ts, start + e.tokens().len()) is None,
    decreases remaining(ts.len(), pos), 3nat,
{
    match additive_at(ts, pos) {
        Some(op) => {
            let right = lemma_factor_has_tree(ts, pos + 1);
            let joined = Expr::Binary(op, Box::new(left), Box::new(right));
            lemma_single_stands(ts, pos);
            lemma_stands_joined(ts, start, left.tokens(), seq![SpecToken::Operator(op)]);
            lemma_stands_joined(
                ts,
                start,
                left.tokens() + seq![SpecToken::Operator(op)],
                right.tokens(),
            );
            lemma_term_tail_has_tree(ts, start, pos + 1 + right.tokens().len(), joined)
        },
        None => left,
    }
}

/// What the rule for terms matches is a tree that the grammar describes,
/// written with the tokens that the rule consumed.
pub proof fn lemma_term_has_tree(ts: Seq<SpecToken>, pos: nat) -> (e: Expr)
    requires
        term(ts, pos) is Done,
    ensures
        e.grammatical(),
        stands_at(ts, pos, e.tokens()),
        multiplicative_at(ts, pos + e.tokens().len()) is None,
        additive_at(ts, pos + e.tokens().len()) is None,
        term(ts, pos) == (Parse::Done { steps: e.postfix(), consumed: e.tokens().len() }),
    decreases remaining(ts.len(), pos), 4nat,
{
    let first = lemma_factor_has_tree(ts, pos);
    let e = lemma_term_tail_has_tree(ts, pos, pos + first.tokens().len(), first);
    lemma_term_parses(ts, pos, e);
    e
}

/// Tokens evaluate without failure only where they are the tokens of a
/// tree that the grammar describes; the steps are then the arithmetic of
/// that tree in its order.
pub proof fn lemma_success_has_tree(ts: Seq<SpecToken>) -> (e: Expr)
    requires
        evaluation_of_tokens(ts).failure is None,
    ensures
        e.grammatical(),
        e.tokens() == ts,
        evaluation_of_tokens(ts).steps == e.postfix(),
{
    let e = lemma_term_has_tree(ts, 0);
    e
}

/// The tokens of a tree whose numbers are numbers can be told apart.
pub proof fn lemma_tree_is_legible(e: Expr)
    requires
        e.well_written(),
    ensures
        legible(e.tokens()),
    decreases e,
{
    match e {
        Expr::Number(_) => {},
        Expr::Group(inner) => {
            lemma_tree_is_legible(*inner);
        },
        Expr::Negate(inner) => {
            lemma_tree_is_legible(*inner);
            assert(e.tokens()[0] is Operator);
        },
        Expr::Binary(_, left, right) => {
            lemma_tree_is_legible(*left);
            lemma_tree_is_legible(*right);
        },
    }
}

/// What holds of every number among tokens holds of those in each part.
proof fn lemma_numbers_apart(a: Seq<SpecToken>, b: Seq<SpecToken>)
    requires
        numbers_are_literals(a + b),
    ensures
        numbers_are_literals(a),
        numbers_are_literals(b),
{
    assert forall|i: int| 0 <= i < a.len() implies (#[trigger] a[i] matches SpecToken::Number(t)
        ==> is_literal(t)) by {
        assert((a + b)[i] == a[i]);
    }
    assert forall|i: int| 0 <= i < b.len() implies (#[trigger] b[i] matches SpecToken::Number(t)
        ==> is_literal(t)) by {
        assert((a + b)[i + a.len()] == b[i]);
    }
}

/// A tree whose tokens hold no number but numbers is one whose numbers are
/// numbers.
pub proof fn lemma_tree_of_literals(e: Expr)
    requires
        numbers_are_literals(e.tokens()),
    ensures
        e.well_written(),
    decreases e,
{
    match e {
        Expr::Number(text) => {
            assert(e.tokens()[0] == SpecToken::Number(text));
        },
        Expr::Group(inner) => {
            lemma_numbers_apart(
                seq![SpecToken::LeftParen] + inner.tokens(),
                seq![SpecToken::RightParen],
            );
            lemma_numbers_apart(seq![SpecToken::LeftParen], inner.tokens());
            lemma_tree_of_literals(*inner);
        },
        Expr::Negate(inner) => {
            lemma_numbers_apart(seq![SpecToken::Operator(Operator::Subtract)], inner.tokens());
            lemma_tree_of_literals(*inner);
        },
        Expr::Binary(op, left, right) => {
            lemma_numbers_apart(left.tokens() + seq![SpecToken::Operator(op)], right.tokens());
            lemma_numbers_apart(left.tokens(), seq![SpecToken::Operator(op)]);
            lemma_tree_of_literals(*left);
            lemma_tree_of_literals(*right);
        },
    }
}

/// The text of a tree whose numbers are numbers holds no whitespace.
pub proof fn lemma_tree_text_is_stripped(e: Expr)
    requires
        e.well_written(),
    ensures
        stripped(e.text()) == e.text(),
{
    lemma_tree_is_legible(e);
    lemma_written_alphabet(e.tokens());
    lemma_stripped_keeps_the_rest(e.text());
}

/// An expression written out evaluates without failure, to its arithmetic
/// in its order, wherever whitespace stands in the text.
///
/// `text` is any text that, without its whitespace, is that of a tree `e`
/// that the grammar describes and whose numbers are numbers.
pub proof fn lemma_text_evaluates(e: Expr, text: Seq<char>)
    requires
        e.grammatical(),
        e.well_written(),
        stripped(text) == e.text(),
    ensures
        evaluation_of(text) == (SpecEvaluation { steps: e.postfix(), failure: None }),
{
    lemma_tree_is_legible(e);
    lemma_written_alphabet(e.tokens());
    lemma_written_scans(e.tokens());
    lemma_tree_evaluates(e);
}

/// A text evaluates without failure only where, without its whitespace, it
/// is the text of a tree that the grammar describes and whose numbers are
/// numbers; the steps are then the arithmetic of that tree in its order.
pub proof fn lemma_success_is_written_tree(text: Seq<char>) -> (e: Expr)
    requires
        evaluation_of(text).failure is None,
    ensures
        e.grammatical(),
        e.well_written(),
        stripped(text) == e.text(),
        evaluation_of(text).steps == e.postfix(),
{
    let clean = stripped(text);
    let tokens = scan(clean, 0)->Ok_0;
    lemma_scan_spells(clean, 0);
    let e = lemma_success_has_tree(tokens);
    lemma_tree_of_literals(e);
    e
}

} // verus!
