//! How tokens are written, and that the lexer reads back what was written.

use vstd::prelude::*;

use crate::error::SpecError;
use crate::lexer::{
    is_literal, lemma_run_length_bound, lex, remaining, run_length, scan, stripped, symbol,
};
use crate::token::{is_number_char, Operator, SpecToken};

verus! {

/// The characters that a token is written with.
pub open spec fn spelling(token: SpecToken) -> Seq<char> {
    match token {
        SpecToken::Number(text) => text,
        SpecToken::Operator(Operator::Add) => seq!['+'],
        SpecToken::Operator(Operator::Subtract) => seq!['-'],
        SpecToken::Operator(Operator::Multiply) => seq!['*'],
        SpecToken::Operator(Operator::Divide) => seq!['/'],
        SpecToken::LeftParen => seq!['('],
        SpecToken::RightParen => seq![')'],
    }
}

/// The text of `tokens` written one behind the other, with nothing between
/// them.
pub open spec fn written(tokens: Seq<SpecToken>) -> Seq<char>
    decreases tokens.len(),
{
    if tokens.len() == 0 {
        Seq::empty()
    } else {
        spelling(tokens.first()) + written(tokens.drop_first())
    }
}

/// Whether every number among `tokens` is a number as the lexer accepts
/// it.
pub open spec fn numbers_are_literals(tokens: Seq<SpecToken>) -> bool {
    forall|i: int|
        0 <= i < tokens.len() ==> (#[trigger] tokens[i] matches SpecToken::Number(text)
            ==> is_literal(text))
}

/// Whether `tokens` can be told apart again once they are written: every
/// number among them is a number as the lexer accepts it, and no two
/// numbers are neighbours.
pub open spec fn legible(tokens: Seq<SpecToken>) -> bool {
    &&& numbers_are_literals(tokens)
    &&& forall|i: int|
        0 <= i && i + 1 < tokens.len() ==> !(#[trigger] tokens[i] is Number && tokens[i
            + 1] is Number)
}

/// Tokens that can be told apart can still be told apart without the first
/// of them.
proof fn lemma_legible_rest(tokens: Seq<SpecToken>)
    requires
        legible(tokens),
        tokens.len() > 0,
    ensures
        legible(tokens.drop_first()),
{
}

/// The number characters from `start` on are a run of exactly `n`, where
/// the `n` characters are number characters and the next one, if there is
/// one, is not.
proof fn lemma_run_length_is(text: Seq<char>, start: nat, n: nat)
    requires
        start + n <= text.len(),
        forall|i: int| start <= i < start + n ==> is_number_char(#[trigger] text[i]),
        start + n < text.len() ==> !is_number_char(text[(start + n) as int]),
    ensures
        run_length(text, start) == n,
    decreases n,
{
    if n > 0 {
        lemma_run_length_is(text, start + 1, (n - 1) as nat);
    }
}

/// The run of number characters at an index of a text is the run at that
/// index of what is left of the text behind any beginning.
proof fn lemma_run_length_behind(head: Seq<char>, tail: Seq<char>, k: nat)
    ensures
        run_length(head + tail, head.len() + k) == run_length(tail, k),
    decreases remaining(tail.len(), k),
{
    if k < tail.len() {
        if is_number_char(tail[k as int]) {
            lemma_run_length_behind(head, tail, k + 1);
        }
    }
}

/// Scanning from an index of a text is scanning what is left of the text
/// behind any beginning: the scan never looks back.
pub proof fn lemma_scan_behind(head: Seq<char>, tail: Seq<char>, k: nat)
    ensures
        scan(head + tail, head.len() + k) == scan(tail, k),
    decreases remaining(tail.len(), k),
{
    let text = head + tail;
    let pos = head.len() + k;
    if k < tail.len() {
        if is_number_char(tail[k as int]) {
            lemma_run_length_behind(head, tail, k);
            lemma_run_length_bound(tail, k);
            let n = run_length(tail, k);
            assert(text.subrange(pos as int, (pos + n) as int) == tail.subrange(
                k as int,
                (k + n) as int,
            ));
            lemma_scan_behind(head, tail, k + n);
        } else {
            lemma_scan_behind(head, tail, k + 1);
        }
    }
}

/// The text of tokens that can be told apart holds digits, decimal points,
/// operators and parentheses, and nothing else.
pub proof fn lemma_written_alphabet(tokens: Seq<SpecToken>)
    requires
        legible(tokens),
    ensures
        forall|i: int|
            0 <= i < written(tokens).len() ==> is_number_char(#[trigger] written(tokens)[i])
                || symbol(written(tokens)[i]) is Some,
        tokens.len() > 0 ==> written(tokens).len() > 0,
    decreases tokens.len(),
{
    if tokens.len() > 0 {
        lemma_written_alphabet(tokens.drop_first());
    }
}

/// Tokens that can be told apart are read back by the lexer from their
/// text, each of them and in their order.
pub proof fn lemma_written_scans(tokens: Seq<SpecToken>)
    requires
        legible(tokens),
    ensures
        scan(written(tokens), 0) == Ok::<Seq<SpecToken>, SpecError>(tokens),
    decreases tokens.len(),
{
    if tokens.len() == 0 {
        assert(tokens == Seq::<SpecToken>::empty());
    } else {
        let first = tokens.first();
        let rest = tokens.drop_first();
        let text = written(tokens);
        let head = spelling(first);
        lemma_legible_rest(tokens);
        lemma_written_scans(rest);
        lemma_scan_behind(head, written(rest), 0);
        assert(tokens == seq![first] + rest);
        match first {
            SpecToken::Number(literal) => {
                assert(text.subrange(0, literal.len() as int) == literal);
                lemma_run_length_is(text, 0, literal.len());
            },
            _ => {},
        }
    }
}

/// What a scan from an index makes of a text, where it succeeds: tokens
/// that can be told apart, whose text is the text from that index on, and
/// of which the first is a number just where a number character stands at
/// the index.
pub proof fn lemma_scan_spells(text: Seq<char>, pos: nat)
    requires
        pos <= text.len(),
        scan(text, pos) is Ok,
    ensures
        written(scan(text, pos)->Ok_0) == text.skip(pos as int),
        legible(scan(text, pos)->Ok_0),
        pos < text.len() ==> scan(text, pos)->Ok_0.len() > 0 && (scan(text, pos)->Ok_0[0] is Number
            <==> is_number_char(text[pos as int])),
    decreases remaining(text.len(), pos),
{
    let tokens = scan(text, pos)->Ok_0;
    if pos < text.len() {
        let c = text[pos as int];
        let next = if is_number_char(c) {
            pos + run_length(text, pos)
        } else {
            pos + 1
        };
        lemma_run_length_bound(text, pos);
        lemma_scan_spells(text, next);
        let rest = scan(text, next)->Ok_0;
        assert(tokens.drop_first() == rest);
    }
}

/// What the lexer reads from an expression spells the expression without
/// its whitespace: no character is lost, none is added, and the order is
/// kept.
pub proof fn lemma_lex_spells(expression: Seq<char>)
    requires
        lex(expression) is Ok,
    ensures
        written(lex(expression)->Ok_0) == stripped(expression),
        legible(lex(expression)->Ok_0),
{
    lemma_scan_spells(stripped(expression), 0);
}

} // verus!
