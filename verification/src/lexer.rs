//! The lexer: from text to tokens.

use vstd::prelude::*;

use crate::error::{CalcError, SpecError};
use crate::spelling::{legible, lemma_scan_spells, written};
use crate::token::{is_digit, is_number_char, Operator, SpecToken, Token};

verus! {

/// Whether `c` is a whitespace character: one of the code points that
/// Unicode marks as `White_Space`.
pub open spec fn spec_is_whitespace(c: char) -> bool {
    ||| '\u{9}' <= c <= '\u{D}'
    ||| c == ' '
    ||| c == '\u{85}'
    ||| c == '\u{A0}'
    ||| c == '\u{1680}'
    ||| '\u{2000}' <= c <= '\u{200A}'
    ||| c == '\u{2028}'
    ||| c == '\u{2029}'
    ||| c == '\u{202F}'
    ||| c == '\u{205F}'
    ||| c == '\u{3000}'
}

/// Tells whether `c` is a whitespace character.
#[verifier::when_used_as_spec(spec_is_whitespace)]
pub fn is_whitespace(c: char) -> (r: bool)
    ensures
        r == spec_is_whitespace(c),
{
    ('\u{9}' <= c && c <= '\u{D}') || c == ' ' || c == '\u{85}' || c == '\u{A0}' || c == '\u{1680}'
        || ('\u{2000}' <= c && c <= '\u{200A}') || c == '\u{2028}' || c == '\u{2029}' || c
        == '\u{202F}' || c == '\u{205F}' || c == '\u{3000}'
}

/// The characters that count: all but whitespace.
pub open spec fn counts() -> spec_fn(char) -> bool {
    |c: char| !spec_is_whitespace(c)
}

/// `text` without its whitespace characters, the others in their order.
pub open spec fn stripped(text: Seq<char>) -> Seq<char> {
    text.filter(counts())
}

/// Removing whitespace from a text with one more character at its end:
/// the character stays unless it is whitespace.
pub proof fn lemma_stripped_push(text: Seq<char>, c: char)
    ensures
        stripped(text.push(c)) == if spec_is_whitespace(c) {
            stripped(text)
        } else {
            stripped(text).push(c)
        },
{
    reveal(Seq::filter);
    assert(text.push(c).drop_last() == text);
}

/// Removing whitespace from a text in two parts removes it from each part.
pub proof fn lemma_stripped_concat(a: Seq<char>, b: Seq<char>)
    ensures
        stripped(a + b) == stripped(a) + stripped(b),
{
}

/// No whitespace is left in a text that whitespace was removed from.
pub proof fn lemma_stripped_holds_no_whitespace(text: Seq<char>)
    ensures
        forall|i: int|
            0 <= i < stripped(text).len() ==> !spec_is_whitespace(#[trigger] stripped(text)[i]),
{
}

/// A text without whitespace stays as it is.
pub proof fn lemma_stripped_keeps_the_rest(text: Seq<char>)
    requires
        forall|i: int| 0 <= i < text.len() ==> !spec_is_whitespace(#[trigger] text[i]),
    ensures
        stripped(text) == text,
    decreases text.len(),
{
    if text.len() > 0 {
        lemma_stripped_keeps_the_rest(text.drop_last());
        lemma_stripped_push(text.drop_last(), text.last());
        assert(text.drop_last().push(text.last()) == text);
    }
}

/// Removing whitespace a second time changes nothing.
pub proof fn lemma_stripped_twice(text: Seq<char>)
    ensures
        stripped(stripped(text)) == stripped(text),
{
    lemma_stripped_keeps_the_rest(stripped(text));
}

/// A whitespace character put anywhere into a text is removed with the
/// rest.
pub proof fn lemma_stripped_insert(text: Seq<char>, i: int, c: char)
    requires
        0 <= i <= text.len(),
        spec_is_whitespace(c),
    ensures
        stripped(text.insert(i, c)) == stripped(text),
{
    let head = text.subrange(0, i);
    let tail = text.subrange(i, text.len() as int);
    assert(text == head + tail);
    lemma_stripped_push(head, c);
}

/// Removes every whitespace character from `expression`.
pub fn strip_whitespace(expression: &str) -> (text: Vec<char>)
    ensures
        text@ == stripped(expression@),
{
    let mut text: Vec<char> = Vec::new();
    for c in it: expression.chars()
        invariant
            it.seq() == expression@,
            text@ == stripped(expression@.take(it.index() as int)),
    {
        proof {
            let seen = expression@.take(it.index() as int);
            assert(expression@.take(it.index() + 1) == seen.push(c));
            lemma_stripped_push(seen, c);
        }
        if !is_whitespace(c) {
            text.push(c);
        }
    }
    assert(expression@.take(expression@.len() as int) == expression@);
    text
}

/// The token that the single character `c` stands for, if there is one:
/// an operator or a parenthesis.
pub open spec fn symbol(c: char) -> Option<SpecToken> {
    if c == '+' {
        Some(SpecToken::Operator(Operator::Add))
    } else if c == '-' {
        Some(SpecToken::Operator(Operator::Subtract))
    } else if c == '*' {
        Some(SpecToken::Operator(Operator::Multiply))
    } else if c == '/' {
        Some(SpecToken::Operator(Operator::Divide))
    } else if c == '(' {
        Some(SpecToken::LeftParen)
    } else if c == ')' {
        Some(SpecToken::RightParen)
    } else {
        None
    }
}

/// How many characters of `text`, from index `start` on, stand in one
/// unbroken run of digits and decimal points.
pub open spec fn run_length(text: Seq<char>, start: nat) -> nat
    decreases text.len() - start,
{
    if start < text.len() && is_number_char(text[start as int]) {
        1 + run_length(text, start + 1)
    } else {
        0
    }
}

/// Whether `text` is a number as the lexer accepts it: digits with at most
/// one decimal point among them, and at least one digit.
pub open spec fn is_literal(text: Seq<char>) -> bool {
    &&& forall|i: int| 0 <= i < text.len() ==> is_number_char(#[trigger] text[i])
    &&& exists|i: int| 0 <= i < text.len() && is_digit(#[trigger] text[i])
    &&& forall|i: int, j: int|
        0 <= i < j < text.len() ==> !(#[trigger] text[i] == '.' && #[trigger] text[j] == '.')
}

/// What is left to scan of a text of `len` characters at index `pos`.
pub open spec fn remaining(len: nat, pos: nat) -> nat {
    if pos < len {
        (len - pos) as nat
    } else {
        0
    }
}

/// The outcome `rest` of scanning the remainder of a text, behind the tokens
/// `first` that came before it.
pub open spec fn after(first: Seq<SpecToken>, rest: Result<Seq<SpecToken>, SpecError>) -> Result<
    Seq<SpecToken>,
    SpecError,
> {
    match rest {
        Ok(tokens) => Ok(first + tokens),
        Err(error) => Err(error),
    }
}

/// The tokens of `text` from index `pos` on, or the first error on the way.
///
/// A run of digits and decimal points is taken whole and must be a number;
/// an operator or a parenthesis is one token; any other character is an
/// error.
pub open spec fn scan(text: Seq<char>, pos: nat) -> Result<Seq<SpecToken>, SpecError>
    decreases remaining(text.len(), pos),
{
    if pos >= text.len() {
        Ok(Seq::empty())
    } else if is_number_char(text[pos as int]) {
        let end = pos + run_length(text, pos);
        let literal = text.subrange(pos as int, end as int);
        if is_literal(literal) {
            after(seq![SpecToken::Number(literal)], scan(text, end))
        } else {
            Err(SpecError::InvalidNumber(literal))
        }
    } else {
        match symbol(text[pos as int]) {
            Some(token) => after(seq![token], scan(text, pos + 1)),
            None => Err(SpecError::InvalidCharacter(text[pos as int])),
        }
    }
}

/// The tokens of an expression: those of its text with the whitespace
/// removed.
pub open spec fn lex(expression: Seq<char>) -> Result<Seq<SpecToken>, SpecError> {
    scan(stripped(expression), 0)
}

/// Whether the result `r` of a scan is the outcome `expected`.
pub open spec fn scanned(
    r: Result<Vec<Token>, CalcError>,
    expected: Result<Seq<SpecToken>, SpecError>,
) -> bool {
    match expected {
        Ok(tokens) => r matches Ok(v) && v.deep_view() == tokens,
        Err(error) => r matches Err(e) && e@ == error,
    }
}

/// A run of number characters ends within the text.
pub proof fn lemma_run_length_bound(text: Seq<char>, start: nat)
    ensures
        start <= text.len() ==> start + run_length(text, start) <= text.len(),
        forall|i: int|
            start <= i < start + run_length(text, start) ==> is_number_char(#[trigger] text[i]),
        start + run_length(text, start) < text.len() ==> !is_number_char(
            text[(start + run_length(text, start)) as int],
        ),
    decreases text.len() - start,
{
    if start < text.len() && is_number_char(text[start as int]) {
        lemma_run_length_bound(text, start + 1);
    }
}

/// Tells whether `c` is a decimal digit or the decimal point.
fn number_char(c: char) -> (r: bool)
    ensures
        r == is_number_char(c),
{
    ('0' <= c && c <= '9') || c == '.'
}

/// Tells whether `text` is a number: digits with at most one decimal point
/// among them, and at least one digit.
pub fn is_number(text: &[char]) -> (r: bool)
    ensures
        r == is_literal(text@),
{
    let mut digits: usize = 0;
    let mut points: usize = 0;
    let mut i: usize = 0;
    while i < text.len()
        invariant
            i <= text.len(),
            digits <= i,
            points <= 2,
            forall|k: int| 0 <= k < i ==> is_number_char(#[trigger] text@[k]),
            digits > 0 <==> exists|k: int| 0 <= k < i && is_digit(#[trigger] text@[k]),
            points == 0 ==> forall|k: int| 0 <= k < i ==> #[trigger] text@[k] != '.',
            points == 1 ==> exists|p: int|
                0 <= p < i && #[trigger] text@[p] == '.' && forall|k: int|
                    0 <= k < i && k != p ==> #[trigger] text@[k] != '.',
            points == 2 ==> exists|p: int, q: int|
                0 <= p < q < i && #[trigger] text@[p] == '.' && #[trigger] text@[q] == '.',
        decreases text.len() - i,
    {
        let c = text[i];
        if c == '.' {
            if points < 2 {
                points += 1;
            }
        } else if '0' <= c && c <= '9' {
            digits += 1;
        } else {
            return false;
        }
        i += 1;
    }
    digits > 0 && points <= 1
}

/// The token that the character `c` stands for by itself, if there is one.
fn symbol_token(c: char) -> (r: Option<Token>)
    ensures
        match symbol(c) {
            Some(token) => r matches Some(t) && t@ == token,
            None => r is None,
        },
{
    if c == '+' {
        Some(Token::Operator(Operator::Add))
    } else if c == '-' {
        Some(Token::Operator(Operator::Subtract))
    } else if c == '*' {
        Some(Token::Operator(Operator::Multiply))
    } else if c == '/' {
        Some(Token::Operator(Operator::Divide))
    } else if c == '(' {
        Some(Token::LeftParen)
    } else if c == ')' {
        Some(Token::RightParen)
    } else {
        None
    }
}

/// Copies the unbroken run of digits and decimal points that begins at
/// `start`.
fn take_run(text: &[char], start: usize) -> (run: Vec<char>)
    requires
        start <= text.len(),
    ensures
        run@ == text@.subrange(start as int, start + run_length(text@, start as nat)),
        start + run_length(text@, start as nat) <= text.len(),
{
    let mut run: Vec<char> = Vec::new();
    let mut pos: usize = start;
    while pos < text.len() && number_char(text[pos])
        invariant
            start <= pos <= text.len(),
            run@ == text@.subrange(start as int, pos as int),
            (pos - start) + run_length(text@, pos as nat) == run_length(text@, start as nat),
        decreases text.len() - pos,
    {
        run.push(text[pos]);
        pos += 1;
    }
    run
}

/// Scans a text that holds no whitespace into its tokens.
///
/// The scan stops at the first character that no token can contain and at
/// the first run of digits and decimal points that is not a number. Where
/// it succeeds, the tokens spell the text: none is left out and none is put
/// in.
pub fn tokenize_chars(text: &[char]) -> (r: Result<Vec<Token>, CalcError>)
    ensures
        scanned(r, scan(text@, 0)),
        r matches Ok(tokens) ==> legible(tokens.deep_view()) && written(tokens.deep_view())
            == text@,
{
    proof {
        if scan(text@, 0) is Ok {
            lemma_scan_spells(text@, 0);
        }
    }
    let mut tokens: Vec<Token> = Vec::new();
    let mut pos: usize = 0;
    while pos < text.len()
        invariant
            pos <= text.len(),
            scan(text@, 0) == after(tokens.deep_view(), scan(text@, pos as nat)),
        decreases text.len() - pos,
    {
        let ghost before = tokens.deep_view();
        let c = text[pos];
        if number_char(c) {
            let literal = take_run(text, pos);
            if !is_number(literal.as_slice()) {
                return Err(CalcError::InvalidNumber(literal));
            }
            pos = pos + literal.len();
            tokens.push(Token::Number(literal));
            proof {
                let shown = seq![SpecToken::Number(literal@)];
                assert(tokens.deep_view() == before + shown);
                lemma_after_after(before, shown, scan(text@, pos as nat));
            }
        } else {
            match symbol_token(c) {
                Some(token) => {
                    pos += 1;
                    let ghost shown = token@;
                    tokens.push(token);
                    proof {
                        assert(tokens.deep_view() == before + seq![shown]);
                        lemma_after_after(before, seq![shown], scan(text@, pos as nat));
                    }
                },
                None => {
                    return Err(CalcError::InvalidCharacter(c));
                },
            }
        }
    }
    Ok(tokens)
}

/// Tokens put in front in two parts are put in front as one.
proof fn lemma_after_after(
    a: Seq<SpecToken>,
    b: Seq<SpecToken>,
    rest: Result<Seq<SpecToken>, SpecError>,
)
    ensures
        after(a, after(b, rest)) == after(a + b, rest),
{
    match rest {
        Ok(tokens) => {
            assert(a + (b + tokens) == (a + b) + tokens);
        },
        Err(_) => {},
    }
}

/// Turns an expression into its tokens, passing over whitespace.
///
/// Whitespace is removed before the scan, so that it separates nothing:
/// `1 2` is the number `12`. Where the scan succeeds, the tokens spell the
/// expression without its whitespace.
pub fn tokenize(expression: &str) -> (r: Result<Vec<Token>, CalcError>)
    ensures
        scanned(r, lex(expression@)),
        r matches Ok(tokens) ==> legible(tokens.deep_view()) && written(tokens.deep_view())
            == stripped(expression@),
{
    let text = strip_whitespace(expression);
    tokenize_chars(text.as_slice())
}

} // verus!
