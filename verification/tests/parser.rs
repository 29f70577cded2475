use calc::{
    parse_expression, parse_factor, parse_primary, parse_term, tokenize, CalcError, Evaluation,
    Operator, Step, Token,
};

fn push(text: &str) -> Step {
    Step::Push(text.chars().collect())
}

fn tokens(text: &str) -> Vec<Token> {
    tokenize(text).unwrap()
}

fn parts(text: &str) -> (Vec<Step>, Option<CalcError>) {
    Evaluation::of(text).into_parts()
}

fn steps(text: &str) -> Vec<Step> {
    let evaluation = Evaluation::of(text);
    assert_eq!(evaluation.failure(), None);
    evaluation.steps().clone()
}

fn failure(text: &str) -> Option<CalcError> {
    Evaluation::of(text).failure().cloned()
}

const ADD: Step = Step::Apply(Operator::Add);
const SUBTRACT: Step = Step::Apply(Operator::Subtract);
const MULTIPLY: Step = Step::Apply(Operator::Multiply);
const DIVIDE: Step = Step::Apply(Operator::Divide);

#[test]
fn operators_of_one_kind_are_carried_out_from_the_left() {
    assert_eq!(steps("10-4-2"), vec![push("10"), push("4"), SUBTRACT, push("2"), SUBTRACT]);
    assert_eq!(steps("8/4*2"), vec![push("8"), push("4"), DIVIDE, push("2"), MULTIPLY]);
}

#[test]
fn products_are_carried_out_before_sums() {
    assert_eq!(steps("2+3*4"), vec![push("2"), push("3"), push("4"), MULTIPLY, ADD]);
    assert_eq!(steps("2*3+4"), vec![push("2"), push("3"), MULTIPLY, push("4"), ADD]);
}

#[test]
fn parentheses_are_carried_out_first() {
    assert_eq!(steps("(2+3)*4"), vec![push("2"), push("3"), ADD, push("4"), MULTIPLY]);
    assert_eq!(steps("2*(3+4)"), vec![push("2"), push("3"), push("4"), ADD, MULTIPLY]);
    assert_eq!(
        steps("(2+(3*4))*2"),
        vec![push("2"), push("3"), push("4"), MULTIPLY, ADD, push("2"), MULTIPLY]
    );
}

#[test]
fn negation_is_carried_out_before_any_operator() {
    assert_eq!(steps("-5+3"), vec![push("5"), Step::Negate, push("3"), ADD]);
    assert_eq!(steps("2*-3"), vec![push("2"), push("3"), Step::Negate, MULTIPLY]);
    assert_eq!(steps("--5"), vec![push("5"), Step::Negate, Step::Negate]);
    assert_eq!(steps("-(1-2)"), vec![push("1"), push("2"), SUBTRACT, Step::Negate]);
}

#[test]
fn numbers_keep_their_spelling() {
    assert_eq!(steps("007.50"), vec![push("007.50")]);
    assert_eq!(steps(" 3 . 1 4 "), vec![push("3.14")]);
}

#[test]
fn a_failure_keeps_the_steps_before_it() {
    assert_eq!(
        parts("1/0)"),
        (vec![push("1"), push("0"), DIVIDE], Some(CalcError::TrailingTokens))
    );
    assert_eq!(
        parts("2+*3"),
        (vec![push("2")], Some(CalcError::UnexpectedToken))
    );
    assert_eq!(
        parts("(2+3"),
        (vec![push("2"), push("3"), ADD], Some(CalcError::UnclosedParen))
    );
    assert_eq!(
        parts("2*"),
        (vec![push("2")], Some(CalcError::UnexpectedEnd))
    );
}

#[test]
fn lexical_errors_come_before_all_steps() {
    assert_eq!(
        parts("1+2+a"),
        (vec![], Some(CalcError::InvalidCharacter('a')))
    );
    assert_eq!(
        parts("1+2+3..4"),
        (vec![], Some(CalcError::InvalidNumber("3..4".chars().collect())))
    );
    assert_eq!(
        parts(" \t "),
        (vec![], Some(CalcError::EmptyExpression))
    );
}

#[test]
fn each_syntax_error_has_its_input() {
    assert_eq!(failure("2+"), Some(CalcError::UnexpectedEnd));
    assert_eq!(failure("-"), Some(CalcError::UnexpectedEnd));
    assert_eq!(failure("("), Some(CalcError::UnexpectedEnd));
    assert_eq!(failure("*2"), Some(CalcError::UnexpectedToken));
    assert_eq!(failure("/2"), Some(CalcError::UnexpectedToken));
    assert_eq!(failure("+2"), Some(CalcError::UnexpectedToken));
    assert_eq!(failure(")"), Some(CalcError::UnexpectedToken));
    assert_eq!(failure("()"), Some(CalcError::UnexpectedToken));
    assert_eq!(failure("2+)"), Some(CalcError::UnexpectedToken));
    assert_eq!(failure("(2"), Some(CalcError::UnclosedParen));
    assert_eq!(failure("((2)"), Some(CalcError::UnclosedParen));
    assert_eq!(failure("(2("), Some(CalcError::UnclosedParen));
    assert_eq!(failure("(2+3*4"), Some(CalcError::UnclosedParen));
    assert_eq!(failure("2)"), Some(CalcError::TrailingTokens));
    assert_eq!(failure("2+3)"), Some(CalcError::TrailingTokens));
    assert_eq!(failure("2(3)"), Some(CalcError::TrailingTokens));
    assert_eq!(failure("(2)3"), Some(CalcError::TrailingTokens));
}

#[test]
fn evaluating_tokens_is_evaluating_their_text() {
    for text in ["2+3*4", "(2+3", "1/0)", "--5", "2+*3", "((1))", "1-2-3)4"] {
        assert_eq!(Evaluation::of_tokens(&tokens(text)), Evaluation::of(text), "{}", text);
    }
}

#[test]
fn no_tokens_end_unexpectedly() {
    assert_eq!(Evaluation::of_tokens(&[]).into_parts(), (vec![], Some(CalcError::UnexpectedEnd)));
}

#[test]
fn two_numbers_in_a_row_leave_tokens_behind() {
    let two = vec![Token::Number(vec!['1']), Token::Number(vec!['2'])];
    assert_eq!(
        Evaluation::of_tokens(&two).into_parts(),
        (vec![push("1")], Some(CalcError::TrailingTokens))
    );
}

#[test]
fn a_primary_ends_behind_its_last_token() {
    let ts = tokens("-(2+3)*4");
    let mut steps = Vec::new();
    assert_eq!(parse_primary(&ts, 0, &mut steps), Ok(6));
    assert_eq!(steps, vec![push("2"), push("3"), ADD, Step::Negate]);
    let mut steps = vec![Step::Negate];
    assert_eq!(parse_primary(&ts, 2, &mut steps), Ok(3));
    assert_eq!(steps, vec![Step::Negate, push("2")]);
    let mut steps = Vec::new();
    assert_eq!(parse_primary(&ts, 3, &mut steps), Err(CalcError::UnexpectedToken));
    assert_eq!(steps, vec![]);
    assert_eq!(parse_primary(&ts, 8, &mut steps), Err(CalcError::UnexpectedEnd));
    assert_eq!(parse_primary(&ts, 800, &mut steps), Err(CalcError::UnexpectedEnd));
    assert_eq!(steps, vec![]);
}

#[test]
fn a_factor_stops_at_a_sum() {
    let ts = tokens("2*3/4+5*6");
    let mut steps = Vec::new();
    assert_eq!(parse_factor(&ts, 0, &mut steps), Ok(5));
    assert_eq!(steps, vec![push("2"), push("3"), MULTIPLY, push("4"), DIVIDE]);
    let mut steps = Vec::new();
    assert_eq!(parse_factor(&ts, 2, &mut steps), Ok(5));
    assert_eq!(steps, vec![push("3"), push("4"), DIVIDE]);
    let mut steps = Vec::new();
    assert_eq!(parse_factor(&ts, 6, &mut steps), Ok(9));
    assert_eq!(steps, vec![push("5"), push("6"), MULTIPLY]);
}

#[test]
fn a_term_stops_at_a_parenthesis() {
    let ts = tokens("(1+2*3-4)5");
    let mut steps = Vec::new();
    assert_eq!(parse_term(&ts, 1, &mut steps), Ok(8));
    assert_eq!(steps, vec![push("1"), push("2"), push("3"), MULTIPLY, ADD, push("4"), SUBTRACT]);
    let mut steps = Vec::new();
    assert_eq!(parse_expression(&ts, 1, &mut steps), Ok(8));
    let mut steps = Vec::new();
    assert_eq!(parse_expression(&ts, 0, &mut steps), Ok(9));
    let mut steps = Vec::new();
    assert_eq!(parse_term(&ts, 9, &mut steps), Ok(10));
    assert_eq!(steps, vec![push("5")]);
}

#[test]
fn a_rule_that_fails_leaves_what_it_emitted() {
    let ts = tokens("1+2*(3-)");
    let mut steps = vec![push("0")];
    assert_eq!(parse_term(&ts, 0, &mut steps), Err(CalcError::UnexpectedToken));
    assert_eq!(steps, vec![push("0"), push("1"), push("2"), push("3")]);
    let ts = tokens("1*2+");
    let mut steps = Vec::new();
    assert_eq!(parse_expression(&ts, 0, &mut steps), Err(CalcError::UnexpectedEnd));
    assert_eq!(steps, vec![push("1"), push("2"), MULTIPLY]);
    let ts = tokens("1*(2");
    let mut steps = Vec::new();
    assert_eq!(parse_factor(&ts, 0, &mut steps), Err(CalcError::UnclosedParen));
    assert_eq!(steps, vec![push("1"), push("2")]);
}

#[test]
fn deep_nesting_is_parsed() {
    let depth = 200;
    let mut text = String::new();
    for _ in 0..depth {
        text.push('(');
    }
    text.push('7');
    for _ in 0..depth {
        text.push(')');
    }
    assert_eq!(Evaluation::of(&text).into_parts(), (vec![push("7")], None));
    let minus = "-".repeat(depth);
    let mut expected = vec![push("1")];
    for _ in 0..depth {
        expected.push(Step::Negate);
    }
    assert_eq!(Evaluation::of(&format!("{}1", minus)).into_parts(), (expected, None));
}

enum Tree {
    Number(&'static str),
    Group(Box<Tree>),
    Negate(Box<Tree>),
    Binary(Operator, Box<Tree>, Box<Tree>),
}

fn tightness(tree: &Tree) -> u8 {
    match tree {
        Tree::Binary(Operator::Multiply | Operator::Divide, _, _) => 1,
        Tree::Binary(_, _, _) => 0,
        _ => 2,
    }
}

fn grammatical(tree: &Tree) -> bool {
    match tree {
        Tree::Number(_) => true,
        Tree::Group(inner) => grammatical(inner),
        Tree::Negate(inner) => tightness(inner) == 2 && grammatical(inner),
        Tree::Binary(op, left, right) => {
            grammatical(left)
                && grammatical(right)
                && match op {
                    Operator::Multiply | Operator::Divide => {
                        tightness(left) >= 1 && tightness(right) == 2
                    }
                    _ => tightness(right) >= 1,
                }
        }
    }
}

fn write(tree: &Tree, spaced: bool, text: &mut String) {
    if spaced {
        text.push(' ');
    }
    match tree {
        Tree::Number(number) => text.push_str(number),
        Tree::Group(inner) => {
            text.push('(');
            write(inner, spaced, text);
            text.push(')');
        }
        Tree::Negate(inner) => {
            text.push('-');
            write(inner, spaced, text);
        }
        Tree::Binary(op, left, right) => {
            write(left, spaced, text);
            text.push(match op {
                Operator::Add => '+',
                Operator::Subtract => '-',
                Operator::Multiply => '*',
                Operator::Divide => '/',
            });
            write(right, spaced, text);
        }
    }
    if spaced {
        text.push('\t');
    }
}

fn postfix(tree: &Tree, steps: &mut Vec<Step>) {
    match tree {
        Tree::Number(number) => steps.push(push(number)),
        Tree::Group(inner) => postfix(inner, steps),
        Tree::Negate(inner) => {
            postfix(inner, steps);
            steps.push(Step::Negate);
        }
        Tree::Binary(op, left, right) => {
            postfix(left, steps);
            postfix(right, steps);
            steps.push(Step::Apply(*op));
        }
    }
}

fn copy(tree: &Tree) -> Tree {
    match tree {
        Tree::Number(number) => Tree::Number(number),
        Tree::Group(inner) => Tree::Group(Box::new(copy(inner))),
        Tree::Negate(inner) => Tree::Negate(Box::new(copy(inner))),
        Tree::Binary(op, left, right) => {
            Tree::Binary(*op, Box::new(copy(left)), Box::new(copy(right)))
        }
    }
}

fn grown(trees: &[Tree]) -> Vec<Tree> {
    let mut all: Vec<Tree> = trees.iter().map(copy).collect();
    for tree in trees {
        all.push(Tree::Group(Box::new(copy(tree))));
        all.push(Tree::Negate(Box::new(copy(tree))));
        for other in trees {
            for op in [Operator::Add, Operator::Subtract, Operator::Multiply, Operator::Divide] {
                all.push(Tree::Binary(op, Box::new(copy(tree)), Box::new(copy(other))));
            }
        }
    }
    all
}

#[test]
fn a_tree_written_out_is_carried_out_in_its_order() {
    let leaves = [Tree::Number("1"), Tree::Number("2.5")];
    let trees = grown(&grown(&leaves));
    let mut checked = 0;
    for tree in &trees {
        if !grammatical(tree) {
            continue;
        }
        let mut steps = Vec::new();
        postfix(tree, &mut steps);
        for spaced in [false, true] {
            let mut text = String::new();
            write(tree, spaced, &mut text);
            assert_eq!(Evaluation::of(&text).into_parts(), (steps.clone(), None), "{}", text);
        }
        checked += 1;
    }
    assert_eq!(trees.len(), 22 + 2 * 22 + 4 * 22 * 22);
    assert!(checked > 500);
}

#[test]
fn what_succeeds_reads_back_as_it_was_carried_out() {
    for text in ["1+2*3", "(1+2)*3", "-(1)--2", "1/2/3+4-5*6", "((1))"] {
        assert_eq!(failure(text), None);
        let spelled: String = tokens(text)
            .iter()
            .map(|token| match token {
                Token::Number(number) => number.iter().collect::<String>(),
                Token::Operator(Operator::Add) => "+".to_string(),
                Token::Operator(Operator::Subtract) => "-".to_string(),
                Token::Operator(Operator::Multiply) => "*".to_string(),
                Token::Operator(Operator::Divide) => "/".to_string(),
                Token::LeftParen => "(".to_string(),
                Token::RightParen => ")".to_string(),
            })
            .collect();
        assert_eq!(spelled, text);
    }
}
