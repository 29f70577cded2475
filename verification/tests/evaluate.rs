use calc::{calculate, evaluate_tokens, tokenize, CalcError, Evaluation, Operator};

fn number(text: &[char]) -> Option<f64> {
    text.iter().collect::<String>().parse().ok()
}

fn negate(x: f64) -> f64 {
    -x
}

fn apply(op: Operator, left: f64, right: f64) -> f64 {
    match op {
        Operator::Add => left + right,
        Operator::Subtract => left - right,
        Operator::Multiply => left * right,
        Operator::Divide => left / right,
    }
}

fn is_zero(x: &f64) -> bool {
    *x == 0.0
}

fn doubles(expression: &str) -> Result<f64, CalcError> {
    calculate(expression, number, negate, apply, is_zero)
}

fn value(expression: &str) -> Result<f64, String> {
    doubles(expression).map_err(|error| error.message())
}

fn error(expression: &str) -> CalcError {
    doubles(expression).unwrap_err()
}

#[test]
fn test_basic_addition() {
    assert_eq!(value("2+3").unwrap(), 5.0);
}

#[test]
fn test_basic_subtraction() {
    assert_eq!(value("10-4").unwrap(), 6.0);
}

#[test]
fn test_basic_multiplication() {
    assert_eq!(value("3*4").unwrap(), 12.0);
}

#[test]
fn test_basic_division() {
    assert_eq!(value("8/2").unwrap(), 4.0);
}

#[test]
fn test_operator_precedence() {
    assert_eq!(value("2+3*4").unwrap(), 14.0);
    assert_eq!(value("2*3+4").unwrap(), 10.0);
}

#[test]
fn test_parentheses() {
    assert_eq!(value("(2+3)*4").unwrap(), 20.0);
    assert_eq!(value("2*(3+4)").unwrap(), 14.0);
}

#[test]
fn test_nested_parentheses() {
    assert_eq!(value("(2+(3*4))*2").unwrap(), 28.0);
}

#[test]
fn test_decimal_numbers() {
    assert_eq!(value("2.5+1.5").unwrap(), 4.0);
    assert_eq!(value("3.14*2").unwrap(), 6.28);
}

#[test]
fn test_negative_numbers() {
    assert_eq!(value("-5+3").unwrap(), -2.0);
    assert_eq!(value("2*-3").unwrap(), -6.0);
}

#[test]
fn test_complex_expression() {
    assert_eq!(value("(2+3)*(4-2)/3").unwrap(), 10.0 / 3.0);
}

#[test]
fn test_division_by_zero() {
    assert!(value("5/0").is_err());
}

#[test]
fn test_invalid_expression() {
    assert!(value("").is_err());
    assert!(value("2+*3").is_err());
    assert!(value("(2+3").is_err());
}

#[test]
fn subtraction_groups_to_the_left() {
    assert_eq!(value("10-4-2").unwrap(), 4.0);
    assert_eq!(value("10-(4-2)").unwrap(), 8.0);
}

#[test]
fn division_groups_to_the_left() {
    assert_eq!(value("16/4/2").unwrap(), 2.0);
    assert_eq!(value("16/(4/2)").unwrap(), 8.0);
    assert_eq!(value("2*6/3*5").unwrap(), 20.0);
}

#[test]
fn unary_minus_binds_tightest() {
    assert_eq!(value("--5").unwrap(), 5.0);
    assert_eq!(value("-2*-3").unwrap(), 6.0);
    assert_eq!(value("2--3").unwrap(), 5.0);
    assert_eq!(value("-(2+3)").unwrap(), -5.0);
    assert_eq!(value("-2-3").unwrap(), -5.0);
    assert_eq!(value("10/-4").unwrap(), -2.5);
}

#[test]
fn numbers_with_a_point_at_either_end() {
    assert_eq!(value("5.").unwrap(), 5.0);
    assert_eq!(value(".5").unwrap(), 0.5);
    assert_eq!(value("007").unwrap(), 7.0);
    assert_eq!(value("0.1+0.2").unwrap(), 0.1 + 0.2);
}

#[test]
fn a_single_number_is_an_expression() {
    assert_eq!(value("42").unwrap(), 42.0);
    assert_eq!(value("((42))").unwrap(), 42.0);
}

#[test]
fn division_by_zero_is_reported_as_such() {
    assert_eq!(error("5/0"), CalcError::DivisionByZero);
    assert_eq!(error("5/0.0"), CalcError::DivisionByZero);
    assert_eq!(error("5/-0"), CalcError::DivisionByZero);
    assert_eq!(error("1/(2-2)"), CalcError::DivisionByZero);
    assert_eq!(error("0/0"), CalcError::DivisionByZero);
    assert_eq!(value("5/0").unwrap_err(), "Division by zero");
}

#[test]
fn zero_divided_is_no_error() {
    assert_eq!(value("0/5").unwrap(), 0.0);
    assert_eq!(value("5*0").unwrap(), 0.0);
}

#[test]
fn the_first_error_in_reading_order_wins() {
    assert_eq!(error("1/0)"), CalcError::DivisionByZero);
    assert_eq!(error("1/0+*"), CalcError::DivisionByZero);
    assert_eq!(error("(1/0"), CalcError::DivisionByZero);
    assert_eq!(error("2+*3/0"), CalcError::UnexpectedToken);
    assert_eq!(error("(2+3(1/0"), CalcError::UnclosedParen);
    assert_eq!(error("1/0+a"), CalcError::InvalidCharacter('a'));
    assert_eq!(error("1/0+1.2.3"), CalcError::InvalidNumber("1.2.3".chars().collect()));
}

#[test]
fn malformed_input_is_rejected_with_its_error() {
    assert_eq!(error(""), CalcError::EmptyExpression);
    assert_eq!(error("2+*3"), CalcError::UnexpectedToken);
    assert_eq!(error("(2+3"), CalcError::UnclosedParen);
    assert_eq!(value("").unwrap_err(), "Empty expression");
    assert_eq!(value("2+*3").unwrap_err(), "Unexpected token");
    assert_eq!(value("(2+3").unwrap_err(), "Missing closing parenthesis");
}

#[test]
fn whitespace_makes_no_difference() {
    assert_eq!(value("2 + 3"), value("2+3"));
    assert_eq!(value("2 + 3").unwrap(), 5.0);
    assert_eq!(value(" ( 2 +\t3 ) *\n4 ").unwrap(), 20.0);
    assert_eq!(value("1 2 + 3").unwrap(), 15.0);
    assert_eq!(value("2\u{2003}*\u{a0}3").unwrap(), 6.0);
}

#[test]
fn evaluating_again_gives_the_same() {
    let first = Evaluation::of("(2+3)*(4-2)/3");
    let second = Evaluation::of("(2+3)*(4-2)/3");
    assert_eq!(first, second);
    assert_eq!(first.run(number, negate, apply, is_zero), Ok(10.0 / 3.0));
    assert_eq!(second.run(number, negate, apply, is_zero), Ok(10.0 / 3.0));
    assert_eq!(doubles("0.1+0.2"), doubles("0.1+0.2"));
    assert_eq!(Evaluation::of("2+*3"), Evaluation::of("2+*3"));
    assert_eq!(doubles("2+*3"), doubles("2+*3"));
}

#[test]
fn adjacent_groups_are_not_multiplied() {
    assert_eq!(error("(1)(2)"), CalcError::TrailingTokens);
    assert_eq!(error("2(3)"), CalcError::TrailingTokens);
    assert_eq!(value("(1)(2)").unwrap_err(), "Unexpected tokens");
}

#[test]
fn every_short_text_has_an_evaluation() {
    let alphabet = ['1', '0', '.', '+', '-', '*', '/', '(', ')', ' ', 'a'];
    let mut texts: Vec<String> = vec![String::new()];
    let mut from = 0;
    for _ in 0..5 {
        let upto = texts.len();
        for i in from..upto {
            for c in alphabet {
                let mut longer = texts[i].clone();
                longer.push(c);
                texts.push(longer);
            }
        }
        from = upto;
    }
    let mut values = 0;
    for text in &texts {
        let evaluation = Evaluation::of(text);
        let succeeds = evaluation.failure().is_none();
        match evaluation.run(number, negate, apply, is_zero) {
            Ok(_) => {
                assert!(succeeds, "{}", text);
                values += 1;
            }
            Err(error) => assert!(!succeeds || error == CalcError::DivisionByZero, "{}", text),
        }
    }
    assert_eq!(texts.len(), 1 + 11 + 121 + 1331 + 14641 + 161051);
    assert!(values > 0);
}

fn written(text: &[char]) -> Option<String> {
    Some(text.iter().collect())
}

fn spelled(expression: &str) -> Result<String, CalcError> {
    calculate(
        expression,
        written,
        |x: String| format!("-{}", x),
        |op: Operator, left: String, right: String| {
            let sign = match op {
                Operator::Add => '+',
                Operator::Subtract => '-',
                Operator::Multiply => '*',
                Operator::Divide => '/',
            };
            format!("({}{}{})", left, sign, right)
        },
        |x: &String| x == "0",
    )
}

#[test]
fn the_arithmetic_sees_the_operands_in_their_grouping() {
    assert_eq!(spelled("10-4-2").unwrap(), "((10-4)-2)");
    assert_eq!(spelled("2+3*4").unwrap(), "(2+(3*4))");
    assert_eq!(spelled("2*3+4").unwrap(), "((2*3)+4)");
    assert_eq!(spelled("(2+3)*4").unwrap(), "((2+3)*4)");
    assert_eq!(spelled("-2*-3").unwrap(), "(-2*-3)");
    assert_eq!(spelled("--5").unwrap(), "--5");
    assert_eq!(spelled("1/2/3+4-5*6").unwrap(), "((((1/2)/3)+4)-(5*6))");
    assert_eq!(spelled(" 1 . 5 ").unwrap(), "1.5");
}

#[test]
fn only_the_divisor_of_a_division_is_asked_for_zero() {
    assert_eq!(spelled("0/5").unwrap(), "(0/5)");
    assert_eq!(spelled("5*0+0-0").unwrap(), "(((5*0)+0)-0)");
    assert_eq!(spelled("5/0"), Err(CalcError::DivisionByZero));
    assert_eq!(spelled("5/(0)"), Err(CalcError::DivisionByZero));
    assert_eq!(spelled("5/-0").unwrap(), "(5/-0)");
    assert_eq!(spelled("5/0.0").unwrap(), "(5/0.0)");
}

fn whole(text: &[char]) -> Option<i64> {
    text.iter().collect::<String>().parse().ok()
}

fn integers(expression: &str) -> Result<i64, CalcError> {
    calculate(
        expression,
        whole,
        |x: i64| -x,
        |op: Operator, left: i64, right: i64| match op {
            Operator::Add => left + right,
            Operator::Subtract => left - right,
            Operator::Multiply => left * right,
            Operator::Divide => left / right,
        },
        |x: &i64| *x == 0,
    )
}

#[test]
fn nothing_is_divided_by_zero() {
    assert_eq!(integers("7/2"), Ok(3));
    assert_eq!(integers("7/0"), Err(CalcError::DivisionByZero));
    assert_eq!(integers("7/(3-3)"), Err(CalcError::DivisionByZero));
    assert_eq!(integers("(1+2)*(3+4)/(5-5)+6"), Err(CalcError::DivisionByZero));
}

#[test]
fn a_text_that_the_arithmetic_cannot_read_is_no_number() {
    assert_eq!(integers("1+2"), Ok(3));
    assert_eq!(integers("1.5+2"), Err(CalcError::InvalidNumber("1.5".chars().collect())));
    assert_eq!(integers("1+2+3."), Err(CalcError::InvalidNumber("3.".chars().collect())));
    assert_eq!(integers("1/0+2.5"), Err(CalcError::DivisionByZero));
    assert_eq!(integers("2.5+1/0"), Err(CalcError::InvalidNumber("2.5".chars().collect())));
    assert_eq!(integers("2.5+"), Err(CalcError::InvalidNumber("2.5".chars().collect())));
    assert_eq!(integers("2+*2.5"), Err(CalcError::UnexpectedToken));
}

#[test]
fn tokens_evaluate_as_their_text() {
    for text in ["2+3*4", "(2+3)*(4-2)/3", "-5+3", "5/0", "2+*3", "(2+3", "2+3)", "1-2-3"] {
        let tokens = tokenize(text).unwrap();
        assert_eq!(evaluate_tokens(&tokens, number, negate, apply, is_zero), doubles(text));
    }
    assert_eq!(
        evaluate_tokens(&tokenize("(2+3)*4").unwrap(), number, negate, apply, is_zero),
        Ok(20.0)
    );
    assert_eq!(
        evaluate_tokens(&[], number, negate, apply, is_zero),
        Err(CalcError::UnexpectedEnd)
    );
}
