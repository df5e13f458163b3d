use arithmetic::{
    evaluate, parse, ArithmeticError, Expression, Operator, Reduction, Term, Token, TokenKind,
};

fn number_token(text: &str) -> Token {
    Token { kind: TokenKind::Number, text: text.to_string() }
}

fn operator_token(text: &str) -> Token {
    Token { kind: TokenKind::Operator, text: text.to_string() }
}

fn term(negated: bool, first: usize, last: usize) -> Term {
    Term { negated, first, last }
}

fn reduce(text: &str) -> Reduction {
    evaluate(&parse(text).unwrap()).unwrap()
}

/// The value of a reduction in floating point.
fn value_of(reduction: &Reduction) -> f64 {
    let numbers: Vec<f64> = reduction.numbers.iter().map(|n| n.parse::<f64>().unwrap()).collect();
    reduction
        .total(
            &numbers,
            0.0,
            |x: f64| x * -1.0,
            |x: f64, y: f64| x + y,
            |x: f64, y: f64| x * y,
            |x: f64, y: f64| x / y,
        )
        .unwrap()
}

fn value(text: &str) -> f64 {
    value_of(&reduce(text))
}

/// Reads the expression from left to right, with one pending sum and one
/// pending product, and all four operations as they stand.
fn reference(text: &str) -> f64 {
    let expression = parse(text).unwrap();
    let mut sum: Option<(f64, char)> = None;
    let mut product = 0.0;
    let mut symbol = ' ';
    for (index, token) in expression.tokens.iter().enumerate() {
        if token.kind == TokenKind::Operator {
            symbol = token.text.chars().next().unwrap();
            continue;
        }
        let number = token.text.parse::<f64>().unwrap();
        if index == 0 {
            product = number;
        } else if symbol == '*' {
            product = product * number;
        } else if symbol == '/' {
            product = product / number;
        } else {
            let closed = match sum {
                None => product,
                Some((before, '+')) => before + product,
                Some((before, _)) => before - product,
            };
            sum = Some((closed, symbol));
            product = number;
        }
    }
    match sum {
        None => product,
        Some((before, '+')) => before + product,
        Some((before, _)) => before - product,
    }
}

#[test]
fn multiplication_binds_tighter() {
    assert_eq!(value("2+3*4"), 14.0);
}

#[test]
fn subtraction_goes_left_to_right() {
    assert_eq!(value("10-2-3"), 5.0);
}

#[test]
fn division_goes_left_to_right() {
    assert_eq!(value("8/4/2"), 1.0);
}

#[test]
fn leading_sign_is_part_of_the_number() {
    assert_eq!(value("-5+3"), -2.0);
    assert_eq!(value("+5-3"), 2.0);
}

#[test]
fn division_by_zero_is_infinite() {
    assert_eq!(value("6/0"), f64::INFINITY);
    assert_eq!(value("1-6/0"), f64::NEG_INFINITY);
    assert!(value("0/0").is_nan());
}

#[test]
fn single_number_is_its_own_value() {
    assert_eq!(value("42"), 42.0);
    assert_eq!(value("0.125"), 0.125);
}

#[test]
fn negated_term_takes_its_product_along() {
    assert_eq!(value("1-2*3"), -5.0);
    assert_eq!(value("1-8/2/2+3*4"), 11.0);
    assert_eq!(value("2*3-4*5"), -14.0);
}

#[test]
fn reduction_of_a_mixed_expression() {
    assert_eq!(
        reduce("10-2*3+4"),
        Reduction {
            numbers: vec!["10".to_string(), "2".to_string(), "3".to_string(), "4".to_string()],
            operators: vec![Operator::Add, Operator::Mul, Operator::Add],
            terms: vec![term(false, 0, 0), term(true, 1, 2), term(false, 3, 3)],
        }
    );
}

#[test]
fn reduction_of_a_single_number() {
    assert_eq!(
        reduce("-7"),
        Reduction {
            numbers: vec!["-7".to_string()],
            operators: vec![],
            terms: vec![term(false, 0, 0)],
        }
    );
}

#[test]
fn reduction_of_one_long_product() {
    assert_eq!(
        reduce("8/4*2"),
        Reduction {
            numbers: vec!["8".to_string(), "4".to_string(), "2".to_string()],
            operators: vec![Operator::Div, Operator::Mul],
            terms: vec![term(false, 0, 2)],
        }
    );
}

#[test]
fn reduction_folds_every_subtraction() {
    assert_eq!(
        reduce("1-2-3"),
        Reduction {
            numbers: vec!["1".to_string(), "2".to_string(), "3".to_string()],
            operators: vec![Operator::Add, Operator::Add],
            terms: vec![term(false, 0, 0), term(true, 1, 1), term(true, 2, 2)],
        }
    );
}

#[test]
fn value_agrees_with_reference_evaluator() {
    for text in [
        "2+3*4",
        "10-2-3",
        "8/4/2",
        "-5+3",
        "42",
        "1-2*3",
        "1.5*4-0.25/0.5+7",
        "3*4*5-6*7+8/2/2-1",
        "100/8-3*2.5+4-1/4",
        "-2*3-4*5",
        "9-8-7-6*5/4",
    ] {
        assert_eq!(value(text), reference(text), "{}", text);
    }
}

#[test]
fn unknown_operator_is_an_invalid_token() {
    let expression = Expression {
        tokens: vec![number_token("1"), operator_token("%"), number_token("2")],
    };
    assert_eq!(evaluate(&expression), Err(ArithmeticError::InvalidToken("%".to_string())));
}

#[test]
fn first_unknown_operator_is_reported() {
    let expression = Expression {
        tokens: vec![
            number_token("1"),
            operator_token("+"),
            number_token("2"),
            operator_token("**"),
            number_token("3"),
            operator_token("^"),
            number_token("4"),
        ],
    };
    assert_eq!(evaluate(&expression), Err(ArithmeticError::InvalidToken("**".to_string())));
}

#[test]
fn unknown_operator_is_reported_before_a_wrong_count() {
    let expression = Expression { tokens: vec![number_token("1"), operator_token("")] };
    assert_eq!(evaluate(&expression), Err(ArithmeticError::InvalidToken("".to_string())));
}

#[test]
fn missing_operand_is_malformed() {
    let trailing = Expression { tokens: vec![number_token("3"), operator_token("+")] };
    assert_eq!(evaluate(&trailing), Err(ArithmeticError::MalformedExpression));
    let leading = Expression { tokens: vec![operator_token("*"), number_token("3")] };
    assert_eq!(evaluate(&leading), Err(ArithmeticError::MalformedExpression));
}

#[test]
fn missing_operator_is_malformed() {
    let expression = Expression { tokens: vec![number_token("3"), number_token("4")] };
    assert_eq!(evaluate(&expression), Err(ArithmeticError::MalformedExpression));
}

#[test]
fn no_tokens_are_malformed() {
    assert_eq!(evaluate(&Expression { tokens: vec![] }), Err(ArithmeticError::MalformedExpression));
}

#[test]
fn operator_from_its_symbol() {
    assert_eq!(Operator::from_str("+"), Ok(Operator::Add));
    assert_eq!(Operator::from_str("-"), Ok(Operator::Sub));
    assert_eq!(Operator::from_str("*"), Ok(Operator::Mul));
    assert_eq!(Operator::from_str("/"), Ok(Operator::Div));
}

#[test]
fn operator_from_other_text() {
    assert_eq!(Operator::from_str("x"), Err(ArithmeticError::InvalidToken("x".to_string())));
    assert_eq!(Operator::from_str("++"), Err(ArithmeticError::InvalidToken("++".to_string())));
    assert_eq!(Operator::from_str(""), Err(ArithmeticError::InvalidToken("".to_string())));
}

#[test]
fn total_in_whole_numbers() {
    let reduction = reduce("10-2*3+12/4");
    let numbers: Vec<i64> = vec![10, 2, 3, 12, 4];
    let total = reduction.total(
        &numbers,
        0,
        |x: i64| -x,
        |x: i64, y: i64| x + y,
        |x: i64, y: i64| x * y,
        |x: i64, y: i64| x / y,
    );
    assert_eq!(total, Ok(7));
}

#[test]
fn total_applies_the_operations_in_order() {
    let reduction = reduce("1-2*3/4+5");
    let numbers: Vec<String> =
        reduction.numbers.iter().map(|n| n.to_string()).collect::<Vec<String>>();
    let written: Vec<&str> = numbers.iter().map(|n| n.as_str()).collect();
    let log = std::cell::RefCell::new(Vec::new());
    let total = reduction.total(
        &written,
        "0",
        |x: &str| {
            log.borrow_mut().push(format!("neg {}", x));
            "n"
        },
        |x: &str, y: &str| {
            log.borrow_mut().push(format!("add {} {}", x, y));
            "s"
        },
        |x: &str, y: &str| {
            log.borrow_mut().push(format!("mul {} {}", x, y));
            "p"
        },
        |x: &str, y: &str| {
            log.borrow_mut().push(format!("div {} {}", x, y));
            "q"
        },
    );
    assert_eq!(total, Ok("s"));
    assert_eq!(
        *log.borrow(),
        vec!["add 0 1", "neg 2", "mul n 3", "div p 4", "add s q", "add s 5"]
    );
}

#[test]
fn total_of_a_term_beyond_the_numbers_is_malformed() {
    let reduction = Reduction {
        numbers: vec!["1".to_string(), "2".to_string()],
        operators: vec![Operator::Mul],
        terms: vec![term(false, 0, 2)],
    };
    assert_eq!(
        reduction.total(&vec![1.0, 2.0, 3.0], 0.0, |x: f64| -x, |x, y| x + y, |x, y| x * y, |x, y| x
            / y),
        Err(ArithmeticError::MalformedExpression)
    );
    let reduction = Reduction {
        numbers: vec!["1".to_string(), "2".to_string()],
        operators: vec![Operator::Mul],
        terms: vec![term(false, 0, 1)],
    };
    assert_eq!(
        reduction.total(&vec![1.0], 0.0, |x: f64| -x, |x, y| x + y, |x, y| x * y, |x, y| x / y),
        Err(ArithmeticError::MalformedExpression)
    );
}

#[test]
fn total_of_a_term_with_an_addition_is_malformed() {
    let reduction = Reduction {
        numbers: vec!["1".to_string(), "2".to_string()],
        operators: vec![Operator::Add],
        terms: vec![term(false, 0, 1)],
    };
    assert_eq!(
        reduction.total(&vec![1.0, 2.0], 0.0, |x: f64| -x, |x, y| x + y, |x, y| x * y, |x, y| x
            / y),
        Err(ArithmeticError::MalformedExpression)
    );
}

#[test]
fn total_of_a_backward_term_is_malformed() {
    let reduction = Reduction {
        numbers: vec!["1".to_string(), "2".to_string()],
        operators: vec![Operator::Mul],
        terms: vec![term(false, 1, 0)],
    };
    assert_eq!(
        reduction.total(&vec![1.0, 2.0], 0.0, |x: f64| -x, |x, y| x + y, |x, y| x * y, |x, y| x
            / y),
        Err(ArithmeticError::MalformedExpression)
    );
}

#[test]
fn total_of_no_terms_is_zero() {
    let reduction = Reduction { numbers: vec![], operators: vec![], terms: vec![] };
    assert_eq!(
        reduction.total(&vec![], 0.5, |x: f64| -x, |x, y| x + y, |x, y| x * y, |x, y| x / y),
        Ok(0.5)
    );
}
