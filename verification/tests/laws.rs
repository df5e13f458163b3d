use arithmetic::{
    calculate, evaluate, parse, ArithmeticError, ArithmeticRequest, ExpressionBuilder, Operator,
    Status, TokenKind,
};

const TEXTS: [&str; 14] = [
    "2+3*4",
    "10-2-3",
    "8/4/2",
    "-5+3",
    "42",
    "+1.5*4-0.25/0.5+7",
    "3*4*5-6*7+8/2/2-1",
    "",
    "3+",
    "3+2x",
    "1.2.3",
    "-",
    "7*",
    "0.5.",
];

fn is_expression(text: &str) -> bool {
    parse(text).is_ok()
}

#[test]
fn tokens_alternate_and_join_to_the_text() {
    for text in TEXTS {
        if let Ok(expression) = parse(text) {
            assert_eq!(expression.tokens.len() % 2, 1);
            for (index, token) in expression.tokens.iter().enumerate() {
                if index % 2 == 0 {
                    assert_eq!(token.kind, TokenKind::Number);
                    assert!(token.text.parse::<f64>().is_ok());
                } else {
                    assert_eq!(token.kind, TokenKind::Operator);
                    assert!(Operator::from_str(&token.text).is_ok());
                }
            }
            let joined: String = expression.tokens.iter().map(|t| t.text.as_str()).collect();
            assert_eq!(joined, text);
        }
    }
}

#[test]
fn offset_is_the_length_of_the_longest_expression() {
    for text in TEXTS {
        let longest = (0..=text.len()).rev().find(|&length| is_expression(&text[..length]));
        match parse(text) {
            Ok(_) => assert_eq!(longest, Some(text.len())),
            Err(ArithmeticError::IncompleteParsing(input, offset)) => {
                assert_eq!(input, text);
                assert_eq!(longest, Some(offset));
                assert!(0 < offset && offset < text.len());
            }
            Err(ArithmeticError::Empty) => assert_eq!(text, ""),
            Err(ArithmeticError::InvalidToken(_)) => assert_eq!(longest, None),
            Err(ArithmeticError::MalformedExpression) => panic!("not an error of parsing"),
        }
    }
}

#[test]
fn what_parses_evaluates() {
    for text in TEXTS {
        if let Ok(expression) = parse(text) {
            assert!(evaluate(&expression).is_ok());
        }
    }
}

#[test]
fn terms_divide_the_numbers_among_them() {
    for text in TEXTS {
        let Ok(expression) = parse(text) else {
            continue;
        };
        let reduction = evaluate(&expression).unwrap();
        assert_eq!(reduction.numbers.len(), reduction.operators.len() + 1);
        assert!(reduction.operators.iter().all(|operator| *operator != Operator::Sub));
        let mut next = 0;
        for term in &reduction.terms {
            assert_eq!(term.first, next);
            assert!(term.first <= term.last);
            for index in term.first..term.last {
                assert!(matches!(reduction.operators[index], Operator::Mul | Operator::Div));
            }
            if term.first > 0 {
                assert_eq!(reduction.operators[term.first - 1], Operator::Add);
                assert_eq!(term.negated, expression.tokens[2 * term.first - 1].text == "-");
            } else {
                assert!(!term.negated);
            }
            next = term.last + 1;
        }
        assert_eq!(next, reduction.numbers.len());
    }
}

#[test]
fn calculation_succeeds_where_the_text_parses() {
    for text in TEXTS {
        let response = calculate(ArithmeticRequest::new(text.to_string()));
        match parse(text) {
            Ok(expression) => {
                assert_eq!(response.status(), Status::SUCCESS);
                assert_eq!(response.message(), "");
                assert_eq!(*response.result(), Some(evaluate(&expression).unwrap()));
            }
            Err(error) => {
                assert_eq!(response.status(), Status::FAILED);
                assert_eq!(response.message(), error.to_string());
                assert_eq!(*response.result(), None);
            }
        }
    }
}

#[test]
fn builder_keeps_its_text_tidy() {
    let keys: Vec<char> = "0123456789+-*/.=".chars().collect();
    let mut builder = ExpressionBuilder::new();
    let mut state: u32 = 12345;
    for _ in 0..2000 {
        state = state.wrapping_mul(1103515245).wrapping_add(12345);
        let choice = (state >> 16) as usize % (keys.len() + 2);
        if choice < keys.len() {
            builder.extend(keys[choice]);
        } else {
            builder.delete();
        }
        let text: Vec<char> = builder.to_string().chars().collect();
        for number in builder.to_string().split(|c| "+-*/".contains(c)) {
            assert!(number.matches('.').count() <= 1, "{}", builder.to_string());
        }
        for (index, value) in text.iter().enumerate() {
            assert!(keys.contains(value) && *value != '=');
            if !value.is_ascii_digit() {
                assert!(index > 0 && text[index - 1].is_ascii_digit());
            }
        }
    }
}
