use arithmetic::{calculate, ArithmeticRequest, Operator, Reduction, Status, Term};

#[test]
fn calculation_succeeds() {
    let response = calculate(ArithmeticRequest::new("2+3*4".to_string()));
    assert_eq!(response.status(), Status::SUCCESS);
    assert_eq!(response.message(), "");
    assert_eq!(
        *response.result(),
        Some(Reduction {
            numbers: vec!["2".to_string(), "3".to_string(), "4".to_string()],
            operators: vec![Operator::Add, Operator::Mul],
            terms: vec![
                Term { negated: false, first: 0, last: 0 },
                Term { negated: false, first: 1, last: 2 },
            ],
        })
    );
}

#[test]
fn calculation_of_nothing_fails() {
    let response = calculate(ArithmeticRequest::new(String::new()));
    assert_eq!(response.status(), Status::FAILED);
    assert_eq!(response.message(), "Parsed input was empty.");
    assert_eq!(*response.result(), None);
}

#[test]
fn calculation_of_half_an_expression_fails() {
    let response = calculate(ArithmeticRequest::new("3+2x".to_string()));
    assert_eq!(response.status(), Status::FAILED);
    assert_eq!(response.message(), "3+2x\n---^");
    assert_eq!(*response.result(), None);
}

#[test]
fn calculation_of_no_expression_fails() {
    let response = calculate(ArithmeticRequest::new("x".to_string()));
    assert_eq!(response.status(), Status::FAILED);
    assert_eq!(response.message(), "Invalid token: x");
    assert_eq!(*response.result(), None);
}

#[test]
fn response_shows_all_it_holds() {
    let response = calculate(ArithmeticRequest::new("3+".to_string()));
    let text = response.to_string();
    assert!(text.starts_with("ArithmeticResponse {"));
    assert!(text.contains("FAILED"));
    assert!(text.contains("message: \"3+\\n-^\""));
}
