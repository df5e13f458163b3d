use arithmetic::{parse, ArithmeticError};

#[test]
fn empty_error_text() {
    assert_eq!(ArithmeticError::Empty.to_string(), "Parsed input was empty.");
}

#[test]
fn malformed_error_text() {
    assert_eq!(ArithmeticError::MalformedExpression.to_string(), "Expression is malformed.");
}

#[test]
fn invalid_token_error_text() {
    assert_eq!(ArithmeticError::InvalidToken("%".to_string()).to_string(), "Invalid token: %");
    assert_eq!(ArithmeticError::InvalidToken(String::new()).to_string(), "Invalid token: ");
}

#[test]
fn incomplete_parsing_points_at_the_offset() {
    assert_eq!(
        ArithmeticError::IncompleteParsing("3+2x".to_string(), 3).to_string(),
        "3+2x\n---^"
    );
    assert_eq!(ArithmeticError::IncompleteParsing("3+".to_string(), 1).to_string(), "3+\n-^");
    assert_eq!(ArithmeticError::IncompleteParsing("x".to_string(), 0).to_string(), "x\n^");
}

#[test]
fn parse_error_renders_with_caret() {
    let error = parse("12*4)").unwrap_err();
    assert_eq!(error.to_string(), "12*4)\n----^");
}
