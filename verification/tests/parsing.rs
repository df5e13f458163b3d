use arithmetic::{parse, ArithmeticError, Expression, Token, TokenKind};

fn number(text: &str) -> Token {
    Token { kind: TokenKind::Number, text: text.to_string() }
}

fn operator(text: &str) -> Token {
    Token { kind: TokenKind::Operator, text: text.to_string() }
}

#[test]
fn empty_input_is_empty() {
    assert_eq!(parse(""), Err(ArithmeticError::Empty));
}

#[test]
fn trailing_operator_is_incomplete() {
    assert_eq!(parse("3+"), Err(ArithmeticError::IncompleteParsing("3+".to_string(), 1)));
}

#[test]
fn trailing_garbage_is_incomplete() {
    assert_eq!(parse("3+2x"), Err(ArithmeticError::IncompleteParsing("3+2x".to_string(), 3)));
}

#[test]
fn single_number_parses() {
    assert_eq!(parse("42"), Ok(Expression { tokens: vec![number("42")] }));
}

#[test]
fn tokens_alternate() {
    assert_eq!(
        parse("2+3*4"),
        Ok(Expression {
            tokens: vec![number("2"), operator("+"), number("3"), operator("*"), number("4")],
        })
    );
}

#[test]
fn leading_sign_belongs_to_first_number() {
    assert_eq!(
        parse("-5+3"),
        Ok(Expression { tokens: vec![number("-5"), operator("+"), number("3")] })
    );
    assert_eq!(parse("+7"), Ok(Expression { tokens: vec![number("+7")] }));
}

#[test]
fn decimal_point_needs_digits_on_both_sides() {
    assert_eq!(
        parse("1.25/0.5"),
        Ok(Expression { tokens: vec![number("1.25"), operator("/"), number("0.5")] })
    );
    assert_eq!(parse("3."), Err(ArithmeticError::IncompleteParsing("3.".to_string(), 1)));
    assert_eq!(parse("1.2.3"), Err(ArithmeticError::IncompleteParsing("1.2.3".to_string(), 3)));
    assert_eq!(parse(".5"), Err(ArithmeticError::InvalidToken(".".to_string())));
}

#[test]
fn sign_only_in_first_position() {
    assert_eq!(parse("3+-2"), Err(ArithmeticError::IncompleteParsing("3+-2".to_string(), 1)));
    assert_eq!(parse("3*+2"), Err(ArithmeticError::IncompleteParsing("3*+2".to_string(), 1)));
}

#[test]
fn no_expression_at_all_is_an_invalid_token() {
    assert_eq!(parse("x"), Err(ArithmeticError::InvalidToken("x".to_string())));
    assert_eq!(parse("+"), Err(ArithmeticError::InvalidToken("+".to_string())));
    assert_eq!(parse("-x1"), Err(ArithmeticError::InvalidToken("x".to_string())));
    assert_eq!(parse("*3"), Err(ArithmeticError::InvalidToken("*".to_string())));
    assert_eq!(parse(" 3"), Err(ArithmeticError::InvalidToken(" ".to_string())));
}

#[test]
fn offset_counts_characters() {
    assert_eq!(
        parse("12+3\u{e9}4"),
        Err(ArithmeticError::IncompleteParsing("12+3\u{e9}4".to_string(), 4))
    );
    assert_eq!(parse("\u{e9}"), Err(ArithmeticError::InvalidToken("\u{e9}".to_string())));
}

#[test]
fn whitespace_is_not_part_of_the_grammar() {
    assert_eq!(parse("3 + 2"), Err(ArithmeticError::IncompleteParsing("3 + 2".to_string(), 1)));
}

#[test]
fn parsing_twice_gives_equal_expressions() {
    for text in ["2+3*4", "10-2-3", "", "3+", "-0.5*8/2", "x"] {
        assert_eq!(parse(text), parse(text));
    }
}
