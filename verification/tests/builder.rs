use arithmetic::{parse, ExpressionBuilder};

fn typed(keys: &str) -> ExpressionBuilder {
    let mut builder = ExpressionBuilder::new();
    for key in keys.chars() {
        builder.extend(key);
    }
    builder
}

#[test]
fn new_builder_is_empty() {
    assert_eq!(ExpressionBuilder::new().to_string(), "");
}

#[test]
fn digits_are_appended() {
    assert_eq!(typed("1203").to_string(), "1203");
}

#[test]
fn operator_replaces_operator() {
    assert_eq!(typed("1+-*").to_string(), "1*");
}

#[test]
fn operator_at_the_start_gets_a_zero() {
    assert_eq!(typed("-").to_string(), "0-");
}

#[test]
fn operator_behind_a_point_gets_a_zero() {
    assert_eq!(typed("1.+").to_string(), "1.0+");
}

#[test]
fn point_at_the_start_gets_a_zero() {
    assert_eq!(typed(".").to_string(), "0.");
    assert_eq!(typed("1+.5").to_string(), "1+0.5");
}

#[test]
fn one_point_per_number() {
    assert_eq!(typed("1.2.3").to_string(), "1.23");
    assert_eq!(typed("1..").to_string(), "1.");
    assert_eq!(typed("1.2+3.4").to_string(), "1.2+3.4");
}

#[test]
fn equals_drops_a_trailing_operator() {
    assert_eq!(typed("1+2*=").to_string(), "1+2");
}

#[test]
fn equals_completes_a_trailing_point() {
    assert_eq!(typed("1+2.=").to_string(), "1+2.0");
}

#[test]
fn equals_leaves_a_finished_text() {
    assert_eq!(typed("1+2=").to_string(), "1+2");
    assert_eq!(typed("=").to_string(), "");
}

#[test]
fn delete_takes_a_digit_back() {
    let mut builder = typed("12");
    builder.delete();
    assert_eq!(builder.to_string(), "1");
    builder.delete();
    assert_eq!(builder.to_string(), "");
    builder.delete();
    assert_eq!(builder.to_string(), "");
}

#[test]
fn delete_leaves_an_operator() {
    let mut builder = typed("1+");
    builder.delete();
    assert_eq!(builder.to_string(), "1+");
}

#[test]
fn delete_frees_the_point() {
    let mut builder = typed("1.");
    builder.delete();
    assert_eq!(builder.to_string(), "1");
    builder.extend('.');
    builder.extend('5');
    assert_eq!(builder.to_string(), "1.5");
}

#[test]
fn clear_forgets_text_and_point() {
    let mut builder = typed("1.5");
    builder.clear();
    assert_eq!(builder.to_string(), "");
    builder.extend('2');
    builder.extend('.');
    assert_eq!(builder.to_string(), "2.");
}

#[test]
fn collect_hands_out_and_starts_afresh() {
    let mut builder = typed("1.5*2");
    assert_eq!(builder.collect(), "1.5*2");
    assert_eq!(builder.to_string(), "");
    builder.extend('3');
    builder.extend('.');
    assert_eq!(builder.collect(), "3.");
}

#[test]
fn debug_lists_the_characters() {
    assert_eq!(typed("1+2").debug(), "['1', '+', '2']");
    assert_eq!(ExpressionBuilder::new().debug(), "[]");
}

#[test]
fn submitted_text_parses() {
    let mut builder = typed("12+.5*-3.=");
    let text = builder.collect();
    assert_eq!(text, "12+0.5-3.0");
    assert!(parse(&text).is_ok());
}

#[test]
fn point_is_refused_in_a_number_that_equals_brought_back() {
    let mut builder = typed("1.5+=");
    assert_eq!(builder.to_string(), "1.5");
    builder.extend('.');
    assert_eq!(builder.to_string(), "1.5");
    builder.extend('2');
    builder.extend('.');
    assert_eq!(builder.to_string(), "1.52");
}

#[test]
fn point_is_refused_behind_a_completed_point() {
    let mut builder = typed("1.+=");
    assert_eq!(builder.to_string(), "1.0");
    builder.extend('.');
    assert_eq!(builder.to_string(), "1.0");
}

#[test]
fn point_is_taken_in_a_whole_number_that_equals_brought_back() {
    let mut builder = typed("1.5*15+=");
    assert_eq!(builder.to_string(), "1.5*15");
    builder.extend('.');
    builder.extend('.');
    builder.extend('2');
    assert_eq!(builder.to_string(), "1.5*15.2");
}

#[test]
fn deleted_point_can_be_entered_again_after_equals() {
    let mut builder = typed("1.+=");
    builder.delete();
    builder.delete();
    assert_eq!(builder.to_string(), "1");
    builder.extend('.');
    assert_eq!(builder.to_string(), "1.");
}
