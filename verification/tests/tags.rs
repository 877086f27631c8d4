use rstest_bdd_macros::tags::TagExpression;

fn parse_expression(input: &str) -> TagExpression {
    match TagExpression::parse(input) {
        Ok(expr) => expr,
        Err(err) => panic!("parse expression `{input}`: {}", err.to_string()),
    }
}

fn parse_error_message(input: &str) -> String {
    match TagExpression::parse(input) {
        Ok(expr) => panic!("expected parse error for `{input}`, got {expr:?}"),
        Err(err) => err.to_string(),
    }
}

#[test]
fn tags_evaluates_simple_tag() {
    let expr = parse_expression("@fast");
    assert!(expr.evaluate(&["@fast"]));
    assert!(!expr.evaluate(&["@slow"]));
}

#[test]
fn tags_parses_hyphenated_tag() {
    let expr = parse_expression("@smoke-tests");
    assert!(expr.evaluate(&["@smoke-tests"]));
}

#[test]
fn tags_parses_numeric_tag() {
    let expr = parse_expression("@123");
    assert!(expr.evaluate(&["@123"]));
}

#[test]
fn tags_honours_operator_precedence() {
    let expr = parse_expression("@a or @b and @c");
    assert!(expr.evaluate(&["@a"]));
    assert!(expr.evaluate(&["@b", "@c"]));
    assert!(!expr.evaluate(&["@b"]));
}

#[test]
fn tags_parses_nested_parentheses() {
    let expr = parse_expression("not (@a or @b)");
    assert!(!expr.evaluate(&["@a"]));
    assert!(!expr.evaluate(&["@b"]));
    assert!(expr.evaluate(&["@c"]));
}

#[test]
fn tags_allows_case_insensitive_operators() {
    let expr = parse_expression("@a Or nOt @b");
    assert!(expr.evaluate(&["@a"]));
    assert!(expr.evaluate(&["@c"]));
    assert!(!expr.evaluate(&["@b"]));
}

#[test]
fn reports_missing_operand_after_and() {
    let err = parse_error_message("@a and");
    assert!(
        err.contains("expected tag or '(' after 'and'"),
        "unexpected error message: {err}"
    );
}

#[test]
fn rejects_unexpected_characters() {
    let err = parse_error_message("@a && @b");
    assert!(
        err.contains("unexpected character '&'"),
        "unexpected error message: {err}"
    );
}

#[test]
fn rejects_empty_expression() {
    let err = parse_error_message("");
    assert!(err.contains("expected tag or '('"), "unexpected error message: {err}");
}

#[test]
fn tests_evaluates_simple_tag() {
    let expr = parse_expression("@fast");
    assert!(expr.evaluate(&["@fast"]));
    assert!(!expr.evaluate(&["@slow"]));
}

#[test]
fn tests_parses_hyphenated_tag() {
    let expr = parse_expression("@smoke-tests");
    assert!(expr.evaluate(&["@smoke-tests"]));
}

#[test]
fn tests_parses_numeric_tag() {
    let expr = parse_expression("@123");
    assert!(expr.evaluate(&["@123"]));
}

#[test]
fn tests_honours_operator_precedence() {
    let expr = parse_expression("@a or @b and @c");
    assert!(expr.evaluate(&["@a"]));
    assert!(expr.evaluate(&["@b", "@c"]));
    assert!(!expr.evaluate(&["@b"]));
}

#[test]
fn tests_parses_nested_parentheses() {
    let expr = parse_expression("not (@a or @b)");
    assert!(!expr.evaluate(&["@a"]));
    assert!(!expr.evaluate(&["@b"]));
    assert!(expr.evaluate(&["@c"]));
}

#[test]
fn tests_allows_case_insensitive_operators() {
    let expr = parse_expression("@a Or nOt @b");
    assert!(expr.evaluate(&["@a"]));
    assert!(expr.evaluate(&["@c"]));
    assert!(!expr.evaluate(&["@b"]));
}

#[test]
fn error_text_names_the_byte_offset() {
    let err = parse_error_message("@a && @b");
    assert!(err.starts_with("invalid tag expression at byte 3: "), "{err}");
}

#[test]
fn evaluate_strings_matches_evaluate() {
    let expr = parse_expression("@a and not @b");
    let owned = vec!["@a".to_string()];
    assert!(expr.evaluate_strings(&owned));
    let owned = vec!["@a".to_string(), "@b".to_string()];
    assert!(!expr.evaluate_strings(&owned));
}

fn eval(text: &str, tags: &[&str]) -> bool {
    match TagExpression::parse(text) {
        Ok(e) => e.evaluate(tags),
        Err(err) => panic!("expression should parse: {}", err.to_string()),
    }
}

#[test]
fn joined_expressions_compose_their_meanings() {
    let a = "@fast or @smoke";
    let b = "not @wip";
    for tags in [&["@fast"][..], &["@fast", "@wip"], &["@smoke"], &[], &["@wip"]] {
        let ea = eval(a, tags);
        let eb = eval(b, tags);
        assert_eq!(eval(&format!("({a}) and ({b})"), tags), ea && eb);
        assert_eq!(eval(&format!("({a}) or ({b})"), tags), ea || eb);
        assert_eq!(eval(&format!("not ({a})"), tags), !ea);
    }
}

#[test]
fn evaluation_is_exact_and_ignores_order_and_repeats() {
    assert!(!eval("@Smoke", &["@smoke"]));
    assert!(!eval("@fast", &["fast"]));
    assert!(eval("@fast", &["@fast"]));
    let text = "@a and not @b or @c";
    assert_eq!(eval(text, &["@a", "@c", "@a"]), eval(text, &["@c", "@a"]));
}
