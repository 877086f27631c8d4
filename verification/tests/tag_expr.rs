use rstest_bdd_macros::tag_expr::{eval, parse};

#[test]
fn honours_precedence_and_associativity() {
    let expr = match parse("@a and @b or @c") {
        Ok(e) => e,
        Err(e) => panic!("{e:?}"),
    };
    assert!(eval(&expr, &["a", "b"]));
    assert!(eval(&expr, &["a", "c"]));
    assert!(!eval(&expr, &["a"]));
}

#[test]
fn operators_are_case_insensitive() {
    let expr = match parse("@a AnD Not @b") {
        Ok(e) => e,
        Err(e) => panic!("{e:?}"),
    };
    assert!(eval(&expr, &["a"]));
}

#[test]
fn tags_are_case_sensitive() {
    let expr = match parse("@Smoke") {
        Ok(e) => e,
        Err(e) => panic!("{e:?}"),
    };
    assert!(!eval(&expr, &["smoke"]));
}

#[test]
fn reports_empty_string() {
    let Err(err) = parse("") else {
        panic!("expected error");
    };
    assert_eq!(err.pos, 0);
}

#[test]
fn reports_unknown_token() {
    let Err(err) = parse("@a && @b") else {
        panic!("expected error");
    };
    assert!(err.msg.contains("unknown token"));
}

#[test]
fn reports_dangling_operator() {
    let Err(err) = parse("@a and") else {
        panic!("expected error");
    };
    assert!(err.msg.contains("expected tag"));
}

#[test]
fn reports_empty_parentheses() {
    let Err(err) = parse("()") else {
        panic!("expected error");
    };
    assert!(err.msg.contains("empty parentheses"));
}

#[test]
fn nested_negation_and_grouping_evaluate_as_written() {
    let expr = match parse("not (@a or @b) and @c") {
        Ok(e) => e,
        Err(e) => panic!("{e:?}"),
    };
    assert!(eval(&expr, &["c"]));
    assert!(!eval(&expr, &["a", "c"]));
    assert!(!eval(&expr, &[]));
}
