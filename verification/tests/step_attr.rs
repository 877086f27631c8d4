use rstest_bdd_macros::feature::StepKeyword;
use rstest_bdd_macros::return_classifier::ReturnOverride;
use rstest_bdd_macros::step_attr::{
    keeps_explicit_pattern, keyword_name, parse_step_attr_args, signature_error_help, AttrToken,
    StepAttrError, StepAttrFailure, DUPLICATE_DATATABLE_ERROR,
};

#[test]
fn duplicate_datatable_help_names_the_remedy() {
    let help = signature_error_help(DUPLICATE_DATATABLE_ERROR, StepKeyword::Given);
    assert_eq!(help, "Remove one of the DataTable parameters.");
}

#[test]
fn generic_help_names_the_keyword_attribute() {
    let help = signature_error_help("something else", StepKeyword::When);
    assert!(help.starts_with("Use a step attribute (such as `#[when]`)"), "{help}");
    assert_eq!(keyword_name(StepKeyword::But), "but");
}

#[test]
fn specific_remedies_take_precedence() {
    assert_eq!(
        signature_error_help("methods are not supported; remove `self`", StepKeyword::Then),
        "Remove `self` from step functions."
    );
    assert_eq!(
        signature_error_help("duplicate `#[from]` attribute on x", StepKeyword::Then),
        "Remove one of the duplicate `#[from]` attributes."
    );
}

#[test]
fn blank_patterns_are_inferred() {
    assert!(!keeps_explicit_pattern(None));
    assert!(keeps_explicit_pattern(Some("")));
    assert!(!keeps_explicit_pattern(Some("   ")));
    assert!(keeps_explicit_pattern(Some("a step")));
}

fn ident(s: &str) -> AttrToken {
    AttrToken::Ident(s.to_string())
}

fn lit(s: &str) -> AttrToken {
    AttrToken::Str(s.to_string())
}

fn args(tokens: &[AttrToken]) -> (Option<String>, Option<ReturnOverride>) {
    match parse_step_attr_args(tokens) {
        Ok(a) => (a.pattern, a.return_override),
        Err(f) => panic!("unexpected failure: {f:?}"),
    }
}

fn failure(tokens: &[AttrToken]) -> StepAttrFailure {
    match parse_step_attr_args(tokens) {
        Ok(a) => panic!("unexpected success: {a:?}"),
        Err(f) => f,
    }
}

#[test]
fn step_attribute_arguments_take_each_accepted_form() {
    assert_eq!(args(&[]), (None, None));
    assert_eq!(args(&[lit("a {n}")]), (Some("a {n}".to_string()), None));
    assert_eq!(
        args(&[lit("a"), AttrToken::Comma, ident("result")]),
        (Some("a".to_string()), Some(ReturnOverride::Result))
    );
    assert_eq!(
        args(&[ident("expr"), AttrToken::Eq, lit("b")]),
        (Some("b".to_string()), None)
    );
    assert_eq!(
        args(&[ident("expr"), AttrToken::Eq, lit("b"), AttrToken::Comma, ident("value")]),
        (Some("b".to_string()), Some(ReturnOverride::Value))
    );
    assert_eq!(args(&[ident("value")]), (None, Some(ReturnOverride::Value)));
}

#[test]
fn step_attribute_arguments_report_where_they_go_wrong() {
    let f = failure(&[ident("expr"), AttrToken::Eq, ident("x")]);
    assert_eq!(f, StepAttrFailure { at: 2, error: StepAttrError::ExpectedString });
    let f = failure(&[lit("a"), lit("b")]);
    assert_eq!(f, StepAttrFailure { at: 1, error: StepAttrError::ExpectedComma });
    let f = failure(&[lit("a"), AttrToken::Comma, ident("maybe")]);
    assert_eq!(f.error.message(), "expected `result` or `value`");
    let f = failure(&[lit("a"), AttrToken::Comma]);
    assert_eq!(f, StepAttrFailure { at: 2, error: StepAttrError::ExpectedIdent });
    let f = failure(&[ident("result"), AttrToken::Comma]);
    assert_eq!(f, StepAttrFailure { at: 1, error: StepAttrError::UnexpectedTokens });
    assert_eq!(f.error.message(), "unexpected tokens in step attribute");
    let f = failure(&[lit("a"), AttrToken::Comma, ident("value"), AttrToken::Other]);
    assert_eq!(f, StepAttrFailure { at: 3, error: StepAttrError::UnexpectedTokens });
    let f = failure(&[ident("expr"), lit("a")]);
    assert_eq!(f, StepAttrFailure { at: 0, error: StepAttrError::BadOverride });
    let f = failure(&[AttrToken::Other]);
    assert_eq!(f.error, StepAttrError::ExpectedIdent);
}
