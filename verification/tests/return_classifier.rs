use rstest_bdd_macros::return_classifier::{
    classify_return_type, classify_scenario_return, classify_step_return_type, nth_type_argument,
    GenericArg, PathSegment, ReturnError, ReturnKind, ReturnOverride, ScenarioReturnKind,
    StepReturnStrategy, TypeShape,
};

/// The classifier's view of a parsed type.
fn type_shape(ty: &syn::Type) -> TypeShape {
    match ty {
        syn::Type::Tuple(tuple) => TypeShape::Tuple(tuple.elems.iter().map(type_shape).collect()),
        syn::Type::Never(_) => TypeShape::Never,
        syn::Type::ImplTrait(_) => TypeShape::ImplTrait,
        syn::Type::Path(type_path) => TypeShape::Path(
            type_path
                .path
                .segments
                .iter()
                .map(|segment| PathSegment {
                    ident: segment.ident.to_string(),
                    args: match &segment.arguments {
                        syn::PathArguments::AngleBracketed(args) => Some(
                            args.args
                                .iter()
                                .map(|arg| match arg {
                                    syn::GenericArgument::Type(ty) => GenericArg::Type(type_shape(ty)),
                                    _ => GenericArg::Other,
                                })
                                .collect(),
                        ),
                        _ => None,
                    },
                })
                .collect(),
        ),
        _ => TypeShape::Other,
    }
}

fn output_of(source: &str) -> Option<TypeShape> {
    let func: syn::ItemFn = match syn::parse_str(source) {
        Ok(f) => f,
        Err(err) => panic!("test input should be valid function syntax: {err}"),
    };
    match &func.sig.output {
        syn::ReturnType::Default => None,
        syn::ReturnType::Type(_, ty) => Some(type_shape(ty)),
    }
}

fn type_of(source: &str) -> TypeShape {
    match syn::parse_str::<syn::Type>(source) {
        Ok(ty) => type_shape(&ty),
        Err(err) => panic!("test input should be a type: {err}"),
    }
}

fn assert_classifies_to(source: &str, hint: Option<ReturnOverride>, expected: ReturnKind) {
    match classify_return_type(&output_of(source), hint) {
        Ok(kind) => assert_eq!(kind, expected),
        Err(err) => panic!("expected classification to succeed: {}", err.message()),
    }
}

#[test]
fn return_classifier_classifies_unit_by_default() {
    assert_classifies_to("fn step() {}", None, ReturnKind::Unit);
}

#[test]
fn tests_classifies_unit_by_default() {
    assert_classifies_to("fn step() {}", None, ReturnKind::Unit);
}

#[test]
fn return_classifier_classifies_unit_tuple_return() {
    assert_classifies_to("fn step() -> () { () }", None, ReturnKind::Unit);
}

#[test]
fn tests_classifies_unit_tuple_return() {
    assert_classifies_to("fn step() -> () { () }", None, ReturnKind::Unit);
}

#[test]
fn return_classifier_classifies_value_return() {
    assert_classifies_to("fn step() -> u32 { 1 }", None, ReturnKind::Value);
}

#[test]
fn tests_classifies_value_return() {
    assert_classifies_to("fn step() -> u32 { 1 }", None, ReturnKind::Value);
}

#[test]
fn return_classifier_classifies_result_unit() {
    assert_classifies_to("fn step() -> Result<(), &'static str> { Ok(()) }", None, ReturnKind::ResultUnit);
}

#[test]
fn tests_classifies_result_unit() {
    assert_classifies_to("fn step() -> Result<(), &'static str> { Ok(()) }", None, ReturnKind::ResultUnit);
}

#[test]
fn return_classifier_classifies_result_value() {
    assert_classifies_to("fn step() -> Result<u8, &'static str> { Ok(1) }", None, ReturnKind::ResultValue);
}

#[test]
fn tests_classifies_result_value() {
    assert_classifies_to("fn step() -> Result<u8, &'static str> { Ok(1) }", None, ReturnKind::ResultValue);
}

#[test]
fn return_classifier_recognizes_std_result_path() {
    assert_classifies_to("fn step() -> std::result::Result<u8, &'static str> { Ok(1) }", None, ReturnKind::ResultValue);
}

#[test]
fn tests_recognizes_std_result_path() {
    assert_classifies_to("fn step() -> std::result::Result<u8, &'static str> { Ok(1) }", None, ReturnKind::ResultValue);
}

#[test]
fn return_classifier_recognizes_core_result_path() {
    assert_classifies_to("fn step() -> core::result::Result<(), &'static str> { Ok(()) }", None, ReturnKind::ResultUnit);
}

#[test]
fn tests_recognizes_core_result_path() {
    assert_classifies_to("fn step() -> core::result::Result<(), &'static str> { Ok(()) }", None, ReturnKind::ResultUnit);
}

#[test]
fn return_classifier_recognizes_step_result() {
    assert_classifies_to("fn step() -> StepResult<u8, &'static str> { Ok(1) }", None, ReturnKind::ResultValue);
}

#[test]
fn tests_recognizes_step_result() {
    assert_classifies_to("fn step() -> StepResult<u8, &'static str> { Ok(1) }", None, ReturnKind::ResultValue);
}

#[test]
fn return_classifier_recognizes_crate_step_result() {
    assert_classifies_to("fn step() -> crate::StepResult<u8, &'static str> { Ok(1) }", None, ReturnKind::ResultValue);
}

#[test]
fn tests_recognizes_crate_step_result() {
    assert_classifies_to("fn step() -> crate::StepResult<u8, &'static str> { Ok(1) }", None, ReturnKind::ResultValue);
}

#[test]
fn return_classifier_recognizes_self_step_result() {
    assert_classifies_to("fn step() -> self::StepResult<u8, &'static str> { Ok(1) }", None, ReturnKind::ResultValue);
}

#[test]
fn tests_recognizes_self_step_result() {
    assert_classifies_to("fn step() -> self::StepResult<u8, &'static str> { Ok(1) }", None, ReturnKind::ResultValue);
}

#[test]
fn return_classifier_recognizes_super_step_result() {
    assert_classifies_to("fn step() -> super::StepResult<u8, &'static str> { Ok(1) }", None, ReturnKind::ResultValue);
}

#[test]
fn tests_recognizes_super_step_result() {
    assert_classifies_to("fn step() -> super::StepResult<u8, &'static str> { Ok(1) }", None, ReturnKind::ResultValue);
}

#[test]
fn return_classifier_recognizes_rstest_bdd_step_result() {
    assert_classifies_to("fn step() -> rstest_bdd::StepResult<u8, &'static str> { Ok(1) }", None, ReturnKind::ResultValue);
}

#[test]
fn tests_recognizes_rstest_bdd_step_result() {
    assert_classifies_to("fn step() -> rstest_bdd::StepResult<u8, &'static str> { Ok(1) }", None, ReturnKind::ResultValue);
}

#[test]
fn return_classifier_override_value_forces_value() {
    assert_classifies_to("fn step() -> Result<u8, &'static str> { Ok(1) }", Some(ReturnOverride::Value), ReturnKind::Value);
}

#[test]
fn tests_override_value_forces_value() {
    assert_classifies_to("fn step() -> Result<u8, &'static str> { Ok(1) }", Some(ReturnOverride::Value), ReturnKind::Value);
}

fn override_result_case() {
    let err = match classify_return_type(&output_of("fn step() -> u8 { 1 }"), Some(ReturnOverride::Result)) {
        Ok(kind) => panic!("expected result override to fail, got {kind:?}"),
        Err(err) => err,
    };
    assert!(err.message().contains("return override `result` requires"), "unexpected error: {}", err.message());
}

#[test]
fn return_classifier_override_result_requires_result_like_return_type() {
    override_result_case();
}

#[test]
fn tests_override_result_requires_result_like_return_type() {
    override_result_case();
}

#[test]
fn second_type_argument_extracts_error_type() {
    let TypeShape::Path(segs) = type_of("Result<u8, String>") else {
        panic!("expected a path type");
    };
    let Some(TypeShape::Path(second)) = nth_type_argument(&segs, 1) else {
        panic!("should extract second type argument");
    };
    assert_eq!(second[0].ident, "String");
}

#[test]
fn second_type_argument_returns_none_for_single_generic() {
    let TypeShape::Path(segs) = type_of("Option<u8>") else {
        panic!("expected a path type");
    };
    assert!(nth_type_argument(&segs, 1).is_none());
}

#[test]
fn alias_under_result_hint_is_assumed_result_like() {
    assert_classifies_to("fn step() -> MyResult<u8> { Ok(1) }", Some(ReturnOverride::Result), ReturnKind::ResultValue);
    assert_eq!(
        classify_return_type(&output_of("fn step() -> String { String::new() }"), Some(ReturnOverride::Result)),
        Err(ReturnError::OverrideNeedsResult)
    );
}

#[test]
fn step_strategies_follow_hints_and_shapes() {
    assert_eq!(classify_step_return_type(&output_of("fn step() -> ! { loop {} }"), None), Ok(StepReturnStrategy::Never));
    assert_eq!(classify_step_return_type(&output_of("fn step() -> MyAlias { todo() }"), None), Ok(StepReturnStrategy::Dispatch));
    assert_eq!(classify_step_return_type(&output_of("fn step() -> impl Clone { 1 }"), None), Err(ReturnError::ImplTrait));
    assert_eq!(
        classify_step_return_type(&output_of("fn step() -> Result<Result<(), E>, E> { todo() }"), None),
        Err(ReturnError::NestedResult)
    );
    assert_eq!(
        classify_step_return_type(&output_of("fn step() -> u8 { 1 }"), Some(ReturnOverride::Value)),
        Ok(StepReturnStrategy::ForcedValue)
    );
    assert_eq!(
        classify_step_return_type(&output_of("fn step() -> Thing { todo() }"), Some(ReturnOverride::Result)),
        Ok(StepReturnStrategy::ForcedResult)
    );
}

#[test]
fn scenario_bodies_return_unit_or_unit_results() {
    assert_eq!(classify_scenario_return(&output_of("fn s() {}")), Ok(ScenarioReturnKind::Unit));
    assert_eq!(
        classify_scenario_return(&output_of("fn s() -> StepResult<(), String> { Ok(()) }")),
        Ok(ScenarioReturnKind::ResultUnit)
    );
    let Err(e) = classify_scenario_return(&output_of("fn s() -> u8 { 1 }")) else {
        panic!("value-returning scenarios are rejected");
    };
    assert_eq!(e.message(), "#[scenario] bodies must return () or a unit Result/StepResult");
}
