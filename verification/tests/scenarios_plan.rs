use rstest_bdd_macros::feature::{Feature, Scenario, Step, StepType};
use rstest_bdd_macros::runtime::{
    resolve_effective_runtime, runtime_compatibility_alias, RuntimeCompatibilityAlias, RuntimeMode,
};
use rstest_bdd_macros::scenarios_plan::{
    bind_scenario, check_empty_results, check_fallible_fixtures, combine_params,
    generated_return_kind, process_scenarios, resolve_harness, runtime_deprecation_warning,
    plan_scenario, scenario_runtime, validate_step_placeholders, BindError, HarnessChoice,
    ScenarioPlanError,
};
use rstest_bdd_macros::feature::{ParsedStep, StepKeyword};
use rstest_bdd_macros::outline_params::ParamShape;
use rstest_bdd_macros::return_classifier::{
    GenericArg, PathSegment, ReturnError, ScenarioReturnKind, TypeShape,
};
use rstest_bdd_macros::selection::{ScenarioSelector, SelectionError};
use rstest_bdd_macros::tags::TagExpression;

fn scenario(name: &str, tags: &[&str], line: usize) -> Scenario {
    Scenario {
        keyword: "Scenario".to_string(),
        name: name.to_string(),
        steps: vec![Step {
            keyword: "Given".to_string(),
            ty: StepType::Given,
            value: "a step".to_string(),
            docstring: None,
            table: None,
        }],
        examples: Vec::new(),
        tags: tags.iter().map(|t| t.to_string()).collect(),
        line,
    }
}

fn feature(scenarios: Vec<Scenario>) -> Feature {
    Feature { tags: Vec::new(), background: None, scenarios }
}

#[test]
fn resolve_harness_path_prefers_explicit_harness() {
    assert_eq!(
        resolve_harness(true, Some(RuntimeCompatibilityAlias::TokioHarnessAdapter)),
        HarnessChoice::Explicit
    );
}

#[test]
fn resolve_harness_path_runtime_alias_resolves_to_tokio_harness() {
    assert_eq!(
        resolve_harness(false, Some(RuntimeCompatibilityAlias::TokioHarnessAdapter)),
        HarnessChoice::TokioAdapter
    );
    assert_eq!(resolve_harness(false, None), HarnessChoice::Default);
}

#[test]
fn process_scenario_skips_filtered_out_scenarios() {
    let f = feature(vec![scenario("ignored", &["@ignored"], 2)]);
    let expr = match TagExpression::parse("@selected") {
        Ok(e) => e,
        Err(e) => panic!("{}", e.to_string()),
    };
    let (tests, errors) = process_scenarios(&f, Some(&expr));
    assert!(tests.is_empty());
    assert!(errors.is_empty());
    assert_eq!(
        check_empty_results(tests.len(), errors.len(), Some("@selected")),
        Some("no scenarios matched tag expression `@selected`".to_string())
    );
}

#[test]
fn every_scenario_becomes_a_test_without_a_filter() {
    let f = feature(vec![scenario("a", &[], 1), scenario("b", &[], 4)]);
    let (tests, errors) = process_scenarios(&f, None);
    let names: Vec<String> = tests.into_iter().map(|d| d.name).collect();
    assert_eq!(names, vec!["a".to_string(), "b".to_string()]);
    assert!(errors.is_empty());
    assert_eq!(check_empty_results(0, 0, None), None);
}

#[test]
fn runtime_argument_warnings() {
    assert_eq!(runtime_deprecation_warning(RuntimeMode::Sync, false), None);
    let Some(w) = runtime_deprecation_warning(RuntimeMode::TokioCurrentThread, true) else {
        panic!("warning expected");
    };
    assert!(w.contains("redundant"));
    let Some(w) = runtime_deprecation_warning(RuntimeMode::TokioCurrentThread, false) else {
        panic!("warning expected");
    };
    assert!(w.contains("rstest_bdd_harness_tokio::TokioHarness"));
}

#[test]
fn fixtures_come_before_example_columns() {
    let params = combine_params(vec!["world: TestWorld"], vec!["col1", "col2"]);
    assert_eq!(params, vec!["world: TestWorld", "col1", "col2"]);
}

#[test]
fn fallible_fixtures_need_a_result_body() {
    assert_eq!(generated_return_kind(true), ScenarioReturnKind::ResultUnit);
    assert_eq!(generated_return_kind(false), ScenarioReturnKind::Unit);
    assert!(check_fallible_fixtures(true, ScenarioReturnKind::Unit).is_err());
    assert!(check_fallible_fixtures(true, ScenarioReturnKind::ResultUnit).is_ok());
    assert!(check_fallible_fixtures(false, ScenarioReturnKind::Unit).is_ok());
    assert_eq!(scenario_runtime(true), RuntimeMode::TokioCurrentThread);
}

#[test]
fn binding_reports_each_stage() {
    let f = feature(vec![scenario("one", &["@fast"], 3), scenario("two", &[], 6)]);
    let Err(BindError::TagFilter(m)) = bind_scenario(&f, "x.feature", None, Some("@a &&")) else {
        panic!("invalid tag expression");
    };
    assert!(m.starts_with("invalid tag expression at byte"), "{m}");
    let selector = ScenarioSelector::Name("three".to_string());
    let Err(BindError::Selection(SelectionError::NotFound { .. })) =
        bind_scenario(&f, "x.feature", Some(&selector), None)
    else {
        panic!("unknown title");
    };
    let selector = ScenarioSelector::Name("two".to_string());
    let Ok(d) = bind_scenario(&f, "x.feature", Some(&selector), None) else {
        panic!("title should bind");
    };
    assert_eq!(d.name, "two");
    let Ok(d) = bind_scenario(&f, "x.feature", None, Some("@fast")) else {
        panic!("tag should bind");
    };
    assert_eq!(d.line, 3);
    let empty = feature(Vec::new());
    let Err(BindError::Selection(SelectionError::NoScenarios { path })) =
        bind_scenario(&empty, "x.feature", None, None)
    else {
        panic!("empty feature");
    };
    assert_eq!(path, "x.feature");
}

/// A test signature as generated: `async` when the runtime is, then the
/// parameters in the order the library chooses.
fn signature(is_async: bool) -> String {
    let params = combine_params(
        vec!["world: TestWorld".to_string()],
        vec!["#[case] col1: &'static str".to_string(), "#[case] col2: &'static str".to_string()],
    );
    let prefix = if is_async { "async fn" } else { "fn" };
    format!("{prefix} test_name({})", params.join(", "))
}

fn assert_fixtures_before_examples(is_async: bool) -> String {
    let sig_str = signature(is_async);
    let world_pos = sig_str.find("world").expect("should contain world");
    let col1_pos = sig_str.find("col1").expect("should contain col1");
    assert!(world_pos < col1_pos, "fixture 'world' should appear before example 'col1'");
    sig_str
}

#[test]
fn build_test_signature_fixtures_then_examples() {
    let runtime = RuntimeMode::Sync;
    let effective =
        resolve_effective_runtime(runtime, runtime_compatibility_alias(runtime), false);
    let sig_str = assert_fixtures_before_examples(effective.is_async());
    assert!(sig_str.starts_with("fn"));
}

#[test]
fn build_test_signature_async_fixtures_then_examples() {
    let runtime = RuntimeMode::TokioCurrentThread;
    let effective = resolve_effective_runtime(runtime, runtime_compatibility_alias(runtime), true);
    let sig_str = assert_fixtures_before_examples(effective.is_async());
    assert!(sig_str.starts_with("async fn"), "should be async fn");
}

fn path_type(name: &str, args: Vec<TypeShape>) -> TypeShape {
    TypeShape::Path(vec![PathSegment {
        ident: name.to_string(),
        args: if args.is_empty() {
            None
        } else {
            Some(args.into_iter().map(GenericArg::Type).collect())
        },
    }])
}

fn param(name: &str) -> ParamShape {
    ParamShape { ident: Some(name.to_string()), attr_paths: Vec::new() }
}

fn outline(name: &str, headers: &[&str]) -> Scenario {
    let mut s = scenario(name, &[], 3);
    s.keyword = "Scenario Outline".to_string();
    s.examples = vec![rstest_bdd_macros::feature::Examples {
        tags: Vec::new(),
        table: Some(vec![
            headers.iter().map(|h| h.to_string()).collect(),
            headers.iter().map(|_| "1".to_string()).collect(),
        ]),
    }];
    s
}

#[test]
fn scenario_plan_checks_in_order() {
    let loaded: Result<Feature, String> = Ok(feature(vec![outline("o", &["count"])]));
    let value_return = Some(path_type("u32", vec![]));
    let missing: Result<Feature, String> = Err("feature file not found".to_string());
    // The return type is checked before the feature is looked at.
    assert!(matches!(
        plan_scenario(&value_return, false, &missing, "f.feature", None, None, &[], false),
        Err(ScenarioPlanError::Return(ReturnError::ScenarioValue))
    ));
    match plan_scenario(&None, false, &missing, "f.feature", None, None, &[], false) {
        Err(ScenarioPlanError::Load(m)) => assert_eq!(m, "feature file not found"),
        other => panic!("unexpected: {other:?}"),
    }
    assert!(matches!(
        plan_scenario(&None, false, &loaded, "f.feature", Some(&ScenarioSelector::Index(4)), None, &[], false),
        Err(ScenarioPlanError::Bind(BindError::Selection(SelectionError::IndexOutOfRange { .. })))
    ));
    match plan_scenario(&None, false, &loaded, "f.feature", None, None, &[param("other")], false) {
        Err(ScenarioPlanError::Outline(m)) => assert!(m.contains("parameter `count` not found")),
        other => panic!("unexpected: {other:?}"),
    }
    assert!(matches!(
        plan_scenario(&None, false, &loaded, "f.feature", None, None, &[param("count")], true),
        Err(ScenarioPlanError::Fallible(_))
    ));
}

#[test]
fn scenario_plan_marks_case_parameters_and_runtime() {
    let loaded: Result<Feature, String> = Ok(feature(vec![outline("o", &["count"])]));
    let unit_result = Some(path_type(
        "Result",
        vec![TypeShape::Tuple(Vec::new()), path_type("String", vec![])],
    ));
    let plan = match plan_scenario(
        &unit_result,
        true,
        &loaded,
        "f.feature",
        None,
        None,
        &[param("world"), param("count")],
        true,
    ) {
        Ok(p) => p,
        Err(e) => panic!("unexpected: {e:?}"),
    };
    assert_eq!(plan.case_params, vec![false, true]);
    assert_eq!(plan.return_kind, ScenarioReturnKind::ResultUnit);
    assert_eq!(plan.runtime, RuntimeMode::TokioCurrentThread);
    assert_eq!(plan.data.name, "o");
}

#[test]
fn scenario_plan_rejects_unknown_step_placeholders_before_matching_columns() {
    let mut o = outline("o", &["count"]);
    o.steps[0].value = "I have <count> and <missing>".to_string();
    let loaded: Result<Feature, String> = Ok(feature(vec![o]));
    // The parameter does not match the column either; the placeholder is
    // reported first.
    match plan_scenario(&None, false, &loaded, "f.feature", None, None, &[param("other")], false) {
        Err(ScenarioPlanError::Placeholder(e)) => {
            assert_eq!(e.placeholder, "missing");
            assert_eq!(e.available_columns, vec!["count".to_string()]);
            assert_eq!(
                e.to_string(),
                "Placeholder '<missing>' not found in Examples table. Available columns: [count]"
            );
        }
        other => panic!("unexpected: {other:?}"),
    }
}

fn parsed(text: &str) -> ParsedStep {
    ParsedStep { keyword: StepKeyword::Given, text: text.to_string(), docstring: None, table: None }
}

#[test]
fn step_placeholders_must_name_columns() {
    let headers = vec!["a".to_string(), "b".to_string()];
    assert!(validate_step_placeholders(&[parsed("<a> then <b>"), parsed("plain")], &headers).is_ok());
    assert!(validate_step_placeholders(&[], &headers).is_ok());
    match validate_step_placeholders(&[parsed("<a>"), parsed("<c> and <d>")], &headers) {
        Err(e) => {
            assert_eq!(e.placeholder, "c");
            assert_eq!(e.available_columns_display, "a, b");
        }
        Ok(()) => panic!("unknown placeholder accepted"),
    }
}

#[test]
fn binding_twice_gives_the_same_result() {
    let f = feature(vec![scenario("one", &["@fast"], 3), scenario("two", &["@slow"], 6)]);
    let bind = || bind_scenario(&f, "x.feature", None, Some("@slow"));
    match (bind(), bind()) {
        (Ok(a), Ok(b)) => {
            assert_eq!(a.name, b.name);
            assert_eq!(a.line, b.line);
            assert_eq!(a.tags, b.tags);
            assert_eq!(format!("{:?}", a.steps), format!("{:?}", b.steps));
            assert_eq!(a.name, "two");
        }
        other => panic!("unexpected: {other:?}"),
    }
    let unknown = ScenarioSelector::Index(7);
    let first = format!("{:?}", bind_scenario(&f, "x.feature", Some(&unknown), None));
    let second = format!("{:?}", bind_scenario(&f, "x.feature", Some(&unknown), None));
    assert_eq!(first, second);
    assert!(first.contains("IndexOutOfRange"));
}
