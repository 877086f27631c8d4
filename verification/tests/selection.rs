use rstest_bdd_macros::feature::{Examples, Feature, Scenario, Step, StepType};
use rstest_bdd_macros::selection::{
    find_scenario_by_name, format_available_tags, parse_tag_filter, resolve_candidate_indices,
    scenario_not_found_error, select_scenario, ScenarioSelector, SelectionError,
};

fn step(text: &str) -> Step {
    Step {
        keyword: "Given".to_string(),
        ty: StepType::Given,
        value: text.to_string(),
        docstring: None,
        table: None,
    }
}

fn scenario(name: &str, line: usize, tags: &[&str]) -> Scenario {
    Scenario {
        keyword: "Scenario".to_string(),
        name: name.to_string(),
        steps: vec![step("a step")],
        examples: Vec::new(),
        tags: tags.iter().map(|t| t.to_string()).collect(),
        line,
    }
}

fn feature(scenarios: Vec<Scenario>) -> Feature {
    Feature { tags: Vec::new(), background: None, scenarios }
}

fn two_scenarios() -> Feature {
    feature(vec![scenario("first", 2, &[]), scenario("second", 4, &[])])
}

fn duplicate_scenarios() -> Feature {
    feature(vec![scenario("twin", 2, &[]), scenario("twin", 4, &[])])
}

#[test]
fn available_tags_placeholder_covers_no_examined_scenarios() {
    assert_eq!(format_available_tags(&[]), "available tags: <none>");
}

#[test]
fn available_tags_serialize_each_examined_set() {
    let tag_sets = vec![vec!["@fast".to_string(), "@ui".to_string()], Vec::new()];
    assert_eq!(
        format_available_tags(&tag_sets),
        "available tags: @fast, @ui; <none>"
    );
}

#[test]
fn finds_a_uniquely_named_scenario() {
    let f = two_scenarios();
    let index = match find_scenario_by_name(&f, "second") {
        Ok(i) => i,
        Err(e) => panic!("uniquely named scenario should resolve: {}", e.message()),
    };
    assert_eq!(index, 1);
}

#[test]
fn missing_name_diagnostic_lists_available_titles() {
    let f = two_scenarios();
    let Err(err) = find_scenario_by_name(&f, "third") else {
        panic!("unknown scenario name should not resolve");
    };
    let message = err.message();
    assert!(message.contains("scenario named \"third\" not found"), "{message}");
    assert!(message.contains("available titles: \"first\", \"second\""), "{message}");
}

#[test]
fn missing_name_diagnostic_notes_empty_features() {
    let f = feature(Vec::new());
    let message = scenario_not_found_error(&f, "any").message();
    assert!(message.contains("feature contains no scenarios"), "{message}");
}

#[test]
fn duplicate_names_produce_an_ambiguity_diagnostic() {
    let f = duplicate_scenarios();
    let Err(err) = find_scenario_by_name(&f, "twin") else {
        panic!("duplicate scenario names should be rejected");
    };
    let message = err.message();
    assert!(message.contains("found multiple scenarios named \"twin\""), "{message}");
    assert!(message.contains("matching indexes: 0, 1"), "{message}");
    assert!(message.contains("lines: 2, 4"), "{message}");
}

#[test]
fn index_selector_out_of_range_reports_count() {
    let f = two_scenarios();
    let Err(err) = resolve_candidate_indices(Some(&ScenarioSelector::Index(5)), &f) else {
        panic!("index beyond the scenarios should be rejected");
    };
    assert_eq!(err.message(), "scenario index out of range: 5 (available: 2)");
}

#[test]
fn no_selector_considers_every_scenario() {
    let f = two_scenarios();
    let Ok(c) = resolve_candidate_indices(None, &f) else {
        panic!("candidates should resolve");
    };
    assert_eq!(c, vec![0, 1]);
}

#[test]
fn default_selection_binds_the_first_scenario() {
    let f = two_scenarios();
    let Ok(data) = select_scenario(&f, &[0, 1], None, None, "demo.feature") else {
        panic!("first scenario should be bound");
    };
    assert_eq!(data.name, "first");
    assert_eq!(data.line, 2);
}

#[test]
fn tag_filter_skips_scenarios_without_the_tag() {
    let f = feature(vec![
        scenario("plain", 2, &["@slow"]),
        scenario("tagged", 5, &["@fast"]),
    ]);
    let filter = match parse_tag_filter("@fast") {
        Ok(f) => f,
        Err(m) => panic!("{m}"),
    };
    let Ok(data) = select_scenario(&f, &[0, 1], Some(&filter), None, "demo.feature") else {
        panic!("tagged scenario should be bound");
    };
    assert_eq!(data.name, "tagged");
    assert_eq!(data.tags, vec!["@fast".to_string()]);
}

#[test]
fn unmatched_tag_filter_lists_examined_tags() {
    let f = feature(vec![scenario("plain", 2, &["@slow"]), scenario("bare", 5, &[])]);
    let filter = match parse_tag_filter("@fast") {
        Ok(f) => f,
        Err(m) => panic!("{m}"),
    };
    let Err(err) = select_scenario(&f, &[0, 1], Some(&filter), None, "demo.feature") else {
        panic!("no scenario should match");
    };
    assert!(matches!(err, SelectionError::TagMismatch { .. }));
    assert_eq!(
        err.message(),
        "no scenarios matched tag expression `@fast`; available tags: @slow; <none>"
    );
    let selector = ScenarioSelector::Index(0);
    let Err(err) = select_scenario(&f, &[0], Some(&filter), Some(&selector), "demo.feature") else {
        panic!("no scenario should match");
    };
    assert_eq!(
        err.message(),
        "scenario at index 0 does not match tag expression `@fast`; available tags: @slow"
    );
}

#[test]
fn outline_rows_are_filtered_by_their_examples_tags() {
    let outline = Scenario {
        keyword: "Scenario Outline".to_string(),
        name: "outline".to_string(),
        steps: vec![step("I have <n> items")],
        examples: vec![
            Examples {
                tags: vec!["@fast".to_string()],
                table: Some(vec![vec!["n".to_string()], vec!["1".to_string()]]),
            },
            Examples {
                tags: vec!["@slow".to_string()],
                table: Some(vec![vec!["n".to_string()], vec!["2".to_string()]]),
            },
        ],
        tags: Vec::new(),
        line: 3,
    };
    let f = feature(vec![outline]);
    let filter = match parse_tag_filter("@slow") {
        Ok(f) => f,
        Err(m) => panic!("{m}"),
    };
    let Ok(data) = select_scenario(&f, &[0], Some(&filter), None, "demo.feature") else {
        panic!("outline should match through its second table");
    };
    let Some(ex) = data.examples else {
        panic!("outline keeps its examples");
    };
    assert_eq!(ex.rows, vec![vec!["2".to_string()]]);
    assert_eq!(ex.row_tags, vec![vec!["@slow".to_string()]]);
}

#[test]
fn empty_feature_has_no_candidates_to_bind() {
    let f = feature(Vec::new());
    let Err(err) = select_scenario(&f, &[], None, None, "empty.feature") else {
        panic!("nothing to bind");
    };
    assert_eq!(err.message(), "feature `empty.feature` contains no scenarios");
}
