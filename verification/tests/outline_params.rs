use rstest_bdd_macros::outline_params::{
    create_parameter_mismatch_error, find_matching_parameter, has_case_attribute,
    is_case_attribute, process_scenario_outline_examples, ParamShape,
};

fn param(name: &str, attrs: &[&[&str]]) -> ParamShape {
    ParamShape {
        ident: Some(name.to_string()),
        attr_paths: attrs
            .iter()
            .map(|p| p.iter().map(|s| s.to_string()).collect())
            .collect(),
    }
}

fn pattern_param() -> ParamShape {
    ParamShape { ident: None, attr_paths: Vec::new() }
}

fn strings(v: &[&str]) -> Vec<String> {
    v.iter().map(|s| s.to_string()).collect()
}

#[test]
fn every_column_marks_its_parameter() {
    let params = vec![param("world", &[]), param("count", &[]), param("name", &[])];
    let headers = strings(&["name", "count"]);
    let needs = process_scenario_outline_examples(&params, Some(&headers))
        .unwrap_or_else(|m| panic!("unexpected error: {m}"));
    assert_eq!(needs, vec![false, true, true]);
}

#[test]
fn parameters_with_a_case_attribute_keep_it() {
    let params = vec![param("count", &[&["case"]]), param("name", &[&["rstest", "case"]])];
    let headers = strings(&["count", "name"]);
    let needs = process_scenario_outline_examples(&params, Some(&headers))
        .unwrap_or_else(|m| panic!("unexpected error: {m}"));
    assert_eq!(needs, vec![false, false]);
}

#[test]
fn without_examples_nothing_changes() {
    let params = vec![param("count", &[])];
    assert_eq!(process_scenario_outline_examples(&params, None), Ok(vec![false]));
}

#[test]
fn a_column_without_parameter_is_reported() {
    let params = vec![param("world", &[]), pattern_param(), param("count", &[])];
    let headers = strings(&["count", "missing", "other"]);
    let err = process_scenario_outline_examples(&params, Some(&headers))
        .expect_err("unknown column should fail");
    assert_eq!(
        err,
        "parameter `missing` not found for scenario outline column. Available parameters: [world, count]"
    );
    assert_eq!(
        create_parameter_mismatch_error(&[], "x"),
        "parameter `x` not found for scenario outline column. Available parameters: []"
    );
}

#[test]
fn the_first_parameter_of_a_name_is_matched() {
    let params = vec![pattern_param(), param("a", &[]), param("a", &[])];
    assert_eq!(find_matching_parameter(&params, "a"), Some(1));
    assert_eq!(find_matching_parameter(&params, "b"), None);
}

#[test]
fn case_attributes_are_recognised_by_path() {
    assert!(is_case_attribute(&strings(&["case"])));
    assert!(is_case_attribute(&strings(&["rstest", "case"])));
    assert!(!is_case_attribute(&strings(&["other", "case"])));
    assert!(!is_case_attribute(&strings(&["rstest"])));
    assert!(!is_case_attribute(&[]));
    assert!(has_case_attribute(&param("x", &[&["doc"], &["case"]])));
    assert!(!has_case_attribute(&param("x", &[&["doc"]])));
}
