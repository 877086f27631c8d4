use rstest_bdd_macros::feature::{
    collect_base_tags, extract_examples, extract_scenario_steps, parse_step_keyword, Examples,
    ExtractError, Feature, ParsedStep, Scenario, Step, StepKeyword, StepType,
};

fn step(keyword: &str, ty: StepType, text: &str) -> Step {
    Step {
        keyword: keyword.to_string(),
        ty,
        value: text.to_string(),
        docstring: None,
        table: None,
    }
}

fn strings(v: &[&str]) -> Vec<String> {
    v.iter().map(|s| s.to_string()).collect()
}

fn outline(examples: Vec<Examples>) -> Scenario {
    Scenario {
        keyword: "Scenario Outline".to_string(),
        name: "counting".to_string(),
        steps: vec![step("Given", StepType::Given, "I have <n>")],
        examples,
        tags: strings(&["@outline"]),
        line: 7,
    }
}

#[test]
fn conjunction_keywords_stay_conjunctions() {
    assert_eq!(parse_step_keyword("And", StepType::Then), StepKeyword::And);
    assert_eq!(parse_step_keyword(" bUt ", StepType::Given), StepKeyword::But);
    assert_eq!(parse_step_keyword("Given", StepType::Given), StepKeyword::Given);
    assert_eq!(parse_step_keyword("*", StepType::When), StepKeyword::When);
    assert_eq!(parse_step_keyword("Andy", StepType::Then), StepKeyword::Then);
}

#[test]
fn parsed_steps_copy_text_tables_and_docstrings() {
    let mut s = step("And", StepType::Given, "a table");
    s.table = Some(vec![strings(&["a", "b"])]);
    s.docstring = Some("doc".to_string());
    let p = ParsedStep::from_step(&s);
    assert_eq!(p.keyword, StepKeyword::And);
    assert_eq!(p.text, "a table");
    assert_eq!(p.docstring, Some("doc".to_string()));
    assert_eq!(p.table, Some(vec![strings(&["a", "b"])]));
}

#[test]
fn base_tags_merge_feature_and_scenario_tags() {
    let scenario = Scenario {
        keyword: "Scenario".to_string(),
        name: "s".to_string(),
        steps: Vec::new(),
        examples: Vec::new(),
        tags: strings(&["@b", "a"]),
        line: 1,
    };
    let feature = Feature { tags: strings(&["a", "@c"]), background: None, scenarios: Vec::new() };
    assert_eq!(collect_base_tags(&feature, &scenario), strings(&["@a", "@c", "@b"]));
}

#[test]
fn background_steps_come_first() {
    let feature = Feature {
        tags: Vec::new(),
        background: Some(vec![step("Given", StepType::Given, "a background")]),
        scenarios: vec![Scenario {
            keyword: "Scenario".to_string(),
            name: "s".to_string(),
            steps: vec![step("When", StepType::When, "it runs")],
            examples: Vec::new(),
            tags: Vec::new(),
            line: 3,
        }],
    };
    let Ok(data) = extract_scenario_steps(&feature, None) else {
        panic!("scenario should be extracted");
    };
    assert_eq!(data.steps.len(), 2);
    assert_eq!(data.steps[0].text, "a background");
    assert_eq!(data.steps[1].keyword, StepKeyword::When);
    assert!(data.examples.is_none());
}

#[test]
fn outline_rows_carry_their_block_tags() {
    let scenario = outline(vec![
        Examples {
            tags: strings(&["@one"]),
            table: Some(vec![strings(&["n"]), strings(&["1"]), strings(&["2"])]),
        },
        Examples { tags: strings(&["two"]), table: Some(vec![strings(&["n"]), strings(&["3"])]) },
    ]);
    let base = strings(&["@outline"]);
    let Ok(Some(table)) = extract_examples(&scenario, &base) else {
        panic!("examples should be extracted");
    };
    assert_eq!(table.headers, strings(&["n"]));
    assert_eq!(table.rows, vec![strings(&["1"]), strings(&["2"]), strings(&["3"])]);
    assert_eq!(table.row_tags.len(), table.rows.len());
    assert_eq!(table.row_tags[0], strings(&["@outline", "@one"]));
    assert_eq!(table.row_tags[2], strings(&["@outline", "@two"]));
}

#[test]
fn outline_without_examples_table_is_rejected() {
    let scenario = outline(vec![Examples { tags: Vec::new(), table: None }]);
    let Err(err) = extract_examples(&scenario, &[]) else {
        panic!("missing table should be rejected");
    };
    assert_eq!(
        err.message(),
        "Scenario Outline missing Examples table for 'counting'"
    );
}

#[test]
fn ragged_examples_rows_are_rejected() {
    let scenario = outline(vec![Examples {
        tags: Vec::new(),
        table: Some(vec![strings(&["n", "m"]), strings(&["1"])]),
    }]);
    let Err(err) = extract_examples(&scenario, &[]) else {
        panic!("ragged table should be rejected");
    };
    assert!(matches!(err, ExtractError::MalformedExamples { .. }));
}

#[test]
fn extraction_reports_out_of_range_index() {
    let feature = Feature { tags: Vec::new(), background: None, scenarios: Vec::new() };
    let Err(err) = extract_scenario_steps(&feature, Some(3)) else {
        panic!("no such scenario");
    };
    assert_eq!(err.message(), "scenario index out of range: 3 (available: 0)");
}

#[test]
fn prepends_background_steps() {
    let feature = Feature {
        tags: Vec::new(),
        background: Some(vec![step("Given", StepType::Given, "a background step")]),
        scenarios: vec![Scenario {
            keyword: "Scenario".to_string(),
            name: "run".to_string(),
            steps: vec![
                step("When", StepType::When, "an action"),
                step("Then", StepType::Then, "a result"),
            ],
            examples: Vec::new(),
            tags: Vec::new(),
            line: 0,
        }],
    };
    let Ok(data) = extract_scenario_steps(&feature, Some(0)) else {
        panic!("scenario extraction failed");
    };
    let steps: Vec<(StepKeyword, String)> =
        data.steps.into_iter().map(|s| (s.keyword, s.text)).collect();
    assert_eq!(
        steps,
        vec![
            (StepKeyword::Given, "a background step".to_string()),
            (StepKeyword::When, "an action".to_string()),
            (StepKeyword::Then, "a result".to_string()),
        ]
    );
}

#[test]
fn reports_requested_index_and_available_count_on_oob() {
    let feature = Feature {
        tags: Vec::new(),
        background: None,
        scenarios: vec![Scenario {
            keyword: "Scenario".to_string(),
            name: "only".to_string(),
            steps: vec![step("Given", StepType::Given, "step")],
            examples: Vec::new(),
            tags: Vec::new(),
            line: 0,
        }],
    };
    let Err(err) = extract_scenario_steps(&feature, Some(2)) else {
        panic!("expected scenario extraction to fail for out of range index");
    };
    let err = err.message();
    assert!(
        err.contains("scenario index out of range: 2 (available: 1)"),
        "error should report index and count, got: {err}"
    );
}

#[test]
fn scenario_outline_missing_examples_surfaces_scenario_name() {
    let scenario_name = "outline without examples";
    let feature = Feature {
        tags: Vec::new(),
        background: None,
        scenarios: vec![Scenario {
            keyword: "Scenario Outline".to_string(),
            name: scenario_name.to_string(),
            steps: Vec::new(),
            examples: Vec::new(),
            tags: Vec::new(),
            line: 0,
        }],
    };
    let Err(err) = extract_scenario_steps(&feature, None) else {
        panic!("scenario outline without examples should error");
    };
    let message = err.message();
    assert!(message.contains("Scenario Outline missing Examples table"), "{message}");
    assert!(message.contains(scenario_name), "{message}");
}

#[test]
fn missing_examples_error_includes_scenario_name() {
    let scenario = Scenario {
        keyword: "Scenario Outline".to_string(),
        name: "outline without examples".to_string(),
        steps: Vec::new(),
        examples: Vec::new(),
        tags: Vec::new(),
        line: 0,
    };
    let Err(err) = extract_examples(&scenario, &[]) else {
        panic!("expected missing examples error");
    };
    let message = err.message();
    assert!(message.contains("Scenario Outline missing Examples table"), "{message}");
    assert!(message.contains(&scenario.name), "{message}");
}
