use rstest_bdd_macros::macro_args::{
    combine_scenario_args, library_marker, LibraryMarker, ScenarioArg, ScenarioArgs,
};

type Arg = ScenarioArg<&'static str, &'static str>;

fn parse(args: Vec<Arg>) -> ScenarioArgs<&'static str, &'static str> {
    match combine_scenario_args(args) {
        Ok(a) => a,
        Err(f) => panic!("scenario args should parse: {:?}", f),
    }
}

fn assert_error_contains(args: Vec<Arg>, expected: &str) {
    match combine_scenario_args(args) {
        Ok(_) => panic!("parsing should fail"),
        Err(f) => {
            let Some((message, _)) = f.error.messages() else {
                panic!("error should carry a message");
            };
            assert!(message.contains(expected), "error should contain '{expected}': {message}");
        }
    }
}

fn libraries(paths: &[&'static str]) -> Arg {
    ScenarioArg::Libraries(paths.to_vec(), paths.iter().map(|p| p.to_string()).collect())
}

fn strings(v: &[&str]) -> Vec<String> {
    v.iter().map(|s| s.to_string()).collect()
}

#[test]
fn parses_harness_argument() {
    let args = parse(vec![
        ScenarioArg::Path("test.feature"),
        ScenarioArg::Harness("rstest_bdd_harness::StdHarness"),
    ]);
    assert_eq!(args.path, "test.feature");
    let Some(harness) = args.harness else {
        panic!("harness should be set");
    };
    assert!(harness.contains("StdHarness"), "should contain StdHarness: {harness}");
}

#[test]
fn parses_attributes_argument() {
    let args = parse(vec![
        ScenarioArg::Path("test.feature"),
        ScenarioArg::Attributes("rstest_bdd_harness::DefaultAttributePolicy"),
    ]);
    let Some(policy) = args.attributes else {
        panic!("attributes should be set");
    };
    assert!(policy.contains("DefaultAttributePolicy"), "{policy}");
}

#[test]
fn parses_harness_and_attributes_together() {
    let args = parse(vec![
        ScenarioArg::Path("test.feature"),
        ScenarioArg::Harness("my::Harness"),
        ScenarioArg::Attributes("my::Policy"),
    ]);
    assert!(args.harness.is_some());
    assert!(args.attributes.is_some());
}

#[test]
fn parses_harness_with_all_other_arguments() {
    let args = parse(vec![
        ScenarioArg::Path("test.feature"),
        ScenarioArg::Name("My scenario"),
        ScenarioArg::Tags("@fast"),
        ScenarioArg::Harness("my::Harness"),
        ScenarioArg::Attributes("my::Policy"),
    ]);
    assert_eq!(args.path, "test.feature");
    assert!(args.selector.is_some());
    assert!(args.tag_filter.is_some());
    assert!(args.harness.is_some());
    assert!(args.attributes.is_some());
}

#[test]
fn defaults_harness_and_attributes_to_none() {
    let args = parse(vec![ScenarioArg::Path("test.feature")]);
    assert!(args.harness.is_none());
    assert!(args.attributes.is_none());
}

#[test]
fn parses_libraries_in_declaration_order() {
    let args = parse(vec![ScenarioArg::Path("test.feature"), libraries(&["accounts", "filesystem"])]);
    let Some(libraries) = args.libraries else {
        panic!("libraries should be set");
    };
    assert_eq!(libraries, ["accounts", "filesystem"]);
}

#[test]
fn rejects_duplicate_libraries() {
    assert_error_contains(
        vec![ScenarioArg::Path("test.feature"), libraries(&["accounts"]), libraries(&["filesystem"])],
        "duplicate",
    );
}

#[test]
fn rejects_repeated_library_paths() {
    assert_error_contains(
        vec![ScenarioArg::Path("test.feature"), libraries(&["accounts", "accounts"])],
        "duplicate step library",
    );
}

#[test]
fn rejects_duplicate_harness() {
    assert_error_contains(
        vec![
            ScenarioArg::Path("test.feature"),
            ScenarioArg::Harness("a::H"),
            ScenarioArg::Harness("b::H"),
        ],
        "duplicate",
    );
}

#[test]
fn rejects_duplicate_attributes() {
    assert_error_contains(
        vec![
            ScenarioArg::Path("test.feature"),
            ScenarioArg::Attributes("a::P"),
            ScenarioArg::Attributes("b::P"),
        ],
        "duplicate",
    );
}

fn global_marker_case() {
    let runtime = strings(&["rstest_bdd"]);
    let builtin = library_marker(&strings(&["rstest_bdd", "global"]), &runtime);
    let user = library_marker(&strings(&["steps", "global"]), &runtime);
    assert!(matches!(builtin, LibraryMarker::Builtin));
    match user {
        LibraryMarker::Marker { parent, name } => {
            assert_eq!(parent, strings(&["steps"]));
            assert_eq!(name, "__RSTEST_BDD_STEP_LIBRARY_global");
        }
        other => panic!("user library should use its marker: {other:?}"),
    }
}

#[test]
fn tests_global_marker_special_case_is_limited_to_the_runtime_crate() {
    global_marker_case();
}

#[test]
fn library_markers_global_marker_special_case_is_limited_to_the_runtime_crate() {
    global_marker_case();
}
