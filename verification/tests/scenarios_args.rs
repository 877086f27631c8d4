use rstest_bdd_macros::macro_args::{combine_scenarios_args, ScenariosArg, ScenariosArgs};
use rstest_bdd_macros::runtime::{parse_runtime_mode, RuntimeMode};
use ScenariosArg::{Attributes, Dir, Fixtures, Harness, Tags};

type Fixture = (&'static str, &'static str);
type Arg = ScenariosArg<&'static str, Fixture, &'static str>;

fn runtime(value: &str) -> Arg {
    match parse_runtime_mode(value) {
        Ok(mode) => ScenariosArg::Runtime(mode),
        Err(message) => panic!("{message}"),
    }
}

fn parse(args: Vec<Arg>) -> ScenariosArgs<&'static str, Fixture, &'static str> {
    match combine_scenarios_args(args) {
        Ok(a) => a,
        Err(f) => panic!("scenarios args should parse: {:?}", f),
    }
}

fn assert_error_contains(args: Vec<Arg>, expected: &str) {
    match combine_scenarios_args(args) {
        Ok(_) => panic!("parsing should fail"),
        Err(f) => {
            let Some((message, _)) = f.error.messages() else {
                panic!("error should carry a message");
            };
            assert!(message.contains(expected), "error message should contain '{expected}': {message}");
        }
    }
}

fn scenarios_args_parses_positional_dir_body() {
    let args = parse(vec![Dir("tests/features")]);
    assert_eq!(args.dir, "tests/features");
    assert!(args.tag_filter.is_none());
    assert!(args.fixtures.is_empty());
}

#[test]
fn macro_args_scenarios_args_parses_positional_dir() {
    scenarios_args_parses_positional_dir_body();
}

#[test]
fn tests_scenarios_args_parses_positional_dir() {
    scenarios_args_parses_positional_dir_body();
}

fn scenarios_args_parses_named_dir_body() {
    let args = parse(vec![Dir("tests/features")]);
    assert_eq!(args.dir, "tests/features");
}

#[test]
fn macro_args_scenarios_args_parses_named_dir() {
    scenarios_args_parses_named_dir_body();
}

#[test]
fn tests_scenarios_args_parses_named_dir() {
    scenarios_args_parses_named_dir_body();
}

fn scenarios_args_parses_named_path_body() {
    let args = parse(vec![Dir("tests/features")]);
    assert_eq!(args.dir, "tests/features");
}

#[test]
fn macro_args_scenarios_args_parses_named_path() {
    scenarios_args_parses_named_path_body();
}

#[test]
fn tests_scenarios_args_parses_named_path() {
    scenarios_args_parses_named_path_body();
}

fn scenarios_args_parses_with_tags_body() {
    let args = parse(vec![Dir("tests/features"), Tags("@fast")]);
    assert_eq!(args.dir, "tests/features");
    assert_eq!(args.tag_filter, Some("@fast"));
}

#[test]
fn macro_args_scenarios_args_parses_with_tags() {
    scenarios_args_parses_with_tags_body();
}

#[test]
fn tests_scenarios_args_parses_with_tags() {
    scenarios_args_parses_with_tags_body();
}

fn scenarios_args_parses_single_fixture_body() {
    let args = parse(vec![Dir("tests/features"), Fixtures(vec![("world", "TestWorld")])]);
    assert_eq!(args.fixtures.len(), 1);
    assert_eq!(args.fixtures[0].0, "world");
}

#[test]
fn macro_args_scenarios_args_parses_single_fixture() {
    scenarios_args_parses_single_fixture_body();
}

#[test]
fn tests_scenarios_args_parses_single_fixture() {
    scenarios_args_parses_single_fixture_body();
}

fn scenarios_args_parses_multiple_fixtures_body() {
    let args = parse(vec![
        Dir("tests/features"),
        Fixtures(vec![("world", "TestWorld"), ("db", "Database")]),
    ]);
    assert_eq!(args.fixtures.len(), 2);
    assert_eq!(args.fixtures[0].0, "world");
    assert_eq!(args.fixtures[1].0, "db");
}

#[test]
fn macro_args_scenarios_args_parses_multiple_fixtures() {
    scenarios_args_parses_multiple_fixtures_body();
}

#[test]
fn tests_scenarios_args_parses_multiple_fixtures() {
    scenarios_args_parses_multiple_fixtures_body();
}

fn scenarios_args_parses_all_arguments_body() {
    let args = parse(vec![
        Dir("tests/features"),
        Tags("@smoke"),
        Fixtures(vec![("world", "TestWorld")]),
    ]);
    assert_eq!(args.dir, "tests/features");
    assert_eq!(args.tag_filter, Some("@smoke"));
    assert_eq!(args.fixtures.len(), 1);
}

#[test]
fn macro_args_scenarios_args_parses_all_arguments() {
    scenarios_args_parses_all_arguments_body();
}

#[test]
fn tests_scenarios_args_parses_all_arguments() {
    scenarios_args_parses_all_arguments_body();
}

fn scenarios_args_allows_arguments_in_any_order_body() {
    let args = parse(vec![
        Fixtures(vec![("world", "TestWorld")]),
        Tags("@smoke"),
        Dir("tests/features"),
    ]);
    assert_eq!(args.dir, "tests/features");
    assert_eq!(args.tag_filter, Some("@smoke"));
    assert_eq!(args.fixtures.len(), 1);
}

#[test]
fn macro_args_scenarios_args_allows_arguments_in_any_order() {
    scenarios_args_allows_arguments_in_any_order_body();
}

#[test]
fn tests_scenarios_args_allows_arguments_in_any_order() {
    scenarios_args_allows_arguments_in_any_order_body();
}

fn scenarios_args_rejects_missing_dir_body() {
    assert_error_contains(vec![Tags("@fast")], "dir");
}

#[test]
fn macro_args_scenarios_args_rejects_missing_dir() {
    scenarios_args_rejects_missing_dir_body();
}

#[test]
fn tests_scenarios_args_rejects_missing_dir() {
    scenarios_args_rejects_missing_dir_body();
}

fn scenarios_args_rejects_duplicate_dir_body() {
    assert_error_contains(vec![Dir("a"), Dir("b")], "duplicate");
}

#[test]
fn macro_args_scenarios_args_rejects_duplicate_dir() {
    scenarios_args_rejects_duplicate_dir_body();
}

#[test]
fn tests_scenarios_args_rejects_duplicate_dir() {
    scenarios_args_rejects_duplicate_dir_body();
}

fn scenarios_args_rejects_duplicate_tags_body() {
    assert_error_contains(vec![Dir("tests/features"), Tags("@a"), Tags("@b")], "duplicate");
}

#[test]
fn macro_args_scenarios_args_rejects_duplicate_tags() {
    scenarios_args_rejects_duplicate_tags_body();
}

#[test]
fn tests_scenarios_args_rejects_duplicate_tags() {
    scenarios_args_rejects_duplicate_tags_body();
}

fn scenarios_args_rejects_duplicate_fixtures_body() {
    assert_error_contains(
        vec![Dir("tests/features"), Fixtures(vec![("a", "A")]), Fixtures(vec![("b", "B")])],
        "duplicate",
    );
}

#[test]
fn macro_args_scenarios_args_rejects_duplicate_fixtures() {
    scenarios_args_rejects_duplicate_fixtures_body();
}

#[test]
fn tests_scenarios_args_rejects_duplicate_fixtures() {
    scenarios_args_rejects_duplicate_fixtures_body();
}

fn scenarios_args_parses_empty_fixtures_body() {
    let args = parse(vec![Dir("tests/features"), Fixtures(Vec::new())]);
    assert!(args.fixtures.is_empty());
}

#[test]
fn macro_args_scenarios_args_parses_empty_fixtures() {
    scenarios_args_parses_empty_fixtures_body();
}

#[test]
fn tests_scenarios_args_parses_empty_fixtures() {
    scenarios_args_parses_empty_fixtures_body();
}

fn scenarios_args_parses_fixtures_with_trailing_comma_body() {
    let args = parse(vec![Dir("tests/features"), Fixtures(vec![("world", "TestWorld")])]);
    assert_eq!(args.fixtures.len(), 1);
}

#[test]
fn macro_args_scenarios_args_parses_fixtures_with_trailing_comma() {
    scenarios_args_parses_fixtures_with_trailing_comma_body();
}

#[test]
fn tests_scenarios_args_parses_fixtures_with_trailing_comma() {
    scenarios_args_parses_fixtures_with_trailing_comma_body();
}

fn scenarios_args_defaults_to_sync_runtime_body() {
    let args = parse(vec![Dir("tests/features")]);
    assert_eq!(args.runtime, RuntimeMode::Sync);
    assert!(!args.runtime.is_async());
}

#[test]
fn macro_args_scenarios_args_defaults_to_sync_runtime() {
    scenarios_args_defaults_to_sync_runtime_body();
}

#[test]
fn tests_scenarios_args_defaults_to_sync_runtime() {
    scenarios_args_defaults_to_sync_runtime_body();
}

fn scenarios_args_parses_runtime_tokio_current_thread_body() {
    let args = parse(vec![Dir("tests/features"), runtime("tokio-current-thread")]);
    assert_eq!(args.runtime, RuntimeMode::TokioCurrentThread);
    assert!(args.runtime.is_async());
}

#[test]
fn macro_args_scenarios_args_parses_runtime_tokio_current_thread() {
    scenarios_args_parses_runtime_tokio_current_thread_body();
}

#[test]
fn tests_scenarios_args_parses_runtime_tokio_current_thread() {
    scenarios_args_parses_runtime_tokio_current_thread_body();
}

fn scenarios_args_parses_runtime_with_other_arguments_body() {
    let args = parse(vec![
        Dir("tests/features"),
        Tags("@async"),
        runtime("tokio-current-thread"),
        Fixtures(vec![("world", "TestWorld")]),
    ]);
    assert_eq!(args.dir, "tests/features");
    assert_eq!(args.tag_filter, Some("@async"));
    assert_eq!(args.runtime, RuntimeMode::TokioCurrentThread);
    assert_eq!(args.fixtures.len(), 1);
}

#[test]
fn macro_args_scenarios_args_parses_runtime_with_other_arguments() {
    scenarios_args_parses_runtime_with_other_arguments_body();
}

#[test]
fn tests_scenarios_args_parses_runtime_with_other_arguments() {
    scenarios_args_parses_runtime_with_other_arguments_body();
}

fn scenarios_args_rejects_unknown_runtime_body() {
    let Err(message) = parse_runtime_mode("unknown-runtime") else {
        panic!("parsing should fail");
    };
    assert!(message.contains("unknown runtime"), "{message}");
}

#[test]
fn macro_args_scenarios_args_rejects_unknown_runtime() {
    scenarios_args_rejects_unknown_runtime_body();
}

#[test]
fn tests_scenarios_args_rejects_unknown_runtime() {
    scenarios_args_rejects_unknown_runtime_body();
}

fn scenarios_args_rejects_duplicate_runtime_body() {
    assert_error_contains(
        vec![
            Dir("tests/features"),
            runtime("tokio-current-thread"),
            runtime("tokio-current-thread"),
        ],
        "duplicate",
    );
}

#[test]
fn macro_args_scenarios_args_rejects_duplicate_runtime() {
    scenarios_args_rejects_duplicate_runtime_body();
}

#[test]
fn tests_scenarios_args_rejects_duplicate_runtime() {
    scenarios_args_rejects_duplicate_runtime_body();
}

#[test]
fn scenarios_args_parses_harness_argument() {
    let args = parse(vec![Dir("tests/features"), Harness("rstest_bdd_harness::StdHarness")]);
    assert_eq!(args.dir, "tests/features");
    let Some(harness) = args.harness else {
        panic!("harness should be set");
    };
    assert!(harness.contains("StdHarness"), "should contain StdHarness: {harness}");
    assert!(args.attributes.is_none());
}

#[test]
fn scenarios_args_parses_attributes_argument() {
    let args = parse(vec![
        Dir("tests/features"),
        Attributes("rstest_bdd_harness::DefaultAttributePolicy"),
    ]);
    let Some(policy) = args.attributes else {
        panic!("attributes should be set");
    };
    assert!(policy.contains("DefaultAttributePolicy"), "{policy}");
    assert!(args.harness.is_none());
}

#[test]
fn scenarios_args_parses_harness_and_attributes_together() {
    let args = parse(vec![Dir("tests/features"), Harness("my::Harness"), Attributes("my::Policy")]);
    assert!(args.harness.is_some());
    assert!(args.attributes.is_some());
}

#[test]
fn scenarios_args_parses_harness_with_all_other_arguments() {
    let args = parse(vec![
        Dir("tests/features"),
        Tags("@smoke"),
        runtime("tokio-current-thread"),
        Fixtures(vec![("world", "TestWorld")]),
        Harness("my::Harness"),
        Attributes("my::Policy"),
    ]);
    assert_eq!(args.dir, "tests/features");
    assert_eq!(args.tag_filter, Some("@smoke"));
    assert_eq!(args.runtime, RuntimeMode::TokioCurrentThread);
    assert_eq!(args.fixtures.len(), 1);
    assert!(args.harness.is_some());
    assert!(args.attributes.is_some());
}

#[test]
fn scenarios_args_defaults_harness_and_attributes_to_none() {
    let args = parse(vec![Dir("tests/features")]);
    assert!(args.harness.is_none());
    assert!(args.attributes.is_none());
}

#[test]
fn scenarios_args_rejects_duplicate_harness() {
    assert_error_contains(vec![Dir("tests/features"), Harness("a::H"), Harness("b::H")], "duplicate");
}

#[test]
fn scenarios_args_rejects_duplicate_attributes() {
    assert_error_contains(
        vec![Dir("tests/features"), Attributes("a::P"), Attributes("b::P")],
        "duplicate",
    );
}
