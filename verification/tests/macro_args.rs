use rstest_bdd_macros::macro_args::{
    combine_scenario_args, combine_scenarios_args, is_builtin_global_library,
    library_validation_names, validate_unique_libraries, ArgError, ArgField, ScenarioArg,
    ScenariosArg, SelectorArg, SelectorKind,
};
use rstest_bdd_macros::runtime::RuntimeMode;

fn strings(v: &[&str]) -> Vec<String> {
    v.iter().map(|s| s.to_string()).collect()
}

type SArg = ScenarioArg<&'static str, &'static str>;
type MArg = ScenariosArg<&'static str, &'static str, &'static str>;

fn messages(e: &ArgError) -> (String, Option<String>) {
    match e.messages() {
        Some(m) => m,
        None => panic!("error should have a message"),
    }
}

#[test]
fn scenario_args_combine_each_field() {
    let args: Vec<SArg> = vec![
        ScenarioArg::Path("tests/features/a.feature"),
        ScenarioArg::Name("first"),
        ScenarioArg::Tags("@fast"),
    ];
    let Ok(a) = combine_scenario_args(args) else {
        panic!("arguments should combine");
    };
    assert_eq!(a.path, "tests/features/a.feature");
    assert!(matches!(a.selector, Some(SelectorArg::Name("first"))));
    assert_eq!(a.tag_filter, Some("@fast"));
    assert!(a.harness.is_none());
}

#[test]
fn scenario_path_is_required() {
    let args: Vec<SArg> = vec![ScenarioArg::Index(Some(1))];
    let Err(f) = combine_scenario_args(args) else {
        panic!("path is required");
    };
    assert_eq!(f.arg, 1);
    assert_eq!(messages(&f.error).0, "`path` argument is required");
}

#[test]
fn selectors_exclude_each_other() {
    let args: Vec<SArg> = vec![
        ScenarioArg::Path("p"),
        ScenarioArg::Index(Some(0)),
        ScenarioArg::Name("n"),
    ];
    let Err(f) = combine_scenario_args(args) else {
        panic!("conflicting selectors should be rejected");
    };
    assert_eq!(f.arg, 2);
    assert!(matches!(
        f.error,
        ArgError::SelectorConflict { existing: SelectorKind::Index, new: SelectorKind::Name }
    ));
    let (primary, secondary) = messages(&f.error);
    assert_eq!(primary, "`name` cannot be combined with `index`; choose one selector");
    assert_eq!(secondary, Some("`index` cannot be combined with `name`".to_string()));
}

#[test]
fn duplicate_index_and_invalid_index() {
    let args: Vec<SArg> = vec![ScenarioArg::Index(Some(0)), ScenarioArg::Index(None)];
    let Err(f) = combine_scenario_args(args) else {
        panic!("second index should be rejected");
    };
    assert_eq!(messages(&f.error).0, "duplicate `index` argument");
    let args: Vec<SArg> = vec![ScenarioArg::Path("p"), ScenarioArg::Index(None)];
    let Err(f) = combine_scenario_args(args) else {
        panic!("invalid index should be rejected");
    };
    assert_eq!(f.error, ArgError::InvalidIndex);
}

#[test]
fn repeated_library_is_rejected_at_its_position() {
    assert_eq!(validate_unique_libraries(&strings(&["a", "b", "a", "b"])), Err(2));
    assert_eq!(validate_unique_libraries(&strings(&["a", "b"])), Ok(()));
    let args: Vec<SArg> = vec![
        ScenarioArg::Path("p"),
        ScenarioArg::Libraries(vec!["x", "x"], strings(&["x", "x"])),
    ];
    let Err(f) = combine_scenario_args(args) else {
        panic!("repeated library should be rejected");
    };
    assert_eq!(f.error, ArgError::DuplicateLibrary { position: 1 });
    assert_eq!(messages(&f.error).0, "duplicate step library in `libraries` argument");
}

#[test]
fn combines_positional_dir_with_defaults() {
    let args: Vec<MArg> = vec![ScenariosArg::Dir("tests/features")];
    let Ok(a) = combine_scenarios_args(args) else {
        panic!("arguments should combine");
    };
    assert_eq!(a.dir, "tests/features");
    assert!(a.tag_filter.is_none());
    assert!(a.fixtures.is_empty());
    assert_eq!(a.runtime, RuntimeMode::Sync);
}

#[test]
fn combines_arguments_in_any_order_with_runtime() {
    let args: Vec<MArg> = vec![
        ScenariosArg::Fixtures(vec!["world"]),
        ScenariosArg::Tags("@smoke"),
        ScenariosArg::Runtime(RuntimeMode::TokioCurrentThread),
        ScenariosArg::Dir("tests/features"),
    ];
    let Ok(a) = combine_scenarios_args(args) else {
        panic!("arguments should combine");
    };
    assert_eq!(a.dir, "tests/features");
    assert_eq!(a.tag_filter, Some("@smoke"));
    assert_eq!(a.fixtures, vec!["world"]);
    assert_eq!(a.runtime, RuntimeMode::TokioCurrentThread);
}

#[test]
fn scenarios_args_rejects_missing_and_duplicate_dir() {
    let args: Vec<MArg> = vec![ScenariosArg::Tags("@fast")];
    let Err(f) = combine_scenarios_args(args) else {
        panic!("dir is required");
    };
    assert!(messages(&f.error).0.contains("dir"));
    let args: Vec<MArg> = vec![ScenariosArg::Dir("a"), ScenariosArg::Dir("b")];
    let Err(f) = combine_scenarios_args(args) else {
        panic!("duplicate dir should be rejected");
    };
    assert_eq!(f.error, ArgError::Duplicate(ArgField::DirPath));
    assert_eq!(messages(&f.error).0, "duplicate `dir/path` argument");
}

#[test]
fn library_names_drop_relative_segments() {
    let names = library_validation_names(&[
        strings(&["crate", "steps", "login"]),
        strings(&["super", "shared"]),
    ]);
    assert_eq!(names, strings(&["steps::login", "shared"]));
}

#[test]
fn builtin_global_library_is_the_runtime_path_and_global() {
    let runtime = strings(&["rstest_bdd"]);
    assert!(is_builtin_global_library(&strings(&["rstest_bdd", "global"]), &runtime));
    assert!(!is_builtin_global_library(&strings(&["other", "global"]), &runtime));
    assert!(!is_builtin_global_library(&strings(&["global"]), &runtime));
}
