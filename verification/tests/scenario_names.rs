use rstest_bdd_macros::scenario_names::dedupe_name;

#[test]
fn scenarios_deduplicates_duplicate_titles() {
    let mut used = Vec::new();
    let first = dedupe_name("dup_same_name", &mut used);
    let second = dedupe_name("dup_same_name", &mut used);
    assert_eq!(first, "dup_same_name");
    assert_eq!(second, "dup_same_name_1");
}

#[test]
fn tests_deduplicates_duplicate_titles() {
    let mut used = Vec::new();
    let first = dedupe_name("dup_same_name", &mut used);
    let second = dedupe_name("dup_same_name", &mut used);
    assert_eq!(first, "dup_same_name");
    assert_eq!(second, "dup_same_name_1");
}

#[test]
fn skips_suffixes_already_taken() {
    let mut used = vec!["t".to_string(), "t_1".to_string(), "t_2".to_string()];
    assert_eq!(dedupe_name("t", &mut used), "t_3");
    assert_eq!(dedupe_name("u", &mut used), "u");
    assert_eq!(used.len(), 5);
}

#[test]
fn recorded_names_stay_distinct() {
    let mut used = Vec::new();
    for _ in 0..12 {
        dedupe_name("x", &mut used);
    }
    let mut sorted = used.clone();
    sorted.sort();
    sorted.dedup();
    assert_eq!(sorted.len(), 12);
    assert!(used.contains(&"x_11".to_string()));
}

#[test]
fn scenario_test_names_join_stem_and_title() {
    let mut used = Vec::new();
    assert_eq!(
        rstest_bdd_macros::scenario_names::scenario_test_name("login", "valid_user", &mut used),
        "login_valid_user"
    );
    assert_eq!(
        rstest_bdd_macros::scenario_names::scenario_test_name("login", "valid_user", &mut used),
        "login_valid_user_1"
    );
    assert_eq!(used, vec!["login_valid_user", "login_valid_user_1"]);
}
