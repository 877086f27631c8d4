use rstest_bdd_macros::tag_sets::{
    add_unique_tags, extend_tag_set, merge_tag_sets, normalize_existing_tags, normalize_tag,
};

fn strings(v: &[&str]) -> Vec<String> {
    v.iter().map(|s| s.to_string()).collect()
}

#[test]
fn normalize_trims_and_prefixes() {
    assert_eq!(normalize_tag("  fast "), "@fast");
    assert_eq!(normalize_tag("@ui"), "@ui");
}

#[test]
fn existing_tags_gain_a_prefix() {
    let mut tags = strings(&["a", "@b"]);
    normalize_existing_tags(&mut tags);
    assert_eq!(tags, strings(&["@a", "@b"]));
}

#[test]
fn additions_are_added_once() {
    let mut tags = strings(&["@a"]);
    add_unique_tags(&mut tags, &strings(&["a", " b", "@b"]));
    assert_eq!(tags, strings(&["@a", "@b"]));
}

#[test]
fn extend_removes_duplicates_and_keeps_order() {
    let mut tags = strings(&["x", "@x", "y"]);
    extend_tag_set(&mut tags, &strings(&["z", "@y"]));
    assert_eq!(tags, strings(&["@x", "@y", "@z"]));
}

#[test]
fn merge_leaves_its_inputs_alone() {
    let base = strings(&["@a"]);
    let merged = merge_tag_sets(&base, &strings(&["b"]));
    assert_eq!(merged, strings(&["@a", "@b"]));
    assert_eq!(base, strings(&["@a"]));
}

#[test]
fn merge_keeps_insertion_order_and_drops_duplicates() {
    let base = vec!["@fast".to_string(), "slow".to_string()];
    let additions = vec!["@fast".to_string(), "web".to_string()];
    let merged = merge_tag_sets(&base, &additions);
    assert_eq!(
        merged,
        vec!["@fast".to_string(), "@slow".to_string(), "@web".to_string()]
    );
}

#[test]
fn merge_normalises_unnormalised_base_tags() {
    let merged = merge_tag_sets(&strings(&[" fast"]), &strings(&["fast"]));
    assert_eq!(merged, strings(&["@fast"]));
    let mut tags = strings(&[" a ", "@ b"]);
    normalize_existing_tags(&mut tags);
    assert_eq!(tags, strings(&["@a", "@ b"]));
}

#[test]
fn merging_again_changes_nothing() {
    let additions = strings(&["web", " fast "]);
    let merged = merge_tag_sets(&strings(&["slow", " @fast", "slow"]), &additions);
    assert_eq!(merged, strings(&["@slow", "@fast", "@web"]));
    assert_eq!(merge_tag_sets(&merged, &additions), merged);
    assert_eq!(merge_tag_sets(&merged, &[]), merged);
}
