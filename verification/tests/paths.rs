use rstest_bdd_macros::paths::{is_feature_extension, normalise, Normalised, PathComponent};

fn normal(s: &str) -> PathComponent {
    PathComponent::Normal(s.to_string())
}

fn segments(n: Normalised) -> Vec<String> {
    match n {
        Normalised::Segments(v) => v,
        Normalised::Unchanged => panic!("relative paths are normalised"),
    }
}

#[test]
fn collapses_current_and_parent_segments() {
    let comps = vec![
        normal("a"),
        PathComponent::CurDir,
        normal("b"),
        PathComponent::ParentDir,
        normal("c.feature"),
    ];
    assert_eq!(segments(normalise(false, &comps)), vec!["a", "c.feature"]);
}

#[test]
fn keeps_leading_parent_segments() {
    let comps = vec![PathComponent::ParentDir, PathComponent::ParentDir, normal("x")];
    assert_eq!(segments(normalise(false, &comps)), vec!["..", "..", "x"]);
    let comps = vec![normal("a"), PathComponent::ParentDir, PathComponent::ParentDir];
    assert_eq!(segments(normalise(false, &comps)), vec![".."]);
}

#[test]
fn absolute_paths_are_left_alone() {
    assert!(matches!(normalise(true, &[normal("a")]), Normalised::Unchanged));
}

#[test]
fn normalising_twice_changes_nothing() {
    let comps = vec![PathComponent::ParentDir, normal("a"), PathComponent::ParentDir, PathComponent::ParentDir, normal("b")];
    let once = segments(normalise(false, &comps));
    let again: Vec<PathComponent> = once
        .iter()
        .map(|s| if s == ".." { PathComponent::ParentDir } else { normal(s) })
        .collect();
    assert_eq!(segments(normalise(false, &again)), once);
}

#[test]
fn feature_extension_ignores_ascii_case() {
    assert!(is_feature_extension(Some("feature")));
    assert!(is_feature_extension(Some("FEATURE")));
    assert!(!is_feature_extension(Some("features")));
    assert!(!is_feature_extension(None));
}

fn drive_relative_components() -> Vec<PathComponent> {
    // `C:foo\..\bar` as a Windows path splits into a drive prefix and
    // three components.
    vec![
        PathComponent::Other("C:".to_string()),
        normal("foo"),
        PathComponent::ParentDir,
        normal("bar"),
    ]
}

#[test]
fn scenario_preserves_drive_relative_parent_segments() {
    let segs = segments(normalise(false, &drive_relative_components()));
    assert_eq!(segs, vec!["C:", "bar"]);
    assert_eq!(segs.concat(), r"C:bar");
}

#[test]
fn paths_preserves_drive_relative_parent_segments() {
    let segs = segments(normalise(false, &drive_relative_components()));
    assert_eq!(segs.concat(), r"C:bar");
}

fn unc_components() -> Vec<PathComponent> {
    // `\\server\share\.\dir\..\file` is absolute on Windows.
    vec![
        PathComponent::Other(r"\\server\share".to_string()),
        PathComponent::Other(r"\".to_string()),
        normal("dir"),
        PathComponent::ParentDir,
        normal("file"),
    ]
}

#[test]
fn scenario_does_not_mangle_unc_prefix() {
    assert!(matches!(normalise(true, &unc_components()), Normalised::Unchanged));
}

#[test]
fn paths_does_not_mangle_unc_prefix() {
    assert!(matches!(normalise(true, &unc_components()), Normalised::Unchanged));
}

#[test]
fn normalising_follows_the_documented_examples() {
    // `./features/../features/example.feature`
    let comps = vec![
        PathComponent::CurDir,
        normal("features"),
        PathComponent::ParentDir,
        normal("features"),
        normal("example.feature"),
    ];
    assert_eq!(segments(normalise(false, &comps)).join("/"), "features/example.feature");
    // `../../a/./b/..`
    let comps = vec![
        PathComponent::ParentDir,
        PathComponent::ParentDir,
        normal("a"),
        PathComponent::CurDir,
        normal("b"),
        PathComponent::ParentDir,
    ];
    assert_eq!(segments(normalise(false, &comps)).join("/"), "../../a");
}
