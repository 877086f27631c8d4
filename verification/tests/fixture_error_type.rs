use quote::ToTokens;
use rstest_bdd_macros::return_classifier::{GenericArg, PathSegment, TypeShape};
use rstest_bdd_macros::scenarios_plan::{resolve_fixture_error_type, FixtureType};

fn type_shape(ty: &syn::Type) -> TypeShape {
    match ty {
        syn::Type::Tuple(tuple) => TypeShape::Tuple(tuple.elems.iter().map(type_shape).collect()),
        syn::Type::Never(_) => TypeShape::Never,
        syn::Type::ImplTrait(_) => TypeShape::ImplTrait,
        syn::Type::Path(type_path) => TypeShape::Path(
            type_path
                .path
                .segments
                .iter()
                .map(|segment| PathSegment {
                    ident: segment.ident.to_string(),
                    args: match &segment.arguments {
                        syn::PathArguments::AngleBracketed(args) => Some(
                            args.args
                                .iter()
                                .map(|arg| match arg {
                                    syn::GenericArgument::Type(ty) => {
                                        GenericArg::Type(type_shape(ty))
                                    }
                                    _ => GenericArg::Other,
                                })
                                .collect(),
                        ),
                        _ => None,
                    },
                })
                .collect(),
        ),
        _ => TypeShape::Other,
    }
}

/// The spelling of the second type argument of the path's last segment.
fn second_type_argument(ty: &syn::Type) -> Option<String> {
    let syn::Type::Path(type_path) = ty else {
        return None;
    };
    let segment = type_path.path.segments.last()?;
    let syn::PathArguments::AngleBracketed(args) = &segment.arguments else {
        return None;
    };
    args.args
        .iter()
        .filter_map(|arg| match arg {
            syn::GenericArgument::Type(ty) => Some(ty.to_token_stream().to_string()),
            _ => None,
        })
        .nth(1)
}

fn fixture(ty: &str) -> FixtureType {
    let parsed: syn::Type = match syn::parse_str(ty) {
        Ok(t) => t,
        Err(err) => panic!("fixture type should parse: {err}"),
    };
    FixtureType { shape: type_shape(&parsed), error_key: second_type_argument(&parsed) }
}

/// The error type a generated test uses: the shared fixture error, or the
/// boxed fallback.
fn error_type(types: &[&str]) -> String {
    let fixtures: Vec<FixtureType> = types.iter().map(|t| fixture(t)).collect();
    match resolve_fixture_error_type(&fixtures) {
        Some(i) => fixtures[i].error_key.clone().unwrap_or_default(),
        None => "Box < dyn :: std :: error :: Error >".to_string(),
    }
}

#[test]
fn fixture_error_type_resolve_fixture_error_type_different_errors_falls_back_to_box() {
    let error_str = error_type(&["Result<MyWorld, String>", "Result<Database, std::io::Error>"]);
    assert!(error_str.contains("Box"), "got: {error_str}");
}

#[test]
fn fixture_error_type_resolve_fixture_error_type_no_result_fixtures_falls_back_to_box() {
    let error_str = error_type(&["MyWorld"]);
    assert!(error_str.contains("Box"), "got: {error_str}");
}

#[test]
fn tests_resolve_fixture_error_type_different_errors_falls_back_to_box() {
    let error_str = error_type(&["Result<MyWorld, String>", "Result<Database, std::io::Error>"]);
    assert!(error_str.contains("Box"), "got: {error_str}");
}

#[test]
fn tests_resolve_fixture_error_type_no_result_fixtures_falls_back_to_box() {
    let error_str = error_type(&["MyWorld"]);
    assert!(error_str.contains("Box"), "got: {error_str}");
}

#[test]
fn resolve_fixture_error_type_non_consecutive_duplicates_returns_shared_type() {
    let error_str = error_type(&[
        "Result<MyWorld, String>",
        "Result<Database, std::io::Error>",
        "Result<Config, String>",
    ]);
    assert!(error_str.contains("Box"), "got: {error_str}");
}

#[test]
fn resolve_fixture_error_type_all_same_non_consecutive_returns_shared_type() {
    let error_str = error_type(&[
        "Result<MyWorld, String>",
        "Result<Database, String>",
        "Result<Config, String>",
    ]);
    assert!(error_str.contains("String"), "got: {error_str}");
}

#[test]
fn resolve_fixture_error_type_single_result_uses_fixture_error() {
    for ty in ["Result<MyWorld, String>", "StepResult<MyWorld, String>"] {
        let error_str = error_type(&[ty]);
        assert!(error_str.contains("String") && !error_str.contains("Box"), "got: {error_str}");
    }
}

#[test]
fn resolve_fixture_error_type_multiple_same_error_uses_shared_type() {
    for (a, b) in [
        ("Result<MyWorld, String>", "Result<Database, String>"),
        ("StepResult<MyWorld, String>", "StepResult<Database, String>"),
        ("Result<MyWorld, String>", "StepResult<Database, String>"),
    ] {
        let error_str = error_type(&[a, b]);
        assert!(error_str.contains("String"), "got: {error_str}");
    }
}

#[test]
fn resolve_fixture_error_type_mixed_plain_and_result_uses_result_error() {
    for ty in ["Result<Database, String>", "StepResult<Database, String>"] {
        let fixtures = vec![fixture("MyWorld"), fixture(ty)];
        assert_eq!(resolve_fixture_error_type(&fixtures), Some(1));
    }
}

#[test]
fn resolve_fixture_error_type_non_consecutive_three_fixtures() {
    assert!(error_type(&[
        "Result<MyWorld, String>",
        "Result<Database, std::io::Error>",
        "Result<Config, String>",
    ])
    .contains("Box"));
    assert!(error_type(&[
        "Result<MyWorld, String>",
        "Result<Database, String>",
        "Result<Config, String>",
    ])
    .contains("String"));
}

#[test]
fn plain_generic_types_are_not_fallible() {
    let fixtures = vec![fixture("HashMap<Key, String>"), fixture("Result<World, Error>")];
    assert_eq!(resolve_fixture_error_type(&fixtures), Some(1));
}
