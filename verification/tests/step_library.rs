use rstest_bdd_macros::step_library::{
    annotate_step_items, library_marker_position, ItemShape, INTERNAL_LIBRARY_ATTRIBUTE,
};

fn attrs(names: &[&str]) -> Vec<Option<String>> {
    names.iter().map(|n| Some(n.to_string())).collect()
}

#[test]
fn step_definitions_belong_to_the_nearest_library() {
    let items = vec![
        ItemShape::Fn { attrs: attrs(&["given"]) },
        ItemShape::Fn { attrs: attrs(&["test"]) },
        ItemShape::Mod {
            ident: "inner".to_string(),
            attrs: Vec::new(),
            content: Some(vec![ItemShape::Fn { attrs: attrs(&["then"]) }]),
        },
        ItemShape::Mod {
            ident: "nested".to_string(),
            attrs: attrs(&["step_library"]),
            content: Some(vec![ItemShape::Fn { attrs: attrs(&["when"]) }]),
        },
        ItemShape::Other,
    ];
    let found = annotate_step_items(&items, "auth");
    let summary: Vec<(Vec<usize>, String)> =
        found.into_iter().map(|a| (a.at, a.library)).collect();
    assert_eq!(
        summary,
        vec![
            (vec![0], "auth".to_string()),
            (vec![2, 0], "auth".to_string()),
            (vec![3], "auth::nested".to_string()),
        ]
    );
}

#[test]
fn annotated_items_keep_their_library() {
    let items = vec![
        ItemShape::Fn { attrs: vec![Some("when".to_string()), Some(INTERNAL_LIBRARY_ATTRIBUTE.to_string())] },
        ItemShape::Fn { attrs: vec![None, Some("when".to_string())] },
    ];
    let found = annotate_step_items(&items, "lib");
    assert_eq!(found.len(), 1);
    assert_eq!(found[0].at, vec![1]);
}

#[test]
fn library_marker_is_found_by_name() {
    let attrs = vec![
        Some("doc".to_string()),
        None,
        Some("rstest_bdd_internal_step_library".to_string()),
        Some("rstest_bdd_internal_step_library".to_string()),
    ];
    assert_eq!(library_marker_position(&attrs), Some(2));
    assert_eq!(library_marker_position(&[Some("given".to_string())]), None);
    assert_eq!(library_marker_position(&[]), None);
}
