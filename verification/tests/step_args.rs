use rstest_bdd_macros::step_args::{
    bind_named_captures, bind_positional_captures, check_input_kind, collect_field_info,
    parse_rename_rule, parse_step_field, requires_fromstr, scalar_parse_kind, CaptureError,
    CollectError, FieldAttrError, FieldAttribute, FieldInfo, InputKind, RenameAttrError,
    ScalarParseKind, ShapeError, StepField, StructAttribute,
};

fn field(name: &str, attrs: Vec<FieldAttribute<String>>) -> StepField<String> {
    StepField { ident: name.to_string(), default_name: name.to_string(), attrs }
}

fn info(name: &str, source: &str) -> FieldInfo<String> {
    FieldInfo {
        rust_field: name.to_string(),
        source_name: source.to_string(),
        trim: false,
        parse_with: None,
    }
}

fn strings(v: &[&str]) -> Vec<String> {
    v.iter().map(|s| s.to_string()).collect()
}

#[test]
fn derives_step_args_for_named_struct() {
    let infos = collect_field_info(vec![field("count", vec![]), field("label", vec![])])
        .expect("derive should succeed");
    assert_eq!(infos.len(), 2);
    assert!(infos.iter().any(|f| f.source_name == "label"));
}

#[test]
fn rejects_tuple_structs() {
    let err = check_input_kind(InputKind::OtherStruct).expect_err("tuple structs should fail");
    assert!(err.message().contains("StepArgs requires named struct fields"));
    assert_eq!(check_input_kind(InputKind::NotStruct), Err(ShapeError::NotStruct));
    assert_eq!(
        ShapeError::NotStruct.message(),
        "StepArgs can only be derived for structs"
    );
    assert_eq!(check_input_kind(InputKind::NamedStruct), Ok(()));
}

#[test]
fn rejects_invalid_step_args_field_attributes() {
    let cases: Vec<(Vec<FieldAttribute<String>>, &str)> = vec![
        (
            vec![
                FieldAttribute::Placeholder("first".to_string()),
                FieldAttribute::Placeholder("second".to_string()),
            ],
            "duplicate placeholder attribute",
        ),
        (vec![FieldAttribute::Trim, FieldAttribute::Trim], "duplicate trim attribute"),
        (
            vec![
                FieldAttribute::ParseWith("parse_one".to_string()),
                FieldAttribute::ParseWith("parse_two".to_string()),
            ],
            "duplicate parse_with attribute",
        ),
        (vec![FieldAttribute::Unsupported], "unsupported step_args field attribute"),
    ];
    for (attrs, diagnostic) in cases {
        let err = match parse_step_field(attrs) {
            Ok(_) => panic!("invalid field attributes should fail"),
            Err(e) => e,
        };
        assert!(err.message().contains(diagnostic), "expected '{diagnostic}'");
    }
}

#[test]
fn field_attributes_set_each_option_once() {
    let config = match parse_step_field(vec![
        FieldAttribute::Trim,
        FieldAttribute::Placeholder("amount".to_string()),
        FieldAttribute::ParseWith("parse_money".to_string()),
    ]) {
        Ok(c) => c,
        Err(e) => panic!("unexpected error: {}", e.message()),
    };
    assert!(config.trim);
    assert_eq!(config.placeholder.as_deref(), Some("amount"));
    assert_eq!(config.parse_with.as_deref(), Some("parse_money"));
    let empty = match parse_step_field::<String>(vec![]) {
        Ok(c) => c,
        Err(_) => panic!("no attributes is fine"),
    };
    assert!(!empty.trim && empty.placeholder.is_none() && empty.parse_with.is_none());
}

#[test]
fn the_first_rejected_item_is_reported() {
    let err = match parse_step_field::<String>(vec![
        FieldAttribute::Unsupported,
        FieldAttribute::Trim,
        FieldAttribute::Trim,
    ]) {
        Ok(_) => panic!("should fail"),
        Err(e) => e,
    };
    assert_eq!(err, FieldAttrError::Unsupported);
}

#[test]
fn explicit_placeholder_replaces_the_field_name() {
    let infos = collect_field_info(vec![
        field("count", vec![FieldAttribute::Placeholder("n".to_string()), FieldAttribute::Trim]),
        StepField {
            ident: "user_name".to_string(),
            default_name: "userName".to_string(),
            attrs: vec![FieldAttribute::ParseWith("parse_user".to_string())],
        },
    ])
    .unwrap_or_else(|e| panic!("unexpected error: {}", e.message()));
    assert_eq!(infos[0].rust_field, "count");
    assert_eq!(infos[0].source_name, "n");
    assert!(infos[0].trim);
    assert_eq!(infos[1].rust_field, "user_name");
    assert_eq!(infos[1].source_name, "userName");
    assert_eq!(infos[1].parse_with.as_deref(), Some("parse_user"));
}

#[test]
fn duplicate_placeholders_are_rejected() {
    let err = match collect_field_info(vec![
        field("first", vec![]),
        field("second", vec![FieldAttribute::Placeholder("first".to_string())]),
    ]) {
        Ok(_) => panic!("duplicate placeholders should fail"),
        Err(e) => e,
    };
    assert!(matches!(err, CollectError::DuplicatePlaceholder(ref s) if s == "first"));
    assert_eq!(err.message(), "duplicate StepArgs placeholder `first`");
}

#[test]
fn structs_without_fields_are_rejected() {
    let err = match collect_field_info::<String>(vec![]) {
        Ok(_) => panic!("empty structs should fail"),
        Err(e) => e,
    };
    assert_eq!(err.message(), "StepArgs structs must define at least one field");
}

#[test]
fn attribute_errors_surface_through_field_collection() {
    let err = match collect_field_info(vec![
        field("a", vec![]),
        field("b", vec![FieldAttribute::Trim, FieldAttribute::Trim]),
    ]) {
        Ok(_) => panic!("should fail"),
        Err(e) => e,
    };
    assert!(matches!(err, CollectError::Attribute(FieldAttrError::DuplicateTrim)));
    assert_eq!(err.message(), "duplicate trim attribute");
}

#[test]
fn rename_all_may_be_given_once() {
    assert_eq!(parse_rename_rule::<u8>(vec![]), Ok(None));
    assert_eq!(parse_rename_rule(vec![StructAttribute::RenameAll(3u8)]), Ok(Some(3)));
    assert_eq!(
        parse_rename_rule(vec![StructAttribute::RenameAll(1u8), StructAttribute::RenameAll(2u8)]),
        Err(RenameAttrError::DuplicateRenameAll)
    );
    assert_eq!(
        parse_rename_rule::<u8>(vec![StructAttribute::Unsupported]),
        Err(RenameAttrError::Unsupported)
    );
    assert_eq!(RenameAttrError::Unsupported.message(), "unsupported step_args attribute");
    assert_eq!(RenameAttrError::DuplicateRenameAll.message(), "duplicate rename_all attribute");
}

#[test]
fn named_captures_bind_in_any_order() {
    let fields = vec![info("count", "count"), info("label", "label")];
    let bound = bind_named_captures(&fields, &strings(&["label", "count"]))
        .unwrap_or_else(|e| panic!("unexpected error: {e:?}"));
    assert_eq!(bound, vec![1, 0]);
    let bound = bind_named_captures(&fields, &strings(&["count", "label"]))
        .unwrap_or_else(|e| panic!("unexpected error: {e:?}"));
    assert_eq!(bound, vec![0, 1]);
}

#[test]
fn capture_count_must_match() {
    let fields = vec![info("count", "count"), info("label", "label")];
    assert!(matches!(
        bind_named_captures(&fields, &strings(&["count"])),
        Err(CaptureError::CountMismatch { expected: 2, actual: 1 })
    ));
    assert!(matches!(
        bind_positional_captures(&fields, 3),
        Err(CaptureError::CountMismatch { expected: 2, actual: 3 })
    ));
}

#[test]
fn unknown_and_repeated_captures_are_reported() {
    let fields = vec![info("count", "count"), info("label", "label")];
    match bind_named_captures(&fields, &strings(&["count", "other"])) {
        Err(CaptureError::UnconsumedCapture(name)) => assert_eq!(name, "other"),
        other => panic!("unexpected result: {other:?}"),
    }
    match bind_named_captures(&fields, &strings(&["count", "count"])) {
        Err(CaptureError::DuplicateCapture(name)) => assert_eq!(name, "count"),
        other => panic!("unexpected result: {other:?}"),
    }
}

#[test]
fn positional_captures_keep_field_order() {
    let fields = vec![info("a", "x"), info("b", "y"), info("c", "z")];
    let bound = bind_positional_captures(&fields, 3)
        .unwrap_or_else(|e| panic!("unexpected error: {e:?}"));
    assert_eq!(bound, vec![0, 1, 2]);
}

#[test]
fn conversion_kind_follows_the_field_options() {
    assert_eq!(scalar_parse_kind(true, true, true), ScalarParseKind::CustomParser);
    assert_eq!(scalar_parse_kind(false, true, true), ScalarParseKind::TruthyBool);
    assert_eq!(scalar_parse_kind(false, false, true), ScalarParseKind::OwnedString);
    assert_eq!(scalar_parse_kind(false, false, false), ScalarParseKind::FromStr);
    assert!(requires_fromstr(false, false, false));
    assert!(!requires_fromstr(true, false, false));
    assert!(!requires_fromstr(false, false, true));
}

#[test]
fn positional_captures_with_repeated_placeholders_report_the_repeat() {
    let fields = vec![info("a", "x"), info("b", "x")];
    match bind_positional_captures(&fields, 2) {
        Err(CaptureError::DuplicateCapture(name)) => assert_eq!(name, "x"),
        other => panic!("unexpected result: {other:?}"),
    }
}
