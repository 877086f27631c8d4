use rstest_bdd_macros::return_classifier::{PathSegment, TypeShape};
use rstest_bdd_macros::scenario_state::{plan_reset, ResetTarget, StateError, StateShape};

fn path(segments: &[&str]) -> TypeShape {
    TypeShape::Path(
        segments.iter().map(|s| PathSegment { ident: s.to_string(), args: None }).collect(),
    )
}

#[test]
fn generates_reset_for_named_fields() {
    let shape = StateShape::Named(vec![
        (Some("first".to_string()), path(&["rstest_bdd", "state", "Slot"])),
        (Some("second".to_string()), path(&["Slot"])),
    ]);
    let Ok(targets) = plan_reset(&shape) else {
        panic!("expected expansion");
    };
    let names: Vec<String> = targets
        .into_iter()
        .map(|t| match t {
            ResetTarget::Named(n) => n,
            ResetTarget::Index(i) => panic!("unexpected position {i}"),
        })
        .collect();
    assert_eq!(names, vec!["first".to_string(), "second".to_string()]);
}

#[test]
fn rejects_non_slot_fields() {
    let shape = StateShape::Named(vec![(Some("value".to_string()), path(&["i32"]))]);
    let Err(err) = plan_reset(&shape) else {
        panic!("expected error");
    };
    assert!(err.message().contains("ScenarioState field 'value' must use Slot<T>"));
}

#[test]
fn tuple_structs_are_labelled_by_position() {
    let shape = StateShape::Unnamed(vec![path(&["Slot"]), TypeShape::Other]);
    let Err(err) = plan_reset(&shape) else {
        panic!("expected error");
    };
    assert_eq!(err.message(), "ScenarioState field '#1' must use Slot<T>");
    let shape = StateShape::Unnamed(vec![path(&["Slot"]), path(&["x", "Slot"])]);
    let Ok(targets) = plan_reset(&shape) else {
        panic!("expected expansion");
    };
    assert!(matches!(targets.as_slice(), [ResetTarget::Index(0), ResetTarget::Index(1)]));
}

#[test]
fn only_structs_qualify() {
    assert!(matches!(plan_reset(&StateShape::Enum), Err(StateError::NotStruct)));
    assert!(matches!(plan_reset(&StateShape::Union), Err(StateError::Union)));
    assert!(matches!(plan_reset(&StateShape::Unit), Ok(v) if v.is_empty()));
    assert_eq!(
        StateError::NotStruct.message(),
        "ScenarioState can only be derived for structs"
    );
}
