use rstest_bdd_macros::runtime::{
    parse_runtime_mode, resolve_effective_runtime, runtime_compatibility_alias,
    RuntimeCompatibilityAlias, RuntimeMode, TestAttributeHint,
};

#[test]
fn runtime_mode_sync_returns_rstest_only_hint() {
    let mode = RuntimeMode::Sync;
    assert_eq!(mode.test_attribute_hint(), TestAttributeHint::RstestOnly);
    assert!(!mode.is_async());
}

#[test]
fn runtime_mode_tokio_current_thread_returns_rstest_with_tokio_hint() {
    let mode = RuntimeMode::TokioCurrentThread;
    assert_eq!(
        mode.test_attribute_hint(),
        TestAttributeHint::RstestWithTokioCurrentThread
    );
    assert!(mode.is_async());
}

#[test]
fn default_runtime_is_sync() {
    assert_eq!(RuntimeMode::default(), RuntimeMode::Sync);
}

#[test]
fn tokio_runtime_implies_the_harness_alias() {
    assert_eq!(runtime_compatibility_alias(RuntimeMode::Sync), None);
    assert_eq!(
        runtime_compatibility_alias(RuntimeMode::TokioCurrentThread),
        Some(RuntimeCompatibilityAlias::TokioHarnessAdapter)
    );
}

#[test]
fn alias_without_harness_runs_sync() {
    let mode = RuntimeMode::TokioCurrentThread;
    let alias = runtime_compatibility_alias(mode);
    assert_eq!(resolve_effective_runtime(mode, alias, false), RuntimeMode::Sync);
    assert_eq!(resolve_effective_runtime(mode, alias, true), mode);
    assert_eq!(resolve_effective_runtime(mode, None, false), mode);
}

#[test]
fn parses_runtime_values() {
    assert_eq!(
        parse_runtime_mode("tokio-current-thread"),
        Ok(RuntimeMode::TokioCurrentThread)
    );
    assert_eq!(
        parse_runtime_mode("async-std"),
        Err("unknown runtime `async-std`; supported: \"tokio-current-thread\"".to_string())
    );
}
