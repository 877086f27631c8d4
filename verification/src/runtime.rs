//! Runtime modes of generated scenario tests: whether they are `async`,
//! which test attributes they need, and how the legacy `runtime = ...`
//! argument maps onto the harness selection.

use vstd::prelude::*;
use crate::text::{owned, push_str, str_eq};

verus! {

/// How generated scenario tests run.
#[derive(Clone, Copy, Debug, PartialEq, Eq, Structural)]
pub enum RuntimeMode {
    /// Plain synchronous tests (the default).
    Sync,
    /// `async` tests on Tokio's current-thread runtime.
    TokioCurrentThread,
}

/// Which test attributes a generated test carries.
#[derive(Clone, Copy, Debug, PartialEq, Eq, Structural)]
pub enum TestAttributeHint {
    /// `#[rstest]` alone.
    RstestOnly,
    /// `#[rstest]` together with `#[tokio::test(flavor = "current_thread")]`.
    RstestWithTokioCurrentThread,
}

/// The harness a legacy `runtime` value stands for.
#[derive(Clone, Copy, Debug, PartialEq, Eq, Structural)]
pub enum RuntimeCompatibilityAlias {
    /// The Tokio harness adapter.
    TokioHarnessAdapter,
}

/// Tests in mode `m` are `async`.
pub open spec fn mode_is_async(m: RuntimeMode) -> bool {
    m == RuntimeMode::TokioCurrentThread
}

/// The test attributes mode `m` needs.
pub open spec fn mode_hint(m: RuntimeMode) -> TestAttributeHint {
    match m {
        RuntimeMode::Sync => TestAttributeHint::RstestOnly,
        RuntimeMode::TokioCurrentThread => TestAttributeHint::RstestWithTokioCurrentThread,
    }
}

/// The harness alias mode `m` implies.
pub open spec fn alias_of(m: RuntimeMode) -> Option<RuntimeCompatibilityAlias> {
    match m {
        RuntimeMode::Sync => None,
        RuntimeMode::TokioCurrentThread => Some(RuntimeCompatibilityAlias::TokioHarnessAdapter),
    }
}

/// The mode tests are emitted in, given the requested mode, its alias and
/// whether a harness was named explicitly.
pub open spec fn effective_runtime(
    m: RuntimeMode,
    alias: Option<RuntimeCompatibilityAlias>,
    explicit_harness: bool,
) -> RuntimeMode {
    if alias is Some && !explicit_harness {
        RuntimeMode::Sync
    } else {
        m
    }
}

/// A mode is `async` exactly when its tests carry the Tokio attribute.
pub proof fn law_async_iff_tokio_attribute(m: RuntimeMode)
    ensures
        mode_is_async(m) <==> mode_hint(m) == TestAttributeHint::RstestWithTokioCurrentThread,
{
}

/// Without an explicit harness, a requested runtime never makes the test
/// body itself `async`: the legacy Tokio runtime is served by the harness
/// adapter, whose alias it implies.
pub proof fn law_legacy_runtime_runs_through_harness(m: RuntimeMode)
    ensures
        effective_runtime(m, alias_of(m), false) == RuntimeMode::Sync,
        mode_is_async(m) <==> alias_of(m) is Some,
{
}

impl Default for RuntimeMode {
    fn default() -> (r: Self)
        ensures
            r == RuntimeMode::Sync,
    {
        RuntimeMode::Sync
    }
}

impl RuntimeMode {
    /// Whether tests in this mode are `async`.
    pub fn is_async(self) -> (r: bool)
        ensures
            r == mode_is_async(self),
    {
        match self {
            RuntimeMode::Sync => false,
            RuntimeMode::TokioCurrentThread => true,
        }
    }

    /// The test attributes a test in this mode needs.
    pub fn test_attribute_hint(self) -> (r: TestAttributeHint)
        ensures
            r == mode_hint(self),
    {
        match self {
            RuntimeMode::Sync => TestAttributeHint::RstestOnly,
            RuntimeMode::TokioCurrentThread => TestAttributeHint::RstestWithTokioCurrentThread,
        }
    }
}

/// The harness alias a runtime mode implies: none for synchronous tests,
/// the Tokio adapter for the Tokio runtime.
pub fn runtime_compatibility_alias(runtime: RuntimeMode) -> (r: Option<RuntimeCompatibilityAlias>)
    ensures
        r == alias_of(runtime),
{
    match runtime {
        RuntimeMode::Sync => None,
        RuntimeMode::TokioCurrentThread => Some(RuntimeCompatibilityAlias::TokioHarnessAdapter),
    }
}

/// The mode generated tests are emitted in: a Tokio alias without an
/// explicit harness is served by the harness adapter, so the test body
/// itself stays synchronous; otherwise the requested mode stands.
pub fn resolve_effective_runtime(
    runtime: RuntimeMode,
    alias: Option<RuntimeCompatibilityAlias>,
    has_explicit_harness: bool,
) -> (r: RuntimeMode)
    ensures
        r == effective_runtime(runtime, alias, has_explicit_harness),
{
    match alias {
        Some(RuntimeCompatibilityAlias::TokioHarnessAdapter) => {
            if has_explicit_harness {
                runtime
            } else {
                RuntimeMode::Sync
            }
        },
        None => runtime,
    }
}

/// The message for an unsupported `runtime` value.
pub open spec fn unknown_runtime_message(value: Seq<char>) -> Seq<char> {
    "unknown runtime `"@ + value + "`; supported: \"tokio-current-thread\""@
}

/// Parses the value of a `runtime = "..."` argument; only
/// `"tokio-current-thread"` is supported.
pub fn parse_runtime_mode(value: &str) -> (r: Result<RuntimeMode, String>)
    ensures
        value@ == "tokio-current-thread"@ ==> r == Ok::<RuntimeMode, String>(
            RuntimeMode::TokioCurrentThread,
        ),
        value@ != "tokio-current-thread"@ ==> (r matches Err(m) && m@ == unknown_runtime_message(
            value@,
        )),
{
    if str_eq(value, "tokio-current-thread") {
        Ok(RuntimeMode::TokioCurrentThread)
    } else {
        let mut m = owned("unknown runtime `");
        push_str(&mut m, value);
        push_str(&mut m, "`; supported: \"tokio-current-thread\"");
        Err(m)
    }
}

} // verus!
