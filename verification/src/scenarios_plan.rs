//! What `scenarios!` and `#[scenario]` generate, decided before any code
//! is written: which scenarios of a feature become tests, the diagnostics
//! when none do, the harness and runtime of the generated tests, the order
//! of their parameters, and how fallible fixtures shape their return type.

use vstd::prelude::*;
use crate::feature::{same_data, ParsedStep, extract_error_of, extract_scenario_steps, extractable, ExtractError, Feature, ScenarioData};
use crate::return_classifier::{
    classify_scenario_return, scenario_return_of, ReturnError,
    idents, is_result_like_path, is_result_like_path_exec, nth_type_arg, nth_type_argument,
    ScenarioReturnKind, TypeShape,
};
use crate::runtime::{RuntimeCompatibilityAlias, RuntimeMode};
use crate::outline_params::{
    first_unmatched, gets_case, mismatch_message, process_scenario_outline_examples, ParamShape,
};
use crate::selection::{
    ensure_feature_not_empty, lines_at, named, parse_tag_filter, passes, resolve_candidate_indices,
    select_scenario, selected_data, selection_outcome, titles, ScenarioSelector, SelectionError,
    law_selection_is_determined, same_selection_error,
};
use crate::placeholder::{
    clone_strings, extract_placeholder_names, find_header, header_index, placeholder_names,
    PlaceholderError,
};
use crate::tags::{error_text, spec_parse, terr_matches, TagExprError};
use crate::text::views;
use crate::tag_ast::TagAst;
use crate::tags::TagExpression;
use crate::text::{owned, push_str};

verus! {

/// The expression of an optional filter.
pub open spec fn expr_ast(f: Option<&TagExpression>) -> Option<TagAst> {
    match f {
        Some(e) => Some(e@),
        None => None,
    }
}

/// Positions below `n` whose scenario is extracted and passes the filter.
pub open spec fn generated_indices(f: Feature, filter: Option<TagAst>, n: int) -> Seq<int>
    decreases n,
{
    if n <= 0 {
        seq![]
    } else {
        let prev = generated_indices(f, filter, n - 1);
        if extractable(f, n - 1) && passes(f, n - 1, filter) {
            prev.push(n - 1)
        } else {
            prev
        }
    }
}

/// Positions below `n` whose scenario cannot be extracted.
pub open spec fn failed_indices(f: Feature, n: int) -> Seq<int>
    decreases n,
{
    if n <= 0 {
        seq![]
    } else {
        let prev = failed_indices(f, n - 1);
        if !extractable(f, n - 1) {
            prev.push(n - 1)
        } else {
            prev
        }
    }
}

/// Extracts every scenario of a feature for `scenarios!`: those that the
/// optional tag filter accepts become tests (an outline keeps the rows the
/// filter accepts), and each scenario that cannot be extracted yields its
/// error; both lists follow the feature's order.
pub fn process_scenarios(feature: &Feature, filter: Option<&TagExpression>) -> (r: (
    Vec<ScenarioData>,
    Vec<ExtractError>,
))
    ensures
        ({
            let n = feature.scenarios@.len() as int;
            let gen = generated_indices(*feature, expr_ast(filter), n);
            let bad = failed_indices(*feature, n);
            &&& r.0@.len() == gen.len()
            &&& forall|k: int|
                0 <= k < gen.len() ==> selected_data(
                    #[trigger] r.0@[k],
                    *feature,
                    feature.scenarios@[gen[k]],
                    expr_ast(filter),
                )
            &&& r.1@.len() == bad.len()
            &&& forall|k: int|
                0 <= k < bad.len() ==> extract_error_of(#[trigger] r.1@[k], *feature, bad[k])
        }),
{
    let ghost flt = expr_ast(filter);
    let mut tests: Vec<ScenarioData> = Vec::new();
    let mut errors: Vec<ExtractError> = Vec::new();
    let n = feature.scenarios.len();
    let mut idx: usize = 0;
    while idx < n
        invariant
            idx <= n,
            n == feature.scenarios@.len(),
            flt == expr_ast(filter),
            tests@.len() == generated_indices(*feature, flt, idx as int).len(),
            forall|k: int|
                0 <= k < tests@.len() ==> selected_data(
                    #[trigger] tests@[k],
                    *feature,
                    feature.scenarios@[generated_indices(*feature, flt, idx as int)[k]],
                    flt,
                ),
            errors@.len() == failed_indices(*feature, idx as int).len(),
            forall|k: int|
                0 <= k < errors@.len() ==> extract_error_of(
                    #[trigger] errors@[k],
                    *feature,
                    failed_indices(*feature, idx as int)[k],
                ),
        decreases n - idx,
    {
        let ghost gen0 = generated_indices(*feature, flt, idx as int);
        let ghost bad0 = failed_indices(*feature, idx as int);
        let ghost s = feature.scenarios@[idx as int];
        match extract_scenario_steps(feature, Some(idx)) {
            Ok(mut data) => {
                let ghost before = data;
                let keep = match filter {
                    None => true,
                    Some(e) => {
                        let m = data.filter_by_tags(e);
                        proof {
                            crate::feature::lemma_string_set_views(before.tags@);
                        }
                        m
                    },
                };
                assert(keep == passes(*feature, idx as int, flt));
                if keep {
                    let ghost prev = tests@;
                    tests.push(data);
                    proof {
                        assert forall|k: int| 0 <= k < tests@.len() implies selected_data(
                            #[trigger] tests@[k],
                            *feature,
                            feature.scenarios@[generated_indices(*feature, flt, idx + 1)[k]],
                            flt,
                        ) by {
                            if k < prev.len() {
                                assert(tests@[k] == prev[k]);
                                assert(generated_indices(*feature, flt, idx + 1)[k] == gen0[k]);
                            }
                        }
                    }
                } else {
                    proof {
                        assert(generated_indices(*feature, flt, idx + 1) == gen0);
                    }
                }
                proof {
                    assert(failed_indices(*feature, idx + 1) == bad0);
                }
            },
            Err(e) => {
                let ghost prev = errors@;
                errors.push(e);
                proof {
                    assert(generated_indices(*feature, flt, idx + 1) == gen0);
                    assert forall|k: int| 0 <= k < errors@.len() implies extract_error_of(
                        #[trigger] errors@[k],
                        *feature,
                        failed_indices(*feature, idx + 1)[k],
                    ) by {
                        if k < prev.len() {
                            assert(errors@[k] == prev[k]);
                            assert(failed_indices(*feature, idx + 1)[k] == bad0[k]);
                        }
                    }
                }
            },
        }
        idx += 1;
    }
    (tests, errors)
}

/// The diagnostic `scenarios!` adds when a tag filter left nothing to
/// emit, neither a test nor an error.
pub open spec fn empty_results_message(tests: nat, errors: nat, raw: Option<Seq<char>>) -> Option<
    Seq<char>,
> {
    match raw {
        Some(r) => if tests == 0 && errors == 0 {
            Some("no scenarios matched tag expression `"@ + r + "`"@)
        } else {
            None
        },
        None => None,
    }
}

/// Checks that a filtered `scenarios!` expansion emits something.
pub fn check_empty_results(tests: usize, errors: usize, raw: Option<&str>) -> (r: Option<String>)
    ensures
        match (r, empty_results_message(tests as nat, errors as nat, match raw {
            Some(s) => Some(s@),
            None => None,
        })) {
            (Some(a), Some(b)) => a@ == b,
            (None, None) => true,
            _ => false,
        },
{
    match raw {
        Some(r) => {
            if tests == 0 && errors == 0 {
                let mut m = owned("no scenarios matched tag expression `");
                push_str(&mut m, r);
                push_str(&mut m, "`");
                Some(m)
            } else {
                None
            }
        },
        None => None,
    }
}

/// The deprecation warning for the legacy `runtime` argument: none for
/// synchronous tests; with an explicit harness the argument is redundant,
/// without one the harness should be named instead.
pub open spec fn runtime_warning(runtime: RuntimeMode, explicit_harness: bool) -> Option<Seq<char>> {
    if runtime != RuntimeMode::TokioCurrentThread {
        None
    } else if explicit_harness {
        Some(
            "the `runtime = \"tokio-current-thread\"` argument is deprecated and redundant when an explicit `harness` is set; remove the `runtime` argument"@,
        )
    } else {
        Some(
            "the `runtime = \"tokio-current-thread\"` syntax is deprecated; use `harness = rstest_bdd_harness_tokio::TokioHarness` instead"@,
        )
    }
}

/// The deprecation warning to emit for a `runtime` argument, if any.
pub fn runtime_deprecation_warning(runtime: RuntimeMode, explicit_harness: bool) -> (r: Option<
    &'static str,
>)
    ensures
        match (r, runtime_warning(runtime, explicit_harness)) {
            (Some(a), Some(b)) => a@ == b,
            (None, None) => true,
            _ => false,
        },
{
    match runtime {
        RuntimeMode::Sync => None,
        RuntimeMode::TokioCurrentThread => {
            if explicit_harness {
                Some(
                    "the `runtime = \"tokio-current-thread\"` argument is deprecated and redundant when an explicit `harness` is set; remove the `runtime` argument",
                )
            } else {
                Some(
                    "the `runtime = \"tokio-current-thread\"` syntax is deprecated; use `harness = rstest_bdd_harness_tokio::TokioHarness` instead",
                )
            }
        },
    }
}

/// The harness generated tests run under.
#[derive(Clone, Copy, Debug, PartialEq, Eq, Structural)]
pub enum HarnessChoice {
    /// The harness named by the `harness` argument.
    Explicit,
    /// The Tokio harness adapter, for the legacy Tokio runtime.
    TokioAdapter,
    /// No harness.
    Default,
}

/// An explicit harness takes precedence over the runtime alias; the Tokio
/// alias selects the Tokio adapter; otherwise there is none.
pub fn resolve_harness(explicit_harness: bool, alias: Option<RuntimeCompatibilityAlias>) -> (r:
    HarnessChoice)
    ensures
        explicit_harness ==> r == HarnessChoice::Explicit,
        !explicit_harness && alias is Some ==> r == HarnessChoice::TokioAdapter,
        !explicit_harness && alias is None ==> r == HarnessChoice::Default,
{
    if explicit_harness {
        HarnessChoice::Explicit
    } else {
        match alias {
            Some(RuntimeCompatibilityAlias::TokioHarnessAdapter) => HarnessChoice::TokioAdapter,
            None => HarnessChoice::Default,
        }
    }
}

/// The parameters of a generated test: fixtures first, then the Examples
/// columns.
pub fn combine_params<T>(fixture_params: Vec<T>, example_params: Vec<T>) -> (r: Vec<T>)
    ensures
        r@ == fixture_params@ + example_params@,
{
    let mut r = fixture_params;
    let mut rest = example_params;
    r.append(&mut rest);
    r
}

/// What a generated `scenarios!` test returns: a unit `Result` when a
/// fixture can fail, so that its error propagates; `()` otherwise.
pub fn generated_return_kind(has_result_fixtures: bool) -> (r: ScenarioReturnKind)
    ensures
        has_result_fixtures ==> r == ScenarioReturnKind::ResultUnit,
        !has_result_fixtures ==> r == ScenarioReturnKind::Unit,
{
    if has_result_fixtures {
        ScenarioReturnKind::ResultUnit
    } else {
        ScenarioReturnKind::Unit
    }
}

/// A fixture's type, with the spelling of its second type argument (the
/// error type, when the type is a spelled `Result` or `StepResult`) by
/// which error types are compared.
#[derive(Debug)]
pub struct FixtureType {
    pub shape: TypeShape,
    pub error_key: Option<String>,
}

/// The spelling of a fixture's error type, when it is result-like.
pub open spec fn error_key_of(f: FixtureType) -> Option<Seq<char>> {
    match f.shape {
        TypeShape::Path(segs) => if is_result_like_path(idents(segs@)) && nth_type_arg(segs@, 1)
            is Some {
            match f.error_key {
                Some(k) => Some(k@),
                None => None,
            }
        } else {
            None
        },
        _ => None,
    }
}

/// Two fallible fixtures with different error types.
pub open spec fn errors_differ(fs: Seq<FixtureType>, i: int, j: int) -> bool {
    &&& 0 <= i < fs.len()
    &&& 0 <= j < fs.len()
    &&& error_key_of(fs[i]) matches Some(a)
    &&& error_key_of(fs[j]) matches Some(b)
    &&& a != b
}

fn error_key_exec(f: &FixtureType) -> (r: Option<&String>)
    ensures
        match (r, error_key_of(*f)) {
            (Some(a), Some(b)) => a@ == b,
            (None, None) => true,
            _ => false,
        },
{
    match &f.shape {
        TypeShape::Path(segs) => {
            if is_result_like_path_exec(segs.as_slice()) && nth_type_argument(
                segs.as_slice(),
                1,
            ).is_some() {
                match &f.error_key {
                    Some(k) => Some(k),
                    None => None,
                }
            } else {
                None
            }
        },
        _ => None,
    }
}

/// The error type of a generated test whose fixtures can fail: when every
/// fallible fixture (a spelled `Result` or `StepResult` with an error
/// argument) has the same error type, the first such fixture's; otherwise,
/// and when none is fallible, `None`, and the test falls back to
/// `Box<dyn Error>`.
pub fn resolve_fixture_error_type(fixtures: &[FixtureType]) -> (r: Option<usize>)
    ensures
        match r {
            Some(i) => {
                &&& i < fixtures@.len()
                &&& error_key_of(fixtures@[i as int]) matches Some(k)
                &&& forall|j: int|
                    0 <= j < fixtures@.len() ==> (#[trigger] error_key_of(fixtures@[j])) is None
                        || error_key_of(fixtures@[j]) == Some(k)
                &&& forall|j: int| 0 <= j < i ==> (#[trigger] error_key_of(fixtures@[j])) is None
            },
            None => (forall|j: int|
                0 <= j < fixtures@.len() ==> (#[trigger] error_key_of(fixtures@[j])) is None)
                || exists|i: int, j: int| errors_differ(fixtures@, i, j),
        },
{
    let mut first: Option<usize> = None;
    let mut i: usize = 0;
    while i < fixtures.len()
        invariant
            i <= fixtures@.len(),
            match first {
                None => forall|j: int| 0 <= j < i ==> (#[trigger] error_key_of(fixtures@[j])) is None,
                Some(f) => {
                    &&& f < i
                    &&& error_key_of(fixtures@[f as int]) is Some
                    &&& forall|j: int| 0 <= j < f ==> (#[trigger] error_key_of(fixtures@[j])) is None
                    &&& forall|j: int|
                        0 <= j < i ==> (#[trigger] error_key_of(fixtures@[j])) is None
                            || error_key_of(fixtures@[j]) == error_key_of(fixtures@[f as int])
                },
            },
        decreases fixtures@.len() - i,
    {
        match error_key_exec(&fixtures[i]) {
            None => {},
            Some(k) => match first {
                None => {
                    first = Some(i);
                },
                Some(f) => {
                    let shared = error_key_exec(&fixtures[f]);
                    match shared {
                        Some(s) => {
                            if *s != *k {
                                assert(errors_differ(fixtures@, f as int, i as int));
                                return None;
                            }
                        },
                        None => {},
                    }
                },
            },
        }
        i += 1;
    }
    first
}

/// The message for a `#[scenario]` with fallible fixtures whose body
/// cannot propagate their errors.
pub open spec fn fallible_fixture_message() -> Seq<char> {
    "scenarios with fallible fixtures (`Result<T, E>` or `StepResult<T, E>`) must return `Result<(), E>` or `StepResult<(), E>` to propagate fixture initialization errors"@
}

/// A `#[scenario]` whose fixtures can fail must return a unit `Result`.
pub fn check_fallible_fixtures(has_result_fixtures: bool, kind: ScenarioReturnKind) -> (r: Result<
    (),
    String,
>)
    ensures
        has_result_fixtures && kind == ScenarioReturnKind::Unit ==> (r matches Err(m) && m@
            == fallible_fixture_message()),
        !(has_result_fixtures && kind == ScenarioReturnKind::Unit) ==> r is Ok,
{
    if has_result_fixtures {
        match kind {
            ScenarioReturnKind::Unit => Err(
                owned(
                    "scenarios with fallible fixtures (`Result<T, E>` or `StepResult<T, E>`) must return `Result<(), E>` or `StepResult<(), E>` to propagate fixture initialization errors",
                ),
            ),
            ScenarioReturnKind::ResultUnit => Ok(()),
        }
    } else {
        Ok(())
    }
}

/// The runtime a `#[scenario]` test runs in: `async` bodies on Tokio's
/// current-thread runtime, all others synchronously.
pub fn scenario_runtime(is_async_body: bool) -> (r: RuntimeMode)
    ensures
        is_async_body ==> r == RuntimeMode::TokioCurrentThread,
        !is_async_body ==> r == RuntimeMode::Sync,
{
    if is_async_body {
        RuntimeMode::TokioCurrentThread
    } else {
        RuntimeMode::Sync
    }
}

// ---------------------------------------------------------------------
// Binding a `#[scenario]` test

/// Why a `#[scenario]` test could not be bound to a scenario.
#[derive(Debug)]
pub enum BindError {
    /// The `tags` argument is no valid tag expression; the parse error's
    /// message.
    TagFilter(String),
    /// No scenario could be selected.
    Selection(SelectionError),
}

/// The candidate positions a selector leaves, when it resolves.
pub open spec fn candidates_spec(selector: Option<&ScenarioSelector>, f: Feature) -> Option<Seq<usize>> {
    let n = f.scenarios@.len();
    match selector {
        None => Some(Seq::new(n, |i: int| i as usize)),
        Some(ScenarioSelector::Index(v)) => if v < n {
            Some(seq![*v])
        } else {
            None
        },
        Some(ScenarioSelector::Name(name)) => {
            let m = named(f.scenarios@, name@, n as int);
            if m.len() == 1 {
                Some(seq![m[0]])
            } else {
                None
            }
        },
    }
}

/// `e` is the error of a selector that does not resolve.
pub open spec fn candidate_error(e: SelectionError, selector: Option<&ScenarioSelector>, f: Feature) -> bool {
    let n = f.scenarios@.len();
    match selector {
        None => false,
        Some(ScenarioSelector::Index(v)) => e matches SelectionError::IndexOutOfRange {
            value,
            count,
        } && value == *v && count == n,
        Some(ScenarioSelector::Name(name)) => {
            let m = named(f.scenarios@, name@, n as int);
            if m.len() == 0 {
                e matches SelectionError::NotFound { name: nm, titles: t } && nm@ == name@ && views(
                    t@,
                ) == titles(f.scenarios@)
            } else {
                e matches SelectionError::Ambiguous { name: nm, indexes, lines } && nm@ == name@
                    && indexes@ == m && lines@ == lines_at(f.scenarios@, m)
            }
        },
    }
}

/// What binding a `#[scenario]` to a scenario of `feature` gives: the
/// `tags` argument is parsed first, then an empty feature is rejected, the
/// selector resolves to candidates, and the first candidate the filter
/// accepts is bound.
pub open spec fn bound_as(
    feature: Feature,
    path: Seq<char>,
    selector: Option<&ScenarioSelector>,
    tags: Option<&str>,
    r: Result<ScenarioData, BindError>,
) -> bool {
    let n = feature.scenarios@.len();
    match tags {
        Some(t) if spec_parse(t@) is Err => r matches Err(BindError::TagFilter(m))
            && exists|x: TagExprError|
            terr_matches(x, spec_parse(t@)->Err_0) && m@ == error_text(
                x.offset as nat,
                x.reason@,
            ),
        _ => {
            let flt: Option<TagAst> = match tags {
                Some(t) => Some(spec_parse(t@)->Ok_0),
                None => None,
            };
            let raw: Option<Seq<char>> = match tags {
                Some(t) => Some(t@),
                None => None,
            };
            if n == 0 {
                r matches Err(BindError::Selection(SelectionError::NoScenarios { path: p }))
                    && p@ == path
            } else {
                match candidates_spec(selector, feature) {
                    None => r matches Err(BindError::Selection(e)) && candidate_error(
                        e,
                        selector,
                        feature,
                    ),
                    Some(c) => match r {
                        Ok(d) => selection_outcome(
                            Ok(d),
                            feature,
                            c,
                            flt,
                            raw,
                            selector,
                            path,
                        ),
                        Err(BindError::Selection(e)) => selection_outcome(
                            Err(e),
                            feature,
                            c,
                            flt,
                            raw,
                            selector,
                            path,
                        ),
                        _ => false,
                    },
                }
            }
        },
    }
}

/// Two binding results are the same: the same scenario data, the same tag
/// filter message, or the same selection error.
pub open spec fn same_bind_result(a: Result<ScenarioData, BindError>, b: Result<ScenarioData, BindError>) -> bool {
    match (a, b) {
        (Ok(x), Ok(y)) => same_data(x, y),
        (Err(BindError::TagFilter(m)), Err(BindError::TagFilter(n))) => m@ == n@,
        (Err(BindError::Selection(x)), Err(BindError::Selection(y))) => same_selection_error(x, y),
        _ => false,
    }
}

/// Binding is a function of the feature, the path, the selector and the
/// `tags` argument: two results that `bound_as` admits for the same inputs
/// are the same binding or the same error.
pub proof fn law_binding_is_determined(
    feature: Feature,
    path: Seq<char>,
    selector: Option<&ScenarioSelector>,
    tags: Option<&str>,
    r1: Result<ScenarioData, BindError>,
    r2: Result<ScenarioData, BindError>,
)
    requires
        bound_as(feature, path, selector, tags, r1),
        bound_as(feature, path, selector, tags, r2),
    ensures
        same_bind_result(r1, r2),
{
    let flt: Option<TagAst> = match tags {
        Some(t) => Some(spec_parse(t@)->Ok_0),
        None => None,
    };
    let raw: Option<Seq<char>> = match tags {
        Some(t) => Some(t@),
        None => None,
    };
    let parse_fails = match tags {
        Some(t) => spec_parse(t@) is Err,
        None => false,
    };
    if !parse_fails && feature.scenarios@.len() > 0 {
        match candidates_spec(selector, feature) {
            Some(c) => {
                match (r1, r2) {
                    (Ok(a), Ok(b)) => {
                        law_selection_is_determined(feature, c, flt, raw, selector, path, Ok(a), Ok(b));
                    },
                    (Ok(a), Err(BindError::Selection(y))) => {
                        law_selection_is_determined(feature, c, flt, raw, selector, path, Ok(a), Err(y));
                    },
                    (Err(BindError::Selection(x)), Ok(b)) => {
                        law_selection_is_determined(feature, c, flt, raw, selector, path, Err(x), Ok(b));
                    },
                    (Err(BindError::Selection(x)), Err(BindError::Selection(y))) => {
                        law_selection_is_determined(feature, c, flt, raw, selector, path, Err(x), Err(y));
                    },
                    _ => {},
                }
            },
            None => {},
        }
    }
}

/// Binds a `#[scenario]` test to a scenario of its (loaded) feature: the
/// `tags` argument is parsed first, then an empty feature is rejected, the
/// selector resolves to candidates, and the first candidate the filter
/// accepts is bound.
pub fn bind_scenario(
    feature: &Feature,
    path: &str,
    selector: Option<&ScenarioSelector>,
    tags: Option<&str>,
) -> (r: Result<ScenarioData, BindError>)
    ensures
        bound_as(*feature, path@, selector, tags, r),
{
    let filter = match tags {
        Some(t) => match parse_tag_filter(t) {
            Ok(f) => Some(f),
            Err(m) => {
                return Err(BindError::TagFilter(m));
            },
        },
        None => None,
    };
    match ensure_feature_not_empty(path, feature) {
        Err(e) => {
            return Err(BindError::Selection(e));
        },
        Ok(()) => {},
    }
    let candidates = match resolve_candidate_indices(selector, feature) {
        Ok(c) => c,
        Err(e) => {
            return Err(BindError::Selection(e));
        },
    };
    match select_scenario(feature, candidates.as_slice(), filter.as_ref(), selector, path) {
        Ok(d) => Ok(d),
        Err(e) => Err(BindError::Selection(e)),
    }
}

/// The first of the first `m` names that no column has.
pub open spec fn first_unknown_name(names: Seq<Seq<char>>, headers: Seq<Seq<char>>, m: int) -> Option<
    Seq<char>,
>
    decreases m,
{
    if m <= 0 {
        None
    } else {
        match first_unknown_name(names, headers, m - 1) {
            Some(x) => Some(x),
            None => if header_index(headers, names[m - 1]) < 0 {
                Some(names[m - 1])
            } else {
                None
            },
        }
    }
}

/// The first placeholder, in the text of the first `n` steps in order,
/// that no column has.
pub open spec fn unknown_step_placeholder(steps: Seq<ParsedStep>, headers: Seq<Seq<char>>, n: int) -> Option<
    Seq<char>,
>
    decreases n,
{
    if n <= 0 {
        None
    } else {
        match unknown_step_placeholder(steps, headers, n - 1) {
            Some(x) => Some(x),
            None => {
                let names = placeholder_names(steps[n - 1].text@);
                first_unknown_name(names, headers, names.len() as int)
            },
        }
    }
}

proof fn lemma_unknown_name_stays(names: Seq<Seq<char>>, headers: Seq<Seq<char>>, a: int, b: int)
    requires
        a <= b,
        first_unknown_name(names, headers, a) is Some,
    ensures
        first_unknown_name(names, headers, b) == first_unknown_name(names, headers, a),
    decreases b - a,
{
    if b > a {
        lemma_unknown_name_stays(names, headers, a, b - 1);
    }
}

proof fn lemma_unknown_step_stays(steps: Seq<ParsedStep>, headers: Seq<Seq<char>>, a: int, b: int)
    requires
        a <= b,
        unknown_step_placeholder(steps, headers, a) is Some,
    ensures
        unknown_step_placeholder(steps, headers, b) == unknown_step_placeholder(steps, headers, a),
    decreases b - a,
{
    if b > a {
        lemma_unknown_step_stays(steps, headers, a, b - 1);
    }
}

/// Checks that every placeholder in the text of an outline's steps names
/// an Examples column; the first one that does not is reported with the
/// columns there are.
pub fn validate_step_placeholders(steps: &[ParsedStep], headers: &[String]) -> (r: Result<
    (),
    PlaceholderError,
>)
    ensures
        match unknown_step_placeholder(steps@, views(headers@), steps@.len() as int) {
            None => r is Ok,
            Some(x) => r matches Err(e) && e.placeholder@ == x && views(e.available_columns@)
                == views(headers@) && e.display() == crate::text::join(views(headers@), ", "@),
        },
{
    let ghost h = views(headers@);
    let mut i: usize = 0;
    while i < steps.len()
        invariant
            i <= steps@.len(),
            h == views(headers@),
            unknown_step_placeholder(steps@, h, i as int) is None,
        decreases steps@.len() - i,
    {
        let names = extract_placeholder_names(steps[i].text.as_str());
        let ghost all = views(names@);
        let mut j: usize = 0;
        while j < names.len()
            invariant
                i < steps@.len(),
                j <= names@.len(),
                h == views(headers@),
                all == views(names@),
                all == placeholder_names(steps@[i as int].text@),
                unknown_step_placeholder(steps@, h, i as int) is None,
                first_unknown_name(all, h, j as int) is None,
            decreases names@.len() - j,
        {
            assert(all[j as int] == names@[j as int]@);
            match find_header(headers, &names[j]) {
                None => {
                    proof {
                        assert(first_unknown_name(all, h, j + 1) == Some(all[j as int]));
                        lemma_unknown_name_stays(all, h, j + 1, all.len() as int);
                        assert(unknown_step_placeholder(steps@, h, i + 1) == Some(all[j as int]));
                        lemma_unknown_step_stays(steps@, h, i + 1, steps@.len() as int);
                    }
                    let columns = clone_strings(headers);
                    let display = crate::text::join_strings(headers, ", ");
                    return Err(
                        PlaceholderError {
                            placeholder: names[j].clone(),
                            available_columns: columns,
                            available_columns_display: display,
                        },
                    );
                },
                Some(_) => {},
            }
            j += 1;
        }
        assert(unknown_step_placeholder(steps@, h, i + 1) is None);
        i += 1;
    }
    Ok(())
}

/// Why a `#[scenario]` could not be planned, in the order the checks run.
#[derive(Debug)]
pub enum ScenarioPlanError {
    /// The test's return type is not `()` or a unit `Result`.
    Return(ReturnError),
    /// The feature file could not be loaded; the loader's message.
    Load(String),
    /// The scenario could not be bound.
    Bind(BindError),
    /// An outline step names a placeholder that no Examples column has.
    Placeholder(PlaceholderError),
    /// An Examples column names no parameter; the message.
    Outline(String),
    /// Fallible fixtures with a body that cannot propagate their errors.
    Fallible(String),
}

/// Everything a `#[scenario]` test is generated from.
#[derive(Debug)]
pub struct ScenarioPlan {
    pub data: ScenarioData,
    pub return_kind: ScenarioReturnKind,
    pub runtime: RuntimeMode,
    /// For each parameter, whether it gets a `#[case]` attribute.
    pub case_params: Vec<bool>,
}

/// The Examples columns of bound scenario data, if any.
pub open spec fn headers_of(d: ScenarioData) -> Option<Seq<String>> {
    match d.examples {
        Some(ex) => Some(ex.headers@),
        None => None,
    }
}

/// Every placeholder in the step text of bound outline data names one of
/// its columns.
pub open spec fn placeholders_known(d: ScenarioData) -> bool {
    match d.examples {
        Some(ex) => unknown_step_placeholder(d.steps@, views(ex.headers@), d.steps@.len() as int)
            is None,
        None => true,
    }
}

/// A step of bound outline data names an unknown placeholder, reported
/// as `e`.
pub open spec fn placeholder_fails(d: ScenarioData, e: PlaceholderError) -> bool {
    &&& d.examples matches Some(ex)
    &&& unknown_step_placeholder(d.steps@, views(ex.headers@), d.steps@.len() as int) matches Some(x)
    &&& e.placeholder@ == x
    &&& views(e.available_columns@) == views(ex.headers@)
    &&& e.display() == crate::text::join(views(ex.headers@), ", "@)
}

/// Matching the columns of `d` to `params` fails with message `m`.
pub open spec fn outline_fails(params: Seq<ParamShape>, d: ScenarioData, m: Seq<char>) -> bool {
    &&& headers_of(d) matches Some(hs)
    &&& first_unmatched(params, hs, hs.len() as int) matches Some(k)
    &&& m == mismatch_message(params, hs[k]@)
}

/// Every column of `d` names a parameter.
pub open spec fn outline_passes(params: Seq<ParamShape>, d: ScenarioData) -> bool {
    match headers_of(d) {
        Some(hs) => first_unmatched(params, hs, hs.len() as int) is None,
        None => true,
    }
}

/// The `#[case]` flags that matching the columns of `d` gives.
pub open spec fn case_flags(params: Seq<ParamShape>, d: ScenarioData, v: Seq<bool>) -> bool {
    &&& v.len() == params.len()
    &&& forall|p: int|
        0 <= p < params.len() ==> #[trigger] v[p] == match headers_of(d) {
            Some(hs) => gets_case(params, hs, hs.len() as int, p),
            None => false,
        }
}

/// Plans a `#[scenario]` test, with its checks in order: the return type
/// is classified, the loaded feature (or the loader's error) is taken,
/// the scenario is bound, every placeholder in an outline's step text
/// must name an Examples column, the columns are matched to the
/// parameters, and fallible fixtures need a unit `Result` body. `async`
/// bodies run on Tokio's current-thread runtime.
pub fn plan_scenario(
    output: &Option<TypeShape>,
    is_async: bool,
    feature: &Result<Feature, String>,
    path: &str,
    selector: Option<&ScenarioSelector>,
    tags: Option<&str>,
    params: &[ParamShape],
    has_result_fixtures: bool,
) -> (r: Result<ScenarioPlan, ScenarioPlanError>)
    ensures
        match scenario_return_of(*output) {
            Err(e) => r matches Err(ScenarioPlanError::Return(x)) && x == e,
            Ok(kind) => match feature {
                Err(m) => r matches Err(ScenarioPlanError::Load(x)) && x@ == m@,
                Ok(f) => match r {
                    Err(ScenarioPlanError::Bind(be)) => bound_as(*f, path@, selector, tags, Err(be)),
                    Err(ScenarioPlanError::Placeholder(e)) => exists|d: ScenarioData|
                        #![trigger bound_as(*f, path@, selector, tags, Ok(d))]
                        bound_as(*f, path@, selector, tags, Ok(d)) && placeholder_fails(d, e),
                    Err(ScenarioPlanError::Outline(m)) => exists|d: ScenarioData|
                        #![trigger bound_as(*f, path@, selector, tags, Ok(d))]
                        bound_as(*f, path@, selector, tags, Ok(d)) && placeholders_known(d)
                            && outline_fails(
                            params@,
                            d,
                            m@,
                        ),
                    Err(ScenarioPlanError::Fallible(m)) => exists|d: ScenarioData|
                        #![trigger bound_as(*f, path@, selector, tags, Ok(d))]
                        bound_as(*f, path@, selector, tags, Ok(d)) && placeholders_known(d)
                            && outline_passes(params@, d) && has_result_fixtures && kind == ScenarioReturnKind::Unit && m@
                            == fallible_fixture_message(),
                    Ok(p) => {
                        &&& bound_as(*f, path@, selector, tags, Ok(p.data))
                        &&& placeholders_known(p.data)
                        &&& outline_passes(params@, p.data)
                        &&& !(has_result_fixtures && kind == ScenarioReturnKind::Unit)
                        &&& p.return_kind == kind
                        &&& p.runtime == (if is_async {
                            RuntimeMode::TokioCurrentThread
                        } else {
                            RuntimeMode::Sync
                        })
                        &&& case_flags(params@, p.data, p.case_params@)
                    },
                    _ => false,
                },
            },
        },
{
    let kind = match classify_scenario_return(output) {
        Err(e) => {
            return Err(ScenarioPlanError::Return(e));
        },
        Ok(k) => k,
    };
    let f = match feature {
        Err(m) => {
            return Err(ScenarioPlanError::Load(m.clone()));
        },
        Ok(f) => f,
    };
    let data = match bind_scenario(f, path, selector, tags) {
        Err(be) => {
            return Err(ScenarioPlanError::Bind(be));
        },
        Ok(d) => d,
    };
    match &data.examples {
        Some(ex) => match validate_step_placeholders(data.steps.as_slice(), ex.headers.as_slice()) {
            Err(e) => {
                assert(bound_as(*f, path@, selector, tags, Ok(data)) && placeholder_fails(data, e));
                return Err(ScenarioPlanError::Placeholder(e));
            },
            Ok(()) => {},
        },
        None => {},
    }
    assert(placeholders_known(data));
    let matched = match &data.examples {
        Some(ex) => process_scenario_outline_examples(params, Some(ex.headers.as_slice())),
        None => process_scenario_outline_examples(params, None),
    };
    let case_params = match matched {
        Err(m) => {
            assert(bound_as(*f, path@, selector, tags, Ok(data)) && placeholders_known(data)
                && outline_fails(params@, data, m@));
            return Err(ScenarioPlanError::Outline(m));
        },
        Ok(v) => v,
    };
    match check_fallible_fixtures(has_result_fixtures, kind) {
        Err(m) => {
            assert(bound_as(*f, path@, selector, tags, Ok(data)) && placeholders_known(data)
                && outline_passes(params@, data));
            return Err(ScenarioPlanError::Fallible(m));
        },
        Ok(()) => {},
    }
    let runtime = scenario_runtime(is_async);
    Ok(ScenarioPlan { data, return_kind: kind, runtime, case_params })
}

} // verus!
