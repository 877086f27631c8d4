//! Scenario selection for `#[scenario]`: resolving the `index` or `name`
//! selector against a feature, applying the optional tag filter to the
//! candidates, and the diagnostics given when nothing is selected.

use vstd::prelude::*;
use crate::feature::{
    base_tags, examples_valid, extract_error_of, extract_scenario_steps, extractable, is_outline,
    extract_message, kept_rows, lemma_string_set_views, min_len, outline_row_tags, outline_rows, rows_view,
    scenario_data_of, table_matches, ExtractError, Feature, Scenario, ScenarioData,
    lemma_extract_error_determined, same_data, same_extract_error,
};
use crate::placeholder::clone_strings;
use crate::tag_ast::{ast_eval, TagAst};
use crate::tags::{spec_parse, terr_matches, TagExpression};
use crate::text::{decimal, join, join_strings, owned, push_str, str_eq, usize_to_string, views};

verus! {

/// How a `#[scenario]` test names the scenario it binds.
#[derive(Debug)]
pub enum ScenarioSelector {
    /// Zero-based position in the feature.
    Index(usize),
    /// Exact, case-sensitive title.
    Name(String),
}

/// A parsed `tags = "..."` argument together with its source text.
#[derive(Debug)]
pub struct TagFilter {
    pub expr: TagExpression,
    pub raw: String,
}

/// Why no scenario could be bound.
#[derive(Debug)]
pub enum SelectionError {
    /// The feature holds no scenario.
    NoScenarios { path: String },
    /// An `index` selector past the last scenario.
    IndexOutOfRange { value: usize, count: usize },
    /// No scenario has the selected title; `titles` are all titles.
    NotFound { name: String, titles: Vec<String> },
    /// Several scenarios have the selected title.
    Ambiguous { name: String, indexes: Vec<usize>, lines: Vec<usize> },
    /// A candidate's data could not be extracted.
    Extract(ExtractError),
    /// No candidate satisfies the tag filter; `tag_sets` are the tags of
    /// each candidate examined.
    TagMismatch { selector: Option<ScenarioSelector>, raw: String, tag_sets: Vec<Vec<String>> },
}

// ---------------------------------------------------------------------
// Selectors

/// Two selectors select the same thing.
pub open spec fn same_selector(a: ScenarioSelector, b: ScenarioSelector) -> bool {
    match (a, b) {
        (ScenarioSelector::Index(x), ScenarioSelector::Index(y)) => x == y,
        (ScenarioSelector::Name(x), ScenarioSelector::Name(y)) => x@ == y@,
        _ => false,
    }
}

fn clone_selector(s: &ScenarioSelector) -> (r: ScenarioSelector)
    ensures
        same_selector(r, *s),
{
    match s {
        ScenarioSelector::Index(v) => ScenarioSelector::Index(*v),
        ScenarioSelector::Name(n) => ScenarioSelector::Name(n.clone()),
    }
}

/// Parses a `tags` argument; a parse error becomes its message.
pub fn parse_tag_filter(raw: &str) -> (r: Result<TagFilter, String>)
    ensures
        match spec_parse(raw@) {
            Ok(e) => r matches Ok(tf) && tf.expr@ == e && tf.raw@ == raw@,
            Err(te) => r matches Err(m) && exists|x: crate::tags::TagExprError|
                terr_matches(x, te) && m@ == crate::tags::error_text(x.offset as nat, x.reason@),
        },
{
    match TagExpression::parse(raw) {
        Ok(expr) => Ok(TagFilter { expr, raw: owned(raw) }),
        Err(e) => Err(e.to_string()),
    }
}

// ---------------------------------------------------------------------
// Lookup by title

/// Positions below `n` whose scenario has title `name`, in order.
pub open spec fn named(scs: Seq<Scenario>, name: Seq<char>, n: int) -> Seq<usize>
    decreases n,
{
    if n <= 0 {
        seq![]
    } else {
        let p = named(scs, name, n - 1);
        if scs[n - 1].name@ == name {
            p.push((n - 1) as usize)
        } else {
            p
        }
    }
}

/// All titles, in order.
pub open spec fn titles(scs: Seq<Scenario>) -> Seq<Seq<char>> {
    scs.map_values(|s: Scenario| s.name@)
}

/// The source lines of the scenarios at `idx`.
pub open spec fn lines_at(scs: Seq<Scenario>, idx: Seq<usize>) -> Seq<usize> {
    idx.map_values(|i: usize| scs[i as int].line)
}

proof fn lemma_named_bounds(scs: Seq<Scenario>, name: Seq<char>, n: int)
    requires
        0 <= n <= scs.len(),
    ensures
        forall|k: int| 0 <= k < named(scs, name, n).len() ==> #[trigger] named(scs, name, n)[k] < n,
        named(scs, name, n).len() <= n,
    decreases n,
{
    if n > 0 {
        lemma_named_bounds(scs, name, n - 1);
    }
}

/// Finds the single scenario titled `name`.
pub fn find_scenario_by_name(feature: &Feature, name: &str) -> (r: Result<usize, SelectionError>)
    ensures
        ({
            let scs = feature.scenarios@;
            let m = named(scs, name@, scs.len() as int);
            &&& m.len() == 0 ==> (r matches Err(SelectionError::NotFound { name: nm, titles: t })
                && nm@ == name@ && views(t@) == titles(scs))
            &&& m.len() == 1 ==> r == Ok::<usize, SelectionError>(m[0])
            &&& m.len() >= 2 ==> (r matches Err(
                SelectionError::Ambiguous { name: nm, indexes, lines },
            ) && nm@ == name@ && indexes@ == m && lines@ == lines_at(scs, m))
        }),
{
    let ghost scs = feature.scenarios@;
    let mut indexes: Vec<usize> = Vec::new();
    let mut lines: Vec<usize> = Vec::new();
    let mut i: usize = 0;
    while i < feature.scenarios.len()
        invariant
            i <= scs.len(),
            scs == feature.scenarios@,
            indexes@ == named(scs, name@, i as int),
            lines@ == lines_at(scs, indexes@),
        decreases scs.len() - i,
    {
        if str_eq(feature.scenarios[i].name.as_str(), name) {
            let ghost prev = indexes@;
            indexes.push(i);
            lines.push(feature.scenarios[i].line);
            assert(lines_at(scs, indexes@) =~= lines_at(scs, prev).push(scs[i as int].line));
        }
        i += 1;
    }
    if indexes.len() == 0 {
        return Err(scenario_not_found_error(feature, name));
    }
    if indexes.len() == 1 {
        return Ok(indexes[0]);
    }
    Err(SelectionError::Ambiguous { name: owned(name), indexes, lines })
}

/// The diagnostic for a title that no scenario has.
pub fn scenario_not_found_error(feature: &Feature, name: &str) -> (e: SelectionError)
    ensures
        e matches SelectionError::NotFound { name: nm, titles: t } && nm@ == name@ && views(t@)
            == titles(feature.scenarios@),
{
    let mut t: Vec<String> = Vec::new();
    let mut i: usize = 0;
    while i < feature.scenarios.len()
        invariant
            i <= feature.scenarios@.len(),
            views(t@) == titles(feature.scenarios@).take(i as int),
        decreases feature.scenarios@.len() - i,
    {
        let ghost prev = t@;
        let s = feature.scenarios[i].name.clone();
        t.push(s);
        i += 1;
        proof {
            crate::tag_sets::lemma_views_push(prev, s);
            assert(titles(feature.scenarios@).take(i as int) =~= titles(feature.scenarios@).take(
                i - 1,
            ).push(s@));
        }
    }
    assert(titles(feature.scenarios@).take(i as int) =~= titles(feature.scenarios@));
    SelectionError::NotFound { name: owned(name), titles: t }
}

// ---------------------------------------------------------------------
// Candidates

/// Checks that the feature holds at least one scenario.
pub fn ensure_feature_not_empty(path: &str, feature: &Feature) -> (r: Result<(), SelectionError>)
    ensures
        feature.scenarios@.len() > 0 ==> r is Ok,
        feature.scenarios@.len() == 0 ==> (r matches Err(SelectionError::NoScenarios { path: p })
            && p@ == path@),
{
    if feature.scenarios.len() == 0 {
        Err(SelectionError::NoScenarios { path: owned(path) })
    } else {
        Ok(())
    }
}

/// Validates an `index` selector against the number of scenarios.
pub fn resolve_index_selector(value: usize, feature: &Feature) -> (r: Result<
    Vec<usize>,
    SelectionError,
>)
    ensures
        value < feature.scenarios@.len() ==> (r matches Ok(v) && v@ == seq![value]),
        value >= feature.scenarios@.len() ==> (r matches Err(
            SelectionError::IndexOutOfRange { value: x, count },
        ) && x == value && count == feature.scenarios@.len()),
{
    if value >= feature.scenarios.len() {
        Err(SelectionError::IndexOutOfRange { value, count: feature.scenarios.len() })
    } else {
        let mut v = Vec::new();
        v.push(value);
        Ok(v)
    }
}

/// The positions a `#[scenario]` test may bind: every scenario without a
/// selector, else the one the selector names.
pub fn resolve_candidate_indices(selector: Option<&ScenarioSelector>, feature: &Feature) -> (r:
    Result<Vec<usize>, SelectionError>)
    ensures
        match selector {
            None => r matches Ok(v) && v@ == Seq::new(
                feature.scenarios@.len(),
                |i: int| i as usize,
            ),
            Some(ScenarioSelector::Index(value)) => {
                &&& value < feature.scenarios@.len() ==> (r matches Ok(v) && v@ == seq![*value])
                &&& value >= feature.scenarios@.len() ==> (r matches Err(
                    SelectionError::IndexOutOfRange { value: x, count },
                ) && x == *value && count == feature.scenarios@.len())
            },
            Some(ScenarioSelector::Name(name)) => {
                let scs = feature.scenarios@;
                let m = named(scs, name@, scs.len() as int);
                &&& m.len() == 1 ==> (r matches Ok(v) && v@ == seq![m[0]])
                &&& m.len() == 0 ==> (r matches Err(SelectionError::NotFound { name: nm, titles: t })
                    && nm@ == name@ && views(t@) == titles(scs))
                &&& m.len() >= 2 ==> (r matches Err(
                    SelectionError::Ambiguous { name: nm, indexes, lines },
                ) && nm@ == name@ && indexes@ == m && lines@ == lines_at(scs, m))
            },
        },
{
    match selector {
        Some(ScenarioSelector::Index(value)) => resolve_index_selector(*value, feature),
        Some(ScenarioSelector::Name(name)) => {
            match find_scenario_by_name(feature, name.as_str()) {
                Ok(idx) => {
                    let mut v = Vec::new();
                    v.push(idx);
                    Ok(v)
                },
                Err(e) => Err(e),
            }
        },
        None => {
            let n = feature.scenarios.len();
            let mut v: Vec<usize> = Vec::new();
            let mut i: usize = 0;
            while i < n
                invariant
                    i <= n,
                    n == feature.scenarios@.len(),
                    v@ == Seq::new(i as nat, |k: int| k as usize),
                decreases n - i,
            {
                v.push(i);
                i += 1;
                assert(v@ =~= Seq::new(i as nat, |k: int| k as usize));
            }
            Ok(v)
        },
    }
}

// ---------------------------------------------------------------------
// Tag filtering of the candidates

/// The filter's expression as a tree.
pub open spec fn filter_ast(f: Option<&TagFilter>) -> Option<TagAst> {
    match f {
        Some(tf) => Some(tf.expr@),
        None => None,
    }
}

/// Scenario `s` of `f` satisfies `e`: an outline through one of its rows,
/// any other scenario through its own tags.
pub open spec fn scenario_matches(f: Feature, s: Scenario, e: TagAst) -> bool {
    if is_outline(s) {
        let rows = outline_rows(s.examples@);
        let tags = outline_row_tags(base_tags(f, s), s.examples@);
        kept_rows(rows, tags, e, min_len(rows.len(), tags.len())).0.len() > 0
    } else {
        ast_eval(e, base_tags(f, s).to_set())
    }
}

/// Scenario `idx` passes the optional filter.
pub open spec fn passes(f: Feature, idx: int, filter: Option<TagAst>) -> bool {
    match filter {
        None => true,
        Some(e) => scenario_matches(f, f.scenarios@[idx], e),
    }
}

/// The first `p` candidates were extracted and rejected by the filter.
pub open spec fn passed_over(f: Feature, cands: Seq<usize>, filter: Option<TagAst>, p: int) -> bool {
    forall|q: int|
        0 <= q < p ==> extractable(f, #[trigger] cands[q] as int) && !passes(
            f,
            cands[q] as int,
            filter,
        )
}

/// `d` is the data bound for scenario `s` of `f` under the filter: its
/// extracted data, with an outline's rows narrowed to those the filter
/// keeps.
pub open spec fn selected_data(d: ScenarioData, f: Feature, s: Scenario, filter: Option<TagAst>) -> bool {
    &&& scenario_data_of(d, f, s)
    &&& match filter {
        None => table_matches(d.examples, s, base_tags(f, s)),
        Some(e) => if !is_outline(s) {
            d.examples is None
        } else {
            let rows = outline_rows(s.examples@);
            let tags = outline_row_tags(base_tags(f, s), s.examples@);
            let kept = kept_rows(rows, tags, e, min_len(rows.len(), tags.len()));
            &&& d.examples matches Some(tab)
            &&& s.examples@.len() > 0
            &&& s.examples@[0].table matches Some(t0)
            &&& views(tab.headers@) == views(t0@[0]@)
            &&& rows_view(tab.rows@) == kept.0
            &&& rows_view(tab.row_tags@) == kept.1
        },
    }
}

/// The tags of the scenarios at `idx`.
pub open spec fn tag_sets_of(f: Feature, idx: Seq<usize>) -> Seq<Seq<Seq<char>>> {
    idx.map_values(|i: usize| base_tags(f, f.scenarios@[i as int]))
}

/// Without a selector or a tag filter, the first scenario is bound: the
/// candidates are all scenarios, and no candidate can be passed over.
pub proof fn law_default_selection_binds_first(f: Feature, p: int)
    requires
        0 <= p < f.scenarios@.len(),
        passed_over(f, Seq::new(f.scenarios@.len(), |i: int| i as usize), None, p),
    ensures
        p == 0,
        Seq::new(f.scenarios@.len(), |i: int| i as usize)[p] == 0,
{
    if p > 0 {
        let c = Seq::new(f.scenarios@.len(), |i: int| i as usize);
        assert(!passes(f, c[0] as int, None));
    }
}

/// The raw text of an optional filter.
pub open spec fn filter_raw(f: Option<&TagFilter>) -> Option<Seq<char>> {
    match f {
        Some(tf) => Some(tf.raw@),
        None => None,
    }
}

/// `r` is what selecting among candidates `c` of `f` gives, under the
/// filter `flt` written as `raw`, for the given selector and feature path.
pub open spec fn selection_outcome(
    r: Result<ScenarioData, SelectionError>,
    f: Feature,
    c: Seq<usize>,
    flt: Option<TagAst>,
    raw: Option<Seq<char>>,
    selector: Option<&ScenarioSelector>,
    path: Seq<char>,
) -> bool {
    match r {
        Ok(d) => exists|p: int|
            0 <= p < c.len() && passed_over(f, c, flt, p) && extractable(f, #[trigger] c[p] as int)
                && passes(f, c[p] as int, flt) && selected_data(d, f, f.scenarios@[c[p] as int], flt),
        Err(SelectionError::Extract(e)) => exists|p: int|
            0 <= p < c.len() && passed_over(f, c, flt, p) && !extractable(
                f,
                #[trigger] c[p] as int,
            ) && extract_error_of(e, f, c[p] as int),
        Err(SelectionError::NoScenarios { path: pth }) => {
            &&& flt is None
            &&& c.len() == 0
            &&& pth@ == path
        },
        Err(SelectionError::TagMismatch { selector: sel, raw: rw, tag_sets }) => {
            &&& flt is Some
            &&& raw == Some(rw@)
            &&& passed_over(f, c, flt, c.len() as int)
            &&& rows_view(tag_sets@) == tag_sets_of(f, c)
            &&& match (sel, selector) {
                (Some(a), Some(b)) => same_selector(a, *b),
                (None, None) => true,
                _ => false,
            }
        },
        _ => false,
    }
}

/// Binds the first candidate that the tag filter accepts.
///
/// Candidates are extracted in order; an extraction error ends the search.
/// Without a filter the first candidate is bound. When the filter accepts
/// none, the error lists the tags of every candidate examined.
pub fn select_scenario(
    feature: &Feature,
    candidates: &[usize],
    tag_filter: Option<&TagFilter>,
    selector: Option<&ScenarioSelector>,
    path: &str,
) -> (r: Result<ScenarioData, SelectionError>)
    ensures
        selection_outcome(
            r,
            *feature,
            candidates@,
            filter_ast(tag_filter),
            filter_raw(tag_filter),
            selector,
            path@,
        ),
{
    let ghost c = candidates@;
    let ghost flt = filter_ast(tag_filter);
    let mut examined: Vec<Vec<String>> = Vec::new();
    let mut i: usize = 0;
    while i < candidates.len()
        invariant
            i <= c.len(),
            c == candidates@,
            flt == filter_ast(tag_filter),
            passed_over(*feature, c, flt, i as int),
            rows_view(examined@) == tag_sets_of(*feature, c.take(i as int)),
        decreases c.len() - i,
    {
        let idx = candidates[i];
        let mut data = match extract_scenario_steps(feature, Some(idx)) {
            Ok(d) => d,
            Err(e) => {
                assert(!extractable(*feature, c[i as int] as int));
                return Err(SelectionError::Extract(e));
            },
        };
        let ghost s = feature.scenarios@[idx as int];
        let ghost before = data;
        assert(extractable(*feature, idx as int));
        let matched = match tag_filter {
            None => true,
            Some(tf) => {
                let m = data.filter_by_tags(&tf.expr);
                proof {
                    lemma_string_set_views(before.tags@);
                    assert(views(before.tags@) == base_tags(*feature, s));
                }
                m
            },
        };
        assert(matched == passes(*feature, idx as int, flt));
        if matched {
            return Ok(data);
        }
        let ghost prev = examined@;
        if tag_filter.is_some() {
            let t = clone_strings(data.tags.as_slice());
            examined.push(t);
            proof {
                assert(rows_view(prev.push(t)) =~= rows_view(prev).push(views(t@)));
            }
        }
        i += 1;
        proof {
            assert(c.take(i as int) =~= c.take(i - 1).push(idx));
            assert(tag_sets_of(*feature, c.take(i as int)) =~= tag_sets_of(
                *feature,
                c.take(i - 1),
            ).push(base_tags(*feature, s)));
        }
    }
    assert(c.take(c.len() as int) =~= c);
    match tag_filter {
        None => {
            assert(c.len() == 0) by {
                if c.len() > 0 {
                    assert(!passes(*feature, c[0] as int, flt));
                }
            }
            Err(SelectionError::NoScenarios { path: owned(path) })
        },
        Some(tf) => {
            let sel = match selector {
                Some(s) => Some(clone_selector(s)),
                None => None,
            };
            Err(SelectionError::TagMismatch { selector: sel, raw: tf.raw.clone(), tag_sets: examined })
        },
    }
}

// ---------------------------------------------------------------------
// Diagnostics

/// One examined tag set: its tags joined by `", "`, or `<none>`.
pub open spec fn set_text(t: Seq<Seq<char>>) -> Seq<char> {
    if t.len() == 0 {
        "<none>"@
    } else {
        join(t, ", "@)
    }
}

/// The `available tags: ...` clause listing each examined tag set,
/// separated by `"; "`.
pub open spec fn available_tags_text(sets: Seq<Seq<Seq<char>>>) -> Seq<char> {
    if sets.len() == 0 {
        "available tags: <none>"@
    } else {
        "available tags: "@ + join(sets.map_values(|t: Seq<Seq<char>>| set_text(t)), "; "@)
    }
}

/// Describes the tags of the scenarios a tag filter rejected, one group
/// per scenario.
pub fn format_available_tags(tag_sets: &[Vec<String>]) -> (r: String)
    ensures
        r@ == available_tags_text(rows_view(tag_sets@)),
{
    if tag_sets.len() == 0 {
        return owned("available tags: <none>");
    }
    let ghost sets = rows_view(tag_sets@);
    let mut formatted: Vec<String> = Vec::new();
    let mut i: usize = 0;
    while i < tag_sets.len()
        invariant
            i <= tag_sets@.len(),
            sets == rows_view(tag_sets@),
            views(formatted@) == sets.map_values(|t: Seq<Seq<char>>| set_text(t)).take(i as int),
        decreases tag_sets@.len() - i,
    {
        let ghost prev = formatted@;
        let one = if tag_sets[i].len() == 0 {
            owned("<none>")
        } else {
            join_strings(tag_sets[i].as_slice(), ", ")
        };
        proof {
            assert(sets[i as int] == views(tag_sets@[i as int]@));
        }
        formatted.push(one);
        i += 1;
        proof {
            crate::tag_sets::lemma_views_push(prev, one);
            assert(sets.map_values(|t: Seq<Seq<char>>| set_text(t)).take(i as int)
                =~= sets.map_values(|t: Seq<Seq<char>>| set_text(t)).take(i - 1).push(one@));
        }
    }
    assert(sets.map_values(|t: Seq<Seq<char>>| set_text(t)).take(i as int) =~= sets.map_values(
        |t: Seq<Seq<char>>| set_text(t),
    ));
    let mut r = owned("available tags: ");
    push_str(&mut r, join_strings(formatted.as_slice(), "; ").as_str());
    r
}

/// A title in double quotes.
pub open spec fn quoted(t: Seq<char>) -> Seq<char> {
    "\""@ + t + "\""@
}

/// Decimal renderings of numbers.
pub open spec fn decimals(v: Seq<usize>) -> Seq<Seq<char>> {
    v.map_values(|n: usize| decimal(n as nat))
}

fn decimal_strings(v: &[usize]) -> (r: Vec<String>)
    ensures
        views(r@) == decimals(v@),
{
    let mut r: Vec<String> = Vec::new();
    let mut i: usize = 0;
    while i < v.len()
        invariant
            i <= v@.len(),
            views(r@) == decimals(v@).take(i as int),
        decreases v@.len() - i,
    {
        let ghost prev = r@;
        let d = usize_to_string(v[i]);
        r.push(d);
        i += 1;
        proof {
            crate::tag_sets::lemma_views_push(prev, d);
            assert(decimals(v@).take(i as int) =~= decimals(v@).take(i - 1).push(d@));
        }
    }
    assert(decimals(v@).take(i as int) =~= decimals(v@));
    r
}

fn quoted_strings(v: &[String]) -> (r: Vec<String>)
    ensures
        views(r@) == views(v@).map_values(|t: Seq<char>| quoted(t)),
{
    let mut r: Vec<String> = Vec::new();
    let mut i: usize = 0;
    while i < v.len()
        invariant
            i <= v@.len(),
            views(r@) == views(v@).map_values(|t: Seq<char>| quoted(t)).take(i as int),
        decreases v@.len() - i,
    {
        let ghost prev = r@;
        let mut q = owned("\"");
        push_str(&mut q, v[i].as_str());
        push_str(&mut q, "\"");
        r.push(q);
        i += 1;
        proof {
            crate::tag_sets::lemma_views_push(prev, q);
            assert(views(v@).map_values(|t: Seq<char>| quoted(t)).take(i as int) =~= views(
                v@,
            ).map_values(|t: Seq<char>| quoted(t)).take(i - 1).push(q@));
        }
    }
    assert(views(v@).map_values(|t: Seq<char>| quoted(t)).take(i as int) =~= views(
        v@,
    ).map_values(|t: Seq<char>| quoted(t)));
    r
}

/// The text of a selection error.
pub open spec fn selection_message(e: SelectionError) -> Seq<char> {
    match e {
        SelectionError::NoScenarios { path } => "feature `"@ + path@ + "` contains no scenarios"@,
        SelectionError::IndexOutOfRange { value, count } => "scenario index out of range: "@
            + decimal(value as nat) + " (available: "@ + decimal(count as nat) + ")"@,
        SelectionError::NotFound { name, titles } => if titles@.len() == 0 {
            "scenario named \""@ + name@ + "\" not found; feature contains no scenarios"@
        } else {
            "scenario named \""@ + name@ + "\" not found; available titles: "@ + join(
                views(titles@).map_values(|t: Seq<char>| quoted(t)),
                ", "@,
            )
        },
        SelectionError::Ambiguous { name, indexes, lines } => "found multiple scenarios named \""@
            + name@ + "\"; use the `index` selector to disambiguate (matching indexes: "@ + join(
            decimals(indexes@),
            ", "@,
        ) + "; lines: "@ + join(decimals(lines@), ", "@) + ")"@,
        SelectionError::Extract(x) => extract_message(x),
        SelectionError::TagMismatch { selector, raw, tag_sets } => match selector {
            Some(ScenarioSelector::Index(v)) => "scenario at index "@ + decimal(v as nat)
                + " does not match tag expression `"@ + raw@ + "`; "@ + available_tags_text(
                rows_view(tag_sets@),
            ),
            Some(ScenarioSelector::Name(n)) => "scenario named \""@ + n@
                + "\" does not match tag expression `"@ + raw@ + "`; "@ + available_tags_text(
                rows_view(tag_sets@),
            ),
            None => "no scenarios matched tag expression `"@ + raw@ + "`; "@ + available_tags_text(
                rows_view(tag_sets@),
            ),
        },
    }
}

impl SelectionError {
    /// The diagnostic text.
    pub fn message(&self) -> (r: String)
        ensures
            r@ == selection_message(*self),
    {
        match self {
            SelectionError::NoScenarios { path } => {
                let mut r = owned("feature `");
                push_str(&mut r, path.as_str());
                push_str(&mut r, "` contains no scenarios");
                r
            },
            SelectionError::IndexOutOfRange { value, count } => {
                let mut r = owned("scenario index out of range: ");
                push_str(&mut r, usize_to_string(*value).as_str());
                push_str(&mut r, " (available: ");
                push_str(&mut r, usize_to_string(*count).as_str());
                push_str(&mut r, ")");
                r
            },
            SelectionError::NotFound { name, titles } => {
                let mut r = owned("scenario named \"");
                push_str(&mut r, name.as_str());
                if titles.len() == 0 {
                    push_str(&mut r, "\" not found; feature contains no scenarios");
                } else {
                    push_str(&mut r, "\" not found; available titles: ");
                    let q = quoted_strings(titles.as_slice());
                    push_str(&mut r, join_strings(q.as_slice(), ", ").as_str());
                }
                r
            },
            SelectionError::Ambiguous { name, indexes, lines } => {
                let mut r = owned("found multiple scenarios named \"");
                push_str(&mut r, name.as_str());
                push_str(
                    &mut r,
                    "\"; use the `index` selector to disambiguate (matching indexes: ",
                );
                let di = decimal_strings(indexes.as_slice());
                push_str(&mut r, join_strings(di.as_slice(), ", ").as_str());
                push_str(&mut r, "; lines: ");
                let dl = decimal_strings(lines.as_slice());
                push_str(&mut r, join_strings(dl.as_slice(), ", ").as_str());
                push_str(&mut r, ")");
                r
            },
            SelectionError::Extract(x) => x.message(),
            SelectionError::TagMismatch { selector, raw, tag_sets } => {
                let mut r = match selector {
                    Some(ScenarioSelector::Index(v)) => {
                        let mut r = owned("scenario at index ");
                        push_str(&mut r, usize_to_string(*v).as_str());
                        push_str(&mut r, " does not match tag expression `");
                        r
                    },
                    Some(ScenarioSelector::Name(n)) => {
                        let mut r = owned("scenario named \"");
                        push_str(&mut r, n.as_str());
                        push_str(&mut r, "\" does not match tag expression `");
                        r
                    },
                    None => owned("no scenarios matched tag expression `"),
                };
                push_str(&mut r, raw.as_str());
                push_str(&mut r, "`; ");
                push_str(&mut r, format_available_tags(tag_sets.as_slice()).as_str());
                r
            },
        }
    }
}

// ---------------------------------------------------------------------
// Laws

proof fn lemma_named_titles(scs: Seq<Scenario>, name: Seq<char>, n: int)
    requires
        0 <= n <= scs.len(),
        n <= usize::MAX,
    ensures
        forall|k: int|
            0 <= k < named(scs, name, n).len() ==> scs[#[trigger] named(scs, name, n)[k] as int].name@
                == name,
    decreases n,
{
    if n > 0 {
        lemma_named_titles(scs, name, n - 1);
        let p = named(scs, name, n - 1);
        if scs[n - 1].name@ == name {
            assert(((n - 1) as usize) as int == n - 1);
            assert forall|k: int| 0 <= k < named(scs, name, n).len() implies scs[#[trigger] named(
                scs,
                name,
                n,
            )[k] as int].name@ == name by {
                if k < p.len() {
                    assert(named(scs, name, n)[k] == p[k]);
                }
            }
        }
    }
}

/// A `name` selector binds the scenario with exactly that title.
pub proof fn law_name_selector_binds_that_title(
    f: Feature,
    name: Seq<char>,
    d: ScenarioData,
    flt: Option<TagAst>,
    raw: Option<Seq<char>>,
    sel: Option<&ScenarioSelector>,
    path: Seq<char>,
)
    requires
        named(f.scenarios@, name, f.scenarios@.len() as int).len() == 1,
        selection_outcome(
            Ok(d),
            f,
            seq![named(f.scenarios@, name, f.scenarios@.len() as int)[0]],
            flt,
            raw,
            sel,
            path,
        ),
    ensures
        d.name@ == name,
{
    let m = named(f.scenarios@, name, f.scenarios@.len() as int);
    assert(f.scenarios@.len() == f.scenarios.len());
    lemma_named_titles(f.scenarios@, name, f.scenarios@.len() as int);
    lemma_named_bounds(f.scenarios@, name, f.scenarios@.len() as int);
    let c = seq![m[0]];
    let p = choose|p: int|
        0 <= p < c.len() && passed_over(f, c, flt, p) && extractable(f, #[trigger] c[p] as int)
            && passes(f, c[p] as int, flt) && selected_data(d, f, f.scenarios@[c[p] as int], flt);
    assert(p == 0);
    assert(f.scenarios@[m[0] as int].name@ == name);
}

/// An `index` selector binds the scenario at that position.
pub proof fn law_index_selector_binds_that_position(
    f: Feature,
    v: usize,
    d: ScenarioData,
    flt: Option<TagAst>,
    raw: Option<Seq<char>>,
    sel: Option<&ScenarioSelector>,
    path: Seq<char>,
)
    requires
        v < f.scenarios@.len(),
        selection_outcome(Ok(d), f, seq![v], flt, raw, sel, path),
    ensures
        scenario_data_of(d, f, f.scenarios@[v as int]),
{
    let c = seq![v];
    let p = choose|p: int|
        0 <= p < c.len() && passed_over(f, c, flt, p) && extractable(f, #[trigger] c[p] as int)
            && passes(f, c[p] as int, flt) && selected_data(d, f, f.scenarios@[c[p] as int], flt);
    assert(p == 0);
}

/// A scenario bound under a tag filter satisfies it: a plain scenario
/// through its own tags, an outline through every row it keeps, of which
/// there is at least one.
pub proof fn law_bound_scenario_satisfies_filter(
    f: Feature,
    c: Seq<usize>,
    e: TagAst,
    d: ScenarioData,
    raw: Option<Seq<char>>,
    sel: Option<&ScenarioSelector>,
    path: Seq<char>,
)
    requires
        selection_outcome(Ok(d), f, c, Some(e), raw, sel, path),
    ensures
        d.examples is None ==> ast_eval(e, views(d.tags@).to_set()),
        d.examples matches Some(t) ==> {
            &&& t.rows@.len() > 0
            &&& t.rows@.len() == t.row_tags@.len()
            &&& forall|k: int|
                0 <= k < t.row_tags@.len() ==> ast_eval(e, #[trigger] rows_view(t.row_tags@)[k].to_set())
        },
{
    let p = choose|p: int|
        0 <= p < c.len() && passed_over(f, c, Some(e), p) && extractable(f, #[trigger] c[p] as int)
            && passes(f, c[p] as int, Some(e)) && selected_data(
            d,
            f,
            f.scenarios@[c[p] as int],
            Some(e),
        );
    let s = f.scenarios@[c[p] as int];
    if is_outline(s) {
        let rows = outline_rows(s.examples@);
        let tags = outline_row_tags(base_tags(f, s), s.examples@);
        let n = min_len(rows.len(), tags.len());
        crate::feature::law_filter_keeps_rows_with_their_tags(rows, tags, e, n);
        let kept = kept_rows(rows, tags, e, n);
        match d.examples {
            Some(t) => {
                assert(rows_view(t.rows@).len() == t.rows@.len());
                assert(rows_view(t.row_tags@).len() == t.row_tags@.len());
                assert forall|k: int| 0 <= k < t.row_tags@.len() implies ast_eval(
                    e,
                    #[trigger] rows_view(t.row_tags@)[k].to_set(),
                ) by {
                    assert(rows_view(t.row_tags@)[k] == kept.1[k]);
                    assert(0 <= k < kept.0.len());
                    let j = choose|j: int|
                        #![trigger rows[j]]
                        0 <= j < n && kept.0[k] == rows[j] && kept.1[k] == tags[j] && ast_eval(
                            e,
                            tags[j].to_set(),
                        );
                }
            },
            None => {},
        }
    }
}

/// Two optional selectors select the same thing, or are both absent.
pub open spec fn same_opt_selector(a: Option<ScenarioSelector>, b: Option<ScenarioSelector>) -> bool {
    match (a, b) {
        (Some(x), Some(y)) => same_selector(x, y),
        (None, None) => true,
        _ => false,
    }
}

/// Two selection errors are the same error: same variant, same fields.
pub open spec fn same_selection_error(a: SelectionError, b: SelectionError) -> bool {
    match (a, b) {
        (SelectionError::NoScenarios { path: x }, SelectionError::NoScenarios { path: y }) => x@
            == y@,
        (
            SelectionError::IndexOutOfRange { value: v, count: n },
            SelectionError::IndexOutOfRange { value: w, count: m },
        ) => v == w && n == m,
        (
            SelectionError::NotFound { name: x, titles: t },
            SelectionError::NotFound { name: y, titles: u },
        ) => x@ == y@ && views(t@) == views(u@),
        (
            SelectionError::Ambiguous { name: x, indexes: i, lines: l },
            SelectionError::Ambiguous { name: y, indexes: j, lines: k },
        ) => x@ == y@ && i@ == j@ && l@ == k@,
        (SelectionError::Extract(x), SelectionError::Extract(y)) => same_extract_error(x, y),
        (
            SelectionError::TagMismatch { selector: s, raw: r, tag_sets: t },
            SelectionError::TagMismatch { selector: z, raw: q, tag_sets: u },
        ) => same_opt_selector(s, z) && r@ == q@ && rows_view(t@) == rows_view(u@),
        _ => false,
    }
}

/// Two data bound for the same scenario under the same filter agree.
proof fn lemma_selected_data_agree(a: ScenarioData, b: ScenarioData, f: Feature, s: Scenario, flt: Option<TagAst>)
    requires
        selected_data(a, f, s, flt),
        selected_data(b, f, s, flt),
    ensures
        same_data(a, b),
{
    assert forall|i: int| 0 <= i < a.steps@.len() implies crate::feature::same_step(
        #[trigger] a.steps@[i],
        b.steps@[i],
    ) by {
        assert(crate::feature::parsed_from(a.steps@[i], crate::feature::scenario_steps(f, s)[i]));
        assert(crate::feature::parsed_from(b.steps@[i], crate::feature::scenario_steps(f, s)[i]));
    }
}

/// Selection is a function of its inputs: two outcomes of the same
/// candidates, filter, selector and path are the same binding or the same
/// error.
pub proof fn law_selection_is_determined(
    f: Feature,
    c: Seq<usize>,
    flt: Option<TagAst>,
    raw: Option<Seq<char>>,
    sel: Option<&ScenarioSelector>,
    path: Seq<char>,
    r1: Result<ScenarioData, SelectionError>,
    r2: Result<ScenarioData, SelectionError>,
)
    requires
        selection_outcome(r1, f, c, flt, raw, sel, path),
        selection_outcome(r2, f, c, flt, raw, sel, path),
    ensures
        match (r1, r2) {
            (Ok(a), Ok(b)) => same_data(a, b),
            (Err(x), Err(y)) => same_selection_error(x, y),
            _ => false,
        },
{
    match (r1, r2) {
        (Ok(a), Ok(b)) => {
            let p1 = choose|p: int|
                0 <= p < c.len() && passed_over(f, c, flt, p) && extractable(f, #[trigger] c[p] as int)
                    && passes(f, c[p] as int, flt) && selected_data(a, f, f.scenarios@[c[p] as int], flt);
            let p2 = choose|p: int|
                0 <= p < c.len() && passed_over(f, c, flt, p) && extractable(f, #[trigger] c[p] as int)
                    && passes(f, c[p] as int, flt) && selected_data(b, f, f.scenarios@[c[p] as int], flt);
            if p1 < p2 {
                assert(!passes(f, c[p1] as int, flt));
            } else if p2 < p1 {
                assert(!passes(f, c[p2] as int, flt));
            }
            lemma_selected_data_agree(a, b, f, f.scenarios@[c[p1] as int], flt);
        },
        (Ok(a), Err(y)) => {
            lemma_ok_excludes_error(f, c, flt, raw, sel, path, a, y);
        },
        (Err(x), Ok(b)) => {
            lemma_ok_excludes_error(f, c, flt, raw, sel, path, b, x);
        },
        (Err(x), Err(y)) => {
            lemma_errors_agree(f, c, flt, raw, sel, path, x, y);
        },
    }
}

/// A selection cannot both bind and fail.
proof fn lemma_ok_excludes_error(
    f: Feature,
    c: Seq<usize>,
    flt: Option<TagAst>,
    raw: Option<Seq<char>>,
    sel: Option<&ScenarioSelector>,
    path: Seq<char>,
    a: ScenarioData,
    y: SelectionError,
)
    requires
        selection_outcome(Ok(a), f, c, flt, raw, sel, path),
    ensures
        !selection_outcome(Err(y), f, c, flt, raw, sel, path),
{
    if selection_outcome(Err(y), f, c, flt, raw, sel, path) {
        let p1 = choose|p: int|
            0 <= p < c.len() && passed_over(f, c, flt, p) && extractable(f, #[trigger] c[p] as int)
                && passes(f, c[p] as int, flt) && selected_data(a, f, f.scenarios@[c[p] as int], flt);
        match y {
            SelectionError::Extract(e) => {
                let p2 = choose|p: int|
                    0 <= p < c.len() && passed_over(f, c, flt, p) && !extractable(
                        f,
                        #[trigger] c[p] as int,
                    ) && extract_error_of(e, f, c[p] as int);
                if p1 < p2 {
                    assert(!passes(f, c[p1] as int, flt));
                } else if p2 < p1 {
                    assert(extractable(f, c[p2] as int));
                }
            },
            SelectionError::TagMismatch { .. } => {
                assert(!passes(f, c[p1] as int, flt));
            },
            _ => {},
        }
    }
}

/// Two failed selections fail with the same error.
proof fn lemma_errors_agree(
    f: Feature,
    c: Seq<usize>,
    flt: Option<TagAst>,
    raw: Option<Seq<char>>,
    sel: Option<&ScenarioSelector>,
    path: Seq<char>,
    x: SelectionError,
    y: SelectionError,
)
    requires
        selection_outcome(Err(x), f, c, flt, raw, sel, path),
        selection_outcome(Err(y), f, c, flt, raw, sel, path),
    ensures
        same_selection_error(x, y),
{
    match (x, y) {
        (SelectionError::Extract(e1), SelectionError::Extract(e2)) => {
            let p1 = choose|p: int|
                0 <= p < c.len() && passed_over(f, c, flt, p) && !extractable(
                    f,
                    #[trigger] c[p] as int,
                ) && extract_error_of(e1, f, c[p] as int);
            let p2 = choose|p: int|
                0 <= p < c.len() && passed_over(f, c, flt, p) && !extractable(
                    f,
                    #[trigger] c[p] as int,
                ) && extract_error_of(e2, f, c[p] as int);
            if p1 < p2 {
                assert(extractable(f, c[p1] as int));
            } else if p2 < p1 {
                assert(extractable(f, c[p2] as int));
            }
            lemma_extract_error_determined(e1, e2, f, c[p1] as int);
        },
        (SelectionError::Extract(e1), SelectionError::TagMismatch { .. }) => {
            let p1 = choose|p: int|
                0 <= p < c.len() && passed_over(f, c, flt, p) && !extractable(
                    f,
                    #[trigger] c[p] as int,
                ) && extract_error_of(e1, f, c[p] as int);
            assert(extractable(f, c[p1] as int));
        },
        (SelectionError::TagMismatch { .. }, SelectionError::Extract(e2)) => {
            let p2 = choose|p: int|
                0 <= p < c.len() && passed_over(f, c, flt, p) && !extractable(
                    f,
                    #[trigger] c[p] as int,
                ) && extract_error_of(e2, f, c[p] as int);
            assert(extractable(f, c[p2] as int));
        },
        _ => {},
    }
}

} // verus!
