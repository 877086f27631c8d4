//! Scenario data extracted from a parsed feature: steps with their
//! keywords, the tags a scenario inherits, the rows of an outline's
//! Examples tables with the tags of each row, and tag filtering of those
//! rows.
//!
//! A parsed feature is held as plain values ([`Feature`], [`Scenario`],
//! [`Step`], [`Examples`]); the Gherkin parser's own types are converted
//! into these before the library sees them.

use vstd::prelude::*;
use crate::placeholder::clone_strings;
use crate::tag_ast::{ast_eval, string_set};
use crate::tag_sets::{extend_tag_set, extended, merge_tag_sets, trim, trim_exec};
use crate::tags::TagExpression;
use crate::text::{
    ascii_lower_seq, chars_of, decimal, owned, push_str, str_eq, to_ascii_lower, usize_to_string,
    views,
};

verus! {

/// The typed keyword of a Gherkin step.
#[derive(Clone, Copy, Debug, PartialEq, Eq, Structural)]
pub enum StepType {
    Given,
    When,
    Then,
}

/// The keyword a step is bound with; conjunctions stay distinct.
#[derive(Clone, Copy, Debug, PartialEq, Eq, Structural)]
pub enum StepKeyword {
    Given,
    When,
    Then,
    And,
    But,
}

/// A step as the Gherkin parser reports it.
#[derive(Debug)]
pub struct Step {
    /// The keyword as written (`"Given"`, `"And"`, ...).
    pub keyword: String,
    /// The keyword's meaning (conjunctions take the preceding one).
    pub ty: StepType,
    /// The step text after the keyword.
    pub value: String,
    /// An attached doc string.
    pub docstring: Option<String>,
    /// An attached data table, row by row.
    pub table: Option<Vec<Vec<String>>>,
}

/// One `Examples:` block of a scenario outline.
#[derive(Debug)]
pub struct Examples {
    /// Tags written above the block.
    pub tags: Vec<String>,
    /// The table, header row first.
    pub table: Option<Vec<Vec<String>>>,
}

/// A scenario or scenario outline.
#[derive(Debug)]
pub struct Scenario {
    /// `"Scenario"`, `"Scenario Outline"`, ...
    pub keyword: String,
    /// The scenario's title.
    pub name: String,
    /// Its own steps.
    pub steps: Vec<Step>,
    /// Its Examples blocks.
    pub examples: Vec<Examples>,
    /// Tags written above it.
    pub tags: Vec<String>,
    /// Source line of the scenario.
    pub line: usize,
}

/// A parsed feature file.
#[derive(Debug)]
pub struct Feature {
    /// Tags written above the feature.
    pub tags: Vec<String>,
    /// Steps of the `Background:` section, if any.
    pub background: Option<Vec<Step>>,
    /// The scenarios, in file order.
    pub scenarios: Vec<Scenario>,
}

/// A step bound to a scenario test.
#[derive(Debug)]
pub struct ParsedStep {
    pub keyword: StepKeyword,
    pub text: String,
    pub docstring: Option<String>,
    pub table: Option<Vec<Vec<String>>>,
}

/// The rows of an outline's Examples tables; `row_tags[i]` are the tags
/// row `i` carries.
#[derive(Debug)]
pub struct ExampleTable {
    pub headers: Vec<String>,
    pub rows: Vec<Vec<String>>,
    pub row_tags: Vec<Vec<String>>,
}

/// Everything a scenario test is generated from.
#[derive(Debug)]
pub struct ScenarioData {
    pub name: String,
    pub steps: Vec<ParsedStep>,
    pub examples: Option<ExampleTable>,
    pub tags: Vec<String>,
    pub line: u32,
}

// ---------------------------------------------------------------------
// Views

/// Rows of strings as rows of character sequences.
pub open spec fn rows_view(v: Seq<Vec<String>>) -> Seq<Seq<Seq<char>>> {
    v.map_values(|r: Vec<String>| views(r@))
}

pub open spec fn opt_str_view(o: Option<String>) -> Option<Seq<char>> {
    match o {
        Some(s) => Some(s@),
        None => None,
    }
}

pub open spec fn opt_rows_view(o: Option<Vec<Vec<String>>>) -> Option<Seq<Seq<Seq<char>>>> {
    match o {
        Some(t) => Some(rows_view(t@)),
        None => None,
    }
}

proof fn lemma_rows_view_push(v: Seq<Vec<String>>, x: Vec<String>)
    ensures
        rows_view(v.push(x)) == rows_view(v).push(views(x@)),
{
    assert(rows_view(v.push(x)) =~= rows_view(v).push(views(x@)));
}

// ---------------------------------------------------------------------
// Step keywords

/// The keyword of a step written with keyword text `kw` and typed `ty`:
/// `And` and `But` (trimmed, any ASCII case) stay conjunctions, anything
/// else takes the typed meaning.
pub open spec fn keyword_of(kw: Seq<char>, ty: StepType) -> StepKeyword {
    let lower = ascii_lower_seq(trim(kw));
    if lower == seq!['a', 'n', 'd'] {
        StepKeyword::And
    } else if lower == seq!['b', 'u', 't'] {
        StepKeyword::But
    } else {
        match ty {
            StepType::Given => StepKeyword::Given,
            StepType::When => StepKeyword::When,
            StepType::Then => StepKeyword::Then,
        }
    }
}

/// Whether `cs`, ASCII lower-cased, is the three-letter word `a b c`.
fn lower_is_word(cs: &[char], a: char, b: char, c: char) -> (r: bool)
    ensures
        r == (ascii_lower_seq(cs@) == seq![a, b, c]),
{
    if cs.len() != 3 {
        assert(ascii_lower_seq(cs@).len() != 3);
        return false;
    }
    let x = to_ascii_lower(cs[0]);
    let y = to_ascii_lower(cs[1]);
    let z = to_ascii_lower(cs[2]);
    if x == a && y == b && z == c {
        assert(ascii_lower_seq(cs@) =~= seq![a, b, c]);
        true
    } else {
        assert(ascii_lower_seq(cs@)[0] == x);
        assert(ascii_lower_seq(cs@)[1] == y);
        assert(ascii_lower_seq(cs@)[2] == z);
        assert(seq![a, b, c][0] == a && seq![a, b, c][1] == b && seq![a, b, c][2] == c);
        false
    }
}

/// Maps a textual step keyword and its typed meaning to the keyword the
/// step is bound with; `And`/`But` are matched case-insensitively after
/// trimming.
pub fn parse_step_keyword(kw: &str, ty: StepType) -> (r: StepKeyword)
    ensures
        r == keyword_of(kw@, ty),
{
    let trimmed = trim_exec(kw);
    let cs = chars_of(trimmed.as_str());
    if lower_is_word(cs.as_slice(), 'a', 'n', 'd') {
        return StepKeyword::And;
    }
    if lower_is_word(cs.as_slice(), 'b', 'u', 't') {
        return StepKeyword::But;
    }
    match ty {
        StepType::Given => StepKeyword::Given,
        StepType::When => StepKeyword::When,
        StepType::Then => StepKeyword::Then,
    }
}

// ---------------------------------------------------------------------
// Copies

fn clone_opt_string(o: &Option<String>) -> (r: Option<String>)
    ensures
        opt_str_view(r) == opt_str_view(*o),
{
    match o {
        Some(s) => Some(s.clone()),
        None => None,
    }
}

fn clone_rows(v: &[Vec<String>]) -> (r: Vec<Vec<String>>)
    ensures
        rows_view(r@) == rows_view(v@),
{
    let mut r: Vec<Vec<String>> = Vec::new();
    let mut i: usize = 0;
    while i < v.len()
        invariant
            i <= v.len(),
            rows_view(r@) == rows_view(v@).take(i as int),
        decreases v.len() - i,
    {
        let ghost prev = r@;
        let x = clone_strings(v[i].as_slice());
        r.push(x);
        i += 1;
        proof {
            lemma_rows_view_push(prev, x);
            assert(rows_view(v@).take(i as int) =~= rows_view(v@).take(i - 1).push(
                views(v@[i - 1]@),
            ));
        }
    }
    assert(rows_view(v@).take(v.len() as int) =~= rows_view(v@));
    r
}

fn clone_opt_rows(o: &Option<Vec<Vec<String>>>) -> (r: Option<Vec<Vec<String>>>)
    ensures
        opt_rows_view(r) == opt_rows_view(*o),
{
    match o {
        Some(t) => Some(clone_rows(t.as_slice())),
        None => None,
    }
}

// ---------------------------------------------------------------------
// Steps

/// `p` is the bound form of the Gherkin step `s`.
pub open spec fn parsed_from(p: ParsedStep, s: Step) -> bool {
    &&& p.keyword == keyword_of(s.keyword@, s.ty)
    &&& p.text@ == s.value@
    &&& opt_str_view(p.docstring) == opt_str_view(s.docstring)
    &&& opt_rows_view(p.table) == opt_rows_view(s.table)
}

impl ParsedStep {
    /// The bound form of a Gherkin step: the textual keyword decides
    /// conjunctions, the typed keyword everything else.
    pub fn from_step(step: &Step) -> (r: ParsedStep)
        ensures
            parsed_from(r, *step),
    {
        ParsedStep {
            keyword: parse_step_keyword(step.keyword.as_str(), step.ty),
            text: step.value.clone(),
            docstring: clone_opt_string(&step.docstring),
            table: clone_opt_rows(&step.table),
        }
    }
}

/// The background's steps (none without a background).
pub open spec fn background_steps(f: Feature) -> Seq<Step> {
    match f.background {
        Some(b) => b@,
        None => seq![],
    }
}

/// The steps a scenario runs: the background's, then its own.
pub open spec fn scenario_steps(f: Feature, s: Scenario) -> Seq<Step> {
    background_steps(f) + s.steps@
}

/// Bound forms of `steps`, appended to `out`.
fn push_parsed_steps(out: &mut Vec<ParsedStep>, steps: &[Step])
    ensures
        final(out)@.len() == old(out)@.len() + steps@.len(),
        forall|i: int| 0 <= i < old(out)@.len() ==> final(out)@[i] == old(out)@[i],
        forall|i: int|
            0 <= i < steps@.len() ==> parsed_from(
                #[trigger] final(out)@[old(out)@.len() + i],
                steps@[i],
            ),
{
    let ghost start = out@;
    let mut i: usize = 0;
    while i < steps.len()
        invariant
            i <= steps.len(),
            out@.len() == start.len() + i,
            forall|k: int| 0 <= k < start.len() ==> out@[k] == start[k],
            forall|k: int| 0 <= k < i ==> parsed_from(#[trigger] out@[start.len() + k], steps@[k]),
        decreases steps.len() - i,
    {
        let p = ParsedStep::from_step(&steps[i]);
        out.push(p);
        i += 1;
    }
}

// ---------------------------------------------------------------------
// Tags

/// The tags a scenario carries: the feature's, then its own, each with a
/// leading `@` and each once.
pub open spec fn base_tags(f: Feature, s: Scenario) -> Seq<Seq<char>> {
    extended(extended(seq![], views(f.tags@)), views(s.tags@))
}

/// Collects the feature's and the scenario's tags.
pub fn collect_base_tags(feature: &Feature, scenario: &Scenario) -> (r: Vec<String>)
    ensures
        views(r@) == base_tags(*feature, *scenario),
{
    let mut tags: Vec<String> = Vec::new();
    assert(views(tags@) =~= seq![]);
    extend_tag_set(&mut tags, feature.tags.as_slice());
    extend_tag_set(&mut tags, scenario.tags.as_slice());
    tags
}

// ---------------------------------------------------------------------
// Filtering outline rows by a tag expression

/// The rows (and their tags) among the first `n` pairs whose tags satisfy
/// `e`, in order.
pub open spec fn kept_rows(
    rows: Seq<Seq<Seq<char>>>,
    tags: Seq<Seq<Seq<char>>>,
    e: crate::tag_ast::TagAst,
    n: nat,
) -> (Seq<Seq<Seq<char>>>, Seq<Seq<Seq<char>>>)
    decreases n,
{
    if n == 0 {
        (seq![], seq![])
    } else {
        let prev = kept_rows(rows, tags, e, (n - 1) as nat);
        if ast_eval(e, tags[n - 1].to_set()) {
            (prev.0.push(rows[n - 1]), prev.1.push(tags[n - 1]))
        } else {
            prev
        }
    }
}

/// The owned tags `v` as a set of tag names.
pub proof fn lemma_string_set_views(v: Seq<String>)
    ensures
        string_set(v) == views(v).to_set(),
{
    assert forall|t: Seq<char>| string_set(v).contains(t) <==> views(v).to_set().contains(t) by {
        if string_set(v).contains(t) {
            let i = choose|i: int| 0 <= i < v.len() && v[i]@ == t;
            assert(views(v)[i] == t);
        }
        if views(v).to_set().contains(t) {
            let i = choose|i: int| 0 <= i < views(v).len() && views(v)[i] == t;
            assert(v[i]@ == t);
        }
    }
    assert(string_set(v) =~= views(v).to_set());
}

/// The smaller of two lengths (pairs are taken as far as both go).
pub open spec fn min_len(a: nat, b: nat) -> nat {
    if a <= b {
        a
    } else {
        b
    }
}

impl ScenarioData {
    /// Whether the scenario matches a tag expression.
    ///
    /// A scenario without Examples matches when its tags satisfy the
    /// expression. An outline keeps exactly the rows whose tags satisfy it
    /// and matches when one is kept; when none is, it is left unchanged.
    pub fn filter_by_tags(&mut self, expr: &TagExpression) -> (matched: bool)
        ensures
            match old(self).examples {
                None => {
                    &&& matched == ast_eval(expr@, string_set(old(self).tags@))
                    &&& *final(self) == *old(self)
                },
                Some(ex) => {
                    let kept = kept_rows(
                        rows_view(ex.rows@),
                        rows_view(ex.row_tags@),
                        expr@,
                        min_len(ex.rows@.len(), ex.row_tags@.len()),
                    );
                    &&& matched == (kept.0.len() > 0)
                    &&& !matched ==> *final(self) == *old(self)
                    &&& matched ==> {
                        &&& final(self).examples matches Some(nex)
                        &&& views(nex.headers@) == views(ex.headers@)
                        &&& rows_view(nex.rows@) == kept.0
                        &&& rows_view(nex.row_tags@) == kept.1
                        &&& final(self).name == old(self).name
                        &&& final(self).steps == old(self).steps
                        &&& final(self).tags == old(self).tags
                        &&& final(self).line == old(self).line
                    }
                },
            },
    {
        let (kept_rows_v, kept_tags_v, headers) = match &self.examples {
            None => {
                return expr.evaluate_strings(self.tags.as_slice());
            },
            Some(ex) => {
                let n = if ex.rows.len() <= ex.row_tags.len() {
                    ex.rows.len()
                } else {
                    ex.row_tags.len()
                };
                let mut kr: Vec<Vec<String>> = Vec::new();
                let mut kt: Vec<Vec<String>> = Vec::new();
                let mut i: usize = 0;
                while i < n
                    invariant
                        i <= n,
                        n <= ex.rows@.len(),
                        n <= ex.row_tags@.len(),
                        (rows_view(kr@), rows_view(kt@)) == kept_rows(
                            rows_view(ex.rows@),
                            rows_view(ex.row_tags@),
                            expr@,
                            i as nat,
                        ),
                    decreases n - i,
                {
                    let tags = &ex.row_tags[i];
                    let keep = expr.evaluate_strings(tags.as_slice());
                    proof {
                        lemma_string_set_views(tags@);
                        assert(rows_view(ex.row_tags@)[i as int] == views(tags@));
                    }
                    if keep {
                        let row = clone_strings(ex.rows[i].as_slice());
                        let rt = clone_strings(tags.as_slice());
                        let ghost pr = kr@;
                        let ghost pt = kt@;
                        kr.push(row);
                        kt.push(rt);
                        proof {
                            lemma_rows_view_push(pr, row);
                            lemma_rows_view_push(pt, rt);
                        }
                    }
                    i += 1;
                }
                (kr, kt, clone_strings(ex.headers.as_slice()))
            },
        };
        if kept_rows_v.len() == 0 {
            assert(rows_view(kept_rows_v@).len() == 0);
            return false;
        }
        self.examples = Some(ExampleTable { headers, rows: kept_rows_v, row_tags: kept_tags_v });
        true
    }
}

// ---------------------------------------------------------------------
// Outline rows

/// Why a scenario's data could not be extracted.
#[derive(Debug)]
pub enum ExtractError {
    /// The requested scenario does not exist.
    IndexOutOfRange { index: usize, count: usize },
    /// The scenario's line number does not fit in 32 bits.
    LineOutOfRange { line: usize },
    /// An outline whose first Examples block has no table.
    MissingExamples { name: String },
    /// An Examples table without a header row, with a header that differs
    /// from the first table's, or with a row of another width.
    MalformedExamples { name: String },
}

/// The text of an extraction error.
pub open spec fn extract_message(e: ExtractError) -> Seq<char> {
    match e {
        ExtractError::IndexOutOfRange { index, count } => "scenario index out of range: "@ + decimal(
            index as nat,
        ) + " (available: "@ + decimal(count as nat) + ")"@,
        ExtractError::LineOutOfRange { line } => "scenario line number out of range: "@ + decimal(
            line as nat,
        ),
        ExtractError::MissingExamples { name } => "Scenario Outline missing Examples table for '"@
            + name@ + "'"@,
        ExtractError::MalformedExamples { name } =>
            "Scenario Outline has a malformed Examples table for '"@ + name@ + "'"@,
    }
}

impl ExtractError {
    /// The diagnostic text.
    pub fn message(&self) -> (r: String)
        ensures
            r@ == extract_message(*self),
    {
        match self {
            ExtractError::IndexOutOfRange { index, count } => {
                let mut r = owned("scenario index out of range: ");
                push_str(&mut r, usize_to_string(*index).as_str());
                push_str(&mut r, " (available: ");
                push_str(&mut r, usize_to_string(*count).as_str());
                push_str(&mut r, ")");
                r
            },
            ExtractError::LineOutOfRange { line } => {
                let mut r = owned("scenario line number out of range: ");
                push_str(&mut r, usize_to_string(*line).as_str());
                r
            },
            ExtractError::MissingExamples { name } => {
                let mut r = owned("Scenario Outline missing Examples table for '");
                push_str(&mut r, name.as_str());
                push_str(&mut r, "'");
                r
            },
            ExtractError::MalformedExamples { name } => {
                let mut r = owned("Scenario Outline has a malformed Examples table for '");
                push_str(&mut r, name.as_str());
                push_str(&mut r, "'");
                r
            },
        }
    }
}

/// Whether two slices of strings hold the same strings.
fn strings_eq(a: &[String], b: &[String]) -> (r: bool)
    ensures
        r == (views(a@) == views(b@)),
{
    if a.len() != b.len() {
        assert(views(a@).len() != views(b@).len());
        return false;
    }
    let mut i: usize = 0;
    while i < a.len()
        invariant
            a.len() == b.len(),
            i <= a.len(),
            forall|k: int| 0 <= k < i ==> a@[k]@ == b@[k]@,
        decreases a.len() - i,
    {
        if !str_eq(a[i].as_str(), b[i].as_str()) {
            assert(views(a@)[i as int] != views(b@)[i as int]);
            return false;
        }
        i += 1;
    }
    assert(views(a@) =~= views(b@));
    true
}

/// Whether a scenario is treated as an outline.
pub open spec fn is_outline(s: Scenario) -> bool {
    s.keyword@ == "Scenario Outline"@ || s.examples@.len() > 0
}

/// The table of the first Examples block, if both exist.
pub open spec fn first_table(s: Scenario) -> Option<Vec<Vec<String>>> {
    if s.examples@.len() > 0 {
        s.examples@[0].table
    } else {
        None
    }
}

/// The data rows of a table (all rows after the header).
pub open spec fn data_rows(t: Seq<Vec<String>>) -> Seq<Seq<Seq<char>>> {
    if t.len() == 0 {
        seq![]
    } else {
        rows_view(t).drop_first()
    }
}

/// A table that has a header row equal to `headers` and rows of the
/// header's width.
pub open spec fn table_fits(t: Seq<Vec<String>>, headers: Seq<Seq<char>>) -> bool {
    &&& t.len() >= 1
    &&& views(t[0]@) == headers
    &&& forall|j: int| 1 <= j < t.len() ==> (#[trigger] t[j])@.len() == headers.len()
}

/// Every table present in `exs` fits `headers`.
pub open spec fn examples_fit(exs: Seq<Examples>, headers: Seq<Seq<char>>) -> bool {
    forall|i: int|
        0 <= i < exs.len() ==> match (#[trigger] exs[i]).table {
            Some(t) => table_fits(t@, headers),
            None => true,
        }
}

/// The data rows of every table present in `exs`, in order.
pub open spec fn outline_rows(exs: Seq<Examples>) -> Seq<Seq<Seq<char>>>
    decreases exs.len(),
{
    if exs.len() == 0 {
        seq![]
    } else {
        let prev = outline_rows(exs.drop_last());
        match exs.last().table {
            Some(t) => prev + data_rows(t@),
            None => prev,
        }
    }
}

/// The tags of each row of [`outline_rows`]: the scenario's tags merged
/// with those of the row's Examples block.
pub open spec fn outline_row_tags(base: Seq<Seq<char>>, exs: Seq<Examples>) -> Seq<Seq<Seq<char>>>
    decreases exs.len(),
{
    if exs.len() == 0 {
        seq![]
    } else {
        let prev = outline_row_tags(base, exs.drop_last());
        match exs.last().table {
            Some(t) => prev + Seq::new(
                data_rows(t@).len(),
                |_j: int| extended(base, views(exs.last().tags@)),
            ),
            None => prev,
        }
    }
}

/// The scenario is no outline, or its Examples tables are well formed.
pub open spec fn examples_valid(s: Scenario) -> bool {
    !is_outline(s) || (first_table(s) matches Some(t0) && t0@.len() >= 1 && examples_fit(
        s.examples@,
        views(t0@[0]@),
    ))
}

/// `o` is the Examples data of scenario `s` whose tags are `base`.
pub open spec fn table_matches(o: Option<ExampleTable>, s: Scenario, base: Seq<Seq<char>>) -> bool {
    if !is_outline(s) {
        o is None
    } else {
        &&& o matches Some(tab)
        &&& first_table(s) matches Some(t0)
        &&& views(tab.headers@) == views(t0@[0]@)
        &&& rows_view(tab.rows@) == outline_rows(s.examples@)
        &&& rows_view(tab.row_tags@) == outline_row_tags(base, s.examples@)
    }
}

/// `e` is the error reported for the ill-formed Examples of `s`.
pub open spec fn examples_error(e: ExtractError, s: Scenario) -> bool {
    if first_table(s) is None {
        e matches ExtractError::MissingExamples { name } && name@ == s.name@
    } else {
        e matches ExtractError::MalformedExamples { name } && name@ == s.name@
    }
}

/// The Examples rows of a scenario with the tags each row carries.
///
/// A scenario that is no outline has none. An outline needs a table in
/// its first Examples block; its header row names the columns, and the
/// rows of every table follow in order.
pub fn extract_examples(scenario: &Scenario, base_tags: &[String]) -> (r: Result<
    Option<ExampleTable>,
    ExtractError,
>)
    ensures
        !is_outline(*scenario) ==> r matches Ok(None),
        examples_valid(*scenario) ==> (r matches Ok(o) && table_matches(
            o,
            *scenario,
            views(base_tags@),
        )),
        !examples_valid(*scenario) ==> (r matches Err(e) && examples_error(e, *scenario)),
        is_outline(*scenario) ==> match first_table(*scenario) {
            None => (r matches Err(ExtractError::MissingExamples { name }) && name@
                == scenario.name@),
            Some(t0) => if t0@.len() >= 1 && examples_fit(scenario.examples@, views(t0@[0]@)) {
                (r matches Ok(Some(tab)) && views(tab.headers@) == views(t0@[0]@) && rows_view(
                    tab.rows@,
                ) == outline_rows(scenario.examples@) && rows_view(tab.row_tags@)
                    == outline_row_tags(views(base_tags@), scenario.examples@))
            } else {
                (r matches Err(ExtractError::MalformedExamples { name }) && name@
                    == scenario.name@)
            },
        },
{
    let is_kw = str_eq(scenario.keyword.as_str(), "Scenario Outline");
    if !is_kw && scenario.examples.len() == 0 {
        return Ok(None);
    }
    if scenario.examples.len() == 0 || scenario.examples[0].table.is_none() {
        return Err(ExtractError::MissingExamples { name: scenario.name.clone() });
    }
    let first = match &scenario.examples[0].table {
        Some(t) => t,
        None => {
            return Err(ExtractError::MissingExamples { name: scenario.name.clone() });
        },
    };
    if first.len() == 0 {
        return Err(ExtractError::MalformedExamples { name: scenario.name.clone() });
    }
    let headers = clone_strings(first[0].as_slice());
    let ghost h = views(first@[0]@);
    let ghost exs = scenario.examples@;
    let ghost base = views(base_tags@);
    let mut rows: Vec<Vec<String>> = Vec::new();
    let mut row_tags: Vec<Vec<String>> = Vec::new();
    let mut i: usize = 0;
    while i < scenario.examples.len()
        invariant
            i <= exs.len(),
            exs == scenario.examples@,
            is_outline(*scenario),
            first_table(*scenario) matches Some(t0) && t0@ == first@,
            first@.len() >= 1,
            h == views(first@[0]@),
            base == views(base_tags@),
            views(headers@) == h,
            examples_fit(exs.take(i as int), h),
            rows_view(rows@) == outline_rows(exs.take(i as int)),
            rows_view(row_tags@) == outline_row_tags(base, exs.take(i as int)),
        decreases exs.len() - i,
    {
        let ex = &scenario.examples[i];
        proof {
            assert(exs.take(i + 1).drop_last() =~= exs.take(i as int));
            assert(exs.take(i + 1).last() == exs[i as int]);
        }
        match &ex.table {
            None => {
                proof {
                    assert forall|k: int| 0 <= k < i + 1 implies match (#[trigger] exs.take(
                        i + 1,
                    )[k]).table {
                        Some(t) => table_fits(t@, h),
                        None => true,
                    } by {
                        if k < i {
                            assert(exs.take(i + 1)[k] == exs.take(i as int)[k]);
                        }
                    }
                }
            },
            Some(t) => {
                // The header row.
                if t.len() == 0 {
                    proof {
                        assert(exs[i as int].table == Some(*t));
                        assert(!table_fits(t@, h));
                    }
                    return Err(ExtractError::MalformedExamples { name: scenario.name.clone() });
                }
                let this_header = clone_strings(t[0].as_slice());
                let same = strings_eq(headers.as_slice(), this_header.as_slice());
                if !same {
                    proof {
                        assert(exs[i as int].table == Some(*t));
                        assert(!table_fits(t@, h));
                    }
                    return Err(ExtractError::MalformedExamples { name: scenario.name.clone() });
                }
                let merged = merge_tag_sets(base_tags, ex.tags.as_slice());
                let ghost rows0 = rows_view(rows@);
                let ghost tags0 = rows_view(row_tags@);
                let mut j: usize = 1;
                while j < t.len()
                    invariant
                        1 <= j <= t@.len(),
                        t@.len() >= 1,
                        i < exs.len(),
                        exs == scenario.examples@,
                        exs[i as int].table == Some(*t),
                        is_outline(*scenario),
                        first_table(*scenario) matches Some(t0) && t0@ == first@,
                        first@.len() >= 1,
                        h == views(first@[0]@),
                        views(t@[0]@) == h,
                        views(headers@) == h,
                        forall|k: int| 1 <= k < j ==> (#[trigger] t@[k])@.len() == h.len(),
                        rows_view(rows@) == rows0 + rows_view(t@).subrange(1, j as int),
                        rows_view(row_tags@) == tags0 + Seq::new(
                            (j - 1) as nat,
                            |_k: int| extended(base, views(ex.tags@)),
                        ),
                        views(merged@) == extended(base, views(ex.tags@)),
                    decreases t.len() - j,
                {
                    if t[j].len() != headers.len() {
                        proof {
                            assert(!table_fits(t@, h));
                        }
                        return Err(ExtractError::MalformedExamples { name: scenario.name.clone() });
                    }
                    let row = clone_strings(t[j].as_slice());
                    let rt = clone_strings(merged.as_slice());
                    let ghost pr = rows@;
                    let ghost pt = row_tags@;
                    rows.push(row);
                    row_tags.push(rt);
                    proof {
                        lemma_rows_view_push(pr, row);
                        lemma_rows_view_push(pt, rt);
                        assert(rows_view(t@).subrange(1, j + 1) =~= rows_view(t@).subrange(
                            1,
                            j as int,
                        ).push(views(t@[j as int]@)));
                        assert(Seq::new(
                            j as nat,
                            |_k: int| extended(base, views(ex.tags@)),
                        ) =~= Seq::new(
                            (j - 1) as nat,
                            |_k: int| extended(base, views(ex.tags@)),
                        ).push(views(merged@)));
                    }
                    j += 1;
                }
                proof {
                    assert(data_rows(t@) =~= rows_view(t@).subrange(1, t@.len() as int));
                    assert forall|k: int| 0 <= k < i + 1 implies match (#[trigger] exs.take(
                        i + 1,
                    )[k]).table {
                        Some(tt) => table_fits(tt@, h),
                        None => true,
                    } by {
                        if k < i {
                            assert(exs.take(i + 1)[k] == exs.take(i as int)[k]);
                        }
                    }
                }
            },
        }
        i += 1;
    }
    proof {
        assert(exs.take(exs.len() as int) =~= exs);
    }
    Ok(Some(ExampleTable { headers, rows, row_tags }))
}


/// `d` holds the title, line, tags and steps of scenario `s` of `f`.
pub open spec fn scenario_data_of(d: ScenarioData, f: Feature, s: Scenario) -> bool {
    &&& d.name@ == s.name@
    &&& d.line == s.line
    &&& views(d.tags@) == base_tags(f, s)
    &&& d.steps@.len() == scenario_steps(f, s).len()
    &&& forall|i: int|
        0 <= i < d.steps@.len() ==> parsed_from(#[trigger] d.steps@[i], scenario_steps(f, s)[i])
}

/// Two bound steps agree in keyword, text, doc string and table.
pub open spec fn same_step(a: ParsedStep, b: ParsedStep) -> bool {
    &&& a.keyword == b.keyword
    &&& a.text@ == b.text@
    &&& opt_str_view(a.docstring) == opt_str_view(b.docstring)
    &&& opt_rows_view(a.table) == opt_rows_view(b.table)
}

/// Two Examples tables agree in their columns, rows and row tags.
pub open spec fn same_table(a: Option<ExampleTable>, b: Option<ExampleTable>) -> bool {
    match (a, b) {
        (None, None) => true,
        (Some(x), Some(y)) => {
            &&& views(x.headers@) == views(y.headers@)
            &&& rows_view(x.rows@) == rows_view(y.rows@)
            &&& rows_view(x.row_tags@) == rows_view(y.row_tags@)
        },
        _ => false,
    }
}

/// Two bound scenarios agree in everything a test is generated from.
pub open spec fn same_data(a: ScenarioData, b: ScenarioData) -> bool {
    &&& a.name@ == b.name@
    &&& a.line == b.line
    &&& views(a.tags@) == views(b.tags@)
    &&& a.steps@.len() == b.steps@.len()
    &&& forall|i: int| 0 <= i < a.steps@.len() ==> same_step(#[trigger] a.steps@[i], b.steps@[i])
    &&& same_table(a.examples, b.examples)
}

/// Two extraction errors are the same error.
pub open spec fn same_extract_error(a: ExtractError, b: ExtractError) -> bool {
    match (a, b) {
        (
            ExtractError::IndexOutOfRange { index: i, count: n },
            ExtractError::IndexOutOfRange { index: j, count: m },
        ) => i == j && n == m,
        (ExtractError::LineOutOfRange { line: x }, ExtractError::LineOutOfRange { line: y }) => x
            == y,
        (ExtractError::MissingExamples { name: x }, ExtractError::MissingExamples { name: y }) => x@
            == y@,
        (ExtractError::MalformedExamples { name: x }, ExtractError::MalformedExamples { name: y }) =>
            x@ == y@,
        _ => false,
    }
}

/// The error for an unextractable scenario is determined by the scenario.
pub proof fn lemma_extract_error_determined(a: ExtractError, b: ExtractError, f: Feature, idx: int)
    requires
        extract_error_of(a, f, idx),
        extract_error_of(b, f, idx),
    ensures
        same_extract_error(a, b),
{
}

/// Scenario `idx` of `f` exists and its data can be extracted.
pub open spec fn extractable(f: Feature, idx: int) -> bool {
    &&& 0 <= idx < f.scenarios@.len()
    &&& f.scenarios@[idx].line <= u32::MAX
    &&& examples_valid(f.scenarios@[idx])
}

/// `e` is the error reported when scenario `idx` of `f` cannot be
/// extracted.
pub open spec fn extract_error_of(e: ExtractError, f: Feature, idx: int) -> bool {
    let n = f.scenarios@.len();
    if idx < 0 || idx >= n {
        e matches ExtractError::IndexOutOfRange { index, count } && index == idx && count == n
    } else {
        let s = f.scenarios@[idx];
        if s.line > u32::MAX {
            e matches ExtractError::LineOutOfRange { line } && line == s.line
        } else {
            examples_error(e, s)
        }
    }
}

/// The data of scenario `idx` (the first when `index` is `None`): its
/// title and line, the background's steps followed by its own, the tags
/// it carries and its Examples rows.
pub fn extract_scenario_steps(feature: &Feature, index: Option<usize>) -> (r: Result<
    ScenarioData,
    ExtractError,
>)
    ensures
        ({
            let idx: int = match index {
                Some(i) => i as int,
                None => 0,
            };
            &&& extractable(*feature, idx) ==> (r matches Ok(d) && scenario_data_of(
                d,
                *feature,
                feature.scenarios@[idx],
            ) && table_matches(
                d.examples,
                feature.scenarios@[idx],
                base_tags(*feature, feature.scenarios@[idx]),
            ))
            &&& !extractable(*feature, idx) ==> (r matches Err(e) && extract_error_of(
                e,
                *feature,
                idx,
            ))
        }),
{
    let idx = match index {
        Some(i) => i,
        None => 0,
    };
    if idx >= feature.scenarios.len() {
        return Err(ExtractError::IndexOutOfRange { index: idx, count: feature.scenarios.len() });
    }
    let scenario = &feature.scenarios[idx];
    if scenario.line > 0xffff_ffffusize {
        return Err(ExtractError::LineOutOfRange { line: scenario.line });
    }
    let line = scenario.line as u32;
    let mut steps: Vec<ParsedStep> = Vec::new();
    let ghost all = scenario_steps(*feature, *scenario);
    let ghost bsteps: Seq<Step> = background_steps(*feature);
    match &feature.background {
        Some(bg) => {
            push_parsed_steps(&mut steps, bg.as_slice());
            assert forall|i: int| 0 <= i < steps@.len() implies parsed_from(
                #[trigger] steps@[i],
                bsteps[i],
            ) by {
                assert(steps@[0 + i] == steps@[i]);
            }
        },
        None => {},
    }
    let ghost mid = steps@;
    assert(mid.len() == bsteps.len());
    assert(forall|i: int| 0 <= i < mid.len() ==> parsed_from(#[trigger] mid[i], bsteps[i]));
    push_parsed_steps(&mut steps, scenario.steps.as_slice());
    proof {
        assert(all =~= bsteps + scenario.steps@);
        assert forall|i: int| 0 <= i < steps@.len() implies parsed_from(
            #[trigger] steps@[i],
            all[i],
        ) by {
            if i < mid.len() {
                assert(steps@[i] == mid[i]);
                assert(parsed_from(mid[i], bsteps[i]));
            } else {
                let k = i - mid.len();
                assert(steps@[mid.len() + k] == steps@[i]);
                assert(all[i] == scenario.steps@[k]);
            }
        }
    }
    let tags = collect_base_tags(feature, scenario);
    let examples = match extract_examples(scenario, tags.as_slice()) {
        Ok(e) => e,
        Err(e) => {
            return Err(e);
        },
    };
    Ok(ScenarioData { name: scenario.name.clone(), steps, examples, tags, line })
}

// ---------------------------------------------------------------------
// Laws

/// Every Examples row has exactly one tag set: the rows and the row tags
/// of an outline have the same length.
pub proof fn law_row_tags_align(base: Seq<Seq<char>>, exs: Seq<Examples>)
    ensures
        outline_rows(exs).len() == outline_row_tags(base, exs).len(),
    decreases exs.len(),
{
    if exs.len() > 0 {
        law_row_tags_align(base, exs.drop_last());
    }
}

/// Row `r` with tags `t` is one of the first `n` rows, with its own tags,
/// and those tags satisfy `e`.
pub open spec fn kept_from(
    rows: Seq<Seq<Seq<char>>>,
    tags: Seq<Seq<Seq<char>>>,
    e: crate::tag_ast::TagAst,
    n: nat,
    r: Seq<Seq<char>>,
    t: Seq<Seq<char>>,
) -> bool {
    exists|j: int| 0 <= j < n && r == rows[j] && t == tags[j] && ast_eval(e, tags[j].to_set())
}

/// Filtering keeps rows and their tags together: as many tag sets are
/// kept as rows, and each kept row keeps its own tags.
pub proof fn law_filter_keeps_rows_with_their_tags(
    rows: Seq<Seq<Seq<char>>>,
    tags: Seq<Seq<Seq<char>>>,
    e: crate::tag_ast::TagAst,
    n: nat,
)
    requires
        n <= rows.len(),
        n <= tags.len(),
    ensures
        kept_rows(rows, tags, e, n).0.len() == kept_rows(rows, tags, e, n).1.len(),
        forall|k: int|
            0 <= k < kept_rows(rows, tags, e, n).0.len() ==> kept_from(
                rows,
                tags,
                e,
                n,
                #[trigger] kept_rows(rows, tags, e, n).0[k],
                kept_rows(rows, tags, e, n).1[k],
            ),
    decreases n,
{
    if n > 0 {
        law_filter_keeps_rows_with_their_tags(rows, tags, e, (n - 1) as nat);
        let prev = kept_rows(rows, tags, e, (n - 1) as nat);
        let cur = kept_rows(rows, tags, e, n);
        assert forall|k: int| 0 <= k < cur.0.len() implies kept_from(
            rows,
            tags,
            e,
            n,
            #[trigger] cur.0[k],
            cur.1[k],
        ) by {
            if k < prev.0.len() {
                assert(cur.0[k] == prev.0[k] && cur.1[k] == prev.1[k]);
                assert(kept_from(rows, tags, e, (n - 1) as nat, prev.0[k], prev.1[k]));
                let j = choose|j: int|
                    0 <= j < n - 1 && prev.0[k] == rows[j] && prev.1[k] == tags[j] && ast_eval(
                        e,
                        tags[j].to_set(),
                    );
                assert(0 <= j < n && cur.0[k] == rows[j] && cur.1[k] == tags[j]);
            } else {
                assert(cur.0[k] == rows[n - 1] && cur.1[k] == tags[n - 1]);
                assert(ast_eval(e, tags[n - 1].to_set()));
            }
        }
    }
}

} // verus!
