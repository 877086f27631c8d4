//! Decisions of the step attributes `#[given]`, `#[when]` and `#[then]`:
//! whether an explicit pattern is kept or one is inferred from the
//! function name, and the help text attached to a rejected step signature.

use vstd::prelude::*;
use crate::feature::StepKeyword;
use crate::return_classifier::ReturnOverride;
use crate::text::{all_whitespace, contains_seq, contains_str, owned, push_str, str_eq, trims_to_empty};

verus! {

/// The message the wrapper's argument classifier gives for a step with
/// two data-table parameters.
pub const DUPLICATE_DATATABLE_ERROR: &'static str = "only one DataTable parameter is permitted";

/// The lowercase attribute name of a step keyword.
pub open spec fn keyword_text(k: StepKeyword) -> Seq<char> {
    match k {
        StepKeyword::Given => "given"@,
        StepKeyword::When => "when"@,
        StepKeyword::Then => "then"@,
        StepKeyword::And => "and"@,
        StepKeyword::But => "but"@,
    }
}

/// The lowercase attribute name of a step keyword.
pub fn keyword_name(keyword: StepKeyword) -> (r: &'static str)
    ensures
        r@ == keyword_text(keyword),
{
    match keyword {
        StepKeyword::Given => "given",
        StepKeyword::When => "when",
        StepKeyword::Then => "then",
        StepKeyword::And => "and",
        StepKeyword::But => "but",
    }
}

/// The help text for a rejected step signature whose error reads `msg`:
/// a specific remedy for the known problems, else a reminder of the
/// supported step shape naming the keyword's attribute.
pub open spec fn signature_help(msg: Seq<char>, keyword: StepKeyword) -> Seq<char> {
    if contains_seq(msg, "duplicate `#[datatable]` attribute"@) {
        "Remove one of the duplicate `#[datatable]` attributes."@
    } else if contains_seq(msg, "duplicate `#[from]` attribute"@) {
        "Remove one of the duplicate `#[from]` attributes."@
    } else if contains_seq(msg, DUPLICATE_DATATABLE_ERROR@) {
        "Remove one of the DataTable parameters."@
    } else if contains_seq(msg, "unsupported parameter pattern"@) {
        "Bind the parameter to a simple identifier (e.g., `tuple: (i32, i32)` or `user: User`) and destructure it inside the step body."@
    } else if contains_seq(msg, "methods are not supported; remove `self`"@) {
        "Remove `self` from step functions."@
    } else {
        "Use a step attribute (such as `#["@ + keyword_text(keyword)
            + "]`) on `fn name(...args...)` with supported step arguments/fixtures (step attributes include `#[given]`, `#[when]`, and `#[then]`); remove `self` if present."@
    }
}

/// Produces the keyword-specific help for a step signature diagnostic.
pub fn signature_error_help(err_message: &str, keyword: StepKeyword) -> (r: String)
    ensures
        r@ == signature_help(err_message@, keyword),
{
    if contains_str(err_message, "duplicate `#[datatable]` attribute") {
        return owned("Remove one of the duplicate `#[datatable]` attributes.");
    }
    if contains_str(err_message, "duplicate `#[from]` attribute") {
        return owned("Remove one of the duplicate `#[from]` attributes.");
    }
    if contains_str(err_message, DUPLICATE_DATATABLE_ERROR) {
        return owned("Remove one of the DataTable parameters.");
    }
    if contains_str(err_message, "unsupported parameter pattern") {
        return owned(
            "Bind the parameter to a simple identifier (e.g., `tuple: (i32, i32)` or `user: User`) and destructure it inside the step body.",
        );
    }
    if contains_str(err_message, "methods are not supported; remove `self`") {
        return owned("Remove `self` from step functions.");
    }
    let mut r = owned("Use a step attribute (such as `#[");
    push_str(&mut r, keyword_name(keyword));
    push_str(
        &mut r,
        "]`) on `fn name(...args...)` with supported step arguments/fixtures (step attributes include `#[given]`, `#[when]`, and `#[then]`); remove `self` if present.",
    );
    r
}

/// Whether a step keeps the pattern written in its attribute: it does
/// when one is given and it is empty or holds more than whitespace; a
/// missing or blank pattern is inferred from the function name.
pub fn keeps_explicit_pattern(pattern: Option<&str>) -> (r: bool)
    ensures
        r == match pattern {
            Some(p) => p@.len() == 0 || !all_whitespace(p@),
            None => false,
        },
{
    match pattern {
        None => false,
        Some(p) => {
            let cs = crate::text::chars_of(p);
            if cs.len() == 0 {
                true
            } else {
                !trims_to_empty(p)
            }
        },
    }
}

/// Reads a return-kind hint: `result` or `value`.
pub fn parse_return_override(ident: &str) -> (r: Result<ReturnOverride, String>)
    ensures
        ident@ == "result"@ ==> r == Ok::<ReturnOverride, String>(ReturnOverride::Result),
        ident@ == "value"@ ==> r == Ok::<ReturnOverride, String>(ReturnOverride::Value),
        ident@ != "result"@ && ident@ != "value"@ ==> (r matches Err(m) && m@
            == "expected `result` or `value`"@),
{
    proof {
        reveal_strlit("result");
        reveal_strlit("value");
        assert("result"@.len() != "value"@.len());
    }
    if str_eq(ident, "result") {
        Ok(ReturnOverride::Result)
    } else if str_eq(ident, "value") {
        Ok(ReturnOverride::Value)
    } else {
        Err(owned("expected `result` or `value`"))
    }
}


// ---------------------------------------------------------------------
// The arguments of a step attribute
// ---------------------------------------------------------------------

/// A token of a step attribute's arguments, as far as their grammar reads
/// it.
#[derive(Debug)]
pub enum AttrToken {
    /// An identifier (not a keyword).
    Ident(String),
    /// `=`
    Eq,
    /// `,`
    Comma,
    /// A string literal, by its value.
    Str(String),
    /// Anything else.
    Other,
}

/// The arguments of a step attribute: an optional pattern and an optional
/// return-kind hint.
#[derive(Debug)]
pub struct StepAttrArgs {
    pub pattern: Option<String>,
    pub return_override: Option<ReturnOverride>,
}

/// What was expected where the arguments went wrong.
#[derive(Debug, Clone, Copy, PartialEq, Eq, Structural)]
pub enum StepAttrError {
    /// A string literal (the pattern after `expr =`).
    ExpectedString,
    /// A `,` before the return-kind hint.
    ExpectedComma,
    /// An identifier (the return-kind hint).
    ExpectedIdent,
    /// `result` or `value`.
    BadOverride,
    /// Nothing more.
    UnexpectedTokens,
}

pub open spec fn step_attr_error_message(e: StepAttrError) -> Seq<char> {
    match e {
        StepAttrError::ExpectedString => "expected string literal"@,
        StepAttrError::ExpectedComma => "expected `,`"@,
        StepAttrError::ExpectedIdent => "expected identifier"@,
        StepAttrError::BadOverride => "expected `result` or `value`"@,
        StepAttrError::UnexpectedTokens => "unexpected tokens in step attribute"@,
    }
}

impl StepAttrError {
    /// The diagnostic text.
    pub fn message(self) -> (r: String)
        ensures
            r@ == step_attr_error_message(self),
    {
        match self {
            StepAttrError::ExpectedString => owned("expected string literal"),
            StepAttrError::ExpectedComma => owned("expected `,`"),
            StepAttrError::ExpectedIdent => owned("expected identifier"),
            StepAttrError::BadOverride => owned("expected `result` or `value`"),
            StepAttrError::UnexpectedTokens => owned("unexpected tokens in step attribute"),
        }
    }
}

/// Where and why the arguments were rejected (`at` may be the number of
/// tokens: the end of the input).
#[derive(Debug, Clone, Copy, PartialEq, Eq, Structural)]
pub struct StepAttrFailure {
    pub at: usize,
    pub error: StepAttrError,
}

/// The hint an identifier names.
pub open spec fn override_of(s: Seq<char>) -> Option<ReturnOverride> {
    if s == "result"@ {
        Some(ReturnOverride::Result)
    } else if s == "value"@ {
        Some(ReturnOverride::Value)
    } else {
        None
    }
}

/// The arguments, read as (pattern, hint), or the position and kind of the
/// error.
pub type AttrParse = Result<(Option<Seq<char>>, Option<ReturnOverride>), (int, StepAttrError)>;

/// Reads a return-kind hint at position `i`.
pub open spec fn hint_at(t: Seq<AttrToken>, i: int) -> Result<ReturnOverride, (int, StepAttrError)> {
    if i >= t.len() {
        Err((i, StepAttrError::ExpectedIdent))
    } else {
        match t[i] {
            AttrToken::Ident(s) => match override_of(s@) {
                Some(o) => Ok(o),
                None => Err((i, StepAttrError::BadOverride)),
            },
            _ => Err((i, StepAttrError::ExpectedIdent)),
        }
    }
}

/// After a pattern that ends before position `i`: nothing, or `,` and a
/// hint and nothing more.
pub open spec fn after_pattern(t: Seq<AttrToken>, i: int, p: Seq<char>) -> AttrParse {
    if i >= t.len() {
        Ok((Some(p), None))
    } else if t[i] is Comma {
        match hint_at(t, i + 1) {
            Err(e) => Err(e),
            Ok(o) => if t.len() > i + 2 {
                Err((i + 2, StepAttrError::UnexpectedTokens))
            } else {
                Ok((Some(p), Some(o)))
            },
        }
    } else {
        Err((i, StepAttrError::ExpectedComma))
    }
}

/// The grammar of a step attribute's arguments: nothing; `expr = "..."`
/// or a bare pattern literal, optionally followed by `, hint`; or a hint
/// alone.
pub open spec fn step_attr_parse(t: Seq<AttrToken>) -> AttrParse {
    if t.len() == 0 {
        Ok((None, None))
    } else if t[0] matches AttrToken::Ident(s) && s@ == "expr"@ && t.len() > 1 && t[1] is Eq {
        if t.len() > 2 && t[2] is Str {
            after_pattern(t, 3, t[2]->Str_0@)
        } else {
            Err((2, StepAttrError::ExpectedString))
        }
    } else if t[0] is Str {
        after_pattern(t, 1, t[0]->Str_0@)
    } else {
        match hint_at(t, 0) {
            Err(e) => Err(e),
            Ok(o) => if t.len() > 1 {
                Err((1, StepAttrError::UnexpectedTokens))
            } else {
                Ok((None, Some(o)))
            },
        }
    }
}

/// A hint written alone names its hint, `result` the `Result` hint and
/// `value` the `Value` hint, with no pattern; written after a pattern
/// literal and a comma, the same word gives the same hint with that
/// pattern.
pub proof fn law_hint_alone_names_its_hint(h: String, p: String)
    requires
        h@ == "result"@ || h@ == "value"@,
    ensures
        step_attr_parse(seq![AttrToken::Ident(h)]) == AttrParse::Ok(
            (
                None,
                Some(
                    if h@ == "result"@ {
                        ReturnOverride::Result
                    } else {
                        ReturnOverride::Value
                    },
                ),
            ),
        ),
        step_attr_parse(seq![AttrToken::Str(p), AttrToken::Comma, AttrToken::Ident(h)])
            == AttrParse::Ok(
            (
                Some(p@),
                Some(
                    if h@ == "result"@ {
                        ReturnOverride::Result
                    } else {
                        ReturnOverride::Value
                    },
                ),
            ),
        ),
{
    reveal_strlit("result");
    reveal_strlit("value");
    reveal_strlit("expr");
    assert("result"@ != "value"@) by {
        assert("result"@.len() != "value"@.len());
    }
    assert(h@ != "expr"@) by {
        assert("expr"@.len() != "result"@.len());
        assert("expr"@.len() != "value"@.len());
    }
}

/// The pattern forms: no arguments give neither pattern nor hint; a bare
/// literal or `expr = "..."` gives that pattern and no hint, and either
/// followed by `, result` or `, value` adds that hint; an identifier alone
/// other than `result` or `value` is rejected at position 0.
pub proof fn law_pattern_forms(p: String, x: String, h: String)
    ensures
        step_attr_parse(seq![]) == AttrParse::Ok((None, None)),
        step_attr_parse(seq![AttrToken::Str(p)]) == AttrParse::Ok((Some(p@), None)),
        x@ == "expr"@ ==> step_attr_parse(seq![AttrToken::Ident(x), AttrToken::Eq, AttrToken::Str(p)])
            == AttrParse::Ok((Some(p@), None)),
        x@ == "expr"@ && (h@ == "result"@ || h@ == "value"@) ==> step_attr_parse(
            seq![AttrToken::Ident(x), AttrToken::Eq, AttrToken::Str(p), AttrToken::Comma, AttrToken::Ident(h)],
        ) == AttrParse::Ok(
            (
                Some(p@),
                Some(
                    if h@ == "result"@ {
                        ReturnOverride::Result
                    } else {
                        ReturnOverride::Value
                    },
                ),
            ),
        ),
        h@ != "result"@ && h@ != "value"@ ==> step_attr_parse(seq![AttrToken::Ident(h)])
            == AttrParse::Err((0, StepAttrError::BadOverride)),
{
    reveal_strlit("result");
    reveal_strlit("value");
    reveal_strlit("expr");
    assert("result"@ != "value"@) by {
        assert("result"@.len() != "value"@.len());
    }
    let t = seq![AttrToken::Ident(x), AttrToken::Eq, AttrToken::Str(p), AttrToken::Comma, AttrToken::Ident(h)];
    assert(t[4] == AttrToken::Ident(h));
}

/// The arguments as the grammar reads them.
pub open spec fn attr_args_view(a: StepAttrArgs) -> (Option<Seq<char>>, Option<ReturnOverride>) {
    (
        match a.pattern {
            Some(p) => Some(p@),
            None => None,
        },
        a.return_override,
    )
}

fn hint_at_exec(t: &[AttrToken], i: usize) -> (r: Result<ReturnOverride, StepAttrFailure>)
    requires
        i <= t@.len(),
    ensures
        match hint_at(t@, i as int) {
            Ok(o) => r == Ok::<ReturnOverride, StepAttrFailure>(o),
            Err((at, e)) => r matches Err(f) && f.at == at && f.error == e,
        },
{
    if i >= t.len() {
        return Err(StepAttrFailure { at: i, error: StepAttrError::ExpectedIdent });
    }
    match &t[i] {
        AttrToken::Ident(s) => match parse_return_override(s.as_str()) {
            Ok(o) => {
                proof {
                    reveal_strlit("result");
                    reveal_strlit("value");
                }
                Ok(o)
            },
            Err(_) => Err(StepAttrFailure { at: i, error: StepAttrError::BadOverride }),
        },
        _ => Err(StepAttrFailure { at: i, error: StepAttrError::ExpectedIdent }),
    }
}

fn after_pattern_exec(t: &[AttrToken], i: usize, p: &String) -> (r: Result<
    StepAttrArgs,
    StepAttrFailure,
>)
    requires
        i <= t@.len(),
    ensures
        match after_pattern(t@, i as int, p@) {
            Ok(v) => r matches Ok(a) && attr_args_view(a) == v,
            Err((at, e)) => r matches Err(f) && f.at == at && f.error == e,
        },
{
    if i >= t.len() {
        return Ok(StepAttrArgs { pattern: Some(p.clone()), return_override: None });
    }
    match &t[i] {
        AttrToken::Comma => {
            let o = match hint_at_exec(t, i + 1) {
                Err(f) => {
                    return Err(f);
                },
                Ok(o) => o,
            };
            if t.len() > i + 2 {
                Err(StepAttrFailure { at: i + 2, error: StepAttrError::UnexpectedTokens })
            } else {
                Ok(StepAttrArgs { pattern: Some(p.clone()), return_override: Some(o) })
            }
        },
        _ => Err(StepAttrFailure { at: i, error: StepAttrError::ExpectedComma }),
    }
}

/// Reads the arguments of `#[given]`, `#[when]` or `#[then]`: nothing; the
/// cucumber-style `expr = "pattern"` or a bare pattern literal, either
/// optionally followed by `, result` or `, value`; or the hint alone.
pub fn parse_step_attr_args(tokens: &[AttrToken]) -> (r: Result<StepAttrArgs, StepAttrFailure>)
    ensures
        match step_attr_parse(tokens@) {
            Ok(v) => r matches Ok(a) && attr_args_view(a) == v,
            Err((at, e)) => r matches Err(f) && f.at == at && f.error == e,
        },
{
    proof {
        reveal_strlit("expr");
    }
    let n = tokens.len();
    if n == 0 {
        return Ok(StepAttrArgs { pattern: None, return_override: None });
    }
    let is_expr = match &tokens[0] {
        AttrToken::Ident(s) => str_eq(s.as_str(), "expr") && n > 1 && matches!(tokens[1], AttrToken::Eq),
        _ => false,
    };
    if is_expr {
        if n > 2 {
            if let AttrToken::Str(p) = &tokens[2] {
                return after_pattern_exec(tokens, 3, p);
            }
        }
        return Err(StepAttrFailure { at: 2, error: StepAttrError::ExpectedString });
    }
    match &tokens[0] {
        AttrToken::Str(p) => after_pattern_exec(tokens, 1, p),
        _ => {
            let o = match hint_at_exec(tokens, 0) {
                Err(f) => {
                    return Err(f);
                },
                Ok(o) => o,
            };
            if n > 1 {
                Err(StepAttrFailure { at: 1, error: StepAttrError::UnexpectedTokens })
            } else {
                Ok(StepAttrArgs { pattern: None, return_override: Some(o) })
            }
        },
    }
}

} // verus!
