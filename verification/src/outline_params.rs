//! Matching the columns of a scenario outline's Examples table to the test
//! function's parameters: every column must name a parameter, and each
//! parameter a column names is marked as an rstest `#[case]` argument
//! unless it already is.

use vstd::prelude::*;
use crate::text::{join, join_strings, owned, push_str, str_eq, views};

verus! {

/// A parameter of the test function, as far as outline matching reads it.
#[derive(Debug)]
pub struct ParamShape {
    /// The parameter's name when its pattern is a plain identifier (`None`
    /// for `self` and for destructuring patterns).
    pub ident: Option<String>,
    /// The paths of the parameter's attributes, by their segments.
    pub attr_paths: Vec<Vec<String>>,
}

/// An attribute path that marks an rstest case argument: `case` or
/// `rstest::case`.
pub open spec fn is_case_path(p: Seq<Seq<char>>) -> bool {
    p == seq!["case"@] || p == seq!["rstest"@, "case"@]
}

/// The parameter already carries a case attribute.
pub open spec fn param_has_case(p: ParamShape) -> bool {
    exists|i: int| 0 <= i < p.attr_paths@.len() && is_case_path(views(#[trigger] p.attr_paths@[i]@))
}

/// The parameter is the plain identifier `h`.
pub open spec fn param_named(p: ParamShape, h: Seq<char>) -> bool {
    p.ident matches Some(s) && s@ == h
}

/// Parameter `p` is the first one named `h`.
pub open spec fn first_param_named(params: Seq<ParamShape>, h: Seq<char>, p: int) -> bool {
    &&& 0 <= p < params.len()
    &&& param_named(params[p], h)
    &&& forall|q: int| 0 <= q < p ==> !param_named(#[trigger] params[q], h)
}

/// Some parameter is named `h`.
pub open spec fn has_param_named(params: Seq<ParamShape>, h: Seq<char>) -> bool {
    exists|p: int| 0 <= p < params.len() && param_named(#[trigger] params[p], h)
}

/// The names of the identifier parameters, in order.
pub open spec fn available_params(params: Seq<ParamShape>) -> Seq<Seq<char>>
    decreases params.len(),
{
    if params.len() == 0 {
        seq![]
    } else {
        let rest = available_params(params.drop_last());
        match params.last().ident {
            Some(s) => rest.push(s@),
            None => rest,
        }
    }
}

/// The diagnostic for a column that names no parameter.
pub open spec fn mismatch_message(params: Seq<ParamShape>, header: Seq<char>) -> Seq<char> {
    "parameter `"@ + header + "` not found for scenario outline column. Available parameters: ["@
        + join(available_params(params), ", "@) + "]"@
}

/// The first column below `n` that names no parameter.
pub open spec fn first_unmatched(params: Seq<ParamShape>, headers: Seq<String>, n: int) -> Option<int>
    decreases n,
{
    if n <= 0 {
        None
    } else {
        match first_unmatched(params, headers, n - 1) {
            Some(k) => Some(k),
            None => if has_param_named(params, headers[n - 1]@) {
                None
            } else {
                Some(n - 1)
            },
        }
    }
}

/// Parameter `p` is the first match of one of the first `n` columns and
/// has no case attribute yet.
pub open spec fn gets_case(params: Seq<ParamShape>, headers: Seq<String>, n: int, p: int) -> bool {
    &&& !param_has_case(params[p])
    &&& exists|k: int| 0 <= k < n && first_param_named(params, #[trigger] headers[k]@, p)
}

proof fn lemma_first_unmatched(params: Seq<ParamShape>, headers: Seq<String>, n: int)
    requires
        0 <= n <= headers.len(),
    ensures
        first_unmatched(params, headers, n) matches Some(k) ==> 0 <= k < n && !has_param_named(
            params,
            headers[k]@,
        ) && first_unmatched(params, headers, k) is None,
        first_unmatched(params, headers, n) is None ==> forall|k: int|
            0 <= k < n ==> has_param_named(params, #[trigger] headers[k]@),
    decreases n,
{
    if n > 0 {
        lemma_first_unmatched(params, headers, n - 1);
    }
}

proof fn lemma_unmatched_stays(params: Seq<ParamShape>, headers: Seq<String>, m: int, n: int)
    requires
        0 <= m <= n,
        first_unmatched(params, headers, m) is Some,
    ensures
        first_unmatched(params, headers, n) == first_unmatched(params, headers, m),
    decreases n - m,
{
    if n > m {
        lemma_unmatched_stays(params, headers, m, n - 1);
    }
}

/// Whether an attribute path is `case` or `rstest::case`.
pub fn is_case_attribute(path: &[String]) -> (r: bool)
    ensures
        r == is_case_path(views(path@)),
{
    let ghost v = views(path@);
    let ghost one = seq!["case"@];
    let ghost two = seq!["rstest"@, "case"@];
    assert(v.len() == path@.len());
    assert(one.len() == 1 && one[0] == "case"@);
    assert(two.len() == 2 && two[0] == "rstest"@ && two[1] == "case"@);
    if path.len() == 1 {
        assert(v[0] == path@[0]@);
        let r = str_eq(path[0].as_str(), "case");
        if r {
            assert(v =~= one);
        } else {
            assert(v != one);
        }
        assert(v != two);
        r
    } else if path.len() == 2 {
        assert(v[0] == path@[0]@);
        assert(v[1] == path@[1]@);
        let r = str_eq(path[0].as_str(), "rstest") && str_eq(path[1].as_str(), "case");
        if r {
            assert(v =~= two);
        } else {
            assert(v != two);
        }
        assert(v != one);
        r
    } else {
        assert(v != one && v != two);
        false
    }
}

/// Whether the parameter already carries a case attribute.
pub fn has_case_attribute(p: &ParamShape) -> (r: bool)
    ensures
        r == param_has_case(*p),
{
    let mut i: usize = 0;
    while i < p.attr_paths.len()
        invariant
            i <= p.attr_paths@.len(),
            forall|k: int| 0 <= k < i ==> !is_case_path(views(#[trigger] p.attr_paths@[k]@)),
        decreases p.attr_paths@.len() - i,
    {
        if is_case_attribute(p.attr_paths[i].as_slice()) {
            return true;
        }
        i += 1;
    }
    false
}

/// Whether the parameter is the plain identifier `header`.
pub fn parameter_matches_header(p: &ParamShape, header: &str) -> (r: bool)
    ensures
        r == param_named(*p, header@),
{
    match &p.ident {
        Some(s) => str_eq(s.as_str(), header),
        None => false,
    }
}

/// The first parameter named `header`.
pub fn find_matching_parameter(params: &[ParamShape], header: &str) -> (r: Option<usize>)
    ensures
        match r {
            Some(p) => first_param_named(params@, header@, p as int),
            None => !has_param_named(params@, header@),
        },
{
    let mut i: usize = 0;
    while i < params.len()
        invariant
            i <= params@.len(),
            forall|q: int| 0 <= q < i ==> !param_named(#[trigger] params@[q], header@),
        decreases params@.len() - i,
    {
        if parameter_matches_header(&params[i], header) {
            return Some(i);
        }
        i += 1;
    }
    None
}

/// The diagnostic for a column that names no parameter, listing the
/// identifier parameters there are.
pub fn create_parameter_mismatch_error(params: &[ParamShape], header: &str) -> (r: String)
    ensures
        r@ == mismatch_message(params@, header@),
{
    let mut names: Vec<String> = Vec::new();
    let mut i: usize = 0;
    while i < params.len()
        invariant
            i <= params@.len(),
            views(names@) == available_params(params@.take(i as int)),
        decreases params@.len() - i,
    {
        let ghost before = names@;
        proof {
            assert(params@.take(i + 1).drop_last() =~= params@.take(i as int));
        }
        match &params[i].ident {
            Some(s) => {
                let c = s.clone();
                names.push(c);
                proof {
                    assert(views(names@) =~= views(before).push(c@));
                }
            },
            None => {},
        }
        i += 1;
    }
    assert(params@.take(params@.len() as int) =~= params@);
    let mut r = owned("parameter `");
    push_str(&mut r, header);
    push_str(&mut r, "` not found for scenario outline column. Available parameters: [");
    let list = join_strings(names.as_slice(), ", ");
    push_str(&mut r, list.as_str());
    push_str(&mut r, "]");
    r
}

/// Matches the Examples columns to the test function's parameters.
///
/// Without an Examples table nothing changes. Otherwise each column, in
/// order, must name a parameter (the first column that does not is
/// reported, with the identifier parameters there are); the parameter a
/// column names is its first identifier parameter of that name. The result
/// tells, for each parameter, whether a `#[case]` attribute is to be added
/// to it: exactly when some column names it and it carries none yet.
pub fn process_scenario_outline_examples(params: &[ParamShape], headers: Option<&[String]>) -> (r:
    Result<Vec<bool>, String>)
    ensures
        match headers {
            None => r matches Ok(v) && v@ == Seq::new(params@.len(), |p: int| false),
            Some(hs) => match first_unmatched(params@, hs@, hs@.len() as int) {
                Some(k) => r matches Err(m) && m@ == mismatch_message(params@, hs@[k]@),
                None => r matches Ok(v) && v@.len() == params@.len() && forall|p: int|
                    0 <= p < params@.len() ==> #[trigger] v@[p] == gets_case(
                        params@,
                        hs@,
                        hs@.len() as int,
                        p,
                    ),
            },
        },
{
    let n = params.len();
    let mut needs: Vec<bool> = Vec::new();
    let mut i: usize = 0;
    while i < n
        invariant
            n == params@.len(),
            i <= n,
            needs@ == Seq::new(i as nat, |p: int| false),
        decreases n - i,
    {
        needs.push(false);
        i += 1;
        assert(needs@ =~= Seq::new(i as nat, |p: int| false));
    }
    let hs = match headers {
        None => {
            return Ok(needs);
        },
        Some(hs) => hs,
    };
    proof {
        lemma_first_unmatched(params@, hs@, hs@.len() as int);
    }
    let mut k: usize = 0;
    while k < hs.len()
        invariant
            n == params@.len(),
            headers == Some(hs),
            k <= hs@.len(),
            first_unmatched(params@, hs@, k as int) is None,
            needs@.len() == n,
            forall|p: int| 0 <= p < n ==> #[trigger] needs@[p] == gets_case(params@, hs@, k as int, p),
        decreases hs@.len() - k,
    {
        match find_matching_parameter(params, hs[k].as_str()) {
            None => {
                proof {
                    assert(first_unmatched(params@, hs@, k + 1) == Some(k as int));
                    lemma_unmatched_stays(params@, hs@, k + 1, hs@.len() as int);
                }
                return Err(create_parameter_mismatch_error(params, hs[k].as_str()));
            },
            Some(p) => {
                let ghost before = needs@;
                let marked = has_case_attribute(&params[p]);
                if !marked {
                    needs.set(p, true);
                }
                proof {
                    assert(has_param_named(params@, hs@[k as int]@));
                    assert forall|q: int| 0 <= q < n implies #[trigger] needs@[q] == gets_case(
                        params@,
                        hs@,
                        k + 1,
                        q,
                    ) by {
                        if q == p {
                            if !marked {
                                assert(first_param_named(params@, hs@[k as int]@, q));
                            }
                        } else {
                            assert(needs@[q] == before[q]);
                            if gets_case(params@, hs@, k + 1, q) {
                                let j = choose|j: int|
                                    0 <= j < k + 1 && first_param_named(
                                        params@,
                                        #[trigger] hs@[j]@,
                                        q,
                                    );
                                if j == k {
                                    assert(first_param_named(params@, hs@[k as int]@, p as int));
                                    assert(false);
                                }
                                assert(gets_case(params@, hs@, k as int, q));
                            }
                            if gets_case(params@, hs@, k as int, q) {
                                let j = choose|j: int|
                                    0 <= j < k && first_param_named(
                                        params@,
                                        #[trigger] hs@[j]@,
                                        q,
                                    );
                                assert(0 <= j < k + 1);
                            }
                        }
                    }
                }
            },
        }
        k += 1;
    }
    Ok(needs)
}

} // verus!
