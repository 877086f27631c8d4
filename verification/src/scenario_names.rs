//! Unique test-function names for the scenarios generated from a directory
//! of feature files: a title that was already used gets the first free
//! numeric suffix.

use vstd::prelude::*;
use crate::text::{decimal, digit_char, owned, push_char, push_str, str_eq, usize_to_string, views};

verus! {

/// The `k`-th name tried for `base`: `base` itself, then `base_1`,
/// `base_2`, and so on.
pub open spec fn candidate(base: Seq<char>, k: nat) -> Seq<char> {
    if k == 0 {
        base
    } else {
        base + seq!['_'] + decimal(k)
    }
}

/// Every decimal rendering has at least one digit.
pub proof fn lemma_decimal_nonempty(n: nat)
    ensures
        decimal(n).len() >= 1,
    decreases n,
{
    if n >= 10 {
        lemma_decimal_nonempty(n / 10);
    }
}

/// Renderings of numbers of ten or more have at least two digits.
proof fn lemma_decimal_long(n: nat)
    requires
        n >= 10,
    ensures
        decimal(n).len() >= 2,
{
    lemma_decimal_nonempty(n / 10);
}

/// Distinct numbers have distinct decimal renderings.
pub proof fn lemma_decimal_injective(a: nat, b: nat)
    requires
        decimal(a) == decimal(b),
    ensures
        a == b,
    decreases a,
{
    if a < 10 && b < 10 {
        assert(decimal(a)[0] == digit_char(a));
        assert(decimal(b)[0] == digit_char(b));
        assert(digit_char(a) as int == a + 48);
        assert(digit_char(b) as int == b + 48);
    } else if a < 10 {
        lemma_decimal_long(b);
    } else if b < 10 {
        lemma_decimal_long(a);
    } else {
        let da = decimal(a / 10);
        let db = decimal(b / 10);
        assert(decimal(a).last() == digit_char(a % 10));
        assert(decimal(b).last() == digit_char(b % 10));
        assert(digit_char(a % 10) as int == a % 10 + 48);
        assert(digit_char(b % 10) as int == b % 10 + 48);
        assert(decimal(a).drop_last() =~= da);
        assert(decimal(b).drop_last() =~= db);
        lemma_decimal_injective(a / 10, b / 10);
        assert(a % 10 == b % 10);
        assert(a == 10 * (a / 10) + a % 10);
        assert(b == 10 * (b / 10) + b % 10);
    }
}

/// Different attempts never produce the same name.
pub proof fn lemma_candidates_distinct(base: Seq<char>, j: nat, k: nat)
    requires
        j != k,
    ensures
        candidate(base, j) != candidate(base, k),
{
    if j == 0 {
        lemma_decimal_nonempty(k);
        assert(candidate(base, k).len() > base.len());
    } else if k == 0 {
        lemma_decimal_nonempty(j);
        assert(candidate(base, j).len() > base.len());
    } else if candidate(base, j) == candidate(base, k) {
        let n = base.len() + 1;
        assert(candidate(base, j).skip(n as int) =~= decimal(j));
        assert(candidate(base, k).skip(n as int) =~= decimal(k));
        lemma_decimal_injective(j, k);
    }
}

/// The first `n` names tried for `base`.
pub open spec fn candidates(base: Seq<char>, n: nat) -> Set<Seq<char>>
    decreases n,
{
    if n == 0 {
        Set::empty()
    } else {
        candidates(base, (n - 1) as nat).insert(candidate(base, (n - 1) as nat))
    }
}

proof fn lemma_candidates_set(base: Seq<char>, n: nat)
    ensures
        candidates(base, n).finite(),
        candidates(base, n).len() == n,
        forall|s: Seq<char>| #[trigger]
            candidates(base, n).contains(s) ==> exists|j: nat| j < n && s == candidate(base, j),
    decreases n,
{
    if n > 0 {
        let m = (n - 1) as nat;
        lemma_candidates_set(base, m);
        if candidates(base, m).contains(candidate(base, m)) {
            let j = choose|j: nat| j < m && candidate(base, m) == candidate(base, j);
            lemma_candidates_distinct(base, j, m);
        }
        assert forall|s: Seq<char>| #[trigger]
            candidates(base, n).contains(s) implies exists|j: nat|
                j < n && s == candidate(base, j) by {
            if s != candidate(base, m) {
                assert(candidates(base, m).contains(s));
            }
        }
    }
}

/// If the first `n` names tried are all taken, at least `n` names are taken.
pub proof fn lemma_taken_names_bound(base: Seq<char>, used: Seq<Seq<char>>, n: nat)
    requires
        forall|j: nat| j < n ==> used.contains(#[trigger] candidate(base, j)),
    ensures
        n <= used.len(),
{
    lemma_candidates_set(base, n);
    assert(candidates(base, n).subset_of(used.to_set())) by {
        assert forall|s: Seq<char>| candidates(base, n).contains(s) implies used.to_set().contains(
            s,
        ) by {
            let j = choose|j: nat| j < n && s == candidate(base, j);
            assert(used.contains(candidate(base, j)));
        }
    }
    used.lemma_cardinality_of_set();
    vstd::seq_lib::seq_to_set_is_finite(used);
    vstd::set_lib::lemma_len_subset(candidates(base, n), used.to_set());
}

/// Whether `name` is one of `used`.
fn is_taken(used: &Vec<String>, name: &String) -> (r: bool)
    ensures
        r == views(used@).contains(name@),
{
    let mut i: usize = 0;
    while i < used.len()
        invariant
            i <= used.len(),
            forall|k: int| 0 <= k < i ==> used@[k]@ != name@,
        decreases used.len() - i,
    {
        if str_eq(used[i].as_str(), name.as_str()) {
            assert(views(used@)[i as int] == name@);
            return true;
        }
        i += 1;
    }
    assert forall|k: int| 0 <= k < views(used@).len() implies views(used@)[k] != name@ by {
        assert(views(used@)[k] == used@[k]@);
    }
    false
}

/// `base_k`, the `k`-th suffixed name.
fn suffixed(base: &str, k: usize) -> (s: String)
    requires
        k > 0,
    ensures
        s@ == candidate(base@, k as nat),
{
    let mut s = owned(base);
    push_char(&mut s, '_');
    let digits = usize_to_string(k);
    push_str(&mut s, digits.as_str());
    s
}

/// Picks a test-function name for a scenario whose sanitized title is
/// `base` and records it in `used`.
///
/// The result is the first of `base`, `base_1`, `base_2`, ... that `used`
/// does not hold yet; it is appended to `used`.
pub fn dedupe_name(base: &str, used: &mut Vec<String>) -> (name: String)
    ensures
        exists|k: nat|
            {
                &&& name@ == candidate(base@, k)
                &&& forall|j: nat| j < k ==> views(old(used)@).contains(#[trigger] candidate(base@, j))
            },
        !views(old(used)@).contains(name@),
        final(used)@ == old(used)@.push(name),
{
    let mut name = owned(base);
    let mut counter: usize = 0;
    while is_taken(used, &name)
        invariant
            counter <= used.len(),
            name@ == candidate(base@, counter as nat),
            forall|j: nat| j < counter ==> views(used@).contains(#[trigger] candidate(base@, j)),
        decreases used.len() - counter,
    {
        proof {
            assert forall|j: nat| j < counter + 1 implies views(used@).contains(
                #[trigger] candidate(base@, j),
            ) by {
                if j < counter {
                    assert(views(used@).contains(candidate(base@, j)));
                }
            }
            lemma_taken_names_bound(base@, views(used@), (counter + 1) as nat);
        }
        counter += 1;
        name = suffixed(base, counter);
    }
    let recorded = name.clone();
    used.push(recorded);
    name
}

/// The test-function name for a scenario of a feature: the feature file's
/// sanitized stem and the scenario's sanitized title joined by `_`, made
/// unique against `used` as [`dedupe_name`] does, and recorded there.
pub fn scenario_test_name(feature_stem: &str, sanitized_title: &str, used: &mut Vec<String>) -> (name:
    String)
    ensures
        ({
            let base = feature_stem@ + seq!['_'] + sanitized_title@;
            exists|k: nat|
                {
                    &&& name@ == candidate(base, k)
                    &&& forall|j: nat|
                        j < k ==> views(old(used)@).contains(#[trigger] candidate(base, j))
                }
        }),
        !views(old(used)@).contains(name@),
        final(used)@ == old(used)@.push(name),
{
    let mut base = owned(feature_stem);
    push_char(&mut base, '_');
    push_str(&mut base, sanitized_title);
    assert(base@ =~= feature_stem@ + seq!['_'] + sanitized_title@);
    dedupe_name(base.as_str(), used)
}

/// Recording a name that is not yet taken keeps the recorded names
/// distinct; since each [`dedupe_name`] call records such a name, a record
/// that starts out distinct (for instance empty) stays distinct.
pub proof fn law_recorded_names_stay_distinct(used: Seq<String>, name: String)
    requires
        crate::tag_sets::no_dups(views(used)),
        !views(used).contains(name@),
    ensures
        crate::tag_sets::no_dups(views(used.push(name))),
{
    crate::tag_sets::lemma_views_push(used, name);
    let v = views(used.push(name));
    assert forall|i: int, j: int| 0 <= i < j < v.len() implies v[i] != v[j] by {
        if j == v.len() - 1 {
            assert(v[i] == views(used)[i]);
        } else {
            assert(v[i] == views(used)[i] && v[j] == views(used)[j]);
        }
    }
}

} // verus!
