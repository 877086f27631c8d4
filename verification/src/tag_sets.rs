//! Normalises and combines tag sets so tag filtering across macros remains
//! deterministic regardless of feature ordering or raw tag formatting.

use vstd::prelude::*;
use crate::text::{is_unicode_whitespace, push_char, push_str, chars_of, string_from_range, views};

verus! {

/// Index of the first character of `s` at or after `i` that is not
/// whitespace.
pub open spec fn first_non_ws(s: Seq<char>, i: int) -> int
    decreases s.len() - i,
{
    if 0 <= i < s.len() && is_unicode_whitespace(s[i]) {
        first_non_ws(s, i + 1)
    } else {
        i
    }
}

/// One past the last character of `s[..j]` that is not whitespace.
pub open spec fn last_non_ws(s: Seq<char>, j: int) -> int
    decreases j,
{
    if 0 < j <= s.len() && is_unicode_whitespace(s[j - 1]) {
        last_non_ws(s, j - 1)
    } else {
        j
    }
}

/// `s` without leading and trailing whitespace (`str::trim`).
pub open spec fn trim(s: Seq<char>) -> Seq<char> {
    let a = first_non_ws(s, 0);
    let b = last_non_ws(s, s.len() as int);
    if a < b {
        s.subrange(a, b)
    } else {
        seq![]
    }
}

/// `t` begins with `@`.
pub open spec fn has_at(t: Seq<char>) -> bool {
    t.len() > 0 && t[0] == '@'
}

/// `t` with a leading `@` added unless it has one.
pub open spec fn with_at(t: Seq<char>) -> Seq<char> {
    if has_at(t) {
        t
    } else {
        seq!['@'] + t
    }
}

/// A new tag as it is added: trimmed, and written with a leading `@`.
pub open spec fn normalize(t: Seq<char>) -> Seq<char> {
    with_at(trim(t))
}

/// Existing tags normalised as additions are: trimmed, with a leading `@`.
pub open spec fn norm_existing(v: Seq<Seq<char>>) -> Seq<Seq<char>> {
    v.map_values(|t: Seq<char>| normalize(t))
}

/// `v` with each value kept only at its first occurrence.
pub open spec fn dedup(v: Seq<Seq<char>>) -> Seq<Seq<char>>
    decreases v.len(),
{
    if v.len() == 0 {
        seq![]
    } else {
        let d = dedup(v.drop_last());
        if d.contains(v.last()) {
            d
        } else {
            d.push(v.last())
        }
    }
}

/// `target` extended, in order, by each normalised addition it lacks.
pub open spec fn add_unique(target: Seq<Seq<char>>, additions: Seq<Seq<char>>) -> Seq<Seq<char>>
    decreases additions.len(),
{
    if additions.len() == 0 {
        target
    } else {
        let t = add_unique(target, additions.drop_last());
        let f = normalize(additions.last());
        if t.contains(f) {
            t
        } else {
            t.push(f)
        }
    }
}

/// The tag set that extending `target` by `additions` gives.
pub open spec fn extended(target: Seq<Seq<char>>, additions: Seq<Seq<char>>) -> Seq<Seq<char>> {
    add_unique(dedup(norm_existing(target)), additions)
}

/// No value occurs twice.
pub open spec fn no_dups(v: Seq<Seq<char>>) -> bool {
    forall|i: int, j: int| 0 <= i < j < v.len() ==> v[i] != v[j]
}

// ---------------------------------------------------------------------
// Facts
// ---------------------------------------------------------------------

proof fn lemma_first_non_ws(s: Seq<char>, i: int)
    requires
        0 <= i <= s.len(),
    ensures
        i <= first_non_ws(s, i) <= s.len(),
        first_non_ws(s, i) < s.len() ==> !is_unicode_whitespace(s[first_non_ws(s, i)]),
    decreases s.len() - i,
{
    if i < s.len() && is_unicode_whitespace(s[i]) {
        lemma_first_non_ws(s, i + 1);
    }
}

proof fn lemma_last_non_ws(s: Seq<char>, j: int)
    requires
        0 <= j <= s.len(),
    ensures
        0 <= last_non_ws(s, j) <= j,
        last_non_ws(s, j) > 0 ==> !is_unicode_whitespace(s[last_non_ws(s, j) - 1]),
    decreases j,
{
    if 0 < j && is_unicode_whitespace(s[j - 1]) {
        lemma_last_non_ws(s, j - 1);
    }
}

pub proof fn lemma_views_push(v: Seq<String>, x: String)
    ensures
        views(v.push(x)) == views(v).push(x@),
{
    assert(views(v.push(x)) =~= views(v).push(x@));
}

proof fn lemma_push_contains(v: Seq<Seq<char>>, a: Seq<char>, x: Seq<char>)
    ensures
        v.push(a).contains(x) <==> (v.contains(x) || a == x),
{
    if v.push(a).contains(x) {
        let i = choose|i: int| 0 <= i < v.push(a).len() && v.push(a)[i] == x;
        if i < v.len() {
            assert(v[i] == x);
        }
    }
    if v.contains(x) {
        let i = choose|i: int| 0 <= i < v.len() && v[i] == x;
        assert(v.push(a)[i] == x);
    }
    if a == x {
        assert(v.push(a)[v.len() as int] == x);
    }
}

proof fn lemma_drop_last_contains(v: Seq<Seq<char>>, x: Seq<char>)
    requires
        v.len() > 0,
    ensures
        v.contains(x) <==> (v.drop_last().contains(x) || v.last() == x),
{
    assert(v =~= v.drop_last().push(v.last()));
    lemma_push_contains(v.drop_last(), v.last(), x);
}

/// Deduplication keeps exactly the values of the input, once each.
pub proof fn lemma_dedup(v: Seq<Seq<char>>)
    ensures
        no_dups(dedup(v)),
        forall|x: Seq<char>| dedup(v).contains(x) <==> v.contains(x),
    decreases v.len(),
{
    if v.len() > 0 {
        lemma_dedup(v.drop_last());
        let d = dedup(v.drop_last());
        assert forall|x: Seq<char>| dedup(v).contains(x) <==> v.contains(x) by {
            lemma_drop_last_contains(v, x);
            lemma_push_contains(d, v.last(), x);
        }
        if !d.contains(v.last()) {
            assert forall|i: int, j: int| 0 <= i < j < d.push(v.last()).len() implies d.push(
                v.last(),
            )[i] != d.push(v.last())[j] by {
                if j == d.len() {
                    assert(d.contains(d[i]));
                }
            }
        }
    }
}

/// Adding keeps what was there in front, adds only normalised additions,
/// and keeps values unique.
pub proof fn lemma_add_unique(target: Seq<Seq<char>>, additions: Seq<Seq<char>>)
    requires
        no_dups(target),
    ensures
        no_dups(add_unique(target, additions)),
        add_unique(target, additions).len() >= target.len(),
        add_unique(target, additions).subrange(0, target.len() as int) == target,
        forall|x: Seq<char>|
            #[trigger] add_unique(target, additions).contains(x) <==> (target.contains(x)
                || exists|i: int| 0 <= i < additions.len() && normalize(additions[i]) == x),
    decreases additions.len(),
{
    if additions.len() > 0 {
        lemma_add_unique(target, additions.drop_last());
        let t = add_unique(target, additions.drop_last());
        let f = normalize(additions.last());
        assert forall|x: Seq<char>|
            add_unique(target, additions).contains(x) <==> (target.contains(x) || exists|i: int|
                0 <= i < additions.len() && normalize(additions[i]) == x) by {
            if add_unique(target, additions).contains(x) {
                if t.contains(x) {
                    if !target.contains(x) {
                        let i = choose|i: int|
                            0 <= i < additions.drop_last().len() && normalize(
                                additions.drop_last()[i],
                            ) == x;
                        assert(normalize(additions[i]) == x);
                    }
                } else {
                    assert(x == f);
                    assert(normalize(additions[additions.len() - 1]) == x);
                }
            }
            if target.contains(x) {
                assert(t.contains(x));
                if !t.contains(f) {
                    let i = choose|i: int| 0 <= i < t.len() && t[i] == x;
                    assert(t.push(f)[i] == x);
                }
            }
            if exists|i: int| 0 <= i < additions.len() && normalize(additions[i]) == x {
                let i = choose|i: int| 0 <= i < additions.len() && normalize(additions[i]) == x;
                if i < additions.len() - 1 {
                    assert(normalize(additions.drop_last()[i]) == x);
                    assert(t.contains(x));
                    if !t.contains(f) {
                        let m = choose|m: int| 0 <= m < t.len() && t[m] == x;
                        assert(t.push(f)[m] == x);
                    }
                } else {
                    assert(x == f);
                    if !t.contains(f) {
                        assert(t.push(f)[t.len() as int] == f);
                    }
                }
            }
        }
        if !t.contains(f) {
            assert(t.push(f).subrange(0, target.len() as int) =~= t.subrange(
                0,
                target.len() as int,
            ));
        }
    }
}

/// Every normalised existing tag and every normalised addition starts
/// with `@`.
proof fn lemma_with_at(t: Seq<char>)
    ensures
        has_at(with_at(t)),
{
    if !has_at(t) {
        assert((seq!['@'] + t)[0] == '@');
    }
}

/// A sequence with no whitespace at either end trims to itself.
proof fn lemma_trim_fixed(s: Seq<char>)
    requires
        s.len() > 0 ==> !is_unicode_whitespace(s[0]) && !is_unicode_whitespace(s.last()),
    ensures
        trim(s) == s,
{
    if s.len() > 0 {
        assert(first_non_ws(s, 0) == 0);
        assert(last_non_ws(s, s.len() as int) == s.len());
        assert(s.subrange(0, s.len() as int) =~= s);
    } else {
        assert(trim(s) =~= s);
    }
}

/// Normalising a normalised tag changes nothing.
proof fn lemma_normalize_idempotent(t: Seq<char>)
    ensures
        normalize(normalize(t)) == normalize(t),
{
    let u = trim(t);
    let a = first_non_ws(t, 0);
    let b = last_non_ws(t, t.len() as int);
    lemma_first_non_ws(t, 0);
    lemma_last_non_ws(t, t.len() as int);
    if a < b {
        assert(u[0] == t[a]);
        assert(u.last() == t[b - 1]);
    }
    let w = with_at(u);
    assert(!is_unicode_whitespace('@'));
    if !has_at(u) {
        assert(w[0] == '@');
        if u.len() > 0 {
            assert(w.last() == u.last());
        }
    }
    lemma_trim_fixed(w);
    lemma_with_at(u);
}

/// Every tag of an extended set is a normalised tag, which normalising
/// leaves unchanged.
proof fn lemma_extended_normal(target: Seq<Seq<char>>, additions: Seq<Seq<char>>)
    ensures
        forall|i: int|
            0 <= i < extended(target, additions).len() ==> normalize(
                #[trigger] extended(target, additions)[i],
            ) == extended(target, additions)[i],
        no_dups(extended(target, additions)),
{
    let d = dedup(norm_existing(target));
    lemma_dedup(norm_existing(target));
    lemma_add_unique(d, additions);
    let m = extended(target, additions);
    assert forall|i: int| 0 <= i < m.len() implies normalize(#[trigger] m[i]) == m[i] by {
        let x = m[i];
        assert(m.contains(x));
        if norm_existing(target).contains(x) {
            let k = choose|k: int| 0 <= k < norm_existing(target).len() && norm_existing(target)[k]
                == x;
            lemma_normalize_idempotent(target[k]);
        } else {
            let k = choose|k: int| 0 <= k < additions.len() && normalize(additions[k]) == x;
            lemma_normalize_idempotent(additions[k]);
        }
    }
}

/// A set without repeats is its own deduplication.
proof fn lemma_dedup_fixed(v: Seq<Seq<char>>)
    requires
        no_dups(v),
    ensures
        dedup(v) == v,
    decreases v.len(),
{
    if v.len() > 0 {
        let d = v.drop_last();
        assert(no_dups(d)) by {
            assert forall|i: int, j: int| 0 <= i < j < d.len() implies d[i] != d[j] by {
                assert(d[i] == v[i] && d[j] == v[j]);
            }
        }
        lemma_dedup_fixed(d);
        if d.contains(v.last()) {
            let k = choose|k: int| 0 <= k < d.len() && d[k] == v.last();
            assert(v[k] == v[v.len() - 1]);
        }
        assert(d.push(v.last()) =~= v);
    }
}

/// Adding tags whose normal forms are all present changes nothing.
proof fn lemma_add_present(target: Seq<Seq<char>>, additions: Seq<Seq<char>>)
    requires
        forall|i: int| 0 <= i < additions.len() ==> target.contains(normalize(#[trigger] additions[i])),
    ensures
        add_unique(target, additions) == target,
    decreases additions.len(),
{
    if additions.len() > 0 {
        let d = additions.drop_last();
        assert forall|i: int| 0 <= i < d.len() implies target.contains(normalize(#[trigger] d[i])) by {
            assert(d[i] == additions[i]);
        }
        lemma_add_present(target, d);
        assert(target.contains(normalize(additions[additions.len() - 1])));
    }
}

/// Merging is idempotent: merging a merged set with the same additions
/// again, or with no additions, gives it back unchanged.
pub proof fn law_merge_idempotent(base: Seq<Seq<char>>, additions: Seq<Seq<char>>)
    ensures
        extended(extended(base, additions), additions) == extended(base, additions),
        extended(extended(base, additions), seq![]) == extended(base, additions),
{
    let m = extended(base, additions);
    lemma_extended_normal(base, additions);
    assert(norm_existing(m) =~= m) by {
        assert forall|i: int| 0 <= i < m.len() implies norm_existing(m)[i] == m[i] by {
            assert(normalize(m[i]) == m[i]);
        }
    }
    lemma_dedup_fixed(m);
    let d = dedup(norm_existing(base));
    lemma_dedup(norm_existing(base));
    lemma_add_unique(d, additions);
    assert forall|i: int| 0 <= i < additions.len() implies m.contains(
        normalize(#[trigger] additions[i]),
    ) by {
        let x = normalize(additions[i]);
        assert(exists|k: int| 0 <= k < additions.len() && normalize(additions[k]) == x);
        assert(add_unique(d, additions).contains(x));
    }
    lemma_add_present(m, additions);
    lemma_add_present(m, seq![]);
}

// ---------------------------------------------------------------------
// Executable
// ---------------------------------------------------------------------

fn starts_with_at(t: &String) -> (r: bool)
    ensures
        r == has_at(t@),
{
    let cs = chars_of(t.as_str());
    cs.len() > 0 && cs[0] == '@'
}

fn with_at_exec(t: String) -> (r: String)
    ensures
        r@ == with_at(t@),
{
    if starts_with_at(&t) {
        t
    } else {
        let mut r = String::new();
        push_char(&mut r, '@');
        push_str(&mut r, t.as_str());
        assert(seq!['@'] + t@ =~= Seq::<char>::empty().push('@') + t@);
        r
    }
}

pub(crate) fn trim_exec(t: &str) -> (r: String)
    ensures
        r@ == trim(t@),
{
    let cs = chars_of(t);
    let mut a: usize = 0;
    proof {
        lemma_first_non_ws(cs@, 0);
    }
    while a < cs.len() && crate::text::is_whitespace_char(cs[a])
        invariant
            cs@ == t@,
            a <= cs.len(),
            first_non_ws(cs@, a as int) == first_non_ws(cs@, 0),
        decreases cs.len() - a,
    {
        a += 1;
    }
    let mut b: usize = cs.len();
    while b > 0 && crate::text::is_whitespace_char(cs[b - 1])
        invariant
            cs@ == t@,
            b <= cs.len(),
            last_non_ws(cs@, b as int) == last_non_ws(cs@, cs.len() as int),
        decreases b,
    {
        b -= 1;
    }
    if a < b {
        string_from_range(cs.as_slice(), a, b)
    } else {
        String::new()
    }
}

/// Normalise a tag to start with '@'.
pub fn normalize_tag(tag: &str) -> (r: String)
    ensures
        r@ == normalize(tag@),
{
    let trimmed = trim_exec(tag);
    with_at_exec(trimmed)
}

/// Whether `v` holds `x`.
fn holds(v: &Vec<String>, x: &String) -> (r: bool)
    ensures
        r == views(v@).contains(x@),
{
    let mut i: usize = 0;
    while i < v.len()
        invariant
            i <= v.len(),
            forall|k: int| 0 <= k < i ==> v@[k]@ != x@,
        decreases v.len() - i,
    {
        if v[i] == *x {
            assert(views(v@)[i as int] == x@);
            return true;
        }
        i += 1;
    }
    assert forall|k: int| 0 <= k < views(v@).len() implies views(v@)[k] != x@ by {
        assert(views(v@)[k] == v@[k]@);
    }
    false
}

/// Normalise all tags in the target vector: trimmed, with a leading `@`.
pub fn normalize_existing_tags(target: &mut Vec<String>)
    ensures
        views(final(target)@) == norm_existing(views(old(target)@)),
{
    let ghost orig = views(target@);
    let mut out: Vec<String> = Vec::new();
    let mut i: usize = 0;
    while i < target.len()
        invariant
            i <= target.len(),
            views(target@) == orig,
            views(out@) == norm_existing(orig).take(i as int),
        decreases target.len() - i,
    {
        let n = normalize_tag(target[i].as_str());
        let ghost prev = out@;
        out.push(n);
        i += 1;
        proof {
            lemma_views_push(prev, n);
            assert(orig[i - 1] == target@[i - 1]@);
            assert(norm_existing(orig).take(i as int) =~= norm_existing(orig).take(i - 1).push(
                normalize(orig[i - 1]),
            ));
        }
    }
    assert(norm_existing(orig).take(target.len() as int) =~= norm_existing(orig));
    *target = out;
}

/// Remove later repeats of a value, keeping first occurrences in order.
fn dedup_in_place(target: &mut Vec<String>)
    ensures
        views(final(target)@) == dedup(views(old(target)@)),
{
    let ghost orig = views(target@);
    let mut out: Vec<String> = Vec::new();
    let mut i: usize = 0;
    while i < target.len()
        invariant
            i <= target.len(),
            views(target@) == orig,
            views(out@) == dedup(orig.take(i as int)),
        decreases target.len() - i,
    {
        let t = target[i].clone();
        let seen = holds(&out, &t);
        proof {
            assert(orig.take(i + 1).drop_last() =~= orig.take(i as int));
            assert(orig.take(i + 1).last() == t@);
        }
        if !seen {
            let ghost prev = out@;
            out.push(t);
            proof {
                lemma_views_push(prev, t);
            }
        }
        i += 1;
    }
    assert(orig.take(target.len() as int) =~= orig);
    *target = out;
}

/// Add tags from additions to target, skipping duplicates.
pub fn add_unique_tags(target: &mut Vec<String>, additions: &[String])
    ensures
        views(final(target)@) == add_unique(views(old(target)@), views(additions@)),
{
    let ghost orig = views(target@);
    let mut i: usize = 0;
    while i < additions.len()
        invariant
            i <= additions.len(),
            views(target@) == add_unique(orig, views(additions@).take(i as int)),
        decreases additions.len() - i,
    {
        let formatted = normalize_tag(additions[i].as_str());
        let present = holds(target, &formatted);
        proof {
            let a = views(additions@).take(i + 1);
            assert(a.drop_last() =~= views(additions@).take(i as int));
            assert(a.last() == additions@[i as int]@);
        }
        if !present {
            let ghost prev = target@;
            target.push(formatted);
            proof {
                lemma_views_push(prev, formatted);
            }
        }
        i += 1;
    }
    assert(views(additions@).take(additions.len() as int) =~= views(additions@));
}

/// Extend the destination tag set with new values, preserving order and
/// removing duplicates.
///
/// Existing tags are trimmed and given a leading `@` where they lack one,
/// and repeats are dropped; each addition is normalised the same way and
/// appended unless already present. Afterwards every tag starts with `@`, no tag
/// occurs twice, the normalised existing tags keep their order at the
/// front, and the tags present are exactly the normalised existing ones
/// and the normalised additions.
pub fn extend_tag_set(target: &mut Vec<String>, additions: &[String])
    ensures
        views(final(target)@) == extended(views(old(target)@), views(additions@)),
        no_dups(views(final(target)@)),
        forall|i: int| 0 <= i < final(target)@.len() ==> has_at(#[trigger] final(target)@[i]@),
        forall|x: Seq<char>|
            views(final(target)@).contains(x) <==> (norm_existing(views(old(target)@)).contains(x)
                || exists|i: int| 0 <= i < additions@.len() && normalize(additions@[i]@) == x),
        views(final(target)@).subrange(0, dedup(norm_existing(views(old(target)@))).len() as int)
            == dedup(norm_existing(views(old(target)@))),
{
    let ghost orig = views(target@);
    normalize_existing_tags(target);
    dedup_in_place(target);
    add_unique_tags(target, additions);
    proof {
        let d = dedup(norm_existing(orig));
        lemma_dedup(norm_existing(orig));
        lemma_add_unique(d, views(additions@));
        let r = views(target@);
        assert forall|x: Seq<char>|
            r.contains(x) <==> (norm_existing(orig).contains(x) || exists|i: int|
                0 <= i < additions@.len() && normalize(additions@[i]@) == x) by {
            let a = views(additions@);
            assert(d.contains(x) <==> norm_existing(orig).contains(x));
            assert((exists|i: int| 0 <= i < a.len() && normalize(a[i]) == x) <==> (exists|i: int|
                0 <= i < additions@.len() && normalize(additions@[i]@) == x)) by {
                if exists|i: int| 0 <= i < a.len() && normalize(a[i]) == x {
                    let i = choose|i: int| 0 <= i < a.len() && normalize(a[i]) == x;
                    assert(a[i] == additions@[i]@);
                }
                if exists|i: int| 0 <= i < additions@.len() && normalize(additions@[i]@) == x {
                    let i = choose|i: int|
                        0 <= i < additions@.len() && normalize(additions@[i]@) == x;
                    assert(a[i] == additions@[i]@);
                }
            }
        }
        assert forall|i: int| 0 <= i < target@.len() implies has_at(#[trigger] target@[i]@) by {
            assert(r[i] == target@[i]@);
            assert(r.contains(r[i]));
            if norm_existing(orig).contains(r[i]) {
                let m = choose|m: int| 0 <= m < norm_existing(orig).len() && norm_existing(orig)[m]
                    == r[i];
                lemma_with_at(trim(orig[m]));
            } else {
                let m = choose|m: int| 0 <= m < additions@.len() && normalize(additions@[m]@) == r[i];
                lemma_with_at(trim(additions@[m]@));
            }
        }
    }
}

/// Merge two tag sets, preserving insertion order and de-duplicating values.
///
/// The returned collection always uses `@tag` formatting and omits duplicates
/// even if `base` or `additions` contain un-normalised values; merging the
/// result again with the same additions gives it back unchanged
/// ([`law_merge_idempotent`]).
pub fn merge_tag_sets(base: &[String], additions: &[String]) -> (r: Vec<String>)
    ensures
        views(r@) == extended(views(base@), views(additions@)),
        no_dups(views(r@)),
        forall|i: int| 0 <= i < r@.len() ==> has_at(#[trigger] r@[i]@),
        forall|x: Seq<char>|
            views(r@).contains(x) <==> (norm_existing(views(base@)).contains(x) || exists|i: int|
                0 <= i < additions@.len() && normalize(additions@[i]@) == x),
        views(r@).subrange(0, dedup(norm_existing(views(base@))).len() as int) == dedup(
            norm_existing(views(base@)),
        ),
{
    let mut merged: Vec<String> = Vec::new();
    let mut i: usize = 0;
    while i < base.len()
        invariant
            i <= base.len(),
            views(merged@) == views(base@).take(i as int),
        decreases base.len() - i,
    {
        let ghost prev = merged@;
        let b = base[i].clone();
        merged.push(b);
        i += 1;
        proof {
            lemma_views_push(prev, b);
            assert(views(base@).take(i as int) =~= views(base@).take(i - 1).push(base@[i - 1]@));
        }
    }
    assert(views(base@).take(base.len() as int) =~= views(base@));
    extend_tag_set(&mut merged, additions);
    merged
}

} // verus!
