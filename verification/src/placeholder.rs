//! Placeholder substitution for Scenario Outline step text.
//!
//! A placeholder is `<`, a first character that is neither `>` nor
//! whitespace, any further characters other than `>`, and a closing `>`;
//! its name is the text between the brackets. Placeholders are found left
//! to right without overlapping. Substitution replaces each placeholder, in
//! order of appearance, by the value of the Examples column of the same
//! name, so that `Given I have <count> items` with a row `| count | = | 5 |`
//! becomes `Given I have 5 items`.

use vstd::prelude::*;
use crate::text::{
    is_unicode_whitespace, join, views, chars_of, string_from_range, push_char, push_str, owned,
};

verus! {

// ---------------------------------------------------------------------
// Model
// ---------------------------------------------------------------------

/// Index of the first `>` at or after `j`, or the length when there is none.
pub open spec fn first_gt(s: Seq<char>, j: int) -> int
    decreases s.len() - j,
{
    if 0 <= j < s.len() && s[j] != '>' {
        first_gt(s, j + 1)
    } else {
        j
    }
}

/// A placeholder starts at `p`.
pub open spec fn starts_match(s: Seq<char>, p: int) -> bool {
    &&& 0 <= p
    &&& p + 1 < s.len()
    &&& s[p] == '<'
    &&& s[p + 1] != '>'
    &&& !is_unicode_whitespace(s[p + 1])
    &&& first_gt(s, p + 1) < s.len()
}

/// The placeholders found scanning from `i`: pairs of the index of `<` and
/// the index just after the closing `>`.
pub open spec fn matches_from(s: Seq<char>, i: int) -> Seq<(int, int)>
    decreases s.len() - i,
{
    if !(0 <= i < s.len()) {
        seq![]
    } else if starts_match(s, i) {
        let q = first_gt(s, i + 1);
        if i < q < s.len() {
            seq![(i, q + 1)] + matches_from(s, q + 1)
        } else {
            seq![]
        }
    } else {
        matches_from(s, i + 1)
    }
}

/// The placeholders of a text, in order.
pub open spec fn placeholder_spans(s: Seq<char>) -> Seq<(int, int)> {
    matches_from(s, 0)
}

/// The names of the placeholders of a text, in order.
pub open spec fn placeholder_names(s: Seq<char>) -> Seq<Seq<char>> {
    placeholder_spans(s).map_values(|m: (int, int)| s.subrange(m.0 + 1, m.1 - 1))
}

/// `s` with every occurrence of the non-empty `pat`, taken left to right
/// without overlapping, replaced by `rep` (`str::replace`).
pub open spec fn replace_all(s: Seq<char>, pat: Seq<char>, rep: Seq<char>) -> Seq<char>
    decreases s.len(),
{
    if pat.len() == 0 || s.len() < pat.len() {
        s
    } else if s.take(pat.len() as int) == pat {
        rep + replace_all(s.skip(pat.len() as int), pat, rep)
    } else {
        seq![s[0]] + replace_all(s.drop_first(), pat, rep)
    }
}

/// Index of the first header equal to `name`, or `-1`.
pub open spec fn header_index(headers: Seq<Seq<char>>, name: Seq<char>) -> int
    decreases headers.len(),
{
    if headers.len() == 0 {
        -1
    } else if header_index(headers.drop_last(), name) >= 0 {
        header_index(headers.drop_last(), name)
    } else if headers.last() == name {
        headers.len() - 1
    } else {
        -1
    }
}

/// Where substitution stands after some placeholders.
pub enum Subst {
    /// The text so far.
    Done(Seq<char>),
    /// A placeholder whose name no header has.
    Missing(Seq<char>),
    /// A placeholder whose column the row lacks.
    RowTooShort,
}

/// Substitution after the first `k` placeholders of `text`.
pub open spec fn subst_upto(
    text: Seq<char>,
    headers: Seq<Seq<char>>,
    row: Seq<Seq<char>>,
    k: int,
) -> Subst
    decreases k,
{
    if k <= 0 {
        Subst::Done(text)
    } else {
        match subst_upto(text, headers, row, k - 1) {
            Subst::Done(acc) => {
                let name = placeholder_names(text)[k - 1];
                let idx = header_index(headers, name);
                if idx < 0 {
                    Subst::Missing(name)
                } else if idx >= row.len() {
                    Subst::RowTooShort
                } else {
                    Subst::Done(replace_all(acc, seq!['<'] + name + seq!['>'], row[idx]))
                }
            },
            other => other,
        }
    }
}

/// The outcome of substituting all placeholders of `text`.
pub open spec fn subst(text: Seq<char>, headers: Seq<Seq<char>>, row: Seq<Seq<char>>) -> Subst {
    subst_upto(text, headers, row, placeholder_spans(text).len() as int)
}

/// The message of a [`PlaceholderError`].
pub open spec fn placeholder_error_text(placeholder: Seq<char>, columns: Seq<Seq<char>>) -> Seq<
    char,
> {
    "Placeholder '<"@ + placeholder + ">' not found in Examples table. Available columns: ["@
        + join(columns, ", "@) + "]"@
}

// ---------------------------------------------------------------------
// Facts
// ---------------------------------------------------------------------

proof fn lemma_first_gt(s: Seq<char>, j: int)
    requires
        0 <= j <= s.len(),
    ensures
        j <= first_gt(s, j) <= s.len(),
        first_gt(s, j) < s.len() ==> s[first_gt(s, j)] == '>',
        forall|m: int| j <= m < first_gt(s, j) ==> s[m] != '>',
    decreases s.len() - j,
{
    if j < s.len() && s[j] != '>' {
        lemma_first_gt(s, j + 1);
    }
}

/// Spans found from `i` lie within the text, in increasing order, each
/// starting with `<` and ending just after `>`.
proof fn lemma_matches_from(s: Seq<char>, i: int)
    requires
        0 <= i <= s.len(),
    ensures
        forall|k: int|
            0 <= k < matches_from(s, i).len() ==> {
                let m = #[trigger] matches_from(s, i)[k];
                &&& i <= m.0
                &&& m.0 + 2 < m.1 <= s.len()
                &&& starts_match(s, m.0)
                &&& m.1 == first_gt(s, m.0 + 1) + 1
            },
        (matches_from(s, i).len() > 0) <==> (exists|p: int| i <= p && #[trigger] starts_match(s, p)),
    decreases s.len() - i,
{
    if i < s.len() {
        if starts_match(s, i) {
            lemma_first_gt(s, i + 1);
            let q = first_gt(s, i + 1);
            lemma_matches_from(s, q + 1);
            let rest = matches_from(s, q + 1);
            assert forall|k: int| 0 <= k < matches_from(s, i).len() implies {
                let m = #[trigger] matches_from(s, i)[k];
                &&& i <= m.0
                &&& m.0 + 2 < m.1 <= s.len()
                &&& starts_match(s, m.0)
                &&& m.1 == first_gt(s, m.0 + 1) + 1
            } by {
                if k > 0 {
                    assert(matches_from(s, i)[k] == rest[k - 1]);
                }
            }
            assert(matches_from(s, i)[0] == (i, q + 1));
        } else {
            lemma_matches_from(s, i + 1);
            if exists|p: int| i <= p && #[trigger] starts_match(s, p) {
                let p = choose|p: int| i <= p && #[trigger] starts_match(s, p);
                assert(i + 1 <= p);
            }
        }
    } else {
        if exists|p: int| i <= p && #[trigger] starts_match(s, p) {
            let p = choose|p: int| i <= p && #[trigger] starts_match(s, p);
            assert(false);
        }
    }
}

/// A text contains a placeholder exactly when it yields placeholder
/// names: [`contains_placeholders`] and [`extract_placeholder_names`]
/// agree on every text.
pub proof fn law_contains_iff_names(s: Seq<char>)
    ensures
        (exists|p: int| #[trigger] starts_match(s, p)) <==> placeholder_names(s).len() > 0,
{
    lemma_matches_from(s, 0);
    if exists|p: int| #[trigger] starts_match(s, p) {
        let p = choose|p: int| #[trigger] starts_match(s, p);
        assert(0 <= p);
    }
}

// ---------------------------------------------------------------------
// Executable
// ---------------------------------------------------------------------

/// Error returned when a placeholder references a non-existent column.
#[derive(Debug, Clone, PartialEq, Eq)]
pub struct PlaceholderError {
    /// The placeholder name that was not found.
    pub placeholder: String,
    /// The available column headers in the Examples table.
    pub available_columns: Vec<String>,
    /// The available columns joined by `", "`, as the message shows them.
    pub available_columns_display: String,
}

impl PlaceholderError {
    /// The placeholder name that was not found.
    pub open spec fn name(&self) -> Seq<char> {
        self.placeholder@
    }

    /// The available column headers.
    pub open spec fn columns(&self) -> Seq<Seq<char>> {
        views(self.available_columns@)
    }

    /// The columns as shown in the message: joined by `", "`.
    pub open spec fn display(&self) -> Seq<char> {
        self.available_columns_display@
    }

    /// The error's message, as its `Display` renders it.
    pub fn to_string(&self) -> (r: String)
        ensures
            r@ == "Placeholder '<"@ + self.name()
                + ">' not found in Examples table. Available columns: ["@ + self.display() + "]"@,
    {
        let mut r = owned("Placeholder '<");
        push_str(&mut r, self.placeholder.as_str());
        push_str(&mut r, ">' not found in Examples table. Available columns: [");
        push_str(&mut r, self.available_columns_display.as_str());
        push_str(&mut r, "]");
        r
    }
}

/// Index of the first `>` at or after `j`.
fn find_gt(cs: &[char], j: usize) -> (q: usize)
    requires
        j <= cs.len(),
    ensures
        q as int == first_gt(cs@, j as int),
{
    proof {
        lemma_first_gt(cs@, j as int);
    }
    let mut q = j;
    while q < cs.len() && cs[q] != '>'
        invariant
            j <= q <= cs.len(),
            first_gt(cs@, q as int) == first_gt(cs@, j as int),
        decreases cs.len() - q,
    {
        q += 1;
    }
    q
}

/// The placeholder spans of a text.
fn spans(cs: &[char]) -> (r: Vec<(usize, usize)>)
    ensures
        r@.len() == placeholder_spans(cs@).len(),
        forall|k: int|
            0 <= k < r@.len() ==> r@[k].0 as int == placeholder_spans(cs@)[k].0 && r@[k].1 as int
                == placeholder_spans(cs@)[k].1,
{
    let ghost s = cs@;
    let mut r: Vec<(usize, usize)> = Vec::new();
    let mut i: usize = 0;
    while i < cs.len()
        invariant
            s == cs@,
            i <= cs.len(),
            r@.len() + matches_from(s, i as int).len() == placeholder_spans(s).len(),
            forall|k: int|
                0 <= k < r@.len() ==> r@[k].0 as int == placeholder_spans(s)[k].0 && r@[k].1 as int
                    == placeholder_spans(s)[k].1,
            forall|k: int|
                0 <= k < matches_from(s, i as int).len() ==> #[trigger] matches_from(s, i as int)[k]
                    == placeholder_spans(s)[r@.len() + k],
        decreases cs.len() - i,
    {
        let ghost before = matches_from(s, i as int);
        if i + 1 < cs.len() && cs[i] == '<' && cs[i + 1] != '>' && !crate::text::is_whitespace_char(
            cs[i + 1],
        ) {
            let q = find_gt(cs, i + 1);
            if q < cs.len() {
                proof {
                    lemma_first_gt(s, i + 1);
                    assert(before[0] == (i as int, q + 1));
                    assert forall|k: int| 0 <= k < matches_from(s, q + 1).len() implies #[trigger] matches_from(
                        s,
                        q + 1,
                    )[k] == placeholder_spans(s)[r@.len() + 1 + k] by {
                        assert(matches_from(s, q + 1)[k] == before[k + 1]);
                    }
                }
                r.push((i, q + 1));
                i = q + 1;
            } else {
                proof {
                    assert(!starts_match(s, i as int));
                    lemma_matches_from(s, i as int);
                    lemma_first_gt(s, i + 1);
                    // No `>` lies after `i`, so no placeholder starts later.
                    assert forall|p: int| i <= p implies !#[trigger] starts_match(s, p) by {
                        if starts_match(s, p) {
                            lemma_first_gt(s, p + 1);
                            let g = first_gt(s, p + 1);
                            assert(s[g] == '>');
                            assert(i + 1 <= g);
                        }
                    }
                }
                i = cs.len();
            }
        } else {
            i += 1;
        }
    }
    r
}

/// Checks if a text contains any placeholder tokens.
///
/// Returns `true` if the text contains at least one `<placeholder>` pattern.
pub fn contains_placeholders(text: &str) -> (r: bool)
    ensures
        r == (exists|p: int| #[trigger] starts_match(text@, p)),
{
    let cs = chars_of(text);
    let sp = spans(cs.as_slice());
    proof {
        lemma_matches_from(text@, 0);
    }
    sp.len() > 0
}

/// Extracts all placeholder names from a text, in order of occurrence
/// (repeats included).
pub fn extract_placeholder_names(text: &str) -> (r: Vec<String>)
    ensures
        views(r@) == placeholder_names(text@),
{
    let cs = chars_of(text);
    let sp = spans(cs.as_slice());
    proof {
        lemma_matches_from(text@, 0);
    }
    let mut r: Vec<String> = Vec::new();
    let mut k: usize = 0;
    while k < sp.len()
        invariant
            cs@ == text@,
            k <= sp.len(),
            sp@.len() == placeholder_spans(text@).len(),
            forall|m: int|
                0 <= m < sp@.len() ==> sp@[m].0 as int == placeholder_spans(text@)[m].0
                    && sp@[m].1 as int == placeholder_spans(text@)[m].1,
            forall|m: int|
                0 <= m < placeholder_spans(text@).len() ==> {
                    let x = #[trigger] placeholder_spans(text@)[m];
                    0 <= x.0 && x.0 + 2 < x.1 <= text@.len()
                },
            views(r@) == placeholder_names(text@).take(k as int),
        decreases sp.len() - k,
    {
        let (a, b) = sp[k];
        let name = string_from_range(cs.as_slice(), a + 1, b - 1);
        let ghost prev = r@;
        r.push(name);
        k += 1;
        proof {
            crate::tag_sets::lemma_views_push(prev, name);
            assert(placeholder_names(text@).take(k as int) =~= placeholder_names(text@).take(
                k - 1,
            ).push(placeholder_names(text@)[k - 1]));
        }
    }
    assert(placeholder_names(text@).take(sp.len() as int) =~= placeholder_names(text@));
    r
}

/// `s` with every occurrence of `pat` replaced by `rep`.
fn replace(s: &[char], pat: &[char], rep: &str) -> (r: Vec<char>)
    requires
        pat.len() > 0,
    ensures
        r@ == replace_all(s@, pat@, rep@),
{
    let rc = chars_of(rep);
    let mut out: Vec<char> = Vec::new();
    let mut i: usize = 0;
    assert(s@.skip(0) =~= s@);
    assert(out@ + replace_all(s@, pat@, rep@) =~= replace_all(s@, pat@, rep@));
    while i < s.len()
        invariant
            rc@ == rep@,
            pat.len() > 0,
            i <= s.len(),
            out@ + replace_all(s@.skip(i as int), pat@, rep@) == replace_all(s@, pat@, rep@),
        decreases s.len() - i,
    {
        let ghost rest = s@.skip(i as int);
        let ghost before = out@;
        if pat.len() > s.len() - i {
            // Too short to hold the pattern: the rest is kept as it is.
            let i0 = i;
            while i < s.len()
                invariant
                    i0 <= i <= s.len(),
                    out@ == before + s@.subrange(i0 as int, i as int),
                decreases s.len() - i,
            {
                out.push(s[i]);
                i += 1;
                assert(s@.subrange(i0 as int, i as int) =~= s@.subrange(i0 as int, i - 1).push(
                    s@[i - 1],
                ));
            }
            assert(s@.subrange(i0 as int, s.len() as int) =~= rest);
            assert(s@.skip(i as int) =~= Seq::<char>::empty());
            assert(out@ + replace_all(s@.skip(i as int), pat@, rep@) =~= before + rest);
        } else {
            let mut here = true;
            let mut j: usize = 0;
            while j < pat.len()
                invariant
                    i + pat.len() <= s.len(),
                    j <= pat.len(),
                    here == (forall|m: int| 0 <= m < j ==> s@[i + m] == pat@[m]),
                decreases pat.len() - j,
            {
                if s[i + j] != pat[j] {
                    here = false;
                }
                j += 1;
            }
            if here {
                assert(rest.take(pat.len() as int) =~= pat@);
                let mut k: usize = 0;
                while k < rc.len()
                    invariant
                        k <= rc.len(),
                        out@ == before + rc@.take(k as int),
                    decreases rc.len() - k,
                {
                    out.push(rc[k]);
                    k += 1;
                    assert(rc@.take(k as int) =~= rc@.take(k - 1).push(rc@[k - 1]));
                }
                assert(rc@.take(rc.len() as int) =~= rc@);
                assert(rest.skip(pat.len() as int) =~= s@.skip(i + pat.len()));
                i = i + pat.len();
                assert(out@ + replace_all(s@.skip(i as int), pat@, rep@) =~= before + (rep@
                    + replace_all(rest.skip(pat.len() as int), pat@, rep@)));
            } else {
                assert(rest.take(pat.len() as int) != pat@) by {
                    let m = choose|m: int| 0 <= m < pat.len() && s@[i + m] != pat@[m];
                    assert(rest.take(pat.len() as int)[m] == s@[i + m]);
                }
                out.push(s[i]);
                assert(rest.drop_first() =~= s@.skip(i + 1));
                i += 1;
                assert(out@ + replace_all(s@.skip(i as int), pat@, rep@) =~= before + (seq![
                    rest[0],
                ] + replace_all(rest.drop_first(), pat@, rep@)));
            }
        }
    }
    assert(s@.skip(s.len() as int) =~= Seq::<char>::empty());
    assert(out@ + Seq::<char>::empty() =~= out@);
    out
}

/// The placeholder pattern `<name>` as characters.
fn bracketed(name: &String) -> (pat: Vec<char>)
    ensures
        pat@ == seq!['<'] + name@ + seq!['>'],
{
    let mut pat: Vec<char> = Vec::new();
    pat.push('<');
    let nc = chars_of(name.as_str());
    let mut j: usize = 0;
    while j < nc.len()
        invariant
            j <= nc.len(),
            pat@ == seq!['<'] + nc@.take(j as int),
        decreases nc.len() - j,
    {
        pat.push(nc[j]);
        j += 1;
        assert(nc@.take(j as int) =~= nc@.take(j - 1).push(nc@[j - 1]));
    }
    pat.push('>');
    assert(nc@.take(nc.len() as int) =~= nc@);
    assert(pat@ =~= seq!['<'] + name@ + seq!['>']);
    pat
}

/// Index of the first header named `name`, if any.
pub(crate) fn find_header(headers: &[String], name: &String) -> (r: Option<usize>)
    ensures
        match r {
            Some(i) => i as int == header_index(views(headers@), name@),
            None => header_index(views(headers@), name@) < 0,
        },
{
    let mut i: usize = 0;
    proof {
        assert(views(headers@).take(0) =~= Seq::<Seq<char>>::empty());
    }
    while i < headers.len()
        invariant
            i <= headers.len(),
            header_index(views(headers@).take(i as int), name@) < 0,
        decreases headers.len() - i,
    {
        let ghost pre = views(headers@).take(i as int);
        assert(views(headers@).take(i + 1).drop_last() =~= pre);
        if headers[i] == *name {
            proof {
                lemma_header_index_prefix(views(headers@), name@, i as int + 1);
            }
            return Some(i);
        }
        i += 1;
    }
    assert(views(headers@).take(headers.len() as int) =~= views(headers@));
    None
}

/// Once a header matches within a prefix, the whole sequence gives the same
/// index.
proof fn lemma_header_index_prefix(h: Seq<Seq<char>>, name: Seq<char>, n: int)
    requires
        0 <= n <= h.len(),
        header_index(h.take(n), name) >= 0,
    ensures
        header_index(h, name) == header_index(h.take(n), name),
    decreases h.len() - n,
{
    if n < h.len() {
        assert(h.take(n + 1).drop_last() =~= h.take(n));
        lemma_header_index_prefix(h, name, n + 1);
    } else {
        assert(h.take(n) =~= h);
    }
}

/// Substitutes `<placeholder>` tokens in text with values from an Examples
/// row.
///
/// Each placeholder, in order of appearance, is looked up among `headers`
/// by exact name; every occurrence of it in the text as substituted so far
/// is replaced by the row's value for that column. The first placeholder
/// that names no column gives the error, which lists the columns. The row
/// must hold a value for every column that is reached.
pub fn substitute_placeholders(text: &str, headers: &[String], row: &[String]) -> (r: Result<
    String,
    PlaceholderError,
>)
    requires
        !(subst(text@, views(headers@), views(row@)) is RowTooShort),
    ensures
        match subst(text@, views(headers@), views(row@)) {
            Subst::Done(out) => r matches Ok(s) && s@ == out,
            Subst::Missing(name) => r matches Err(e) && e.placeholder@ == name && views(
                e.available_columns@,
            ) == views(headers@) && e.display() == join(views(headers@), ", "@),
            Subst::RowTooShort => false,
        },
{
    let ghost hs = views(headers@);
    let ghost rs = views(row@);
    let cs = chars_of(text);
    let names = extract_placeholder_names(text);
    let ghost n = names@.len() as int;
    assert(views(names@).len() == names@.len());
    let mut result: Vec<char> = cs;
    let mut k: usize = 0;
    proof {
        lemma_matches_from(text@, 0);
        lemma_subst_prefix(text@, hs, rs, n);
    }
    while k < names.len()
        invariant
            k <= names.len(),
            n == names@.len(),
            views(names@) == placeholder_names(text@),
            names@.len() == placeholder_spans(text@).len(),
            hs == views(headers@),
            rs == views(row@),
            subst_upto(text@, hs, rs, k as int) == Subst::Done(result@),
            !(subst_upto(text@, hs, rs, n) is RowTooShort),
        decreases names.len() - k,
    {
        let name = &names[k];
        assert(views(names@)[k as int] == name@);
        let ghost next = subst_upto(text@, hs, rs, k + 1);
        match find_header(headers, name) {
            None => {
                let columns = clone_strings(headers);
                let display = crate::text::join_strings(headers, ", ");
                proof {
                    lemma_subst_stuck(text@, hs, rs, k as int + 1, n);
                }
                return Err(
                    PlaceholderError {
                        placeholder: name.clone(),
                        available_columns: columns,
                        available_columns_display: display,
                    },
                );
            },
            Some(idx) => {
                if idx >= row.len() {
                    proof {
                        lemma_subst_stuck(text@, hs, rs, k as int + 1, n);
                    }
                    return Err(
                        PlaceholderError {
                            placeholder: name.clone(),
                            available_columns: Vec::new(),
                            available_columns_display: String::new(),
                        },
                    );
                }
                let pat = bracketed(name);
                result = replace(result.as_slice(), pat.as_slice(), row[idx].as_str());
                k += 1;
            },
        }
    }
    Ok(crate::text::string_from_chars(result.as_slice()))
}

/// A copy of a slice of strings.
pub(crate) fn clone_strings(v: &[String]) -> (r: Vec<String>)
    ensures
        views(r@) == views(v@),
{
    let mut r: Vec<String> = Vec::new();
    let mut i: usize = 0;
    while i < v.len()
        invariant
            i <= v.len(),
            views(r@) == views(v@).take(i as int),
        decreases v.len() - i,
    {
        let ghost prev = r@;
        let x = v[i].clone();
        r.push(x);
        i += 1;
        proof {
            crate::tag_sets::lemma_views_push(prev, x);
            assert(views(v@).take(i as int) =~= views(v@).take(i - 1).push(v@[i - 1]@));
        }
    }
    assert(views(v@).take(v.len() as int) =~= views(v@));
    r
}

/// Once substitution stops (error or short row) it stays where it stopped.
proof fn lemma_subst_stuck(text: Seq<char>, h: Seq<Seq<char>>, row: Seq<Seq<char>>, k: int, n: int)
    requires
        1 <= k <= n,
        !(subst_upto(text, h, row, k) is Done),
    ensures
        subst_upto(text, h, row, n) == subst_upto(text, h, row, k),
    decreases n - k,
{
    if k < n {
        lemma_subst_stuck(text, h, row, k, n - 1);
    }
}

/// A prefix that stops short of `RowTooShort` keeps the whole from ending
/// there only if the whole does not: the whole is `RowTooShort` as soon as
/// a prefix is.
proof fn lemma_subst_prefix(text: Seq<char>, h: Seq<Seq<char>>, row: Seq<Seq<char>>, n: int)
    requires
        n >= 0,
    ensures
        forall|m: int|
            1 <= m <= n && (#[trigger] subst_upto(text, h, row, m) is RowTooShort) ==> subst_upto(
                text,
                h,
                row,
                n,
            ) is RowTooShort,
{
    assert forall|m: int|
        1 <= m <= n && (#[trigger] subst_upto(text, h, row, m) is RowTooShort) implies subst_upto(
        text,
        h,
        row,
        n,
    ) is RowTooShort by {
        lemma_subst_stuck(text, h, row, m, n);
    }
}

// ---------------------------------------------------------------------
// Laws
// ---------------------------------------------------------------------

proof fn lemma_header_index_bound(h: Seq<Seq<char>>, name: Seq<char>)
    ensures
        header_index(h, name) < h.len(),
        header_index(h, name) >= 0 ==> h[header_index(h, name)] == name,
    decreases h.len(),
{
    if h.len() > 0 {
        lemma_header_index_bound(h.drop_last(), name);
    }
}

proof fn lemma_subst_done_upto(text: Seq<char>, h: Seq<Seq<char>>, row: Seq<Seq<char>>, k: int)
    requires
        0 <= k <= placeholder_names(text).len(),
        forall|j: int|
            0 <= j < placeholder_names(text).len() ==> header_index(
                h,
                #[trigger] placeholder_names(text)[j],
            ) >= 0,
        h.len() <= row.len(),
    ensures
        subst_upto(text, h, row, k) is Done,
    decreases k,
{
    if k > 0 {
        lemma_subst_done_upto(text, h, row, k - 1);
        lemma_header_index_bound(h, placeholder_names(text)[k - 1]);
    }
}

proof fn lemma_no_short_row_upto(text: Seq<char>, h: Seq<Seq<char>>, row: Seq<Seq<char>>, k: int)
    requires
        k <= placeholder_names(text).len(),
        h.len() <= row.len(),
    ensures
        !(subst_upto(text, h, row, k) is RowTooShort),
    decreases k,
{
    if k > 0 {
        lemma_no_short_row_upto(text, h, row, k - 1);
        lemma_header_index_bound(h, placeholder_names(text)[k - 1]);
    }
}

/// A row with a value for every column never runs short: when `row` is at
/// least as long as `headers` (an Examples row always is), substitution
/// meets the precondition of [`substitute_placeholders`].
pub proof fn law_full_row_is_never_short(text: Seq<char>, headers: Seq<Seq<char>>, row: Seq<Seq<char>>)
    requires
        headers.len() <= row.len(),
    ensures
        !(subst(text, headers, row) is RowTooShort),
{
    assert(placeholder_names(text).len() == placeholder_spans(text).len());
    lemma_no_short_row_upto(text, headers, row, placeholder_spans(text).len() as int);
}

/// Substitution succeeds whenever every placeholder names a column and the
/// row holds a value for every column.
pub proof fn law_substitution_succeeds_when_columns_cover(
    text: Seq<char>,
    headers: Seq<Seq<char>>,
    row: Seq<Seq<char>>,
)
    requires
        forall|j: int|
            0 <= j < placeholder_names(text).len() ==> header_index(
                headers,
                #[trigger] placeholder_names(text)[j],
            ) >= 0,
        headers.len() <= row.len(),
    ensures
        subst(text, headers, row) is Done,
{
    lemma_subst_done_upto(text, headers, row, placeholder_names(text).len() as int);
}

/// A text without placeholders comes back unchanged.
pub proof fn law_text_without_placeholders_is_unchanged(
    text: Seq<char>,
    headers: Seq<Seq<char>>,
    row: Seq<Seq<char>>,
)
    requires
        !(exists|p: int| #[trigger] starts_match(text, p)),
    ensures
        subst(text, headers, row) == Subst::Done(text),
{
    law_contains_iff_names(text);
}

} // verus!
