//! Byte-oriented parser and evaluator for tag expressions.
//!
//! Grammar, with `not` binding tighter than `and`, and `and` tighter than
//! `or`; both binary operators associate to the left and operator keywords
//! are ASCII case-insensitive:
//!
//! ```text
//! expr    := and ("or" and)*
//! and     := not ("and" not)*
//! not     := "not" not | primary
//! primary := "@" IDENT | "(" expr ")"
//! IDENT   := [A-Za-z_] [A-Za-z0-9_]*
//! ```
//!
//! Tag names are stored without the leading `@`. Errors carry the byte
//! offset at which parsing stopped.

use vstd::prelude::*;
use crate::tag_ast::{TagAst, ast_eval, str_set};
use crate::text::all_whitespace;
use vstd::utf8::encode_utf8;

verus! {

// ---------------------------------------------------------------------
// Model
// ---------------------------------------------------------------------

/// A parse failure: byte offset and explanation.
pub struct PErr {
    pub pos: int,
    pub msg: Seq<char>,
}

/// Outcome of parsing from a position: the tree and the position after it.
pub type PRes = Result<(TagAst, int), PErr>;

pub open spec fn is_ws_byte(b: u8) -> bool {
    b == 32 || b == 10 || b == 9 || b == 13
}

pub open spec fn is_ident_start(b: u8) -> bool {
    (65 <= b && b <= 90) || (97 <= b && b <= 122) || b == 95
}

pub open spec fn is_ident_byte(b: u8) -> bool {
    is_ident_start(b) || (48 <= b && b <= 57)
}

pub open spec fn lower_byte(b: u8) -> u8 {
    if 65 <= b && b <= 90 {
        (b + 32) as u8
    } else {
        b
    }
}

/// The first position at or after `i` that is not a blank byte.
pub open spec fn skip_ws(src: Seq<u8>, i: int) -> int
    decreases src.len() - i,
{
    if 0 <= i < src.len() && is_ws_byte(src[i]) {
        skip_ws(src, i + 1)
    } else {
        i
    }
}

/// The first position at or after `i` that is not an identifier byte.
pub open spec fn ident_end(src: Seq<u8>, i: int) -> int
    decreases src.len() - i,
{
    if 0 <= i < src.len() && is_ident_byte(src[i]) {
        ident_end(src, i + 1)
    } else {
        i
    }
}

/// The keyword `kw` (lower case) occurs at `i`, in any ASCII case, and is
/// not followed by a letter or underscore.
pub open spec fn kw_at(src: Seq<u8>, i: int, kw: Seq<u8>) -> bool {
    &&& 0 <= i
    &&& i + kw.len() <= src.len()
    &&& forall|j: int| 0 <= j < kw.len() ==> lower_byte(#[trigger] src[i + j]) == kw[j]
    &&& !(i + kw.len() < src.len() && is_ident_start(src[i + kw.len()]))
}

pub open spec fn kw_or() -> Seq<u8> {
    seq![111u8, 114u8]
}

pub open spec fn kw_and() -> Seq<u8> {
    seq![97u8, 110u8, 100u8]
}

pub open spec fn kw_not() -> Seq<u8> {
    seq![110u8, 111u8, 116u8]
}

/// Bytes read as characters (all bytes involved are ASCII).
pub open spec fn bytes_as_chars(b: Seq<u8>) -> Seq<char> {
    b.map_values(|x: u8| x as char)
}

pub open spec fn unknown_token_msg(b: u8) -> Seq<char> {
    "unknown token '"@.push(b as char) + "'"@
}

pub open spec fn perr(pos: int, msg: Seq<char>) -> PRes {
    Err(PErr { pos, msg })
}

/// `"@" IDENT` starting at the `@` at position `k`.
pub open spec fn p_tag(src: Seq<u8>, k: int) -> PRes {
    let start = k + 1;
    if start >= src.len() {
        perr(start, "missing tag"@)
    } else if !is_ident_start(src[start]) {
        perr(start, "invalid tag identifier"@)
    } else {
        let end = ident_end(src, start + 1);
        Ok((TagAst::Tag(bytes_as_chars(src.subrange(start, end))), end))
    }
}

/// `expr` at position `i`.
pub open spec fn p_or(src: Seq<u8>, i: int) -> PRes
    decreases src.len() - i, 5int,
{
    if !(0 <= i <= src.len()) {
        perr(i, seq![])
    } else {
        match p_and(src, i) {
            Err(e) => Err(e),
            Ok((l, j)) => if i <= j <= src.len() {
                p_or_rest(src, l, j)
            } else {
                Ok((l, j))
            },
        }
    }
}

/// The `("or" and)*` tail after a left operand that ends at `i`.
pub open spec fn p_or_rest(src: Seq<u8>, left: TagAst, i: int) -> PRes
    decreases src.len() - i, 4int,
{
    if !(0 <= i <= src.len()) {
        perr(i, seq![])
    } else {
        let k = skip_ws(src, i);
        proof {
            lemma_skip_ws(src, i);
        }
        if kw_at(src, k, kw_or()) {
            let k2 = skip_ws(src, k + 2);
            proof {
                lemma_skip_ws(src, k + 2);
            }
            if k2 >= src.len() {
                perr(k2, "expected tag or '(' after 'or'"@)
            } else {
                match p_and(src, k2) {
                    Err(e) => Err(e),
                    Ok((r, j)) => {
                        let node = TagAst::Or(Box::new(left), Box::new(r));
                        if k2 <= j <= src.len() {
                            p_or_rest(src, node, j)
                        } else {
                            Ok((node, j))
                        }
                    },
                }
            }
        } else {
            Ok((left, k))
        }
    }
}

/// `and` at position `i`.
pub open spec fn p_and(src: Seq<u8>, i: int) -> PRes
    decreases src.len() - i, 3int,
{
    if !(0 <= i <= src.len()) {
        perr(i, seq![])
    } else {
        match p_not(src, i) {
            Err(e) => Err(e),
            Ok((l, j)) => if i <= j <= src.len() {
                p_and_rest(src, l, j)
            } else {
                Ok((l, j))
            },
        }
    }
}

/// The `("and" not)*` tail after a left operand that ends at `i`.
pub open spec fn p_and_rest(src: Seq<u8>, left: TagAst, i: int) -> PRes
    decreases src.len() - i, 2int,
{
    if !(0 <= i <= src.len()) {
        perr(i, seq![])
    } else {
        let k = skip_ws(src, i);
        proof {
            lemma_skip_ws(src, i);
        }
        if kw_at(src, k, kw_and()) {
            let k2 = skip_ws(src, k + 3);
            proof {
                lemma_skip_ws(src, k + 3);
            }
            if k2 >= src.len() {
                perr(k2, "expected tag or '(' after 'and'"@)
            } else {
                match p_not(src, k2) {
                    Err(e) => Err(e),
                    Ok((r, j)) => {
                        let node = TagAst::And(Box::new(left), Box::new(r));
                        if k2 <= j <= src.len() {
                            p_and_rest(src, node, j)
                        } else {
                            Ok((node, j))
                        }
                    },
                }
            }
        } else {
            Ok((left, k))
        }
    }
}

/// `not` at position `i`.
pub open spec fn p_not(src: Seq<u8>, i: int) -> PRes
    decreases src.len() - i, 1int,
{
    if !(0 <= i <= src.len()) {
        perr(i, seq![])
    } else {
        let k = skip_ws(src, i);
        proof {
            lemma_skip_ws(src, i);
        }
        if kw_at(src, k, kw_not()) {
            match p_not(src, k + 3) {
                Err(e) => Err(e),
                Ok((x, j)) => Ok((TagAst::Not(Box::new(x)), j)),
            }
        } else {
            p_primary(src, k)
        }
    }
}

/// `primary` at position `i`.
pub open spec fn p_primary(src: Seq<u8>, i: int) -> PRes
    decreases src.len() - i, 0int,
{
    if !(0 <= i <= src.len()) {
        perr(i, seq![])
    } else {
        let k = skip_ws(src, i);
        proof {
            lemma_skip_ws(src, i);
        }
        if k >= src.len() {
            perr(k, "unexpected end of input"@)
        } else if src[k] == 64u8 {
            p_tag(src, k)
        } else if src[k] == 40u8 {
            let k2 = skip_ws(src, k + 1);
            proof {
                lemma_skip_ws(src, k + 1);
            }
            if k2 < src.len() && src[k2] == 41u8 {
                perr(k2, "empty parentheses"@)
            } else {
                match p_or(src, k2) {
                    Err(e) => Err(e),
                    Ok((e, j)) => {
                        let j2 = skip_ws(src, j);
                        if 0 <= j2 < src.len() && src[j2] == 41u8 {
                            Ok((e, j2 + 1))
                        } else if 0 <= j2 < src.len() {
                            perr(j2 + 1, "expected ')'"@)
                        } else {
                            perr(j2, "expected ')'"@)
                        }
                    },
                }
            }
        } else {
            perr(k, unknown_token_msg(src[k]))
        }
    }
}

/// The result of parsing a whole input, given its characters; the grammar
/// reads their UTF-8 encoding.
pub open spec fn spec_parse(chars: Seq<char>) -> Result<TagAst, PErr> {
    let src = encode_utf8(chars);
    if all_whitespace(chars) {
        Err(PErr { pos: 0, msg: "empty tag string is not allowed"@ })
    } else {
        match p_or(src, 0) {
            Err(e) => Err(e),
            Ok((e, j)) => {
                let k = skip_ws(src, j);
                if 0 <= k < src.len() {
                    Err(PErr { pos: k, msg: unknown_token_msg(src[k]) })
                } else {
                    Ok(e)
                }
            },
        }
    }
}

// ---------------------------------------------------------------------
// Position facts
// ---------------------------------------------------------------------

pub proof fn lemma_skip_ws(src: Seq<u8>, i: int)
    requires
        0 <= i <= src.len(),
    ensures
        i <= skip_ws(src, i) <= src.len(),
        skip_ws(src, i) < src.len() ==> !is_ws_byte(src[skip_ws(src, i)]),
        forall|m: int| i <= m < skip_ws(src, i) ==> is_ws_byte(#[trigger] src[m]),
    decreases src.len() - i,
{
    if i < src.len() && is_ws_byte(src[i]) {
        lemma_skip_ws(src, i + 1);
    }
}

pub proof fn lemma_ident_end(src: Seq<u8>, i: int)
    requires
        0 <= i <= src.len(),
    ensures
        i <= ident_end(src, i) <= src.len(),
        ident_end(src, i) < src.len() ==> !is_ident_byte(src[ident_end(src, i)]),
        forall|m: int| i <= m < ident_end(src, i) ==> is_ident_byte(#[trigger] src[m]),
    decreases src.len() - i,
{
    if i < src.len() && is_ident_byte(src[i]) {
        lemma_ident_end(src, i + 1);
    }
}

/// A successful `primary` ends strictly after its start, within the input.
pub proof fn lemma_primary_pos(src: Seq<u8>, i: int)
    requires
        0 <= i <= src.len(),
    ensures
        p_primary(src, i) matches Ok((_, j)) ==> i < j <= src.len(),
    decreases src.len() - i, 0int,
{
    lemma_skip_ws(src, i);
    let k = skip_ws(src, i);
    if k < src.len() {
        if src[k] == 64u8 {
            if k + 1 < src.len() && is_ident_start(src[k + 1]) {
                lemma_ident_end(src, k + 2);
            }
        } else if src[k] == 40u8 {
            lemma_skip_ws(src, k + 1);
            let k2 = skip_ws(src, k + 1);
            lemma_or_pos(src, k2);
            if let Ok((e, j)) = p_or(src, k2) {
                lemma_skip_ws(src, j);
            }
        }
    }
}

/// A successful `not` ends strictly after its start, within the input.
pub proof fn lemma_not_pos(src: Seq<u8>, i: int)
    requires
        0 <= i <= src.len(),
    ensures
        p_not(src, i) matches Ok((_, j)) ==> i < j <= src.len(),
    decreases src.len() - i, 1int,
{
    lemma_skip_ws(src, i);
    let k = skip_ws(src, i);
    if kw_at(src, k, kw_not()) {
        lemma_not_pos(src, k + 3);
    } else {
        lemma_primary_pos(src, k);
    }
}

/// A successful `and` tail ends at or after its start, within the input.
pub proof fn lemma_and_rest_pos(src: Seq<u8>, left: TagAst, i: int)
    requires
        0 <= i <= src.len(),
    ensures
        p_and_rest(src, left, i) matches Ok((_, j)) ==> i <= j <= src.len(),
    decreases src.len() - i, 2int,
{
    lemma_skip_ws(src, i);
    let k = skip_ws(src, i);
    if kw_at(src, k, kw_and()) {
        lemma_skip_ws(src, k + 3);
        let k2 = skip_ws(src, k + 3);
        if k2 < src.len() {
            lemma_not_pos(src, k2);
            if let Ok((r, j)) = p_not(src, k2) {
                let node = TagAst::And(Box::new(left), Box::new(r));
                lemma_and_rest_pos(src, node, j);
            }
        }
    }
}

/// A successful `and` ends strictly after its start, within the input.
pub proof fn lemma_and_pos(src: Seq<u8>, i: int)
    requires
        0 <= i <= src.len(),
    ensures
        p_and(src, i) matches Ok((_, j)) ==> i < j <= src.len(),
    decreases src.len() - i, 3int,
{
    lemma_not_pos(src, i);
    if let Ok((l, j)) = p_not(src, i) {
        lemma_and_rest_pos(src, l, j);
    }
}

/// A successful `or` tail ends at or after its start, within the input.
pub proof fn lemma_or_rest_pos(src: Seq<u8>, left: TagAst, i: int)
    requires
        0 <= i <= src.len(),
    ensures
        p_or_rest(src, left, i) matches Ok((_, j)) ==> i <= j <= src.len(),
    decreases src.len() - i, 4int,
{
    lemma_skip_ws(src, i);
    let k = skip_ws(src, i);
    if kw_at(src, k, kw_or()) {
        lemma_skip_ws(src, k + 2);
        let k2 = skip_ws(src, k + 2);
        if k2 < src.len() {
            lemma_and_pos(src, k2);
            if let Ok((r, j)) = p_and(src, k2) {
                let node = TagAst::Or(Box::new(left), Box::new(r));
                lemma_or_rest_pos(src, node, j);
            }
        }
    }
}

/// A successful `expr` ends strictly after its start, within the input.
pub proof fn lemma_or_pos(src: Seq<u8>, i: int)
    requires
        0 <= i <= src.len(),
    ensures
        p_or(src, i) matches Ok((_, j)) ==> i < j <= src.len(),
    decreases src.len() - i, 5int,
{
    lemma_and_pos(src, i);
    if let Ok((l, j)) = p_and(src, i) {
        lemma_or_rest_pos(src, l, j);
    }
}

// ---------------------------------------------------------------------
// Executable parser
// ---------------------------------------------------------------------

/// Abstract syntax tree of a tag expression.
#[derive(Debug, PartialEq)]
pub enum Expr {
    /// A tag name, without its leading `@`.
    Tag(String),
    /// Conjunction.
    And(Box<Expr>, Box<Expr>),
    /// Disjunction.
    Or(Box<Expr>, Box<Expr>),
    /// Negation.
    Not(Box<Expr>),
}

/// The mathematical tree of an [`Expr`].
pub open spec fn expr_view(e: &Expr) -> TagAst
    decreases e,
{
    match e {
        Expr::Tag(t) => TagAst::Tag(t@),
        Expr::And(l, r) => TagAst::And(Box::new(expr_view(l)), Box::new(expr_view(r))),
        Expr::Or(l, r) => TagAst::Or(Box::new(expr_view(l)), Box::new(expr_view(r))),
        Expr::Not(x) => TagAst::Not(Box::new(expr_view(x))),
    }
}

impl View for Expr {
    type V = TagAst;

    open spec fn view(&self) -> TagAst {
        expr_view(self)
    }
}

/// Parse error with byte offset for diagnostics.
#[derive(Debug, PartialEq)]
pub struct ParseError {
    /// Byte offset at which parsing stopped.
    pub pos: usize,
    /// Explanation of the failure.
    pub msg: String,
}

/// The executable error agrees with the model's error.
pub open spec fn err_matches(e: ParseError, pe: PErr) -> bool {
    e.pos as int == pe.pos && e.msg@ == pe.msg
}

/// An executable parse outcome, with the parser's final position, agrees
/// with the model's outcome.
pub open spec fn outcome_matches(r: Result<Expr, ParseError>, idx: usize, s: PRes) -> bool {
    match s {
        Ok((e, j)) => r matches Ok(x) && x@ == e && idx as int == j,
        Err(pe) => r matches Err(x) && err_matches(x, pe),
    }
}

struct Parser<'a> {
    src: &'a [u8],
    idx: usize,
}

fn is_ws_byte_exec(b: u8) -> (r: bool)
    ensures
        r == is_ws_byte(b),
{
    b == 32 || b == 10 || b == 9 || b == 13
}

fn is_ident_start_exec(b: u8) -> (r: bool)
    ensures
        r == is_ident_start(b),
{
    (65 <= b && b <= 90) || (97 <= b && b <= 122) || b == 95
}

fn is_ident_byte_exec(b: u8) -> (r: bool)
    ensures
        r == is_ident_byte(b),
{
    is_ident_start_exec(b) || (48 <= b && b <= 57)
}

fn lower_byte_exec(b: u8) -> (r: u8)
    ensures
        r == lower_byte(b),
{
    if 65 <= b && b <= 90 {
        b + 32
    } else {
        b
    }
}

fn error(pos: usize, msg: &str) -> (r: Result<Expr, ParseError>)
    ensures
        r matches Err(e) && e.pos == pos && e.msg@ == msg@,
{
    Err(ParseError { pos, msg: crate::text::owned(msg) })
}

fn unknown_token(pos: usize, b: u8) -> (r: Result<Expr, ParseError>)
    ensures
        r matches Err(e) && e.pos == pos && e.msg@ == unknown_token_msg(b),
{
    let mut msg = crate::text::owned("unknown token '");
    crate::text::push_char(&mut msg, b as char);
    crate::text::push_str(&mut msg, "'");
    Err(ParseError { pos, msg })
}

impl<'a> Parser<'a> {
    fn skip_ws(&mut self)
        requires
            old(self).idx <= old(self).src.len(),
        ensures
            final(self).src == old(self).src,
            final(self).idx as int == skip_ws(old(self).src@, old(self).idx as int),
    {
        proof {
            lemma_skip_ws(self.src@, self.idx as int);
        }
        while self.idx < self.src.len() && is_ws_byte_exec(self.src[self.idx])
            invariant
                self.src == old(self).src,
                old(self).idx <= self.idx <= self.src.len(),
                skip_ws(self.src@, self.idx as int) == skip_ws(
                    old(self).src@,
                    old(self).idx as int,
                ),
            decreases self.src.len() - self.idx,
        {
            self.idx += 1;
        }
    }

    fn consume_kw(&mut self, kw: &[u8]) -> (r: bool)
        requires
            old(self).idx <= old(self).src.len(),
            kw.len() <= 3,
        ensures
            final(self).src == old(self).src,
            r == kw_at(old(self).src@, old(self).idx as int, kw@),
            r ==> final(self).idx == old(self).idx + kw.len(),
            !r ==> final(self).idx == old(self).idx,
    {
        if kw.len() > self.src.len() - self.idx {
            return false;
        }
        let end = self.idx + kw.len();
        let mut j: usize = 0;
        while j < kw.len()
            invariant
                self.idx + kw.len() == end <= self.src.len(),
                j <= kw.len(),
                forall|m: int| 0 <= m < j ==> lower_byte(#[trigger] self.src@[self.idx + m]) == kw@[m],
            decreases kw.len() - j,
        {
            if lower_byte_exec(self.src[self.idx + j]) != kw[j] {
                assert(!kw_at(self.src@, self.idx as int, kw@)) by {
                    assert(lower_byte(self.src@[self.idx + j]) != kw@[j as int]);
                }
                return false;
            }
            j += 1;
        }
        if end < self.src.len() && is_ident_start_exec(self.src[end]) {
            return false;
        }
        self.idx = end;
        true
    }

    fn parse_tag(&mut self) -> (r: Result<Expr, ParseError>)
        requires
            old(self).idx < old(self).src.len(),
            old(self).src@[old(self).idx as int] == 64u8,
        ensures
            final(self).src == old(self).src,
            outcome_matches(r, final(self).idx, p_tag(old(self).src@, old(self).idx as int)),
    {
        self.idx += 1;
        let start = self.idx;
        if start >= self.src.len() {
            return error(start, "missing tag");
        }
        let first = self.src[start];
        self.idx += 1;
        if !is_ident_start_exec(first) {
            return error(start, "invalid tag identifier");
        }
        let mut buf = String::new();
        crate::text::push_char(&mut buf, first as char);
        proof {
            lemma_ident_end(self.src@, self.idx as int);
        }
        while self.idx < self.src.len() && is_ident_byte_exec(self.src[self.idx])
            invariant
                self.src == old(self).src,
                start + 1 <= self.idx <= self.src.len(),
                ident_end(self.src@, self.idx as int) == ident_end(self.src@, start + 1),
                buf@ == bytes_as_chars(self.src@.subrange(start as int, self.idx as int)),
            decreases self.src.len() - self.idx,
        {
            crate::text::push_char(&mut buf, self.src[self.idx] as char);
            self.idx += 1;
            assert(bytes_as_chars(self.src@.subrange(start as int, self.idx as int))
                =~= bytes_as_chars(self.src@.subrange(start as int, self.idx - 1)).push(
                self.src@[self.idx - 1] as char,
            ));
        }
        Ok(Expr::Tag(buf))
    }

    fn parse_or(&mut self) -> (r: Result<Expr, ParseError>)
        requires
            old(self).idx <= old(self).src.len(),
        ensures
            final(self).src == old(self).src,
            outcome_matches(r, final(self).idx, p_or(old(self).src@, old(self).idx as int)),
        decreases old(self).src.len() - old(self).idx, 5int,
    {
        let ghost i = self.idx as int;
        proof {
            lemma_and_pos(self.src@, i);
        }
        match self.parse_and() {
            Err(e) => Err(e),
            Ok(left) => self.parse_or_rest(left),
        }
    }

    fn parse_or_rest(&mut self, left: Expr) -> (r: Result<Expr, ParseError>)
        requires
            old(self).idx <= old(self).src.len(),
        ensures
            final(self).src == old(self).src,
            outcome_matches(
                r,
                final(self).idx,
                p_or_rest(old(self).src@, left@, old(self).idx as int),
            ),
        decreases old(self).src.len() - old(self).idx, 4int,
    {
        let ghost src = self.src@;
        let ghost i = self.idx as int;
        self.skip_ws();
        proof {
            lemma_skip_ws(src, i);
        }
        if self.consume_kw(&[111u8, 114u8]) {
            assert(kw_or() =~= seq![111u8, 114u8]);
            self.skip_ws();
            let k2 = self.idx;
            proof {
                lemma_skip_ws(src, skip_ws(src, i) + 2);
            }
            if self.idx >= self.src.len() {
                return error(self.idx, "expected tag or '(' after 'or'");
            }
            proof {
                lemma_and_pos(src, k2 as int);
            }
            match self.parse_and() {
                Err(e) => Err(e),
                Ok(right) => {
                    let node = Expr::Or(Box::new(left), Box::new(right));
                    self.parse_or_rest(node)
                },
            }
        } else {
            assert(kw_or() =~= seq![111u8, 114u8]);
            Ok(left)
        }
    }

    fn parse_and(&mut self) -> (r: Result<Expr, ParseError>)
        requires
            old(self).idx <= old(self).src.len(),
        ensures
            final(self).src == old(self).src,
            outcome_matches(r, final(self).idx, p_and(old(self).src@, old(self).idx as int)),
        decreases old(self).src.len() - old(self).idx, 3int,
    {
        let ghost i = self.idx as int;
        proof {
            lemma_not_pos(self.src@, i);
        }
        match self.parse_not() {
            Err(e) => Err(e),
            Ok(left) => self.parse_and_rest(left),
        }
    }

    fn parse_and_rest(&mut self, left: Expr) -> (r: Result<Expr, ParseError>)
        requires
            old(self).idx <= old(self).src.len(),
        ensures
            final(self).src == old(self).src,
            outcome_matches(
                r,
                final(self).idx,
                p_and_rest(old(self).src@, left@, old(self).idx as int),
            ),
        decreases old(self).src.len() - old(self).idx, 2int,
    {
        let ghost src = self.src@;
        let ghost i = self.idx as int;
        self.skip_ws();
        proof {
            lemma_skip_ws(src, i);
        }
        if self.consume_kw(&[97u8, 110u8, 100u8]) {
            assert(kw_and() =~= seq![97u8, 110u8, 100u8]);
            self.skip_ws();
            let k2 = self.idx;
            proof {
                lemma_skip_ws(src, skip_ws(src, i) + 3);
            }
            if self.idx >= self.src.len() {
                return error(self.idx, "expected tag or '(' after 'and'");
            }
            proof {
                lemma_not_pos(src, k2 as int);
            }
            match self.parse_not() {
                Err(e) => Err(e),
                Ok(right) => {
                    let node = Expr::And(Box::new(left), Box::new(right));
                    self.parse_and_rest(node)
                },
            }
        } else {
            assert(kw_and() =~= seq![97u8, 110u8, 100u8]);
            Ok(left)
        }
    }

    fn parse_not(&mut self) -> (r: Result<Expr, ParseError>)
        requires
            old(self).idx <= old(self).src.len(),
        ensures
            final(self).src == old(self).src,
            outcome_matches(r, final(self).idx, p_not(old(self).src@, old(self).idx as int)),
        decreases old(self).src.len() - old(self).idx, 1int,
    {
        let ghost src = self.src@;
        let ghost i = self.idx as int;
        self.skip_ws();
        proof {
            lemma_skip_ws(src, i);
        }
        if self.consume_kw(&[110u8, 111u8, 116u8]) {
            assert(kw_not() =~= seq![110u8, 111u8, 116u8]);
            match self.parse_not() {
                Err(e) => Err(e),
                Ok(x) => Ok(Expr::Not(Box::new(x))),
            }
        } else {
            assert(kw_not() =~= seq![110u8, 111u8, 116u8]);
            self.parse_primary()
        }
    }

    fn parse_primary(&mut self) -> (r: Result<Expr, ParseError>)
        requires
            old(self).idx <= old(self).src.len(),
        ensures
            final(self).src == old(self).src,
            outcome_matches(r, final(self).idx, p_primary(old(self).src@, old(self).idx as int)),
        decreases old(self).src.len() - old(self).idx, 0int,
    {
        let ghost src = self.src@;
        let ghost i = self.idx as int;
        self.skip_ws();
        proof {
            lemma_skip_ws(src, i);
        }
        if self.idx >= self.src.len() {
            return error(self.idx, "unexpected end of input");
        }
        let c = self.src[self.idx];
        if c == 64u8 {
            self.parse_tag()
        } else if c == 40u8 {
            self.idx += 1;
            self.skip_ws();
            proof {
                lemma_skip_ws(src, skip_ws(src, i) + 1);
            }
            if self.idx < self.src.len() && self.src[self.idx] == 41u8 {
                return error(self.idx, "empty parentheses");
            }
            let ghost k2 = self.idx as int;
            proof {
                lemma_or_pos(src, k2);
            }
            match self.parse_or() {
                Err(e) => Err(e),
                Ok(e) => {
                    let ghost j = self.idx as int;
                    self.skip_ws();
                    proof {
                        lemma_skip_ws(src, j);
                    }
                    if self.idx < self.src.len() && self.src[self.idx] == 41u8 {
                        self.idx += 1;
                        Ok(e)
                    } else if self.idx < self.src.len() {
                        self.idx += 1;
                        error(self.idx, "expected ')'")
                    } else {
                        error(self.idx, "expected ')'")
                    }
                },
            }
        } else {
            unknown_token(self.idx, c)
        }
    }
}

/// Parse a tag expression into an AST.
///
/// Blank input is rejected at offset 0; otherwise the result is exactly
/// the one the grammar gives on the input's UTF-8 bytes, with trailing
/// bytes reported as an unknown token.
pub fn parse(input: &str) -> (r: Result<Expr, ParseError>)
    ensures
        match spec_parse(input@) {
            Ok(e) => r matches Ok(x) && x@ == e,
            Err(pe) => r matches Err(x) && err_matches(x, pe),
        },
{
    if crate::text::trims_to_empty(input) {
        return error(0, "empty tag string is not allowed");
    }
    let mut p = Parser { src: input.as_bytes(), idx: 0 };
    let ghost src = p.src@;
    proof {
        lemma_or_pos(src, 0);
    }
    let expr = match p.parse_or() {
        Err(e) => return Err(e),
        Ok(e) => e,
    };
    let ghost j = p.idx as int;
    p.skip_ws();
    proof {
        lemma_skip_ws(src, j);
    }
    if p.idx != p.src.len() {
        let c = p.src[p.idx];
        return unknown_token(p.idx, c);
    }
    Ok(expr)
}

/// Whether `tag` is one of `tags`.
fn contains_tag(tags: &[&str], tag: &str) -> (r: bool)
    ensures
        r == str_set(tags@).contains(tag@),
{
    let mut i: usize = 0;
    while i < tags.len()
        invariant
            i <= tags.len(),
            forall|k: int| 0 <= k < i ==> tags@[k]@ != tag@,
        decreases tags.len() - i,
    {
        if crate::text::str_eq(tags[i], tag) {
            assert(str_set(tags@).contains(tag@)) by {
                assert(tags@[i as int]@ == tag@);
            }
            return true;
        }
        i += 1;
    }
    false
}

/// Evaluate a parsed expression against a set of tags.
pub fn eval(expr: &Expr, tags: &[&str]) -> (r: bool)
    ensures
        r == ast_eval(expr@, str_set(tags@)),
    decreases expr,
{
    match expr {
        Expr::Tag(t) => contains_tag(tags, t.as_str()),
        Expr::And(l, r) => eval(l, tags) && eval(r, tags),
        Expr::Or(l, r) => eval(l, tags) || eval(r, tags),
        Expr::Not(e) => !eval(e, tags),
    }
}

} // verus!
