//! Tokenising parser for tag expressions, as used by `#[scenario(tags =
//! ..)]` and `scenarios!(.., tags = ..)`.
//!
//! ```text
//! expression  := disjunction
//! disjunction := conjunction ("or" conjunction)*
//! conjunction := negation ("and" negation)*
//! negation    := ("not")* primary
//! primary     := TAG | "(" expression ")"
//! TAG         := "@" IDENT
//! IDENT       := (ALNUM | "_" | "-")+
//! ```
//!
//! `not` binds tighter than `and`, which binds tighter than `or`; binary
//! operators associate to the left; keywords are ASCII case-insensitive;
//! tags keep their leading `@` and are case-sensitive. Tokens are read one
//! at a time as the parser asks for them, so the first failure reported is
//! the first one met in reading order. Error offsets are UTF-8 byte offsets.

use vstd::prelude::*;
use crate::tag_ast::{TagAst, ast_eval, str_set, string_set};
use crate::text::{
    ascii_lower_seq, is_ascii_alpha, is_ascii_alnum, is_unicode_whitespace, utf8_offset,
    lemma_offset_step, lemma_offset_end,
};

verus! {

// ---------------------------------------------------------------------
// Model: tokens
// ---------------------------------------------------------------------

/// The kinds of token of a tag expression.
pub enum TokKind {
    Tag(Seq<char>),
    And,
    Or,
    Not,
    LParen,
    RParen,
    End,
}

/// A token and the byte offset at which it starts.
pub struct STok {
    pub kind: TokKind,
    pub start: int,
}

/// A failure: byte offset and explanation.
pub struct TErr {
    pub offset: int,
    pub reason: Seq<char>,
}

/// One step of reading: a token, or the failure that reading met.
pub enum Item {
    Tok(STok),
    Fail(TErr),
}

/// Characters allowed in a tag name.
pub open spec fn is_tag_char(c: char) -> bool {
    is_ascii_alnum(c) || c == '_' || c == '-'
}

/// First index at or after `i` that is not whitespace.
pub open spec fn skip_space(s: Seq<char>, i: int) -> int
    decreases s.len() - i,
{
    if 0 <= i < s.len() && is_unicode_whitespace(s[i]) {
        skip_space(s, i + 1)
    } else {
        i
    }
}

/// First index at or after `i` that is not a tag character.
pub open spec fn tag_end(s: Seq<char>, i: int) -> int
    decreases s.len() - i,
{
    if 0 <= i < s.len() && is_tag_char(s[i]) {
        tag_end(s, i + 1)
    } else {
        i
    }
}

/// First index at or after `i` that is not an ASCII letter.
pub open spec fn word_end(s: Seq<char>, i: int) -> int
    decreases s.len() - i,
{
    if 0 <= i < s.len() && is_ascii_alpha(s[i]) {
        word_end(s, i + 1)
    } else {
        i
    }
}

/// Read one token starting the search at character index `i`; on success
/// also give the index just after the token.
pub open spec fn lex_one(s: Seq<char>, i: int) -> Result<(STok, int), TErr> {
    let j = skip_space(s, i);
    if j >= s.len() {
        Ok((STok { kind: TokKind::End, start: utf8_offset(s, s.len() as int) as int }, j))
    } else {
        let c = s[j];
        let start = utf8_offset(s, j) as int;
        if c == '@' {
            if j + 1 < s.len() && is_tag_char(s[j + 1]) {
                let e = tag_end(s, j + 2);
                Ok((STok { kind: TokKind::Tag(s.subrange(j, e)), start }, e))
            } else {
                Err(TErr { offset: start + 1, reason: "expected tag name after '@'"@ })
            }
        } else if c == '(' {
            Ok((STok { kind: TokKind::LParen, start }, j + 1))
        } else if c == ')' {
            Ok((STok { kind: TokKind::RParen, start }, j + 1))
        } else if is_ascii_alpha(c) {
            let e = word_end(s, j + 1);
            let w = s.subrange(j, e);
            let lw = ascii_lower_seq(w);
            if lw == "and"@ {
                Ok((STok { kind: TokKind::And, start }, e))
            } else if lw == "or"@ {
                Ok((STok { kind: TokKind::Or, start }, e))
            } else if lw == "not"@ {
                Ok((STok { kind: TokKind::Not, start }, e))
            } else {
                Err(TErr { offset: start, reason: "unexpected identifier '"@ + w + "'"@ })
            }
        } else {
            Err(
                TErr { offset: start, reason: "unexpected character '"@.push(c) + "'"@ },
            )
        }
    }
}

/// Everything the reader yields from index `i` on: tokens up to and
/// including `End`, or up to a failure, which comes last.
pub open spec fn lex_from(s: Seq<char>, i: int) -> Seq<Item>
    decreases s.len() - i,
{
    if !(0 <= i <= s.len()) {
        seq![]
    } else {
        match lex_one(s, i) {
            Err(e) => seq![Item::Fail(e)],
            Ok((t, j)) => if t.kind is End {
                seq![Item::Tok(t)]
            } else if i < j <= s.len() {
                seq![Item::Tok(t)] + lex_from(s, j)
            } else {
                seq![Item::Tok(t)]
            },
        }
    }
}

// ---------------------------------------------------------------------
// Model: parser over the item sequence
// ---------------------------------------------------------------------

/// Outcome of parsing from item `k`: the tree and the index of the item
/// that is current afterwards.
pub type QRes = Result<(TagAst, int), TErr>;

pub open spec fn tok(items: Seq<Item>, k: int) -> STok {
    match items[k] {
        Item::Tok(t) => t,
        Item::Fail(_) => STok { kind: TokKind::End, start: 0 },
    }
}

/// Move to the next item: its index, or the failure met reading it.
pub open spec fn step(items: Seq<Item>, k: int) -> Result<int, TErr> {
    if 0 <= k && k + 1 < items.len() {
        match items[k + 1] {
            Item::Fail(e) => Err(e),
            Item::Tok(_) => Ok(k + 1),
        }
    } else {
        Err(TErr { offset: 0, reason: seq![] })
    }
}

/// How a token is shown in messages.
pub open spec fn describe(kind: TokKind) -> Seq<char> {
    match kind {
        TokKind::Tag(t) => t,
        TokKind::And => "'and'"@,
        TokKind::Or => "'or'"@,
        TokKind::Not => "'not'"@,
        TokKind::LParen => "'('"@,
        TokKind::RParen => "')'"@,
        TokKind::End => "<end>"@,
    }
}

/// A binary operator must be followed by an operand.
pub open spec fn lacks_operand(kind: TokKind) -> bool {
    kind is Or || kind is And || kind is RParen || kind is End
}

pub open spec fn qerr(offset: int, reason: Seq<char>) -> QRes {
    Err(TErr { offset, reason })
}

pub open spec fn q_or(items: Seq<Item>, k: int) -> QRes
    decreases items.len() - k, 5int,
{
    if !(0 <= k < items.len()) {
        qerr(0, seq![])
    } else {
        match q_and(items, k) {
            Err(e) => Err(e),
            Ok((l, j)) => if k <= j < items.len() {
                q_or_rest(items, l, j)
            } else {
                Ok((l, j))
            },
        }
    }
}

pub open spec fn q_or_rest(items: Seq<Item>, left: TagAst, k: int) -> QRes
    decreases items.len() - k, 4int,
{
    if !(0 <= k < items.len()) {
        qerr(0, seq![])
    } else if tok(items, k).kind is Or {
        match step(items, k) {
            Err(e) => Err(e),
            Ok(k1) => if lacks_operand(tok(items, k1).kind) {
                qerr(tok(items, k1).start, "expected tag or '(' after 'or'"@)
            } else {
                match q_and(items, k1) {
                    Err(e) => Err(e),
                    Ok((r, j)) => {
                        let node = TagAst::Or(Box::new(left), Box::new(r));
                        if k1 <= j < items.len() {
                            q_or_rest(items, node, j)
                        } else {
                            Ok((node, j))
                        }
                    },
                }
            },
        }
    } else {
        Ok((left, k))
    }
}

pub open spec fn q_and(items: Seq<Item>, k: int) -> QRes
    decreases items.len() - k, 3int,
{
    if !(0 <= k < items.len()) {
        qerr(0, seq![])
    } else {
        match q_not(items, k) {
            Err(e) => Err(e),
            Ok((l, j)) => if k <= j < items.len() {
                q_and_rest(items, l, j)
            } else {
                Ok((l, j))
            },
        }
    }
}

pub open spec fn q_and_rest(items: Seq<Item>, left: TagAst, k: int) -> QRes
    decreases items.len() - k, 2int,
{
    if !(0 <= k < items.len()) {
        qerr(0, seq![])
    } else if tok(items, k).kind is And {
        match step(items, k) {
            Err(e) => Err(e),
            Ok(k1) => if lacks_operand(tok(items, k1).kind) {
                qerr(tok(items, k1).start, "expected tag or '(' after 'and'"@)
            } else {
                match q_not(items, k1) {
                    Err(e) => Err(e),
                    Ok((r, j)) => {
                        let node = TagAst::And(Box::new(left), Box::new(r));
                        if k1 <= j < items.len() {
                            q_and_rest(items, node, j)
                        } else {
                            Ok((node, j))
                        }
                    },
                }
            },
        }
    } else {
        Ok((left, k))
    }
}

pub open spec fn q_not(items: Seq<Item>, k: int) -> QRes
    decreases items.len() - k, 1int,
{
    if !(0 <= k < items.len()) {
        qerr(0, seq![])
    } else if tok(items, k).kind is Not {
        match step(items, k) {
            Err(e) => Err(e),
            Ok(k1) => match q_not(items, k1) {
                Err(e) => Err(e),
                Ok((x, j)) => Ok((TagAst::Not(Box::new(x)), j)),
            },
        }
    } else {
        q_primary(items, k)
    }
}

pub open spec fn q_primary(items: Seq<Item>, k: int) -> QRes
    decreases items.len() - k, 0int,
{
    if !(0 <= k < items.len()) {
        qerr(0, seq![])
    } else {
        let t = tok(items, k);
        match t.kind {
            TokKind::Tag(name) => match step(items, k) {
                Err(e) => Err(e),
                Ok(k1) => Ok((TagAst::Tag(name), k1)),
            },
            TokKind::LParen => match step(items, k) {
                Err(e) => Err(e),
                Ok(k1) => match q_or(items, k1) {
                    Err(e) => Err(e),
                    Ok((e, j)) => if 0 <= j < items.len() && tok(items, j).kind is RParen {
                        match step(items, j) {
                            Err(err) => Err(err),
                            Ok(j1) => Ok((e, j1)),
                        }
                    } else {
                        qerr(t.start, "missing ')'"@)
                    },
                },
            },
            TokKind::End => qerr(t.start, "expected tag or '('"@),
            _ => qerr(t.start, "expected tag or '(' but found "@ + describe(t.kind)),
        }
    }
}

/// The result of parsing a whole expression.
pub open spec fn spec_parse(s: Seq<char>) -> Result<TagAst, TErr> {
    let items = lex_from(s, 0);
    match items[0] {
        Item::Fail(e) => Err(e),
        Item::Tok(_) => match q_or(items, 0) {
            Err(e) => Err(e),
            Ok((e, j)) => if 0 <= j < items.len() && tok(items, j).kind is End {
                Ok(e)
            } else {
                Err(
                    TErr {
                        offset: tok(items, j).start,
                        reason: "unexpected token "@ + describe(tok(items, j).kind),
                    },
                )
            },
        },
    }
}

// ---------------------------------------------------------------------
// Facts about the model
// ---------------------------------------------------------------------

proof fn lemma_skip_space(s: Seq<char>, i: int)
    requires
        0 <= i <= s.len(),
    ensures
        i <= skip_space(s, i) <= s.len(),
        skip_space(s, i) < s.len() ==> !is_unicode_whitespace(s[skip_space(s, i)]),
    decreases s.len() - i,
{
    if i < s.len() && is_unicode_whitespace(s[i]) {
        lemma_skip_space(s, i + 1);
    }
}

proof fn lemma_tag_end(s: Seq<char>, i: int)
    requires
        0 <= i <= s.len(),
    ensures
        i <= tag_end(s, i) <= s.len(),
        tag_end(s, i) < s.len() ==> !is_tag_char(s[tag_end(s, i)]),
        forall|k: int| i <= k < tag_end(s, i) ==> is_tag_char(#[trigger] s[k]),
    decreases s.len() - i,
{
    if i < s.len() && is_tag_char(s[i]) {
        lemma_tag_end(s, i + 1);
    }
}

proof fn lemma_word_end(s: Seq<char>, i: int)
    requires
        0 <= i <= s.len(),
    ensures
        i <= word_end(s, i) <= s.len(),
        word_end(s, i) < s.len() ==> !is_ascii_alpha(s[word_end(s, i)]),
    decreases s.len() - i,
{
    if i < s.len() && is_ascii_alpha(s[i]) {
        lemma_word_end(s, i + 1);
    }
}

/// Reading a token that is not `End` consumes at least one character.
proof fn lemma_lex_one(s: Seq<char>, i: int)
    requires
        0 <= i <= s.len(),
    ensures
        lex_one(s, i) matches Ok((t, j)) ==> (t.kind is End ==> j == s.len()) && (
        !(t.kind is End) ==> i < j <= s.len()),
{
    lemma_skip_space(s, i);
    let j = skip_space(s, i);
    if j < s.len() {
        if j + 2 <= s.len() {
            lemma_tag_end(s, j + 2);
        }
        lemma_word_end(s, j + 1);
    }
}

/// The reader's output is never empty; a failure or `End` comes last and
/// only there.
proof fn lemma_lex_from_shape(s: Seq<char>, i: int)
    requires
        0 <= i <= s.len(),
    ensures
        lex_from(s, i).len() >= 1,
        forall|m: int|
            0 <= m < lex_from(s, i).len() - 1 ==> (#[trigger] lex_from(s, i)[m] matches Item::Tok(
                t,
            ) && !(t.kind is End)),
        lex_from(s, i).last() matches Item::Tok(t) ==> t.kind is End,
    decreases s.len() - i,
{
    lemma_lex_one(s, i);
    match lex_one(s, i) {
        Err(e) => {},
        Ok((t, j)) => {
            if !(t.kind is End) {
                lemma_lex_from_shape(s, j);
                let rest = lex_from(s, j);
                assert forall|m: int| 0 <= m < lex_from(s, i).len() - 1 implies (#[trigger] lex_from(
                    s,
                    i,
                )[m] matches Item::Tok(t2) && !(t2.kind is End)) by {
                    if m > 0 {
                        assert(lex_from(s, i)[m] == rest[m - 1]);
                    }
                }
            }
        },
    }
}

/// A tag token read from `s`: a name made of `@` and at least one tag
/// character, spelled in `s` at the character index whose byte offset is
/// the token's start.
pub open spec fn tag_token_ok(s: Seq<char>, name: Seq<char>, start: int) -> bool {
    &&& name.len() >= 2
    &&& name[0] == '@'
    &&& forall|k: int| 1 <= k < name.len() ==> is_tag_char(#[trigger] name[k])
    &&& exists|j: int|
        0 <= j && j + name.len() <= s.len() && s.subrange(j, j + name.len()) == name
            && utf8_offset(s, j) == start
}

/// A token the reader yields from `s`: a tag token is spelled in `s`.
pub open spec fn token_ok(s: Seq<char>, t: STok) -> bool {
    t.kind matches TokKind::Tag(name) ==> tag_token_ok(s, name, t.start)
}

proof fn lemma_lex_from_tokens(s: Seq<char>, i: int)
    requires
        0 <= i <= s.len(),
    ensures
        forall|m: int|
            0 <= m < lex_from(s, i).len() ==> (#[trigger] lex_from(s, i)[m] matches Item::Tok(t)
                ==> token_ok(s, t) && t.start >= utf8_offset(s, i)),
        forall|m1: int, m2: int|
            #![trigger lex_from(s, i)[m1], lex_from(s, i)[m2]]
            0 <= m1 < m2 < lex_from(s, i).len() ==> (lex_from(s, i)[m1] matches Item::Tok(t1)
                ==> (lex_from(s, i)[m2] matches Item::Tok(t2) ==> t1.start < t2.start)),
        lex_from(s, i).len() >= 1,
        lex_from(s, i).last() matches Item::Tok(t) ==> t.kind is End && t.start == utf8_offset(
            s,
            s.len() as int,
        ),
    decreases s.len() - i,
{
    lemma_lex_one(s, i);
    lemma_skip_space(s, i);
    lemma_lex_from_shape(s, i);
    let j = skip_space(s, i);
    crate::text::lemma_offset_mono(s, i, j);
    let items = lex_from(s, i);
    match lex_one(s, i) {
        Err(_) => {},
        Ok((t, e)) => {
            if j < s.len() {
                assert(t.start == utf8_offset(s, j));
                crate::text::lemma_offset_step(s, j);
                if s[j] == '@' && j + 1 < s.len() && is_tag_char(s[j + 1]) {
                    lemma_tag_end(s, j + 2);
                    let name = s.subrange(j, e);
                    assert(t.kind == TokKind::Tag(name));
                    assert forall|k: int| 1 <= k < name.len() implies is_tag_char(
                        #[trigger] name[k],
                    ) by {
                        assert(name[k] == s[j + k]);
                    }
                    assert(s.subrange(j, j + name.len()) == name);
                }
            } else {
                crate::text::lemma_offset_mono(s, i, s.len() as int);
            }
            if !(t.kind is End) {
                assert(j < s.len());
                lemma_word_end(s, j + 1);
                if j + 2 <= s.len() {
                    lemma_tag_end(s, j + 2);
                }
                assert(e >= j + 1);
                lemma_lex_from_tokens(s, e);
                crate::text::lemma_offset_mono(s, j + 1, e);
                let rest = lex_from(s, e);
                assert(items == seq![Item::Tok(t)] + rest);
                assert forall|m: int| 0 <= m < items.len() implies (#[trigger] items[m] matches Item::Tok(
                    t2,
                ) ==> token_ok(s, t2) && t2.start >= utf8_offset(s, i)) by {
                    if m > 0 {
                        assert(items[m] == rest[m - 1]);
                    }
                }
                assert forall|m1: int, m2: int|
                    #![trigger items[m1], items[m2]]
                    0 <= m1 < m2 < items.len() implies (
                items[m1] matches Item::Tok(t1) ==> (items[m2] matches Item::Tok(t2) ==> t1.start
                    < t2.start)) by {
                    assert(items[m2] == rest[m2 - 1]);
                    if m1 > 0 {
                        assert(items[m1] == rest[m1 - 1]);
                    }
                }
                assert(items.last() == rest.last());
            }
        },
    }
}

/// What the token reader yields for any input: each tag token is `@`
/// followed by at least one tag character, spelled in the input where the
/// token starts; token starts strictly increase; and a stream that ends
/// without failure ends with `End` at the input's byte length, from where
/// reading again yields `End` at the same place.
pub proof fn law_token_stream(s: Seq<char>)
    ensures
        forall|m: int|
            0 <= m < lex_from(s, 0).len() ==> (#[trigger] lex_from(s, 0)[m] matches Item::Tok(t)
                ==> token_ok(s, t)),
        forall|m1: int, m2: int|
            #![trigger lex_from(s, 0)[m1], lex_from(s, 0)[m2]]
            0 <= m1 < m2 < lex_from(s, 0).len() ==> (lex_from(s, 0)[m1] matches Item::Tok(t1)
                ==> (lex_from(s, 0)[m2] matches Item::Tok(t2) ==> t1.start < t2.start)),
        lex_from(s, 0).last() matches Item::Tok(t) ==> t.kind is End && t.start == utf8_offset(
            s,
            s.len() as int,
        ),
        lex_one(s, s.len() as int) == Ok::<(STok, int), TErr>(
            (STok { kind: TokKind::End, start: utf8_offset(s, s.len() as int) as int }, s.len() as int),
        ),
{
    lemma_lex_from_tokens(s, 0);
}

/// Reading one token at position `i` (what a call of the lexer's
/// `next_token` does, from where the previous call stopped) yields the first
/// item of the stream from `i`, and the stream goes on from where the token
/// ends; a failure or `End` is the stream's last item. So the calls made on
/// a fresh lexer yield the stream from `0` in order.
pub proof fn law_reading_walks_the_stream(s: Seq<char>, i: int)
    requires
        0 <= i <= s.len(),
    ensures
        match lex_one(s, i) {
            Ok((t, j)) => if t.kind is End {
                lex_from(s, i) == seq![Item::Tok(t)]
            } else {
                i < j <= s.len() && lex_from(s, i) == seq![Item::Tok(t)] + lex_from(s, j)
            },
            Err(e) => lex_from(s, i) == seq![Item::Fail(e)],
        },
{
    lemma_lex_one(s, i);
}

/// Well-formed item sequences: a failure or `End` comes last and only there.
pub open spec fn items_ok(items: Seq<Item>) -> bool {
    &&& items.len() >= 1
    &&& forall|m: int|
        0 <= m < items.len() - 1 ==> (#[trigger] items[m] matches Item::Tok(t) && !(
        t.kind is End))
    &&& items.last() matches Item::Tok(t) ==> t.kind is End
}

/// Successful parses never move the current item backwards, and leave it
/// on a token.
pub proof fn lemma_q_primary_pos(items: Seq<Item>, k: int)
    requires
        items_ok(items),
        0 <= k < items.len(),
    ensures
        q_primary(items, k) matches Ok((_, j)) ==> k < j < items.len() && items[j] is Tok,
    decreases items.len() - k, 0int,
{
    let t = tok(items, k);
    match t.kind {
        TokKind::LParen => {
            if let Ok(k1) = step(items, k) {
                lemma_q_or_pos(items, k1);
            }
        },
        _ => {},
    }
}

pub proof fn lemma_q_not_pos(items: Seq<Item>, k: int)
    requires
        items_ok(items),
        0 <= k < items.len(),
    ensures
        q_not(items, k) matches Ok((_, j)) ==> k < j < items.len() && items[j] is Tok,
    decreases items.len() - k, 1int,
{
    if tok(items, k).kind is Not {
        if let Ok(k1) = step(items, k) {
            lemma_q_not_pos(items, k1);
        }
    } else {
        lemma_q_primary_pos(items, k);
    }
}

pub proof fn lemma_q_and_rest_pos(items: Seq<Item>, left: TagAst, k: int)
    requires
        items_ok(items),
        0 <= k < items.len(),
        items[k] is Tok,
    ensures
        q_and_rest(items, left, k) matches Ok((_, j)) ==> k <= j < items.len() && items[j] is Tok,
    decreases items.len() - k, 2int,
{
    if tok(items, k).kind is And {
        if let Ok(k1) = step(items, k) {
            if !lacks_operand(tok(items, k1).kind) {
                lemma_q_not_pos(items, k1);
                if let Ok((r, j)) = q_not(items, k1) {
                    lemma_q_and_rest_pos(items, TagAst::And(Box::new(left), Box::new(r)), j);
                }
            }
        }
    }
}

pub proof fn lemma_q_and_pos(items: Seq<Item>, k: int)
    requires
        items_ok(items),
        0 <= k < items.len(),
    ensures
        q_and(items, k) matches Ok((_, j)) ==> k < j < items.len() && items[j] is Tok,
    decreases items.len() - k, 3int,
{
    lemma_q_not_pos(items, k);
    if let Ok((l, j)) = q_not(items, k) {
        lemma_q_and_rest_pos(items, l, j);
    }
}

pub proof fn lemma_q_or_rest_pos(items: Seq<Item>, left: TagAst, k: int)
    requires
        items_ok(items),
        0 <= k < items.len(),
        items[k] is Tok,
    ensures
        q_or_rest(items, left, k) matches Ok((_, j)) ==> k <= j < items.len() && items[j] is Tok,
    decreases items.len() - k, 4int,
{
    if tok(items, k).kind is Or {
        if let Ok(k1) = step(items, k) {
            if !lacks_operand(tok(items, k1).kind) {
                lemma_q_and_pos(items, k1);
                if let Ok((r, j)) = q_and(items, k1) {
                    lemma_q_or_rest_pos(items, TagAst::Or(Box::new(left), Box::new(r)), j);
                }
            }
        }
    }
}

pub proof fn lemma_q_or_pos(items: Seq<Item>, k: int)
    requires
        items_ok(items),
        0 <= k < items.len(),
    ensures
        q_or(items, k) matches Ok((_, j)) ==> k < j < items.len() && items[j] is Tok,
    decreases items.len() - k, 5int,
{
    lemma_q_and_pos(items, k);
    if let Ok((l, j)) = q_and(items, k) {
        lemma_q_or_rest_pos(items, l, j);
    }
}

// ---------------------------------------------------------------------
// Executable lexer
// ---------------------------------------------------------------------

/// Parse error carrying the byte offset and reason for the failure.
#[derive(Debug)]
pub struct TagExprError {
    /// Byte offset at which parsing failed.
    pub offset: usize,
    /// Explanation of the parse failure.
    pub reason: String,
}

/// The executable error agrees with the model's error.
pub open spec fn terr_matches(e: TagExprError, t: TErr) -> bool {
    e.offset as int == t.offset && e.reason@ == t.reason
}

/// The text of an error: `invalid tag expression at byte {offset}: {reason}`.
pub open spec fn error_text(offset: nat, reason: Seq<char>) -> Seq<char> {
    "invalid tag expression at byte "@ + crate::text::decimal(offset) + ": "@ + reason
}

impl TagExprError {
    /// Construct an error from a byte offset and failure reason.
    pub fn new(offset: usize, reason: String) -> (r: Self)
        ensures
            r.offset == offset,
            r.reason == reason,
    {
        TagExprError { offset, reason }
    }

    /// The error's message, as its `Display` renders it.
    pub fn to_string(&self) -> (r: String)
        ensures
            r@ == error_text(self.offset as nat, self.reason@),
    {
        let mut r = crate::text::owned("invalid tag expression at byte ");
        let n = crate::text::usize_to_string(self.offset);
        crate::text::push_str(&mut r, n.as_str());
        crate::text::push_str(&mut r, ": ");
        crate::text::push_str(&mut r, self.reason.as_str());
        r
    }
}

/// The lexical forms recognised in a tag expression.
#[derive(Debug)]
pub enum TokenKind {
    /// A tag identifier, including its leading `@`.
    Tag(String),
    /// The conjunction keyword.
    And,
    /// The disjunction keyword.
    Or,
    /// The negation keyword.
    Not,
    /// An opening parenthesis.
    LParen,
    /// A closing parenthesis.
    RParen,
    /// The end of the input.
    End,
}

impl View for TokenKind {
    type V = TokKind;

    open spec fn view(&self) -> TokKind {
        match self {
            TokenKind::Tag(t) => TokKind::Tag(t@),
            TokenKind::And => TokKind::And,
            TokenKind::Or => TokKind::Or,
            TokenKind::Not => TokKind::Not,
            TokenKind::LParen => TokKind::LParen,
            TokenKind::RParen => TokKind::RParen,
            TokenKind::End => TokKind::End,
        }
    }
}

/// A token and its byte offset in the source expression.
#[derive(Debug)]
pub struct Token {
    /// The syntactic kind represented by this token.
    pub kind: TokenKind,
    /// The token's starting byte offset in the input.
    pub start: usize,
}

impl View for Token {
    type V = STok;

    open spec fn view(&self) -> STok {
        STok { kind: self.kind@, start: self.start as int }
    }
}

impl Token {
    /// Render the token for inclusion in parser diagnostics.
    pub fn describe(&self) -> (r: String)
        ensures
            r@ == describe(self.kind@),
    {
        match &self.kind {
            TokenKind::Tag(tag) => crate::text::owned(tag.as_str()),
            TokenKind::And => crate::text::owned("'and'"),
            TokenKind::Or => crate::text::owned("'or'"),
            TokenKind::Not => crate::text::owned("'not'"),
            TokenKind::LParen => crate::text::owned("'('"),
            TokenKind::RParen => crate::text::owned("')'"),
            TokenKind::End => crate::text::owned("<end>"),
        }
    }
}

/// Return whether a character may occur in a tag identifier.
pub fn is_tag_char_exec(ch: char) -> (r: bool)
    ensures
        r == is_tag_char(ch),
{
    ('a' <= ch && ch <= 'z') || ('A' <= ch && ch <= 'Z') || ('0' <= ch && ch <= '9') || ch == '_'
        || ch == '-'
}

fn is_alpha_exec(ch: char) -> (r: bool)
    ensures
        r == is_ascii_alpha(ch),
{
    ('a' <= ch && ch <= 'z') || ('A' <= ch && ch <= 'Z')
}

/// Whether the ASCII lower-casing of `w` is `kw`.
fn lower_is(w: &[char], kw: &str) -> (r: bool)
    ensures
        r == (ascii_lower_seq(w@) == kw@),
{
    let k = crate::text::chars_of(kw);
    if w.len() != k.len() {
        return false;
    }
    let mut i: usize = 0;
    while i < w.len()
        invariant
            w.len() == k.len(),
            k@ == kw@,
            i <= w.len(),
            forall|m: int| 0 <= m < i ==> crate::text::ascii_lower(w@[m]) == k@[m],
        decreases w.len() - i,
    {
        if crate::text::to_ascii_lower(w[i]) != k[i] {
            assert(ascii_lower_seq(w@)[i as int] != kw@[i as int]);
            return false;
        }
        i += 1;
    }
    assert(ascii_lower_seq(w@) =~= kw@);
    true
}

/// Stateful lexer for tag-expression source text.
struct Lexer {
    /// The characters of the source expression.
    chars: Vec<char>,
    /// Index of the next unread character.
    pos: usize,
    /// Byte offset of the next unread character.
    bpos: usize,
    /// Byte length of the whole input.
    total: usize,
}

impl Lexer {
    /// The lexer reads `s` and its byte bookkeeping is consistent.
    spec fn wf(&self, s: Seq<char>) -> bool {
        &&& self.chars@ == s
        &&& self.pos <= s.len()
        &&& self.bpos as int == utf8_offset(s, self.pos as int)
        &&& self.total as int == utf8_offset(s, s.len() as int)
    }

    /// Create a lexer positioned at the start of `input`.
    fn new(input: &str) -> (r: Self)
        ensures
            r.wf(input@),
            r.pos == 0,
    {
        let chars = crate::text::chars_of(input);
        let total = input.as_bytes().len();
        proof {
            lemma_offset_end(input@);
        }
        Lexer { chars, pos: 0, bpos: 0, total }
    }

    fn bump(&mut self)
        requires
            old(self).wf(old(self).chars@),
            old(self).pos < old(self).chars.len(),
        ensures
            final(self).wf(old(self).chars@),
            final(self).pos == old(self).pos + 1,
            final(self).bpos == old(self).bpos + crate::text::utf8_width(
                old(self).chars@[old(self).pos as int],
            ),
            final(self).chars == old(self).chars,
    {
        proof {
            lemma_offset_step(self.chars@, self.pos as int);
            crate::text::lemma_offset_mono(self.chars@, self.pos + 1, self.chars@.len() as int);
        }
        let w = crate::text::char_width(self.chars[self.pos]);
        self.bpos = self.bpos + w;
        self.pos = self.pos + 1;
    }

    fn skip_whitespace(&mut self)
        requires
            old(self).wf(old(self).chars@),
        ensures
            final(self).wf(old(self).chars@),
            final(self).chars == old(self).chars,
            final(self).pos as int == skip_space(old(self).chars@, old(self).pos as int),
    {
        proof {
            lemma_skip_space(self.chars@, self.pos as int);
        }
        while self.pos < self.chars.len() && crate::text::is_whitespace_char(self.chars[self.pos])
            invariant
                self.wf(old(self).chars@),
                self.chars == old(self).chars,
                old(self).pos <= self.pos,
                skip_space(self.chars@, self.pos as int) == skip_space(
                    old(self).chars@,
                    old(self).pos as int,
                ),
            decreases self.chars.len() - self.pos,
        {
            self.bump();
        }
    }

    /// Return the next token, or a diagnostic for malformed input.
    fn next_token(&mut self) -> (r: Result<Token, TagExprError>)
        requires
            old(self).wf(old(self).chars@),
        ensures
            final(self).wf(old(self).chars@),
            final(self).chars == old(self).chars,
            match lex_one(old(self).chars@, old(self).pos as int) {
                Ok((t, j)) => r matches Ok(x) && x@ == t && final(self).pos as int == j,
                Err(e) => r matches Err(x) && terr_matches(x, e),
            },
    {
        let ghost s = self.chars@;
        self.skip_whitespace();
        proof {
            lemma_skip_space(s, old(self).pos as int);
        }
        if self.pos >= self.chars.len() {
            return Ok(Token { kind: TokenKind::End, start: self.total });
        }
        let start = self.bpos;
        let first = self.pos;
        let ch = self.chars[self.pos];
        self.bump();
        if ch == '@' {
            self.lex_tag(start, first)
        } else if ch == '(' {
            Ok(Token { kind: TokenKind::LParen, start })
        } else if ch == ')' {
            Ok(Token { kind: TokenKind::RParen, start })
        } else if is_alpha_exec(ch) {
            self.lex_keyword(start, first)
        } else {
            let mut reason = crate::text::owned("unexpected character '");
            crate::text::push_char(&mut reason, ch);
            crate::text::push_str(&mut reason, "'");
            Err(TagExprError::new(start, reason))
        }
    }

    fn lex_tag(&mut self, start: usize, first: usize) -> (r: Result<Token, TagExprError>)
        requires
            old(self).wf(old(self).chars@),
            first + 1 == old(self).pos,
            old(self).chars@[first as int] == '@',
            start as int == utf8_offset(old(self).chars@, first as int),
        ensures
            final(self).wf(old(self).chars@),
            final(self).chars == old(self).chars,
            match lex_one_at_tag(old(self).chars@, first as int, start as int) {
                Ok((t, j)) => r matches Ok(x) && x@ == t && final(self).pos as int == j,
                Err(e) => r matches Err(x) && terr_matches(x, e),
            },
    {
        let ghost s = self.chars@;
        proof {
            lemma_offset_step(s, first as int);
        }
        if self.pos >= self.chars.len() || !is_tag_char_exec(self.chars[self.pos]) {
            return Err(
                TagExprError::new(self.bpos, crate::text::owned("expected tag name after '@'")),
            );
        }
        self.bump();
        proof {
            lemma_tag_end(s, self.pos as int);
        }
        while self.pos < self.chars.len() && is_tag_char_exec(self.chars[self.pos])
            invariant
                self.wf(s),
                self.chars == old(self).chars,
                first + 2 <= self.pos,
                tag_end(s, self.pos as int) == tag_end(s, first + 2),
            decreases self.chars.len() - self.pos,
        {
            self.bump();
        }
        let tag = crate::text::string_from_range(self.chars.as_slice(), first, self.pos);
        Ok(Token { kind: TokenKind::Tag(tag), start })
    }

    fn lex_keyword(&mut self, start: usize, first: usize) -> (r: Result<Token, TagExprError>)
        requires
            old(self).wf(old(self).chars@),
            first + 1 == old(self).pos,
            is_ascii_alpha(old(self).chars@[first as int]),
            start as int == utf8_offset(old(self).chars@, first as int),
        ensures
            final(self).wf(old(self).chars@),
            final(self).chars == old(self).chars,
            match lex_one_at_word(old(self).chars@, first as int, start as int) {
                Ok((t, j)) => r matches Ok(x) && x@ == t && final(self).pos as int == j,
                Err(e) => r matches Err(x) && terr_matches(x, e),
            },
    {
        let ghost s = self.chars@;
        proof {
            lemma_word_end(s, self.pos as int);
        }
        while self.pos < self.chars.len() && is_alpha_exec(self.chars[self.pos])
            invariant
                self.wf(s),
                self.chars == old(self).chars,
                first + 1 <= self.pos,
                word_end(s, self.pos as int) == word_end(s, first + 1),
            decreases self.chars.len() - self.pos,
        {
            self.bump();
        }
        let end = self.pos;
        let ghost w = s.subrange(first as int, end as int);
        let mut kw: Vec<char> = Vec::new();
        let mut i: usize = first;
        while i < end
            invariant
                self.chars == old(self).chars,
                self.chars@ == s,
                first <= i <= end <= s.len(),
                kw@ == s.subrange(first as int, i as int),
            decreases end - i,
        {
            kw.push(self.chars[i]);
            i += 1;
            assert(s.subrange(first as int, i as int) =~= s.subrange(first as int, i - 1).push(
                s[i - 1],
            ));
        }
        if lower_is(kw.as_slice(), "and") {
            Ok(Token { kind: TokenKind::And, start })
        } else if lower_is(kw.as_slice(), "or") {
            Ok(Token { kind: TokenKind::Or, start })
        } else if lower_is(kw.as_slice(), "not") {
            Ok(Token { kind: TokenKind::Not, start })
        } else {
            let mut reason = crate::text::owned("unexpected identifier '");
            let wstr = crate::text::string_from_chars(kw.as_slice());
            crate::text::push_str(&mut reason, wstr.as_str());
            crate::text::push_str(&mut reason, "'");
            Err(TagExprError::new(start, reason))
        }
    }
}

/// [`lex_one`] once an `@` has been found at character index `j` whose
/// byte offset is `start`.
pub open spec fn lex_one_at_tag(s: Seq<char>, j: int, start: int) -> Result<(STok, int), TErr> {
    if j + 1 < s.len() && is_tag_char(s[j + 1]) {
        let e = tag_end(s, j + 2);
        Ok((STok { kind: TokKind::Tag(s.subrange(j, e)), start }, e))
    } else {
        Err(TErr { offset: start + 1, reason: "expected tag name after '@'"@ })
    }
}

/// [`lex_one`] once an ASCII letter has been found at character index `j`
/// whose byte offset is `start`.
pub open spec fn lex_one_at_word(s: Seq<char>, j: int, start: int) -> Result<(STok, int), TErr> {
    let e = word_end(s, j + 1);
    let w = s.subrange(j, e);
    let lw = ascii_lower_seq(w);
    if lw == "and"@ {
        Ok((STok { kind: TokKind::And, start }, e))
    } else if lw == "or"@ {
        Ok((STok { kind: TokKind::Or, start }, e))
    } else if lw == "not"@ {
        Ok((STok { kind: TokKind::Not, start }, e))
    } else {
        Err(TErr { offset: start, reason: "unexpected identifier '"@ + w + "'"@ })
    }
}

// ---------------------------------------------------------------------
// Executable parser
// ---------------------------------------------------------------------

/// Node in the parsed tag-expression tree.
#[derive(Debug)]
pub enum Expr {
    /// Predicate matching one tag (with its leading `@`).
    Tag(String),
    /// Negation of a nested expression.
    Not(Box<Expr>),
    /// Conjunction of two expressions.
    And(Box<Expr>, Box<Expr>),
    /// Disjunction of two expressions.
    Or(Box<Expr>, Box<Expr>),
}

/// The mathematical tree of an [`Expr`].
pub open spec fn node_view(e: &Expr) -> TagAst
    decreases e,
{
    match e {
        Expr::Tag(t) => TagAst::Tag(t@),
        Expr::Not(x) => TagAst::Not(Box::new(node_view(x))),
        Expr::And(l, r) => TagAst::And(Box::new(node_view(l)), Box::new(node_view(r))),
        Expr::Or(l, r) => TagAst::Or(Box::new(node_view(l)), Box::new(node_view(r))),
    }
}

impl View for Expr {
    type V = TagAst;

    open spec fn view(&self) -> TagAst {
        node_view(self)
    }
}

/// Whether `tag` is one of `tags`.
fn has_tag(tags: &[&str], tag: &str) -> (r: bool)
    ensures
        r == str_set(tags@).contains(tag@),
{
    let mut i: usize = 0;
    while i < tags.len()
        invariant
            i <= tags.len(),
            forall|k: int| 0 <= k < i ==> tags@[k]@ != tag@,
        decreases tags.len() - i,
    {
        if crate::text::str_eq(tags[i], tag) {
            assert(str_set(tags@).contains(tag@)) by {
                assert(tags@[i as int]@ == tag@);
            }
            return true;
        }
        i += 1;
    }
    false
}

/// Whether `tag` is one of the owned `tags`.
fn has_tag_string(tags: &[String], tag: &String) -> (r: bool)
    ensures
        r == string_set(tags@).contains(tag@),
{
    let mut i: usize = 0;
    while i < tags.len()
        invariant
            i <= tags.len(),
            forall|k: int| 0 <= k < i ==> tags@[k]@ != tag@,
        decreases tags.len() - i,
    {
        if tags[i] == *tag {
            assert(string_set(tags@).contains(tag@)) by {
                assert(tags@[i as int]@ == tag@);
            }
            return true;
        }
        i += 1;
    }
    false
}

impl Expr {
    /// Evaluate against a set of owned tags (with their leading `@`).
    pub fn eval_strings(&self, tags: &[String]) -> (r: bool)
        ensures
            r == ast_eval(self@, string_set(tags@)),
        decreases self,
    {
        match self {
            Expr::Tag(tag) => has_tag_string(tags, tag),
            Expr::Not(inner) => !inner.eval_strings(tags),
            Expr::And(lhs, rhs) => lhs.eval_strings(tags) && rhs.eval_strings(tags),
            Expr::Or(lhs, rhs) => lhs.eval_strings(tags) || rhs.eval_strings(tags),
        }
    }

    /// Evaluate against a set of tags (with their leading `@`).
    pub fn eval(&self, tags: &[&str]) -> (r: bool)
        ensures
            r == ast_eval(self@, str_set(tags@)),
        decreases self,
    {
        match self {
            Expr::Tag(tag) => has_tag(tags, tag.as_str()),
            Expr::Not(inner) => !inner.eval(tags),
            Expr::And(lhs, rhs) => lhs.eval(tags) && rhs.eval(tags),
            Expr::Or(lhs, rhs) => lhs.eval(tags) || rhs.eval(tags),
        }
    }
}

/// The executable outcome agrees with the model's, and on success the
/// parser is consistent and on item `j`.
spec fn q_matches(r: Result<Expr, TagExprError>, p: Parser, s: QRes) -> bool {
    match s {
        Ok((e, j)) => r matches Ok(x) && x@ == e && p.k@ == j && p.inv(),
        Err(te) => r matches Err(x) && terr_matches(x, te),
    }
}

/// Recursive-descent parser for a tag-expression token stream.
struct Parser {
    lexer: Lexer,
    current: Token,
    items: Ghost<Seq<Item>>,
    k: Ghost<int>,
}

impl Parser {
    /// The characters being parsed.
    spec fn source(&self) -> Seq<char> {
        self.lexer.chars@
    }

    /// All items of the input, read in order.
    spec fn all_items(&self) -> Seq<Item> {
        self.items@
    }

    /// The parser's state agrees with reading the input item by item.
    spec fn inv(&self) -> bool {
        let s = self.lexer.chars@;
        &&& self.lexer.wf(s)
        &&& self.items@ == lex_from(s, 0)
        &&& items_ok(self.items@)
        &&& 0 <= self.k@ < self.items@.len()
        &&& self.items@[self.k@] == Item::Tok(self.current@)
        &&& !(self.current@.kind is End) ==> lex_from(s, self.lexer.pos as int)
            == self.items@.subrange(self.k@ + 1, self.items@.len() as int)
    }

    /// Create a parser and read its first token.
    fn new(input: &str) -> (r: Result<Self, TagExprError>)
        ensures
            match lex_from(input@, 0)[0] {
                Item::Fail(e) => r matches Err(x) && terr_matches(x, e),
                Item::Tok(t) => r matches Ok(p) && p.inv() && p.k@ == 0 && p.source() == input@
                    && p.all_items() == lex_from(input@, 0),
            },
    {
        let mut lexer = Lexer::new(input);
        let ghost s = input@;
        proof {
            lemma_lex_from_shape(s, 0);
            lemma_lex_one(s, 0);
        }
        let current = match lexer.next_token() {
            Err(e) => return Err(e),
            Ok(t) => t,
        };
        let ghost items = lex_from(s, 0);
        proof {
            if !(current@.kind is End) {
                assert(items =~= seq![Item::Tok(current@)] + lex_from(s, lexer.pos as int));
                assert(items.subrange(1, items.len() as int) =~= lex_from(s, lexer.pos as int));
            }
        }
        Ok(Parser { lexer, current, items: Ghost(items), k: Ghost(0) })
    }

    /// Replace the current token with the next token from the lexer; give
    /// back the token that was current.
    fn advance(&mut self) -> (r: Result<Token, TagExprError>)
        requires
            old(self).inv(),
            !(old(self).current@.kind is End),
        ensures
            final(self).items == old(self).items,
            match step(old(self).items@, old(self).k@) {
                Err(e) => r matches Err(x) && terr_matches(x, e),
                Ok(k1) => r matches Ok(t) && t@ == old(self).current@ && final(self).inv()
                    && final(self).k@ == k1,
            },
    {
        let ghost s = self.lexer.chars@;
        let ghost pos = self.lexer.pos as int;
        let ghost items = self.items@;
        let ghost k = self.k@;
        proof {
            lemma_lex_one(s, pos);
            assert(items.subrange(k + 1, items.len() as int)[0] == items[k + 1]);
        }
        let next = match self.lexer.next_token() {
            Err(e) => return Err(e),
            Ok(t) => t,
        };
        let mut old_tok = next;
        std::mem::swap(&mut self.current, &mut old_tok);
        self.k = Ghost(k + 1);
        proof {
            if !(self.current@.kind is End) {
                let rest = lex_from(s, self.lexer.pos as int);
                assert(lex_from(s, pos) =~= seq![Item::Tok(self.current@)] + rest);
                assert(items.subrange(k + 2, items.len() as int) =~= items.subrange(
                    k + 1,
                    items.len() as int,
                ).subrange(1, items.len() - k - 1));
                assert(rest =~= lex_from(s, pos).subrange(1, lex_from(s, pos).len() as int));
            }
        }
        Ok(old_tok)
    }

    /// Parse a complete tag expression.
    fn parse_expression(&mut self) -> (r: Result<Expr, TagExprError>)
        requires
            old(self).inv(),
        ensures
            final(self).items == old(self).items,
            q_matches(r, *final(self), q_or(old(self).items@, old(self).k@)),
        decreases old(self).items@.len() - old(self).k@, 6int,
    {
        self.parse_or()
    }

    /// Ensure that parsing consumed the entire input expression.
    fn expect_end(&self) -> (r: Result<(), TagExprError>)
        requires
            self.inv(),
        ensures
            tok(self.items@, self.k@).kind is End ==> r is Ok,
            !(tok(self.items@, self.k@).kind is End) ==> (r matches Err(x) && x.offset as int
                == tok(self.items@, self.k@).start && x.reason@ == "unexpected token "@ + describe(
                tok(self.items@, self.k@).kind,
            )),
    {
        match &self.current.kind {
            TokenKind::End => Ok(()),
            _ => {
                let mut reason = crate::text::owned("unexpected token ");
                let d = self.current.describe();
                crate::text::push_str(&mut reason, d.as_str());
                Err(TagExprError::new(self.current.start, reason))
            },
        }
    }

    fn parse_or(&mut self) -> (r: Result<Expr, TagExprError>)
        requires
            old(self).inv(),
        ensures
            final(self).items == old(self).items,
            q_matches(r, *final(self), q_or(old(self).items@, old(self).k@)),
        decreases old(self).items@.len() - old(self).k@, 5int,
    {
        proof {
            lemma_q_and_pos(self.items@, self.k@);
        }
        let node = match self.parse_and() {
            Err(e) => return Err(e),
            Ok(n) => n,
        };
        self.parse_or_rest(node)
    }

    fn parse_or_rest(&mut self, left: Expr) -> (r: Result<Expr, TagExprError>)
        requires
            old(self).inv(),
        ensures
            final(self).items == old(self).items,
            q_matches(r, *final(self), q_or_rest(old(self).items@, left@, old(self).k@)),
        decreases old(self).items@.len() - old(self).k@, 4int,
    {
        match &self.current.kind {
            TokenKind::Or => {},
            _ => return Ok(left),
        }
        match self.advance() {
            Err(e) => return Err(e),
            Ok(_) => {},
        }
        proof {
            reveal_strlit("expected tag or '(' after '");
            reveal_strlit("or");
            reveal_strlit("'");
            reveal_strlit("expected tag or '(' after 'or'");
            assert("expected tag or '(' after '"@ + "or"@ + "'"@
                =~= "expected tag or '(' after 'or'"@);
        }
        match self.ensure_operand("or") {
            Err(e) => return Err(e),
            Ok(()) => {},
        }
        let ghost k1 = self.k@;
        proof {
            lemma_q_and_pos(self.items@, k1);
        }
        let rhs = match self.parse_and() {
            Err(e) => return Err(e),
            Ok(n) => n,
        };
        self.parse_or_rest(Expr::Or(Box::new(left), Box::new(rhs)))
    }

    fn parse_and(&mut self) -> (r: Result<Expr, TagExprError>)
        requires
            old(self).inv(),
        ensures
            final(self).items == old(self).items,
            q_matches(r, *final(self), q_and(old(self).items@, old(self).k@)),
        decreases old(self).items@.len() - old(self).k@, 3int,
    {
        proof {
            lemma_q_not_pos(self.items@, self.k@);
        }
        let node = match self.parse_not() {
            Err(e) => return Err(e),
            Ok(n) => n,
        };
        self.parse_and_rest(node)
    }

    fn parse_and_rest(&mut self, left: Expr) -> (r: Result<Expr, TagExprError>)
        requires
            old(self).inv(),
        ensures
            final(self).items == old(self).items,
            q_matches(r, *final(self), q_and_rest(old(self).items@, left@, old(self).k@)),
        decreases old(self).items@.len() - old(self).k@, 2int,
    {
        match &self.current.kind {
            TokenKind::And => {},
            _ => return Ok(left),
        }
        match self.advance() {
            Err(e) => return Err(e),
            Ok(_) => {},
        }
        proof {
            reveal_strlit("expected tag or '(' after '");
            reveal_strlit("and");
            reveal_strlit("'");
            reveal_strlit("expected tag or '(' after 'and'");
            assert("expected tag or '(' after '"@ + "and"@ + "'"@
                =~= "expected tag or '(' after 'and'"@);
        }
        match self.ensure_operand("and") {
            Err(e) => return Err(e),
            Ok(()) => {},
        }
        let ghost k1 = self.k@;
        proof {
            lemma_q_not_pos(self.items@, k1);
        }
        let rhs = match self.parse_not() {
            Err(e) => return Err(e),
            Ok(n) => n,
        };
        self.parse_and_rest(Expr::And(Box::new(left), Box::new(rhs)))
    }

    fn parse_not(&mut self) -> (r: Result<Expr, TagExprError>)
        requires
            old(self).inv(),
        ensures
            final(self).items == old(self).items,
            q_matches(r, *final(self), q_not(old(self).items@, old(self).k@)),
        decreases old(self).items@.len() - old(self).k@, 1int,
    {
        match &self.current.kind {
            TokenKind::Not => {},
            _ => return self.parse_primary(),
        }
        match self.advance() {
            Err(e) => return Err(e),
            Ok(_) => {},
        }
        match self.parse_not() {
            Err(e) => Err(e),
            Ok(operand) => Ok(Expr::Not(Box::new(operand))),
        }
    }

    fn parse_primary(&mut self) -> (r: Result<Expr, TagExprError>)
        requires
            old(self).inv(),
        ensures
            final(self).items == old(self).items,
            q_matches(r, *final(self), q_primary(old(self).items@, old(self).k@)),
        decreases old(self).items@.len() - old(self).k@, 0int,
    {
        let start = self.current.start;
        match &self.current.kind {
            TokenKind::Tag(_) => {
                let t = match self.advance() {
                    Err(e) => return Err(e),
                    Ok(t) => t,
                };
                match t.kind {
                    TokenKind::Tag(name) => Ok(Expr::Tag(name)),
                    _ => Err(TagExprError::new(start, String::new())),
                }
            },
            TokenKind::LParen => {
                match self.advance() {
                    Err(e) => return Err(e),
                    Ok(_) => {},
                }
                let ghost k1 = self.k@;
                proof {
                    lemma_q_or_pos(self.items@, k1);
                }
                let expr = match self.parse_expression() {
                    Err(e) => return Err(e),
                    Ok(x) => x,
                };
                match &self.current.kind {
                    TokenKind::RParen => {
                        match self.advance() {
                            Err(e) => Err(e),
                            Ok(_) => Ok(expr),
                        }
                    },
                    _ => Err(TagExprError::new(start, crate::text::owned("missing ')'"))),
                }
            },
            TokenKind::End => Err(
                TagExprError::new(start, crate::text::owned("expected tag or '('")),
            ),
            _ => {
                let mut reason = crate::text::owned("expected tag or '(' but found ");
                let d = self.current.describe();
                crate::text::push_str(&mut reason, d.as_str());
                Err(TagExprError::new(start, reason))
            },
        }
    }

    /// Reject an operator chain that is not followed by an operand.
    fn ensure_operand(&self, name: &str) -> (r: Result<(), TagExprError>)
        requires
            self.inv(),
        ensures
            !lacks_operand(tok(self.items@, self.k@).kind) ==> r is Ok,
            lacks_operand(tok(self.items@, self.k@).kind) ==> (r matches Err(x) && x.offset as int
                == tok(self.items@, self.k@).start && x.reason@ == "expected tag or '(' after '"@
                + name@ + "'"@),
    {
        match &self.current.kind {
            TokenKind::Or | TokenKind::And | TokenKind::RParen | TokenKind::End => {
                let mut reason = crate::text::owned("expected tag or '(' after '");
                crate::text::push_str(&mut reason, name);
                crate::text::push_str(&mut reason, "'");
                Err(TagExprError::new(self.current.start, reason))
            },
            _ => Ok(()),
        }
    }
}

/// Parsed representation of a tag expression.
#[derive(Debug)]
pub struct TagExpression {
    /// Root node of the parsed tag-expression tree.
    root: Expr,
}

impl View for TagExpression {
    type V = TagAst;

    closed spec fn view(&self) -> TagAst {
        self.root@
    }
}

impl TagExpression {
    /// Parse a tag expression; the result is exactly what the grammar and
    /// the token reader give (see [`spec_parse`]).
    pub fn parse(input: &str) -> (r: Result<Self, TagExprError>)
        ensures
            match spec_parse(input@) {
                Ok(e) => r matches Ok(x) && x@ == e,
                Err(te) => r matches Err(x) && terr_matches(x, te),
            },
    {
        let mut parser = match Parser::new(input) {
            Err(e) => return Err(e),
            Ok(p) => p,
        };
        let root = match parser.parse_expression() {
            Err(e) => return Err(e),
            Ok(r) => r,
        };
        match parser.expect_end() {
            Err(e) => return Err(e),
            Ok(()) => {},
        }
        Ok(TagExpression { root })
    }

    /// Evaluate against tags given with their leading `@`.
    pub fn evaluate(&self, tags: &[&str]) -> (r: bool)
        ensures
            r == ast_eval(self@, str_set(tags@)),
    {
        self.root.eval(tags)
    }

    /// Evaluate against owned tags given with their leading `@`.
    pub fn evaluate_strings(&self, tags: &[String]) -> (r: bool)
        ensures
            r == ast_eval(self@, string_set(tags@)),
    {
        self.root.eval_strings(tags)
    }
}

// ---------------------------------------------------------------------
// Laws of the grammar

/// Items made of tokens of the given kinds (offsets play no part in the
/// tree).
pub open spec fn token_items(kinds: Seq<TokKind>) -> Seq<Item> {
    kinds.map_values(|k: TokKind| Item::Tok(STok { kind: k, start: 0 }))
}

pub open spec fn tag(a: Seq<char>) -> TagAst {
    TagAst::Tag(a)
}

pub open spec fn and(l: TagAst, r: TagAst) -> TagAst {
    TagAst::And(Box::new(l), Box::new(r))
}

pub open spec fn or(l: TagAst, r: TagAst) -> TagAst {
    TagAst::Or(Box::new(l), Box::new(r))
}

pub open spec fn parsed(e: TagAst, next: int) -> QRes {
    Ok((e, next))
}

/// A tag token followed by a token parses to the tag, at every level
/// below `and`.
proof fn lemma_tag_operand(items: Seq<Item>, k: int, a: Seq<char>)
    requires
        0 <= k,
        k + 1 < items.len(),
        items[k] == Item::Tok(STok { kind: TokKind::Tag(a), start: 0 }),
        items[k + 1] is Tok,
    ensures
        q_primary(items, k) == parsed(tag(a), k + 1),
        q_not(items, k) == parsed(tag(a), k + 1),
{
}

/// `and` binds tighter than `or`: `a or b and c` is `a or (b and c)`.
pub proof fn law_and_binds_tighter_than_or(a: Seq<char>, b: Seq<char>, c: Seq<char>)
    ensures
        q_or(
            token_items(
                seq![TokKind::Tag(a), TokKind::Or, TokKind::Tag(b), TokKind::And, TokKind::Tag(c), TokKind::End],
            ),
            0,
        ) == parsed(or(tag(a), and(tag(b), tag(c))), 5),
{
    let items = token_items(
        seq![TokKind::Tag(a), TokKind::Or, TokKind::Tag(b), TokKind::And, TokKind::Tag(c), TokKind::End],
    );
    reveal_with_fuel(q_or_rest, 3);
    reveal_with_fuel(q_and_rest, 3);
    lemma_tag_operand(items, 0, a);
    lemma_tag_operand(items, 2, b);
    lemma_tag_operand(items, 4, c);
    assert(q_and(items, 0) == parsed(tag(a), 1));
    assert(q_and_rest(items, and(tag(b), tag(c)), 5) == parsed(and(tag(b), tag(c)), 5));
    assert(q_and(items, 2) == parsed(and(tag(b), tag(c)), 5));
}

/// `and` associates to the left: `a and b and c` is `(a and b) and c`.
pub proof fn law_and_associates_left(a: Seq<char>, b: Seq<char>, c: Seq<char>)
    ensures
        q_or(
            token_items(
                seq![TokKind::Tag(a), TokKind::And, TokKind::Tag(b), TokKind::And, TokKind::Tag(c), TokKind::End],
            ),
            0,
        ) == parsed(and(and(tag(a), tag(b)), tag(c)), 5),
{
    let items = token_items(
        seq![TokKind::Tag(a), TokKind::And, TokKind::Tag(b), TokKind::And, TokKind::Tag(c), TokKind::End],
    );
    reveal_with_fuel(q_and_rest, 3);
    lemma_tag_operand(items, 0, a);
    lemma_tag_operand(items, 2, b);
    lemma_tag_operand(items, 4, c);
    let ab = and(tag(a), tag(b));
    let abc = and(ab, tag(c));
    assert(q_and_rest(items, abc, 5) == parsed(abc, 5));
    assert(q_and_rest(items, ab, 3) == parsed(abc, 5));
    assert(q_and(items, 0) == parsed(abc, 5));
}

/// `or` associates to the left: `a or b or c` is `(a or b) or c`.
pub proof fn law_or_associates_left(a: Seq<char>, b: Seq<char>, c: Seq<char>)
    ensures
        q_or(
            token_items(
                seq![TokKind::Tag(a), TokKind::Or, TokKind::Tag(b), TokKind::Or, TokKind::Tag(c), TokKind::End],
            ),
            0,
        ) == parsed(or(or(tag(a), tag(b)), tag(c)), 5),
{
    let items = token_items(
        seq![TokKind::Tag(a), TokKind::Or, TokKind::Tag(b), TokKind::Or, TokKind::Tag(c), TokKind::End],
    );
    reveal_with_fuel(q_or_rest, 3);
    lemma_tag_operand(items, 0, a);
    lemma_tag_operand(items, 2, b);
    lemma_tag_operand(items, 4, c);
    assert(q_and(items, 0) == parsed(tag(a), 1));
    assert(q_and(items, 2) == parsed(tag(b), 3));
    assert(q_and(items, 4) == parsed(tag(c), 5));
    let ab = or(tag(a), tag(b));
    let abc = or(ab, tag(c));
    assert(q_or_rest(items, abc, 5) == parsed(abc, 5));
    assert(q_or_rest(items, ab, 3) == parsed(abc, 5));
}

/// `not` binds tighter than `and`: `not a and b` is `(not a) and b`.
pub proof fn law_not_binds_tighter_than_and(a: Seq<char>, b: Seq<char>)
    ensures
        q_or(
            token_items(seq![TokKind::Not, TokKind::Tag(a), TokKind::And, TokKind::Tag(b), TokKind::End]),
            0,
        ) == parsed(and(TagAst::Not(Box::new(tag(a))), tag(b)), 4),
{
    let items = token_items(
        seq![TokKind::Not, TokKind::Tag(a), TokKind::And, TokKind::Tag(b), TokKind::End],
    );
    reveal_with_fuel(q_and_rest, 3);
    lemma_tag_operand(items, 1, a);
    lemma_tag_operand(items, 3, b);
    let na = TagAst::Not(Box::new(tag(a)));
    assert(q_not(items, 0) == parsed(na, 2));
    let e = and(na, tag(b));
    assert(q_and_rest(items, e, 4) == parsed(e, 4));
    assert(q_and(items, 0) == parsed(e, 4));
}

/// Parentheses override precedence: `(a or b) and c` groups the `or`.
pub proof fn law_parentheses_group(a: Seq<char>, b: Seq<char>, c: Seq<char>)
    ensures
        q_or(
            token_items(
                seq![TokKind::LParen, TokKind::Tag(a), TokKind::Or, TokKind::Tag(b), TokKind::RParen, TokKind::And, TokKind::Tag(c), TokKind::End],
            ),
            0,
        ) == parsed(and(or(tag(a), tag(b)), tag(c)), 7),
{
    let items = token_items(
        seq![TokKind::LParen, TokKind::Tag(a), TokKind::Or, TokKind::Tag(b), TokKind::RParen, TokKind::And, TokKind::Tag(c), TokKind::End],
    );
    reveal_with_fuel(q_or_rest, 3);
    reveal_with_fuel(q_and_rest, 3);
    lemma_tag_operand(items, 1, a);
    lemma_tag_operand(items, 3, b);
    lemma_tag_operand(items, 6, c);
    assert(q_and_rest(items, tag(a), 2) == parsed(tag(a), 2));
    assert(q_and(items, 1) == parsed(tag(a), 2));
    assert(q_and_rest(items, tag(b), 4) == parsed(tag(b), 4));
    assert(q_and(items, 3) == parsed(tag(b), 4));
    let ab = or(tag(a), tag(b));
    assert(q_or_rest(items, ab, 4) == parsed(ab, 4));
    assert(q_or_rest(items, tag(a), 2) == parsed(ab, 4));
    assert(q_or(items, 1) == parsed(ab, 4));
    assert(q_primary(items, 0) == parsed(ab, 5));
    assert(q_not(items, 0) == parsed(ab, 5));
    let e = and(ab, tag(c));
    assert(q_and_rest(items, e, 7) == parsed(e, 7));
    assert(q_and_rest(items, ab, 5) == parsed(e, 7));
    assert(q_and(items, 0) == parsed(e, 7));
    assert(q_or_rest(items, e, 7) == parsed(e, 7));
}


// ---------------------------------------------------------------------
// Laws of evaluation

/// Evaluation depends only on which tags are present: two tag lists
/// holding the same tags, in any order and with any repetition, give the
/// same result for every expression.
pub proof fn law_evaluation_depends_on_the_tag_set(e: TagAst, t1: Seq<&str>, t2: Seq<&str>)
    requires
        forall|i: int| 0 <= i < t1.len() ==> exists|j: int| 0 <= j < t2.len() && t2[j]@ == (#[trigger] t1[i])@,
        forall|j: int| 0 <= j < t2.len() ==> exists|i: int| 0 <= i < t1.len() && t1[i]@ == (#[trigger] t2[j])@,
    ensures
        ast_eval(e, str_set(t1)) == ast_eval(e, str_set(t2)),
{
    assert forall|x: Seq<char>| str_set(t1).contains(x) <==> str_set(t2).contains(x) by {
        if str_set(t1).contains(x) {
            let i = choose|i: int| 0 <= i < t1.len() && t1[i]@ == x;
            assert(t1[i]@ == x);
        }
        if str_set(t2).contains(x) {
            let j = choose|j: int| 0 <= j < t2.len() && t2[j]@ == x;
            assert(t2[j]@ == x);
        }
    }
    assert(str_set(t1) =~= str_set(t2));
}

proof fn lemma_tag_end_all(s: Seq<char>, i: int)
    requires
        0 <= i <= s.len(),
        forall|k: int| i <= k < s.len() ==> is_tag_char(#[trigger] s[k]),
    ensures
        tag_end(s, i) == s.len(),
    decreases s.len() - i,
{
    if i < s.len() {
        lemma_tag_end_all(s, i + 1);
    }
}

/// A well-formed tag on its own parses to that tag, so evaluating it
/// asks exactly whether that tag, `@` included and letter case kept, is
/// present.
pub proof fn law_single_tag_parses_to_itself(x: Seq<char>)
    requires
        x.len() >= 2,
        x[0] == '@',
        forall|k: int| 1 <= k < x.len() ==> is_tag_char(#[trigger] x[k]),
    ensures
        spec_parse(x) == Ok::<TagAst, TErr>(TagAst::Tag(x)),
        forall|tags: Set<Seq<char>>| ast_eval(TagAst::Tag(x), tags) == tags.contains(x),
{
    assert(!is_unicode_whitespace('@'));
    assert(skip_space(x, 0) == 0);
    lemma_tag_end_all(x, 2);
    assert(x.subrange(0, x.len() as int) =~= x);
    crate::text::lemma_offset_end(x);
    let t0 = STok { kind: TokKind::Tag(x), start: 0 };
    assert(lex_one(x, 0) == Ok::<(STok, int), TErr>((t0, x.len() as int)));
    let end = STok { kind: TokKind::End, start: utf8_offset(x, x.len() as int) as int };
    assert(lex_one(x, x.len() as int) == Ok::<(STok, int), TErr>((end, x.len() as int)));
    assert(lex_from(x, x.len() as int) == seq![Item::Tok(end)]);
    let items = lex_from(x, 0);
    assert(items == seq![Item::Tok(t0)] + seq![Item::Tok(end)]);
    assert(items[0] == Item::Tok(t0) && items[1] == Item::Tok(end) && items.len() == 2);
    assert(q_primary(items, 0) == parsed(tag(x), 1));
    assert(q_not(items, 0) == parsed(tag(x), 1));
    assert(q_and_rest(items, tag(x), 1) == parsed(tag(x), 1));
    assert(q_and(items, 0) == parsed(tag(x), 1));
    assert(q_or_rest(items, tag(x), 1) == parsed(tag(x), 1));
    assert(q_or(items, 0) == parsed(tag(x), 1));
}


// ---------------------------------------------------------------------
// Composition: a sub-expression parses the same inside a larger one

/// The items `inner` (a whole expression's tokens, ending in `End`) occur
/// in `outer` from position `d` on, kind for kind, with `End` replaced by
/// a token that neither `and` nor `or` continues.
pub open spec fn embeds(inner: Seq<Item>, outer: Seq<Item>, d: int) -> bool {
    &&& inner.len() >= 1
    &&& 0 <= d
    &&& d + inner.len() <= outer.len()
    &&& forall|k: int|
        0 <= k < inner.len() - 1 ==> (#[trigger] inner[k] matches Item::Tok(t) && !(t.kind is End)
            && outer[d + k] is Tok && tok(outer, d + k).kind == t.kind)
    &&& inner.last() matches Item::Tok(t) && t.kind is End
    &&& outer[d + inner.len() - 1] matches Item::Tok(t2) && !(t2.kind is And) && !(t2.kind is Or)
}

proof fn lemma_embeds_items_ok(inner: Seq<Item>, outer: Seq<Item>, d: int)
    requires
        embeds(inner, outer, d),
    ensures
        items_ok(inner),
{
}

proof fn lemma_embed_at(inner: Seq<Item>, outer: Seq<Item>, d: int, k: int)
    requires
        embeds(inner, outer, d),
        0 <= k < inner.len(),
    ensures
        outer[d + k] is Tok,
        k < inner.len() - 1 ==> tok(outer, d + k).kind == tok(inner, k).kind,
        k == inner.len() - 1 ==> tok(inner, k).kind is End && !(tok(outer, d + k).kind is And)
            && !(tok(outer, d + k).kind is Or),
        k + 1 < inner.len() ==> step(inner, k) == Ok::<int, TErr>(k + 1) && step(outer, d + k)
            == Ok::<int, TErr>(d + k + 1),
{
    if k < inner.len() - 1 {
        assert(inner[k] is Tok);
    }
    if k + 1 < inner.len() - 1 {
        assert(inner[k + 1] is Tok);
    }
}

proof fn lemma_embed_primary(inner: Seq<Item>, outer: Seq<Item>, d: int, k: int)
    requires
        embeds(inner, outer, d),
        0 <= k < inner.len(),
    ensures
        q_primary(inner, k) matches Ok((e, j)) ==> q_primary(outer, d + k) == parsed(e, d + j),
    decreases inner.len() - k, 0int,
{
    lemma_embed_at(inner, outer, d, k);
    lemma_embeds_items_ok(inner, outer, d);
    if k < inner.len() - 1 {
        let t = tok(inner, k);
        match t.kind {
            TokKind::Tag(_) => {},
            TokKind::LParen => {
                let k1 = k + 1;
                lemma_embed_or(inner, outer, d, k1);
                lemma_q_or_pos(inner, k1);
                if let Ok((e, j)) = q_or(inner, k1) {
                    if tok(inner, j).kind is RParen {
                        lemma_embed_at(inner, outer, d, j);
                    }
                }
            },
            _ => {},
        }
    }
}

proof fn lemma_embed_not(inner: Seq<Item>, outer: Seq<Item>, d: int, k: int)
    requires
        embeds(inner, outer, d),
        0 <= k < inner.len(),
    ensures
        q_not(inner, k) matches Ok((e, j)) ==> q_not(outer, d + k) == parsed(e, d + j),
    decreases inner.len() - k, 1int,
{
    lemma_embed_at(inner, outer, d, k);
    if tok(inner, k).kind is Not {
        lemma_embed_not(inner, outer, d, k + 1);
    } else {
        lemma_embed_primary(inner, outer, d, k);
    }
}

proof fn lemma_embed_and_rest(
    inner: Seq<Item>,
    outer: Seq<Item>,
    d: int,
    left: TagAst,
    k: int,
)
    requires
        embeds(inner, outer, d),
        0 <= k < inner.len(),
    ensures
        q_and_rest(inner, left, k) matches Ok((e, j)) ==> q_and_rest(outer, left, d + k) == parsed(
            e,
            d + j,
        ),
    decreases inner.len() - k, 2int,
{
    lemma_embed_at(inner, outer, d, k);
    lemma_embeds_items_ok(inner, outer, d);
    if tok(inner, k).kind is And {
        let k1 = k + 1;
        lemma_embed_at(inner, outer, d, k1);
        if !lacks_operand(tok(inner, k1).kind) {
            lemma_embed_not(inner, outer, d, k1);
            lemma_q_not_pos(inner, k1);
            if let Ok((r, j)) = q_not(inner, k1) {
                lemma_embed_and_rest(inner, outer, d, TagAst::And(Box::new(left), Box::new(r)), j);
            }
        }
    }
}

proof fn lemma_embed_and(inner: Seq<Item>, outer: Seq<Item>, d: int, k: int)
    requires
        embeds(inner, outer, d),
        0 <= k < inner.len(),
    ensures
        q_and(inner, k) matches Ok((e, j)) ==> q_and(outer, d + k) == parsed(e, d + j),
    decreases inner.len() - k, 3int,
{
    lemma_embeds_items_ok(inner, outer, d);
    lemma_embed_not(inner, outer, d, k);
    lemma_q_not_pos(inner, k);
    if let Ok((l, j)) = q_not(inner, k) {
        lemma_embed_and_rest(inner, outer, d, l, j);
    }
}

proof fn lemma_embed_or_rest(
    inner: Seq<Item>,
    outer: Seq<Item>,
    d: int,
    left: TagAst,
    k: int,
)
    requires
        embeds(inner, outer, d),
        0 <= k < inner.len(),
    ensures
        q_or_rest(inner, left, k) matches Ok((e, j)) ==> q_or_rest(outer, left, d + k) == parsed(
            e,
            d + j,
        ),
    decreases inner.len() - k, 4int,
{
    lemma_embed_at(inner, outer, d, k);
    lemma_embeds_items_ok(inner, outer, d);
    if tok(inner, k).kind is Or {
        let k1 = k + 1;
        lemma_embed_at(inner, outer, d, k1);
        if !lacks_operand(tok(inner, k1).kind) {
            lemma_embed_and(inner, outer, d, k1);
            lemma_q_and_pos(inner, k1);
            if let Ok((r, j)) = q_and(inner, k1) {
                lemma_embed_or_rest(inner, outer, d, TagAst::Or(Box::new(left), Box::new(r)), j);
            }
        }
    }
}

proof fn lemma_embed_or(inner: Seq<Item>, outer: Seq<Item>, d: int, k: int)
    requires
        embeds(inner, outer, d),
        0 <= k < inner.len(),
    ensures
        q_or(inner, k) matches Ok((e, j)) ==> q_or(outer, d + k) == parsed(e, d + j),
    decreases inner.len() - k, 5int,
{
    lemma_embeds_items_ok(inner, outer, d);
    lemma_embed_and(inner, outer, d, k);
    lemma_q_and_pos(inner, k);
    if let Ok((l, j)) = q_and(inner, k) {
        lemma_embed_or_rest(inner, outer, d, l, j);
    }
}


/// `a` occurs in `s` at index `o`, directly followed by `)`.
pub open spec fn closed_region(s: Seq<char>, o: int, a: Seq<char>) -> bool {
    &&& 0 <= o
    &&& o + a.len() < s.len()
    &&& forall|k: int| 0 <= k < a.len() ==> s[o + k] == #[trigger] a[k]
    &&& s[o + a.len()] == ')'
}

proof fn lemma_skip_space_region(s: Seq<char>, o: int, a: Seq<char>, i: int)
    requires
        closed_region(s, o, a),
        0 <= i <= a.len(),
    ensures
        skip_space(s, o + i) == o + skip_space(a, i),
    decreases a.len() - i,
{
    assert(!is_unicode_whitespace(')'));
    if i < a.len() {
        assert(s[o + i] == a[i]);
        lemma_skip_space_region(s, o, a, i + 1);
    }
}

proof fn lemma_tag_end_region(s: Seq<char>, o: int, a: Seq<char>, i: int)
    requires
        closed_region(s, o, a),
        0 <= i <= a.len(),
    ensures
        tag_end(s, o + i) == o + tag_end(a, i),
    decreases a.len() - i,
{
    if i < a.len() {
        assert(s[o + i] == a[i]);
        lemma_tag_end_region(s, o, a, i + 1);
    }
}

proof fn lemma_word_end_region(s: Seq<char>, o: int, a: Seq<char>, i: int)
    requires
        closed_region(s, o, a),
        0 <= i <= a.len(),
    ensures
        word_end(s, o + i) == o + word_end(a, i),
    decreases a.len() - i,
{
    if i < a.len() {
        assert(s[o + i] == a[i]);
        lemma_word_end_region(s, o, a, i + 1);
    }
}

/// Reading a token inside the region reads the same kind of token as
/// reading `a` alone; where `a` has only `End` left, `s` reads on from
/// the closing `)`.
proof fn lemma_lex_one_region(s: Seq<char>, o: int, a: Seq<char>, i: int)
    requires
        closed_region(s, o, a),
        0 <= i <= a.len(),
    ensures
        lex_one(a, i) matches Ok((t, e)) ==> (t.kind is End ==> lex_one(s, o + i) == lex_one(
            s,
            o + a.len(),
        )) && (!(t.kind is End) ==> (lex_one(s, o + i) matches Ok((t2, e2)) && t2.kind == t.kind
            && e2 == o + e)),
{
    lemma_skip_space_region(s, o, a, i);
    lemma_skip_space_region(s, o, a, a.len() as int);
    lemma_skip_space(a, i);
    let j = skip_space(a, i);
    assert(skip_space(a, a.len() as int) == a.len());
    if j < a.len() {
        assert(s[o + j] == a[j]);
        if j + 1 < a.len() {
            assert(s[o + j + 1] == a[j + 1]);
        }
        if j + 2 <= a.len() {
            lemma_tag_end_region(s, o, a, j + 2);
            lemma_tag_end(a, j + 2);
            let e = tag_end(a, j + 2);
            assert(s.subrange(o + j, o + e) =~= a.subrange(j, e));
        }
        lemma_word_end_region(s, o, a, j + 1);
        lemma_word_end(a, j + 1);
        let we = word_end(a, j + 1);
        assert(s.subrange(o + j, o + we) =~= a.subrange(j, we));
    }
}

/// Reading `s` from inside the region yields the tokens of `a` (without
/// its `End`), kind for kind, followed by what reading `s` from the
/// closing `)` yields.
proof fn lemma_lex_region(s: Seq<char>, o: int, a: Seq<char>, i: int)
    requires
        closed_region(s, o, a),
        0 <= i <= a.len(),
        lex_from(a, i).last() is Tok,
    ensures
        lex_from(s, o + i).len() == lex_from(a, i).len() - 1 + lex_from(s, o + a.len()).len(),
        forall|m: int|
            #![trigger lex_from(s, o + i)[m]]
            0 <= m < lex_from(a, i).len() - 1 ==> lex_from(s, o + i)[m] is Tok && tok(
                lex_from(s, o + i),
                m,
            ).kind == tok(lex_from(a, i), m).kind,
        forall|m: int|
            0 <= m < lex_from(s, o + a.len()).len() ==> lex_from(s, o + i)[lex_from(a, i).len() - 1
                + m] == #[trigger] lex_from(s, o + a.len())[m],
    decreases a.len() - i,
{
    lemma_lex_from_shape(a, i);
    lemma_lex_one(a, i);
    lemma_lex_one_region(s, o, a, i);
    lemma_lex_one(s, o + i);
    lemma_lex_one(s, o + a.len());
    let sa = lex_from(a, i);
    let ss = lex_from(s, o + i);
    let rr = lex_from(s, o + a.len());
    match lex_one(a, i) {
        Err(_) => {},
        Ok((t, e)) => {
            if t.kind is End {
                assert(sa.len() == 1);
                assert(ss =~= rr);
            } else {
                lemma_lex_region(s, o, a, e);
                let rest = lex_from(a, e);
                assert(sa == seq![Item::Tok(t)] + rest);
                let t2 = lex_one(s, o + i)->Ok_0.0;
                let srest = lex_from(s, o + e);
                assert(ss == seq![Item::Tok(t2)] + srest);
                assert forall|m: int|
                    #![trigger ss[m]]
                    0 <= m < sa.len() - 1 implies ss[m] is Tok && tok(ss, m).kind
                    == tok(lex_from(a, i), m).kind by {
                    if m > 0 {
                        assert(ss[m] == srest[m - 1]);
                        assert(sa[m] == rest[m - 1]);
                        assert(tok(srest, m - 1).kind == tok(lex_from(a, e), m - 1).kind);
                    }
                }
                assert forall|m: int| 0 <= m < rr.len() implies ss[sa.len() - 1 + m]
                    == #[trigger] lex_from(s, o + a.len())[m] by {
                    assert(ss[sa.len() - 1 + m] == srest[rest.len() - 1 + m]);
                }
            }
        },
    }
}


/// A successful parse reads the whole token stream, which therefore ends
/// in `End` and holds no failure.
proof fn lemma_parsed_items(a: Seq<char>)
    requires
        spec_parse(a) is Ok,
    ensures
        lex_from(a, 0).last() is Tok,
        lex_from(a, 0).len() >= 1,
        q_or(lex_from(a, 0), 0) == parsed(spec_parse(a)->Ok_0, lex_from(a, 0).len() - 1),
{
    let items = lex_from(a, 0);
    lemma_lex_from_shape(a, 0);
    lemma_q_or_pos(items, 0);
    let j = q_or(items, 0)->Ok_0.1;
    assert(items[j] is Tok);
    if j < items.len() - 1 {
        assert(!(tok(items, j).kind is End));
    }
}

/// `a` and `b`, each in parentheses, joined by an operator word.
pub open spec fn joined_text(a: Seq<char>, word: Seq<char>, b: Seq<char>) -> Seq<char> {
    seq!['('] + a + seq![')', ' '] + word + seq![' ', '('] + b + seq![')']
}

/// The kind of the token at position `k`, which is a token.
pub open spec fn kind_at(items: Seq<Item>, k: int, kind: TokKind) -> bool {
    0 <= k < items.len() && items[k] is Tok && tok(items, k).kind == kind
}

/// The token stream of `(a) op (b)`: `(`, the tokens of `a`, `)`, the
/// operator, `(`, the tokens of `b`, `)`, `End`.
pub open spec fn joined_shape(outer: Seq<Item>, ia: Seq<Item>, ib: Seq<Item>, op: TokKind) -> bool {
    let n = ia.len() as int;
    let m = ib.len() as int;
    &&& outer.len() == n + m + 4
    &&& kind_at(outer, 0, TokKind::LParen)
    &&& embeds(ia, outer, 1)
    &&& kind_at(outer, n, TokKind::RParen)
    &&& kind_at(outer, n + 1, op)
    &&& kind_at(outer, n + 2, TokKind::LParen)
    &&& embeds(ib, outer, n + 3)
    &&& kind_at(outer, n + m + 2, TokKind::RParen)
    &&& kind_at(outer, n + m + 3, TokKind::End)
}

#[verifier::spinoff_prover]
#[verifier::rlimit(100)]
proof fn lemma_joined_parse(
    outer: Seq<Item>,
    ia: Seq<Item>,
    ib: Seq<Item>,
    ea: TagAst,
    eb: TagAst,
    is_and: bool,
)
    requires
        joined_shape(outer, ia, ib, if is_and { TokKind::And } else { TokKind::Or }),
        q_or(ia, 0) == parsed(ea, ia.len() - 1),
        q_or(ib, 0) == parsed(eb, ib.len() - 1),
    ensures
        q_or(outer, 0) == parsed(if is_and { and(ea, eb) } else { or(ea, eb) }, outer.len() - 1),
{
    let n = ia.len() as int;
    let m = ib.len() as int;
    let last = n + m + 3;
    lemma_embed_or(ia, outer, 1, 0);
    lemma_embed_or(ib, outer, n + 3, 0);
    assert(q_or(outer, 1) == parsed(ea, n));
    assert(q_or(outer, n + 3) == parsed(eb, n + m + 2));
    assert(q_primary(outer, 0) == parsed(ea, n + 1));
    assert(q_not(outer, 0) == parsed(ea, n + 1));
    assert(q_primary(outer, n + 2) == parsed(eb, last));
    assert(q_not(outer, n + 2) == parsed(eb, last));
    if is_and {
        let node = and(ea, eb);
        assert(q_and_rest(outer, node, last) == parsed(node, last));
        assert(q_and_rest(outer, ea, n + 1) == parsed(node, last));
        assert(q_and(outer, 0) == parsed(node, last));
        assert(q_or_rest(outer, node, last) == parsed(node, last));
    } else {
        let node = or(ea, eb);
        assert(q_and_rest(outer, ea, n + 1) == parsed(ea, n + 1));
        assert(q_and(outer, 0) == parsed(ea, n + 1));
        assert(q_and_rest(outer, eb, last) == parsed(eb, last));
        assert(q_and(outer, n + 2) == parsed(eb, last));
        assert(q_or_rest(outer, node, last) == parsed(node, last));
        assert(q_or_rest(outer, ea, n + 1) == parsed(node, last));
    }
}

/// The middle of `(a) op (b)`: from the `)` closing `a`, the reader
/// yields `)`, the operator and `(`, then goes on after the `(`.
proof fn lemma_joined_middle(w: Seq<char>, p: int, word: Seq<char>, is_and: bool)
    requires
        is_and ==> word == seq!['a', 'n', 'd'],
        !is_and ==> word == seq!['o', 'r'],
        0 <= p,
        p + word.len() + 4 <= w.len(),
        w[p] == ')',
        w[p + 1] == ' ',
        forall|k: int| 0 <= k < word.len() ==> w[p + 2 + k] == #[trigger] word[k],
        w[p + 2 + word.len()] == ' ',
        w[p + 3 + word.len()] == '(',
    ensures
        ({
            let q = p + 4 + word.len();
            let l = lex_from(w, p);
            let r = lex_from(w, q);
            &&& l.len() == r.len() + 3
            &&& kind_at(l, 0, TokKind::RParen)
            &&& kind_at(l, 1, if is_and { TokKind::And } else { TokKind::Or })
            &&& kind_at(l, 2, TokKind::LParen)
            &&& forall|k: int| 0 <= k < r.len() ==> l[k + 3] == #[trigger] r[k]
        }),
{
    let lw = word.len() as int;
    assert(!is_unicode_whitespace(')') && !is_unicode_whitespace('(') && is_unicode_whitespace(' '));
    assert(!is_unicode_whitespace('a') && !is_unicode_whitespace('o'));
    assert(skip_space(w, p) == p);
    let p2 = p + 1;
    assert(w[p2 + 1] == word[0]);
    assert(skip_space(w, p2 + 1) == p2 + 1);
    assert(skip_space(w, p2) == p2 + 1);
    reveal_strlit("and");
    reveal_strlit("or");
    if is_and {
        assert(w[p2 + 2] == word[1] && w[p2 + 3] == word[2]);
        assert(word_end(w, p2 + 4) == p2 + 4);
        assert(word_end(w, p2 + 3) == p2 + 4);
        assert(word_end(w, p2 + 2) == p2 + 4);
        assert(w.subrange(p2 + 1, p2 + 4) =~= word);
        assert(ascii_lower_seq(word) =~= "and"@);
    } else {
        assert(w[p2 + 2] == word[1]);
        assert(word_end(w, p2 + 3) == p2 + 3);
        assert(word_end(w, p2 + 2) == p2 + 3);
        assert(w.subrange(p2 + 1, p2 + 3) =~= word);
        assert(ascii_lower_seq(word) =~= "or"@);
        assert(ascii_lower_seq(word) != "and"@);
    }
    let p3 = p2 + 1 + lw;
    assert(skip_space(w, p3 + 1) == p3 + 1);
    assert(skip_space(w, p3) == p3 + 1);
    let t1 = lex_one(w, p)->Ok_0.0;
    let t2 = lex_one(w, p2)->Ok_0.0;
    let t3 = lex_one(w, p3)->Ok_0.0;
    assert(lex_one(w, p) matches Ok((t, e)) && t.kind is RParen && e == p2);
    assert(lex_one(w, p2) matches Ok((t, e)) && t.kind == (if is_and { TokKind::And } else { TokKind::Or }) && e == p3);
    assert(lex_one(w, p3) matches Ok((t, e)) && t.kind is LParen && e == p3 + 2);
    assert(lex_from(w, p3) == seq![Item::Tok(t3)] + lex_from(w, p3 + 2));
    assert(lex_from(w, p2) == seq![Item::Tok(t2)] + lex_from(w, p3));
    assert(lex_from(w, p) == seq![Item::Tok(t1)] + lex_from(w, p2));
    let r = lex_from(w, p3 + 2);
    let l = lex_from(w, p);
    assert forall|k: int| 0 <= k < r.len() implies l[k + 3] == #[trigger] r[k] by {}
}

/// The end of `(a) op (b)`: the final `)` and `End`.
proof fn lemma_joined_end(w: Seq<char>, p: int)
    requires
        0 <= p,
        p + 1 == w.len(),
        w[p] == ')',
    ensures
        lex_from(w, p).len() == 2,
        kind_at(lex_from(w, p), 0, TokKind::RParen),
        kind_at(lex_from(w, p), 1, TokKind::End),
{
    assert(!is_unicode_whitespace(')'));
    assert(skip_space(w, p) == p);
    assert(skip_space(w, p + 1) == p + 1);
    let t5 = lex_one(w, p)->Ok_0.0;
    let t6 = lex_one(w, p + 1)->Ok_0.0;
    assert(lex_from(w, p + 1) == seq![Item::Tok(t6)]);
    assert(lex_from(w, p) == seq![Item::Tok(t5)] + lex_from(w, p + 1));
}

/// The tokens of a whole expression: tokens other than `End`, then `End`.
pub open spec fn whole_items(ia: Seq<Item>) -> bool {
    &&& ia.len() >= 1
    &&& forall|k: int|
        0 <= k < ia.len() - 1 ==> (#[trigger] ia[k] matches Item::Tok(t) && !(t.kind is End))
    &&& ia.last() matches Item::Tok(t) && t.kind is End
}

/// `l` begins with the tokens of `ia` other than `End`, kind for kind, and
/// goes on with `rest`.
pub open spec fn spliced(l: Seq<Item>, ia: Seq<Item>, rest: Seq<Item>) -> bool {
    &&& l.len() == ia.len() - 1 + rest.len()
    &&& forall|k: int|
        0 <= k < ia.len() - 1 ==> (#[trigger] l[k]) is Tok && tok(l, k).kind == tok(ia, k).kind
    &&& forall|j: int| 0 <= j < rest.len() ==> l[ia.len() - 1 + j] == #[trigger] rest[j]
}

#[verifier::spinoff_prover]
#[verifier::rlimit(100)]
proof fn lemma_joined_assemble(
    outer: Seq<Item>,
    l1: Seq<Item>,
    ia: Seq<Item>,
    mid: Seq<Item>,
    l4: Seq<Item>,
    ib: Seq<Item>,
    tail: Seq<Item>,
    op: TokKind,
)
    requires
        outer.len() == 1 + l1.len(),
        kind_at(outer, 0, TokKind::LParen),
        forall|j: int| 0 <= j < l1.len() ==> outer[1 + j] == #[trigger] l1[j],
        whole_items(ia),
        whole_items(ib),
        spliced(l1, ia, mid),
        mid.len() == l4.len() + 3,
        kind_at(mid, 0, TokKind::RParen),
        kind_at(mid, 1, op),
        kind_at(mid, 2, TokKind::LParen),
        forall|j: int| 0 <= j < l4.len() ==> mid[j + 3] == #[trigger] l4[j],
        spliced(l4, ib, tail),
        tail.len() == 2,
        kind_at(tail, 0, TokKind::RParen),
        kind_at(tail, 1, TokKind::End),
        !(op is And) || !(op is Or),
    ensures
        joined_shape(outer, ia, ib, op),
{
    let n = ia.len() as int;
    let m = ib.len() as int;
    assert forall|k: int| 0 <= k < n - 1 implies (#[trigger] ia[k] matches Item::Tok(t) && !(
    t.kind is End) && outer[1 + k] is Tok && tok(outer, 1 + k).kind == t.kind) by {
        assert(outer[1 + k] == l1[k]);
        assert(l1[k] is Tok);
    }
    assert(outer[n] == mid[0]) by {
        assert(outer[1 + (n - 1)] == l1[n - 1]);
        assert(l1[n - 1 + 0] == mid[0]);
    }
    assert(outer[n + 1] == mid[1]) by {
        assert(outer[1 + n] == l1[n]);
        assert(l1[n - 1 + 1] == mid[1]);
    }
    assert(outer[n + 2] == mid[2]) by {
        assert(outer[1 + (n + 1)] == l1[n + 1]);
        assert(l1[n - 1 + 2] == mid[2]);
    }
    assert forall|j: int| 0 <= j < l4.len() implies outer[n + 3 + j] == #[trigger] l4[j] by {
        assert(outer[1 + (n + 2 + j)] == l1[n + 2 + j]);
        assert(l1[n - 1 + (3 + j)] == mid[3 + j]);
        assert(mid[j + 3] == l4[j]);
    }
    assert forall|k: int| 0 <= k < m - 1 implies (#[trigger] ib[k] matches Item::Tok(t) && !(
    t.kind is End) && outer[n + 3 + k] is Tok && tok(outer, n + 3 + k).kind == t.kind) by {
        assert(outer[n + 3 + k] == l4[k]);
        assert(l4[k] is Tok);
    }
    assert(outer[n + m + 2] == tail[0]) by {
        assert(outer[n + 3 + (m - 1)] == l4[m - 1]);
        assert(l4[m - 1 + 0] == tail[0]);
    }
    assert(outer[n + m + 3] == tail[1]) by {
        assert(outer[n + 3 + m] == l4[m]);
        assert(l4[m - 1 + 1] == tail[1]);
    }
    assert(embeds(ia, outer, 1));
    assert(embeds(ib, outer, n + 3));
}

#[verifier::spinoff_prover]
#[verifier::rlimit(100)]
proof fn lemma_joined_lex(a: Seq<char>, word: Seq<char>, b: Seq<char>, is_and: bool)
    requires
        spec_parse(a) is Ok,
        spec_parse(b) is Ok,
        is_and ==> word == seq!['a', 'n', 'd'],
        !is_and ==> word == seq!['o', 'r'],
    ensures
        joined_shape(
            lex_from(joined_text(a, word, b), 0),
            lex_from(a, 0),
            lex_from(b, 0),
            if is_and { TokKind::And } else { TokKind::Or },
        ),
{
    let w = joined_text(a, word, b);
    let la = a.len() as int;
    let lb = b.len() as int;
    let lw = word.len() as int;
    lemma_parsed_items(a);
    lemma_parsed_items(b);
    lemma_lex_from_shape(a, 0);
    lemma_lex_from_shape(b, 0);
    let ia = lex_from(a, 0);
    let ib = lex_from(b, 0);
    assert(whole_items(ia));
    assert(whole_items(ib));
    assert(w.len() == 6 + la + lw + lb);
    assert forall|k: int| 0 <= k < la implies w[1 + k] == #[trigger] a[k] by {}
    assert forall|k: int| 0 <= k < lw implies w[3 + la + k] == #[trigger] word[k] by {}
    assert forall|k: int| 0 <= k < lb implies w[5 + la + lw + k] == #[trigger] b[k] by {}
    assert(closed_region(w, 1, a));
    assert(closed_region(w, 5 + la + lw, b));
    lemma_lex_region(w, 1, a, 0);
    lemma_lex_region(w, 5 + la + lw, b, 0);
    lemma_joined_middle(w, 1 + la, word, is_and);
    lemma_joined_end(w, 5 + la + lw + lb);
    assert(!is_unicode_whitespace('('));
    assert(skip_space(w, 0) == 0);
    let t0 = lex_one(w, 0)->Ok_0.0;
    assert(lex_one(w, 0) matches Ok((t, e)) && t.kind is LParen && e == 1);
    let outer = lex_from(w, 0);
    let l1 = lex_from(w, 1);
    let mid = lex_from(w, 1 + la);
    let l4 = lex_from(w, 5 + la + lw);
    let tail = lex_from(w, 5 + la + lw + lb);
    assert(outer == seq![Item::Tok(t0)] + l1);
    assert forall|j: int| 0 <= j < l1.len() implies outer[1 + j] == #[trigger] l1[j] by {}
    assert(spliced(l1, ia, mid));
    assert(spliced(l4, ib, tail));
    assert(1 + la + word.len() + 4 == 5 + la + lw);
    lemma_joined_assemble(
        outer,
        l1,
        ia,
        mid,
        l4,
        ib,
        tail,
        if is_and { TokKind::And } else { TokKind::Or },
    );
}

/// Joining two expressions with `and` or `or` composes their meanings:
/// `(a) and (b)` parses to the conjunction of what `a` and `b` parse to,
/// and `(a) or (b)` to their disjunction, so it holds exactly when both,
/// or at least one, hold.
pub proof fn law_joined_expressions_compose(a: Seq<char>, b: Seq<char>)
    requires
        spec_parse(a) is Ok,
        spec_parse(b) is Ok,
    ensures
        spec_parse(joined_text(a, seq!['a', 'n', 'd'], b)) == Ok::<TagAst, TErr>(
            and(spec_parse(a)->Ok_0, spec_parse(b)->Ok_0),
        ),
        spec_parse(joined_text(a, seq!['o', 'r'], b)) == Ok::<TagAst, TErr>(
            or(spec_parse(a)->Ok_0, spec_parse(b)->Ok_0),
        ),
        forall|tags: Set<Seq<char>>|
            ast_eval(and(spec_parse(a)->Ok_0, spec_parse(b)->Ok_0), tags) == (ast_eval(
                spec_parse(a)->Ok_0,
                tags,
            ) && ast_eval(spec_parse(b)->Ok_0, tags)),
        forall|tags: Set<Seq<char>>|
            ast_eval(or(spec_parse(a)->Ok_0, spec_parse(b)->Ok_0), tags) == (ast_eval(
                spec_parse(a)->Ok_0,
                tags,
            ) || ast_eval(spec_parse(b)->Ok_0, tags)),
{
    lemma_joined_whole(a, seq!['a', 'n', 'd'], b, true);
    lemma_joined_whole(a, seq!['o', 'r'], b, false);
}

proof fn lemma_joined_whole(a: Seq<char>, word: Seq<char>, b: Seq<char>, is_and: bool)
    requires
        spec_parse(a) is Ok,
        spec_parse(b) is Ok,
        is_and ==> word == seq!['a', 'n', 'd'],
        !is_and ==> word == seq!['o', 'r'],
    ensures
        spec_parse(joined_text(a, word, b)) == Ok::<TagAst, TErr>(
            if is_and {
                and(spec_parse(a)->Ok_0, spec_parse(b)->Ok_0)
            } else {
                or(spec_parse(a)->Ok_0, spec_parse(b)->Ok_0)
            },
        ),
{
    let w = joined_text(a, word, b);
    lemma_parsed_items(a);
    lemma_parsed_items(b);
    lemma_joined_lex(a, word, b, is_and);
    let outer = lex_from(w, 0);
    lemma_joined_parse(
        outer,
        lex_from(a, 0),
        lex_from(b, 0),
        spec_parse(a)->Ok_0,
        spec_parse(b)->Ok_0,
        is_and,
    );
    assert(outer[0] is Tok);
    assert(kind_at(outer, outer.len() - 1, TokKind::End));
}

/// `not` applied to `a` in parentheses.
pub open spec fn negated_text(a: Seq<char>) -> Seq<char> {
    seq!['n', 'o', 't', ' ', '('] + a + seq![')']
}

#[verifier::spinoff_prover]
#[verifier::rlimit(100)]
proof fn lemma_negated_lex(a: Seq<char>)
    requires
        spec_parse(a) is Ok,
    ensures
        ({
            let outer = lex_from(negated_text(a), 0);
            let ia = lex_from(a, 0);
            &&& outer.len() == ia.len() + 3
            &&& kind_at(outer, 0, TokKind::Not)
            &&& kind_at(outer, 1, TokKind::LParen)
            &&& embeds(ia, outer, 2)
            &&& kind_at(outer, ia.len() as int + 1, TokKind::RParen)
            &&& kind_at(outer, ia.len() as int + 2, TokKind::End)
        }),
{
    let w = negated_text(a);
    let la = a.len() as int;
    lemma_parsed_items(a);
    lemma_lex_from_shape(a, 0);
    let ia = lex_from(a, 0);
    let n = ia.len() as int;
    assert(w.len() == 6 + la);
    assert forall|k: int| 0 <= k < la implies w[5 + k] == #[trigger] a[k] by {}
    assert(closed_region(w, 5, a));
    lemma_lex_region(w, 5, a, 0);
    lemma_joined_end(w, 5 + la);
    reveal_strlit("not");
    reveal_strlit("and");
    reveal_strlit("or");
    assert(is_ascii_alpha('n') && is_ascii_alpha('o') && is_ascii_alpha('t') && !is_ascii_alpha(' '));
    assert("not"@ != "and"@ && "not"@ != "or"@) by {
        assert("not"@[0] != "and"@[0]);
        assert("not"@.len() != "or"@.len());
    }
    assert(!is_unicode_whitespace('n') && is_unicode_whitespace(' ') && !is_unicode_whitespace('('));
    assert(skip_space(w, 0) == 0);
    assert(word_end(w, 3) == 3);
    assert(word_end(w, 2) == 3);
    assert(word_end(w, 1) == 3);
    assert(w.subrange(0, 3) =~= seq!['n', 'o', 't']);
    assert(ascii_lower_seq(seq!['n', 'o', 't']) =~= "not"@);
    assert(skip_space(w, 4) == 4);
    assert(skip_space(w, 3) == 4);
    let t0 = lex_one(w, 0)->Ok_0.0;
    let t1 = lex_one(w, 3)->Ok_0.0;
    assert(lex_one(w, 0) matches Ok((t, e)) && t.kind is Not && e == 3);
    assert(lex_one(w, 3) matches Ok((t, e)) && t.kind is LParen && e == 5);
    let outer = lex_from(w, 0);
    let l5 = lex_from(w, 5);
    let tail = lex_from(w, 5 + la);
    assert(lex_from(w, 3) == seq![Item::Tok(t1)] + l5);
    assert(outer == seq![Item::Tok(t0)] + lex_from(w, 3));
    assert(outer.len() == n + 3);
    assert forall|k: int| 0 <= k < n - 1 implies (#[trigger] ia[k] matches Item::Tok(t) && !(
    t.kind is End) && outer[2 + k] is Tok && tok(outer, 2 + k).kind == t.kind) by {
        assert(outer[2 + k] == l5[k]);
    }
    assert(outer[n + 1] == tail[0]) by {
        assert(outer[2 + (n - 1)] == l5[n - 1]);
        assert(l5[n - 1 + 0] == tail[0]);
    }
    assert(outer[n + 2] == tail[1]) by {
        assert(outer[2 + n] == l5[n]);
        assert(l5[n - 1 + 1] == tail[1]);
    }
    assert(embeds(ia, outer, 2));
}

/// `not` composes as negation: `not (a)` parses to the negation of what
/// `a` parses to, so it holds exactly when `a` does not.
pub proof fn law_negated_expression_composes(a: Seq<char>)
    requires
        spec_parse(a) is Ok,
    ensures
        spec_parse(negated_text(a)) == Ok::<TagAst, TErr>(
            TagAst::Not(Box::new(spec_parse(a)->Ok_0)),
        ),
        forall|tags: Set<Seq<char>>|
            ast_eval(TagAst::Not(Box::new(spec_parse(a)->Ok_0)), tags) == !ast_eval(
                spec_parse(a)->Ok_0,
                tags,
            ),
{
    lemma_negated_lex(a);
    lemma_parsed_items(a);
    let outer = lex_from(negated_text(a), 0);
    let ia = lex_from(a, 0);
    let n = ia.len() as int;
    let ea = spec_parse(a)->Ok_0;
    let node = TagAst::Not(Box::new(ea));
    lemma_embed_or(ia, outer, 2, 0);
    assert(q_or(outer, 2) == parsed(ea, n + 1));
    assert(q_primary(outer, 1) == parsed(ea, n + 2));
    assert(q_not(outer, 1) == parsed(ea, n + 2));
    assert(q_not(outer, 0) == parsed(node, n + 2));
    assert(q_and_rest(outer, node, n + 2) == parsed(node, n + 2));
    assert(q_and(outer, 0) == parsed(node, n + 2));
    assert(q_or_rest(outer, node, n + 2) == parsed(node, n + 2));
    assert(q_or(outer, 0) == parsed(node, n + 2));
}

/// A well-formed tag: `@` and at least one tag character.
pub open spec fn valid_tag(x: Seq<char>) -> bool {
    &&& x.len() >= 2
    &&& x[0] == '@'
    &&& forall|k: int| 1 <= k < x.len() ==> is_tag_char(#[trigger] x[k])
}

proof fn lemma_tag_end_upto(s: Seq<char>, i: int, end: int)
    requires
        0 <= i <= end <= s.len(),
        forall|k: int| i <= k < end ==> is_tag_char(#[trigger] s[k]),
        end == s.len() || !is_tag_char(s[end]),
    ensures
        tag_end(s, i) == end,
    decreases end - i,
{
    if i < end {
        lemma_tag_end_upto(s, i + 1, end);
    }
}

/// Reading from `i0`, at most one space before a tag written at `i`, reads
/// that tag.
proof fn lemma_tag_at(s: Seq<char>, i0: int, i: int, x: Seq<char>)
    requires
        valid_tag(x),
        0 <= i0 <= i,
        i0 == i || (i0 + 1 == i && s[i0] == ' '),
        i + x.len() <= s.len(),
        forall|k: int| 0 <= k < x.len() ==> s[i + k] == #[trigger] x[k],
        i + x.len() == s.len() || !is_tag_char(s[i + x.len()]),
    ensures
        lex_one(s, i0) matches Ok((t, e)) && t.kind == TokKind::Tag(x) && e == i + x.len(),
{
    assert(is_unicode_whitespace(' ') && !is_unicode_whitespace('@'));
    assert(s[i] == x[0]);
    assert(skip_space(s, i) == i);
    assert(skip_space(s, i0) == i);
    assert(s[i + 1] == x[1]);
    assert forall|k: int| i + 2 <= k < i + x.len() implies is_tag_char(#[trigger] s[k]) by {
        assert(s[k] == x[k - i]);
    }
    lemma_tag_end_upto(s, i + 2, i + x.len());
    assert(s.subrange(i, i + x.len()) =~= x);
}

/// Reading from `p`, where a space, an operator word and a space follow,
/// reads the operator.
proof fn lemma_word_at(s: Seq<char>, p: int, word: Seq<char>, kind: TokKind)
    requires
        (word == seq!['a', 'n', 'd'] && kind == TokKind::And) || (word == seq!['o', 'r'] && kind
            == TokKind::Or),
        0 <= p,
        p + word.len() + 2 <= s.len(),
        s[p] == ' ',
        forall|k: int| 0 <= k < word.len() ==> s[p + 1 + k] == #[trigger] word[k],
        s[p + 1 + word.len()] == ' ',
    ensures
        lex_one(s, p) matches Ok((t, e)) && t.kind == kind && e == p + 1 + word.len(),
{
    reveal_strlit("and");
    reveal_strlit("or");
    assert(is_unicode_whitespace(' ') && !is_ascii_alpha(' '));
    assert(s[p + 1] == word[0]);
    assert(skip_space(s, p + 1) == p + 1);
    assert(skip_space(s, p) == p + 1);
    if word.len() == 3 {
        assert(s[p + 2] == word[1] && s[p + 3] == word[2]);
        assert(word_end(s, p + 4) == p + 4);
        assert(word_end(s, p + 3) == p + 4);
        assert(word_end(s, p + 2) == p + 4);
        assert(s.subrange(p + 1, p + 4) =~= word);
        assert(ascii_lower_seq(word) =~= "and"@);
    } else {
        assert(s[p + 2] == word[1]);
        assert(word_end(s, p + 3) == p + 3);
        assert(word_end(s, p + 2) == p + 3);
        assert(s.subrange(p + 1, p + 3) =~= word);
        assert(ascii_lower_seq(word) =~= "or"@);
    }
}

/// `x or y and z`, written with single spaces.
pub open spec fn or_and_text(x: Seq<char>, y: Seq<char>, z: Seq<char>) -> Seq<char> {
    x + seq![' ', 'o', 'r', ' '] + y + seq![' ', 'a', 'n', 'd', ' '] + z
}

/// A text whose tokens are those of `kinds` parses as `kinds` does.
proof fn lemma_parse_by_kinds(s: Seq<char>, kinds: Seq<TokKind>, e: TagAst)
    requires
        kinds.len() >= 1,
        kinds.last() is End,
        forall|k: int| 0 <= k < kinds.len() - 1 ==> !(#[trigger] kinds[k] is End),
        lex_from(s, 0).len() == kinds.len(),
        forall|k: int|
            0 <= k < kinds.len() ==> lex_from(s, 0)[k] is Tok && tok(lex_from(s, 0), k).kind
                == #[trigger] kinds[k],
        q_or(token_items(kinds), 0) == parsed(e, kinds.len() - 1),
    ensures
        spec_parse(s) == Ok::<TagAst, TErr>(e),
{
    let inner = token_items(kinds);
    let outer = lex_from(s, 0);
    assert forall|k: int| 0 <= k < inner.len() - 1 implies (#[trigger] inner[k] matches Item::Tok(t)
        && !(t.kind is End) && outer[0 + k] is Tok && tok(outer, 0 + k).kind == t.kind) by {
        assert(kinds[k] == tok(outer, k).kind);
    }
    assert(kinds[kinds.len() - 1] == tok(outer, kinds.len() - 1).kind);
    assert(embeds(inner, outer, 0));
    lemma_embed_or(inner, outer, 0, 0);
    assert(outer[0] is Tok);
}

/// Precedence on written expressions: `x or y and z` means
/// `x or (y and z)`, and `not x and y` means `(not x) and y`, for any
/// well-formed tags.
#[verifier::spinoff_prover]
#[verifier::rlimit(100)]
pub proof fn law_precedence_on_text(x: Seq<char>, y: Seq<char>, z: Seq<char>)
    requires
        valid_tag(x),
        valid_tag(y),
        valid_tag(z),
    ensures
        spec_parse(or_and_text(x, y, z)) == Ok::<TagAst, TErr>(or(tag(x), and(tag(y), tag(z)))),
        spec_parse(seq!['n', 'o', 't', ' '] + x + seq![' ', 'a', 'n', 'd', ' '] + y) == Ok::<
            TagAst,
            TErr,
        >(and(TagAst::Not(Box::new(tag(x))), tag(y))),
{
    lemma_or_and_text(x, y, z);
    lemma_not_and_text(x, y);
}

#[verifier::spinoff_prover]
#[verifier::rlimit(100)]
proof fn lemma_or_and_text(x: Seq<char>, y: Seq<char>, z: Seq<char>)
    requires
        valid_tag(x),
        valid_tag(y),
        valid_tag(z),
    ensures
        spec_parse(or_and_text(x, y, z)) == Ok::<TagAst, TErr>(or(tag(x), and(tag(y), tag(z)))),
{
    let s = or_and_text(x, y, z);
    let lx = x.len() as int;
    let ly = y.len() as int;
    let lz = z.len() as int;
    let py = lx + 4;
    let pz = py + ly + 5;
    assert(s.len() == pz + lz);
    assert(!is_tag_char(' '));
    assert forall|k: int| 0 <= k < lx implies s[0 + k] == #[trigger] x[k] by {}
    assert forall|k: int| 0 <= k < ly implies s[py + k] == #[trigger] y[k] by {}
    assert forall|k: int| 0 <= k < lz implies s[pz + k] == #[trigger] z[k] by {}
    let w_or = seq!['o', 'r'];
    let w_and = seq!['a', 'n', 'd'];
    assert forall|k: int| 0 <= k < 2 implies s[lx + 1 + k] == #[trigger] w_or[k] by {}
    assert forall|k: int| 0 <= k < 3 implies s[py + ly + 1 + k] == #[trigger] w_and[k] by {}
    lemma_tag_at(s, 0, 0, x);
    lemma_word_at(s, lx, w_or, TokKind::Or);
    lemma_tag_at(s, lx + 3, py, y);
    lemma_word_at(s, py + ly, w_and, TokKind::And);
    lemma_tag_at(s, py + ly + 4, pz, z);
    assert(skip_space(s, s.len() as int) == s.len());
    let t0 = lex_one(s, 0)->Ok_0.0;
    let t1 = lex_one(s, lx)->Ok_0.0;
    let t2 = lex_one(s, lx + 3)->Ok_0.0;
    let t3 = lex_one(s, py + ly)->Ok_0.0;
    let t4 = lex_one(s, py + ly + 4)->Ok_0.0;
    let t5 = lex_one(s, s.len() as int)->Ok_0.0;
    assert(lex_from(s, s.len() as int) == seq![Item::Tok(t5)]);
    assert(lex_from(s, py + ly + 4) == seq![Item::Tok(t4)] + lex_from(s, s.len() as int));
    assert(lex_from(s, py + ly) == seq![Item::Tok(t3)] + lex_from(s, py + ly + 4));
    assert(lex_from(s, lx + 3) == seq![Item::Tok(t2)] + lex_from(s, py + ly));
    assert(lex_from(s, lx) == seq![Item::Tok(t1)] + lex_from(s, lx + 3));
    assert(lex_from(s, 0) == seq![Item::Tok(t0)] + lex_from(s, lx));
    let kinds = seq![TokKind::Tag(x), TokKind::Or, TokKind::Tag(y), TokKind::And, TokKind::Tag(z), TokKind::End];
    assert(lex_from(s, 0) =~= seq![Item::Tok(t0), Item::Tok(t1), Item::Tok(t2), Item::Tok(t3), Item::Tok(t4), Item::Tok(t5)]);
    law_and_binds_tighter_than_or(x, y, z);
    lemma_parse_by_kinds(s, kinds, or(tag(x), and(tag(y), tag(z))));
}

#[verifier::spinoff_prover]
#[verifier::rlimit(100)]
proof fn lemma_not_and_text(x: Seq<char>, y: Seq<char>)
    requires
        valid_tag(x),
        valid_tag(y),
    ensures
        spec_parse(seq!['n', 'o', 't', ' '] + x + seq![' ', 'a', 'n', 'd', ' '] + y) == Ok::<
            TagAst,
            TErr,
        >(and(TagAst::Not(Box::new(tag(x))), tag(y))),
{
    let s = seq!['n', 'o', 't', ' '] + x + seq![' ', 'a', 'n', 'd', ' '] + y;
    let lx = x.len() as int;
    let ly = y.len() as int;
    let py = 4 + lx + 5;
    assert(s.len() == py + ly);
    assert(!is_tag_char(' '));
    assert forall|k: int| 0 <= k < lx implies s[4 + k] == #[trigger] x[k] by {}
    assert forall|k: int| 0 <= k < ly implies s[py + k] == #[trigger] y[k] by {}
    let w_and = seq!['a', 'n', 'd'];
    assert forall|k: int| 0 <= k < 3 implies s[4 + lx + 1 + k] == #[trigger] w_and[k] by {}
    reveal_strlit("not");
    reveal_strlit("and");
    reveal_strlit("or");
    assert(is_ascii_alpha('n') && is_ascii_alpha('o') && is_ascii_alpha('t') && !is_ascii_alpha(' '));
    assert(!is_unicode_whitespace('n'));
    assert("not"@ != "and"@ && "not"@ != "or"@) by {
        assert("not"@[0] != "and"@[0]);
        assert("not"@.len() != "or"@.len());
    }
    assert(skip_space(s, 0) == 0);
    assert(word_end(s, 3) == 3);
    assert(word_end(s, 2) == 3);
    assert(word_end(s, 1) == 3);
    assert(s.subrange(0, 3) =~= seq!['n', 'o', 't']);
    assert(ascii_lower_seq(seq!['n', 'o', 't']) =~= "not"@);
    assert(lex_one(s, 0) matches Ok((t, e)) && t.kind is Not && e == 3);
    lemma_tag_at(s, 3, 4, x);
    lemma_word_at(s, 4 + lx, w_and, TokKind::And);
    lemma_tag_at(s, 4 + lx + 4, py, y);
    assert(skip_space(s, s.len() as int) == s.len());
    let t0 = lex_one(s, 0)->Ok_0.0;
    let t1 = lex_one(s, 3)->Ok_0.0;
    let t2 = lex_one(s, 4 + lx)->Ok_0.0;
    let t3 = lex_one(s, 4 + lx + 4)->Ok_0.0;
    let t4 = lex_one(s, s.len() as int)->Ok_0.0;
    assert(lex_from(s, s.len() as int) == seq![Item::Tok(t4)]);
    assert(lex_from(s, 4 + lx + 4) == seq![Item::Tok(t3)] + lex_from(s, s.len() as int));
    assert(lex_from(s, 4 + lx) == seq![Item::Tok(t2)] + lex_from(s, 4 + lx + 4));
    assert(lex_from(s, 3) == seq![Item::Tok(t1)] + lex_from(s, 4 + lx));
    assert(lex_from(s, 0) == seq![Item::Tok(t0)] + lex_from(s, 3));
    let kinds = seq![TokKind::Not, TokKind::Tag(x), TokKind::And, TokKind::Tag(y), TokKind::End];
    assert(lex_from(s, 0) =~= seq![Item::Tok(t0), Item::Tok(t1), Item::Tok(t2), Item::Tok(t3), Item::Tok(t4)]);
    law_not_binds_tighter_than_and(x, y);
    lemma_parse_by_kinds(s, kinds, and(TagAst::Not(Box::new(tag(x))), tag(y)));
}

} // verus!
