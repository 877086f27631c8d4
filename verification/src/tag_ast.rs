//! Mathematical model of tag expressions shared by both tag-expression
//! front ends: the tree shape and its meaning over a set of tags.

use vstd::prelude::*;

verus! {

/// A tag expression as a mathematical tree.
pub enum TagAst {
    /// Holds when the named tag is present.
    Tag(Seq<char>),
    /// Both operands hold.
    And(Box<TagAst>, Box<TagAst>),
    /// At least one operand holds.
    Or(Box<TagAst>, Box<TagAst>),
    /// The operand does not hold.
    Not(Box<TagAst>),
}

/// Meaning of a tag expression over a set of tag names.
pub open spec fn ast_eval(e: TagAst, tags: Set<Seq<char>>) -> bool
    decreases e,
{
    match e {
        TagAst::Tag(t) => tags.contains(t),
        TagAst::And(l, r) => ast_eval(*l, tags) && ast_eval(*r, tags),
        TagAst::Or(l, r) => ast_eval(*l, tags) || ast_eval(*r, tags),
        TagAst::Not(x) => !ast_eval(*x, tags),
    }
}

/// The set of tag names held by a slice of string slices.
pub open spec fn str_set(tags: Seq<&str>) -> Set<Seq<char>> {
    Set::new(|t: Seq<char>| exists|i: int| 0 <= i < tags.len() && tags[i]@ == t)
}

/// The set of tag names held by a slice of owned strings.
pub open spec fn string_set(tags: Seq<String>) -> Set<Seq<char>> {
    Set::new(|t: Seq<char>| exists|i: int| 0 <= i < tags.len() && tags[i]@ == t)
}

} // verus!
