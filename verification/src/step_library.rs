//! Which items of a `#[step_library]` module are tied to which library.
//!
//! Step definitions inside a library module, also inside plain nested
//! modules, belong to the nearest enclosing library; a nested module that is
//! itself a `#[step_library]` starts a library of its own, named by the
//! enclosing library's path, `::` and the module's name. An item that
//! already carries its library keeps it.
//!
//! An item is given as an [`ItemShape`]: its kind, the attributes whose
//! path is a single identifier, and a module's name and inline items.

use vstd::prelude::*;
use crate::text::{owned, push_str, str_eq};

verus! {

/// The attribute that ties an item to its library.
pub const INTERNAL_LIBRARY_ATTRIBUTE: &'static str = "rstest_bdd_internal_step_library";

/// The parts of an item that library annotation reads.
#[derive(Debug)]
pub enum ItemShape {
    /// A function with the names of its single-identifier attributes
    /// (`None` for any other attribute path).
    Fn { attrs: Vec<Option<String>> },
    /// A module with its name, attributes and inline items (`None` for an
    /// out-of-line module).
    Mod { ident: String, attrs: Vec<Option<String>>, content: Option<Vec<ItemShape>> },
    /// Any other item.
    Other,
}

/// One item to annotate: its position (indices from the outermost list
/// inwards) and the library path it is tied to.
#[derive(Debug)]
pub struct Annotation {
    pub at: Vec<usize>,
    pub library: String,
}

/// The attribute names as character sequences.
pub open spec fn attr_names(attrs: Seq<Option<String>>) -> Seq<Option<Seq<char>>> {
    attrs.map_values(
        |a: Option<String>|
            match a {
                Some(s) => Some(s@),
                None => None,
            },
    )
}

/// Some attribute is the single identifier `name`.
pub open spec fn has_attr(attrs: Seq<Option<String>>, name: Seq<char>) -> bool {
    attr_names(attrs).contains(Some(name))
}

/// A step definition: `#[given]`, `#[when]` or `#[then]`.
pub open spec fn is_step_definition(attrs: Seq<Option<String>>) -> bool {
    has_attr(attrs, "given"@) || has_attr(attrs, "when"@) || has_attr(attrs, "then"@)
}

/// Items from position `i` of `items` (whose own position is `prefix`)
/// that are tied to library `lib`, in order; nested items follow their
/// module.
pub open spec fn annotations_from(
    items: Seq<ItemShape>,
    lib: Seq<char>,
    prefix: Seq<usize>,
    i: int,
) -> Seq<(Seq<usize>, Seq<char>)>
    decreases items, items.len() - i,
{
    if !(0 <= i < items.len()) {
        seq![]
    } else {
        let here = prefix.push(i as usize);
        let first: Seq<(Seq<usize>, Seq<char>)> = match items[i] {
            ItemShape::Fn { attrs } => if is_step_definition(attrs@) && !has_attr(
                attrs@,
                INTERNAL_LIBRARY_ATTRIBUTE@,
            ) {
                seq![(here, lib)]
            } else {
                seq![]
            },
            ItemShape::Mod { ident, attrs, content } => if has_attr(attrs@, "step_library"@) {
                if has_attr(attrs@, INTERNAL_LIBRARY_ATTRIBUTE@) {
                    seq![]
                } else {
                    seq![(here, lib + "::"@ + ident@)]
                }
            } else {
                match content {
                    Some(c) => annotations_from(c@, lib, here, 0),
                    None => seq![],
                }
            },
            ItemShape::Other => seq![],
        };
        first + annotations_from(items, lib, prefix, i + 1)
    }
}

/// Whether some attribute is the single identifier `name`.
fn has_attr_exec(attrs: &[Option<String>], name: &str) -> (r: bool)
    ensures
        r == has_attr(attrs@, name@),
{
    let mut i: usize = 0;
    while i < attrs.len()
        invariant
            i <= attrs@.len(),
            forall|k: int| 0 <= k < i ==> attr_names(attrs@)[k] != Some(name@),
        decreases attrs@.len() - i,
    {
        match &attrs[i] {
            Some(s) => {
                if str_eq(s.as_str(), name) {
                    assert(attr_names(attrs@)[i as int] == Some(name@));
                    return true;
                }
            },
            None => {},
        }
        i += 1;
    }
    false
}

/// The position of the first attribute that ties a step function to its
/// library, which the step attributes take off the function before
/// expanding it.
pub fn library_marker_position(attrs: &[Option<String>]) -> (r: Option<usize>)
    ensures
        match r {
            Some(p) => {
                &&& p < attrs@.len()
                &&& attr_names(attrs@)[p as int] == Some(INTERNAL_LIBRARY_ATTRIBUTE@)
                &&& forall|k: int|
                    0 <= k < p ==> attr_names(attrs@)[k] != Some(INTERNAL_LIBRARY_ATTRIBUTE@)
            },
            None => !has_attr(attrs@, INTERNAL_LIBRARY_ATTRIBUTE@),
        },
{
    let mut i: usize = 0;
    while i < attrs.len()
        invariant
            i <= attrs@.len(),
            forall|k: int| 0 <= k < i ==> attr_names(attrs@)[k] != Some(INTERNAL_LIBRARY_ATTRIBUTE@),
        decreases attrs@.len() - i,
    {
        match &attrs[i] {
            Some(s) => {
                if str_eq(s.as_str(), INTERNAL_LIBRARY_ATTRIBUTE) {
                    assert(attr_names(attrs@)[i as int] == Some(INTERNAL_LIBRARY_ATTRIBUTE@));
                    return Some(i);
                }
            },
            None => {},
        }
        i += 1;
    }
    None
}

fn clone_positions(v: &[usize]) -> (r: Vec<usize>)
    ensures
        r@ == v@,
{
    let mut r: Vec<usize> = Vec::new();
    let mut i: usize = 0;
    while i < v.len()
        invariant
            i <= v@.len(),
            r@ == v@.take(i as int),
        decreases v@.len() - i,
    {
        r.push(v[i]);
        i += 1;
        assert(r@ =~= v@.take(i as int));
    }
    assert(v@.take(v@.len() as int) =~= v@);
    r
}

/// The views of a list of annotations.
pub open spec fn annotation_views(v: Seq<Annotation>) -> Seq<(Seq<usize>, Seq<char>)> {
    v.map_values(|a: Annotation| (a.at@, a.library@))
}

/// Appends the annotations for `items` (at position `prefix`) to `out`.
fn annotate_into(
    items: &Vec<ItemShape>,
    lib: &str,
    prefix: &Vec<usize>,
    out: &mut Vec<Annotation>,
)
    ensures
        annotation_views(final(out)@) == annotation_views(old(out)@) + annotations_from(
            items@,
            lib@,
            prefix@,
            0,
        ),
    decreases items@,
{
    let ghost start = annotation_views(out@);
    let mut i: usize = 0;
    assert(annotation_views(out@) == start);
    while i < items.len()
        invariant
            i <= items@.len(),
            start + annotations_from(items@, lib@, prefix@, 0) == annotation_views(out@)
                + annotations_from(items@, lib@, prefix@, i as int),
        decreases items@.len() - i,
    {
        let mut here = clone_positions(prefix.as_slice());
        here.push(i);
        let ghost before = annotation_views(out@);
        match &items[i] {
            ItemShape::Fn { attrs } => {
                if (has_attr_exec(attrs.as_slice(), "given") || has_attr_exec(
                    attrs.as_slice(),
                    "when",
                ) || has_attr_exec(attrs.as_slice(), "then")) && !has_attr_exec(
                    attrs.as_slice(),
                    INTERNAL_LIBRARY_ATTRIBUTE,
                ) {
                    let a = Annotation { at: here, library: owned(lib) };
                    out.push(a);
                    proof {
                        assert(annotation_views(out@) =~= before.push((a.at@, a.library@)));
                    }
                }
            },
            ItemShape::Mod { ident, attrs, content } => {
                if has_attr_exec(attrs.as_slice(), "step_library") {
                    if !has_attr_exec(attrs.as_slice(), INTERNAL_LIBRARY_ATTRIBUTE) {
                        let mut nested = owned(lib);
                        push_str(&mut nested, "::");
                        push_str(&mut nested, ident.as_str());
                        let a = Annotation { at: here, library: nested };
                        out.push(a);
                        proof {
                            assert(annotation_views(out@) =~= before.push((a.at@, a.library@)));
                        }
                    }
                } else {
                    match content {
                        Some(c) => {
                            proof {
                                assert(decreases_to!(items@ => items@[i as int]));
                            }
                            annotate_into(c, lib, &here, out);
                        },
                        None => {},
                    }
                }
            },
            ItemShape::Other => {},
        }
        proof {
            let rest = annotations_from(items@, lib@, prefix@, i + 1);
            let cur = annotations_from(items@, lib@, prefix@, i as int);
            let added = annotation_views(out@).subrange(before.len() as int, annotation_views(out@).len() as int);
            assert(annotation_views(out@) =~= before + added);
            assert(cur =~= added + rest);
        }
        i += 1;
    }
    proof {
        assert(annotations_from(items@, lib@, prefix@, items@.len() as int) =~= seq![]);
        assert(start + annotations_from(items@, lib@, prefix@, 0) =~= annotation_views(out@));
    }
}

/// The items of a step-library module that are tied to a library, with
/// the library path each is tied to (see the module documentation).
pub fn annotate_step_items(items: &Vec<ItemShape>, library_path: &str) -> (r: Vec<Annotation>)
    ensures
        annotation_views(r@) == annotations_from(items@, library_path@, seq![], 0),
{
    let mut out: Vec<Annotation> = Vec::new();
    let prefix: Vec<usize> = Vec::new();
    assert(annotation_views(out@) =~= seq![]);
    annotate_into(items, library_path, &prefix, &mut out);
    assert(annotation_views(out@) =~= annotations_from(items@, library_path@, seq![], 0));
    out
}

} // verus!
