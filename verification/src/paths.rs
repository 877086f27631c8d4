//! Lexical normalisation of feature paths, so that equivalent spellings of
//! a relative path share one cache entry, and recognition of feature files
//! by their extension.

use vstd::prelude::*;
use crate::text::{ascii_lower_seq, chars_of, owned, str_eq, to_ascii_lower, views};

verus! {

/// One component of a path.
#[derive(Debug)]
pub enum PathComponent {
    /// `.`
    CurDir,
    /// `..`
    ParentDir,
    /// An ordinary name.
    Normal(String),
    /// A root or prefix component, by its text.
    Other(String),
}

/// What a path component means for normalisation.
pub enum PathStep {
    /// `.`
    Cur,
    /// `..`
    Parent,
    /// Any other component, by its text.
    Name(Seq<char>),
}

pub open spec fn comp_step(c: PathComponent) -> PathStep {
    match c {
        PathComponent::CurDir => PathStep::Cur,
        PathComponent::ParentDir => PathStep::Parent,
        PathComponent::Normal(s) => PathStep::Name(s@),
        PathComponent::Other(s) => PathStep::Name(s@),
    }
}

/// The segments left after collapsing: `.` is dropped, and `..` removes
/// the previous segment unless there is none or it is itself `..`, in
/// which case the `..` is kept.
pub open spec fn collapse(steps: Seq<PathStep>) -> Seq<Seq<char>>
    decreases steps.len(),
{
    if steps.len() == 0 {
        seq![]
    } else {
        let prev = collapse(steps.drop_last());
        match steps.last() {
            PathStep::Cur => prev,
            PathStep::Parent => if prev.len() > 0 && prev.last() != ".."@ {
                prev.drop_last()
            } else {
                prev.push(".."@)
            },
            PathStep::Name(s) => prev.push(s),
        }
    }
}

/// The segments of a relative path after collapsing `.` and `..`.
pub open spec fn normalised(comps: Seq<PathComponent>) -> Seq<Seq<char>> {
    collapse(comps.map_values(|c: PathComponent| comp_step(c)))
}

/// The result of normalising a path.
#[derive(Debug)]
pub enum Normalised {
    /// An absolute path is left to the file system to resolve.
    Unchanged,
    /// The segments of the normalised relative path.
    Segments(Vec<String>),
}

/// Normalises a path given by its components: absolute paths stay as
/// they are; relative ones have `.` and resolvable `..` segments removed.
pub fn normalise(absolute: bool, comps: &[PathComponent]) -> (r: Normalised)
    ensures
        absolute ==> r is Unchanged,
        !absolute ==> (r matches Normalised::Segments(v) && views(v@) == normalised(comps@)),
{
    if absolute {
        return Normalised::Unchanged;
    }
    let mut segs: Vec<String> = Vec::new();
    let mut i: usize = 0;
    while i < comps.len()
        invariant
            i <= comps@.len(),
            views(segs@) == normalised(comps@.take(i as int)),
        decreases comps@.len() - i,
    {
        proof {
            let m = comps@.take(i + 1).map_values(|c: PathComponent| comp_step(c));
            assert(m.drop_last() =~= comps@.take(i as int).map_values(
                |c: PathComponent| comp_step(c),
            ));
            assert(m.last() == comp_step(comps@[i as int]));
        }
        let ghost prev = segs@;
        match &comps[i] {
            PathComponent::CurDir => {},
            PathComponent::ParentDir => {
                let n = segs.len();
                if n > 0 && !str_eq(segs[n - 1].as_str(), "..") {
                    segs.pop();
                    proof {
                        assert(views(segs@) =~= views(prev).drop_last());
                    }
                } else {
                    let up = owned("..");
                    segs.push(up);
                    proof {
                        crate::tag_sets::lemma_views_push(prev, up);
                    }
                }
            },
            PathComponent::Normal(s) => {
                let c = s.clone();
                segs.push(c);
                proof {
                    crate::tag_sets::lemma_views_push(prev, c);
                }
            },
            PathComponent::Other(s) => {
                let c = s.clone();
                segs.push(c);
                proof {
                    crate::tag_sets::lemma_views_push(prev, c);
                }
            },
        }
        i += 1;
    }
    assert(comps@.take(comps@.len() as int) =~= comps@);
    Normalised::Segments(segs)
}

/// Whether a file extension marks a feature file: `feature` in any ASCII
/// case.
pub fn is_feature_extension(ext: Option<&str>) -> (r: bool)
    ensures
        r == match ext {
            Some(e) => ascii_lower_seq(e@) == "feature"@,
            None => false,
        },
{
    match ext {
        None => false,
        Some(e) => {
            let cs = chars_of(e);
            let mut lower: Vec<char> = Vec::new();
            let mut i: usize = 0;
            while i < cs.len()
                invariant
                    i <= cs@.len(),
                    lower@ == ascii_lower_seq(cs@).take(i as int),
                decreases cs@.len() - i,
            {
                lower.push(to_ascii_lower(cs[i]));
                i += 1;
                assert(lower@ =~= ascii_lower_seq(cs@).take(i as int));
            }
            assert(ascii_lower_seq(cs@).take(cs@.len() as int) =~= ascii_lower_seq(cs@));
            let s = crate::text::string_from_chars(lower.as_slice());
            str_eq(s.as_str(), "feature")
        },
    }
}

/// How the segments of a normalised path read back as path steps.
pub open spec fn steps_of(segs: Seq<Seq<char>>) -> Seq<PathStep> {
    segs.map_values(
        |s: Seq<char>|
            if s == ".."@ {
                PathStep::Parent
            } else if s == "."@ {
                PathStep::Cur
            } else {
                PathStep::Name(s)
            },
    )
}

/// No name is `.` or `..` (the parser reports those as their own steps).
pub open spec fn names_proper(steps: Seq<PathStep>) -> bool {
    forall|i: int| 0 <= i < steps.len() ==> (#[trigger] steps[i] matches PathStep::Name(s) ==> s
        != ".."@ && s != "."@)
}

/// `..` occurs only before every other segment, and `.` not at all.
pub open spec fn leading_parents(v: Seq<Seq<char>>) -> bool {
    &&& forall|i: int, j: int|
        #![trigger v[i], v[j]]
        0 <= i < j < v.len() && v[j] == ".."@ ==> v[i] == ".."@
    &&& forall|i: int| 0 <= i < v.len() ==> #[trigger] v[i] != "."@
}

proof fn lemma_collapse_shape(steps: Seq<PathStep>)
    requires
        names_proper(steps),
    ensures
        leading_parents(collapse(steps)),
    decreases steps.len(),
{
    reveal_strlit("..");
    reveal_strlit(".");
    if steps.len() > 0 {
        let d = steps.drop_last();
        assert(names_proper(d)) by {
            assert forall|i: int| 0 <= i < d.len() implies (#[trigger] d[i] matches PathStep::Name(
                s,
            ) ==> s != ".."@ && s != "."@) by {
                assert(d[i] == steps[i]);
            }
        }
        lemma_collapse_shape(d);
        let prev = collapse(d);
        let cur = collapse(steps);
        match steps.last() {
            PathStep::Cur => {},
            PathStep::Parent => {
                if prev.len() > 0 && prev.last() != ".."@ {
                    assert forall|i: int, j: int|
                        #![trigger cur[i], cur[j]]
                        0 <= i < j < cur.len() && cur[j] == ".."@ implies cur[i] == ".."@ by {
                        assert(cur[j] == prev[j] && cur[i] == prev[i]);
                    }
                    assert forall|i: int| 0 <= i < cur.len() implies #[trigger] cur[i] != "."@ by {
                        assert(cur[i] == prev[i]);
                    }
                } else {
                    assert forall|i: int, j: int|
                        #![trigger cur[i], cur[j]]
                        0 <= i < j < cur.len() && cur[j] == ".."@ implies cur[i] == ".."@ by {
                        if prev.len() > 0 {
                            assert(prev[prev.len() - 1] == ".."@);
                            assert(cur[i] == prev[i]);
                            if i < prev.len() - 1 {
                                assert(prev[i] == ".."@);
                            }
                        }
                    }
                    assert(".."@ != "."@) by {
                        assert(".."@.len() == 2);
                        assert("."@.len() == 1);
                    }
                    assert forall|i: int| 0 <= i < cur.len() implies #[trigger] cur[i] != "."@ by {
                        if i < prev.len() {
                            assert(cur[i] == prev[i]);
                        } else {
                            assert(cur[i] == ".."@);
                        }
                    }
                }
            },
            PathStep::Name(x) => {
                assert(steps[steps.len() - 1] matches PathStep::Name(_));
                assert forall|i: int, j: int|
                    #![trigger cur[i], cur[j]]
                    0 <= i < j < cur.len() && cur[j] == ".."@ implies cur[i] == ".."@ by {
                    assert(cur[j] == prev[j] && cur[i] == prev[i]);
                }
                assert forall|i: int| 0 <= i < cur.len() implies #[trigger] cur[i] != "."@ by {
                    if i < prev.len() {
                        assert(cur[i] == prev[i]);
                    }
                }
            },
        }
    }
}

proof fn lemma_collapse_fixed(v: Seq<Seq<char>>)
    requires
        leading_parents(v),
    ensures
        collapse(steps_of(v)) == v,
    decreases v.len(),
{
    if v.len() > 0 {
        let d = v.drop_last();
        assert(leading_parents(d)) by {
            assert forall|i: int, j: int|
                #![trigger d[i], d[j]]
                0 <= i < j < d.len() && d[j] == ".."@ implies d[i] == ".."@ by {
                assert(v[j] == d[j] && v[i] == d[i]);
            }
            assert forall|i: int| 0 <= i < d.len() implies #[trigger] d[i] != "."@ by {
                assert(v[i] == d[i]);
            }
        }
        lemma_collapse_fixed(d);
        assert(steps_of(v).drop_last() =~= steps_of(d));
        let last = v.last();
        assert(last != "."@);
        if last == ".."@ {
            if d.len() > 0 {
                assert(v[d.len() - 1] == ".."@);
            }
        }
        assert(collapse(steps_of(v)) =~= v);
    }
}

/// Normalising is idempotent: the segments of a normalised path, read back
/// as a path, normalise to themselves, so equivalent spellings of a path
/// share one cache key.
pub proof fn law_normalise_idempotent(steps: Seq<PathStep>)
    requires
        names_proper(steps),
    ensures
        collapse(steps_of(collapse(steps))) == collapse(steps),
{
    lemma_collapse_shape(steps);
    lemma_collapse_fixed(collapse(steps));
}

/// The named components of a path are never `.` or `..` (a path reader
/// reports those as their own components).
pub open spec fn proper_components(comps: Seq<PathComponent>) -> bool {
    forall|i: int|
        0 <= i < comps.len() ==> match #[trigger] comps[i] {
            PathComponent::Normal(s) => s@ != "."@ && s@ != ".."@,
            PathComponent::Other(s) => s@ != "."@ && s@ != ".."@,
            _ => true,
        }
}

/// What [`normalise`] gives for a relative path is a fixed point: its
/// segments, read back as a path, normalise to themselves.
pub proof fn law_normalised_path_is_a_fixed_point(comps: Seq<PathComponent>)
    requires
        proper_components(comps),
    ensures
        collapse(steps_of(normalised(comps))) == normalised(comps),
{
    let steps = comps.map_values(|c: PathComponent| comp_step(c));
    assert forall|i: int| 0 <= i < steps.len() implies (#[trigger] steps[i] matches PathStep::Name(
        s,
    ) ==> s != ".."@ && s != "."@) by {
        assert(steps[i] == comp_step(comps[i]));
    }
    law_normalise_idempotent(steps);
}

} // verus!
