//! Combining the arguments of `#[scenario(...)]` and `scenarios!(...)`:
//! each field may be given once, `index` and `name` exclude each other, a
//! `libraries` list may not repeat a path, and the feature path is
//! required.
//!
//! The arguments arrive already tokenised, in source order; their payloads
//! (literals, paths, fixture specifications) are carried through unchanged,
//! so the same rules serve any representation of them.

use vstd::prelude::*;
use crate::runtime::RuntimeMode;
use crate::text::{owned, push_str, str_eq, views};

verus! {

/// An argument field, as named in duplicate-argument diagnostics.
#[derive(Clone, Copy, Debug, PartialEq, Eq, Structural)]
pub enum ArgField {
    Path,
    DirPath,
    Tags,
    Fixtures,
    Runtime,
    Harness,
    Attributes,
    Libraries,
}

/// The two ways of selecting a scenario.
#[derive(Clone, Copy, Debug, PartialEq, Eq, Structural)]
pub enum SelectorKind {
    Index,
    Name,
}

/// Why a list of arguments was rejected.
#[derive(Clone, Copy, Debug, PartialEq, Eq, Structural)]
pub enum ArgError {
    /// A field given twice.
    Duplicate(ArgField),
    /// A second selector after a first one.
    SelectorConflict { existing: SelectorKind, new: SelectorKind },
    /// The `libraries` list repeats a path; `position` is the repetition.
    DuplicateLibrary { position: usize },
    /// An `index` literal that is no valid index.
    InvalidIndex,
    /// `#[scenario]` without a feature path.
    MissingPath,
    /// `scenarios!` without a directory.
    MissingDir,
}

/// An error together with the position of the argument it concerns (the
/// number of arguments when a required one is missing).
#[derive(Debug)]
pub struct ArgFailure {
    pub arg: usize,
    pub error: ArgError,
}

/// The name of a field in diagnostics.
pub open spec fn field_label(f: ArgField) -> Seq<char> {
    match f {
        ArgField::Path => "path"@,
        ArgField::DirPath => "dir/path"@,
        ArgField::Tags => "tags"@,
        ArgField::Fixtures => "fixtures"@,
        ArgField::Runtime => "runtime"@,
        ArgField::Harness => "harness"@,
        ArgField::Attributes => "attributes"@,
        ArgField::Libraries => "libraries"@,
    }
}

/// The diagnostic for an argument error, when the library words it: the
/// message at the offending argument, and for a selector conflict a second
/// one at the earlier selector.
pub open spec fn arg_messages(e: ArgError) -> Option<(Seq<char>, Option<Seq<char>>)> {
    match e {
        ArgError::Duplicate(f) => Some(("duplicate `"@ + field_label(f) + "` argument"@, None)),
        ArgError::SelectorConflict { existing, new } => match (existing, new) {
            (SelectorKind::Index, SelectorKind::Index) => Some(
                ("duplicate `index` argument"@, None),
            ),
            (SelectorKind::Name, SelectorKind::Name) => Some(("duplicate `name` argument"@, None)),
            (SelectorKind::Index, SelectorKind::Name) => Some(
                (
                    "`name` cannot be combined with `index`; choose one selector"@,
                    Some("`index` cannot be combined with `name`"@),
                ),
            ),
            (SelectorKind::Name, SelectorKind::Index) => Some(
                (
                    "`index` cannot be combined with `name`"@,
                    Some("`name` cannot be combined with `index`; choose one selector"@),
                ),
            ),
        },
        ArgError::DuplicateLibrary { .. } => Some(
            ("duplicate step library in `libraries` argument"@, None),
        ),
        ArgError::InvalidIndex => None,
        ArgError::MissingPath => Some(("`path` argument is required"@, None)),
        ArgError::MissingDir => Some(("`dir` (or `path`) argument is required"@, None)),
    }
}

fn field_label_exec(f: ArgField) -> (r: String)
    ensures
        r@ == field_label(f),
{
    match f {
        ArgField::Path => owned("path"),
        ArgField::DirPath => owned("dir/path"),
        ArgField::Tags => owned("tags"),
        ArgField::Fixtures => owned("fixtures"),
        ArgField::Runtime => owned("runtime"),
        ArgField::Harness => owned("harness"),
        ArgField::Attributes => owned("attributes"),
        ArgField::Libraries => owned("libraries"),
    }
}

impl ArgError {
    /// The diagnostic text (see [`arg_messages`]); `None` for an invalid
    /// index, whose message comes from the literal's own parser.
    pub fn messages(&self) -> (r: Option<(String, Option<String>)>)
        ensures
            match (r, arg_messages(*self)) {
                (Some((a, b)), Some((x, y))) => a@ == x && match (b, y) {
                    (Some(bb), Some(yy)) => bb@ == yy,
                    (None, None) => true,
                    _ => false,
                },
                (None, None) => true,
                _ => false,
            },
    {
        match self {
            ArgError::Duplicate(f) => {
                let mut m = owned("duplicate `");
                push_str(&mut m, field_label_exec(*f).as_str());
                push_str(&mut m, "` argument");
                Some((m, None))
            },
            ArgError::SelectorConflict { existing, new } => match (existing, new) {
                (SelectorKind::Index, SelectorKind::Index) => Some(
                    (owned("duplicate `index` argument"), None),
                ),
                (SelectorKind::Name, SelectorKind::Name) => Some(
                    (owned("duplicate `name` argument"), None),
                ),
                (SelectorKind::Index, SelectorKind::Name) => Some(
                    (
                        owned("`name` cannot be combined with `index`; choose one selector"),
                        Some(owned("`index` cannot be combined with `name`")),
                    ),
                ),
                (SelectorKind::Name, SelectorKind::Index) => Some(
                    (
                        owned("`index` cannot be combined with `name`"),
                        Some(owned("`name` cannot be combined with `index`; choose one selector")),
                    ),
                ),
            },
            ArgError::DuplicateLibrary { .. } => Some(
                (owned("duplicate step library in `libraries` argument"), None),
            ),
            ArgError::InvalidIndex => None,
            ArgError::MissingPath => Some((owned("`path` argument is required"), None)),
            ArgError::MissingDir => Some((owned("`dir` (or `path`) argument is required"), None)),
        }
    }
}

// ---------------------------------------------------------------------
// Step libraries

/// The first entries up to `n` are all different.
pub open spec fn distinct_upto(names: Seq<Seq<char>>, n: int) -> bool {
    forall|k: int, i: int| 0 <= i < k < n ==> names[i] != names[k]
}

/// Checks that a `libraries` list (given by the rendered paths) names each
/// library once; the error is the position of the first repetition.
pub fn validate_unique_libraries(rendered: &[String]) -> (r: Result<(), usize>)
    ensures
        ({
            let names = views(rendered@);
            match r {
                Ok(()) => distinct_upto(names, names.len() as int),
                Err(p) => {
                    &&& p < names.len()
                    &&& distinct_upto(names, p as int)
                    &&& exists|i: int| 0 <= i < p && names[i] == names[p as int]
                },
            }
        }),
{
    let ghost names = views(rendered@);
    let mut j: usize = 0;
    while j < rendered.len()
        invariant
            j <= rendered@.len(),
            names == views(rendered@),
            distinct_upto(names, j as int),
        decreases rendered@.len() - j,
    {
        let mut i: usize = 0;
        while i < j
            invariant
                i <= j < rendered@.len(),
                names == views(rendered@),
                distinct_upto(names, j as int),
                forall|k: int| 0 <= k < i ==> names[k] != names[j as int],
            decreases j - i,
        {
            if str_eq(rendered[i].as_str(), rendered[j].as_str()) {
                assert(names[i as int] == names[j as int]);
                return Err(j);
            }
            i += 1;
        }
        j += 1;
    }
    Ok(())
}

/// A library path's segments without `crate`, `self` and `super`.
pub open spec fn kept_segments(segs: Seq<Seq<char>>) -> Seq<Seq<char>>
    decreases segs.len(),
{
    if segs.len() == 0 {
        seq![]
    } else {
        let prev = kept_segments(segs.drop_last());
        let s = segs.last();
        if s == "crate"@ || s == "self"@ || s == "super"@ {
            prev
        } else {
            prev.push(s)
        }
    }
}

/// The name a selected library is validated under: its segments, less
/// `crate`, `self` and `super`, joined by `::`.
pub fn library_validation_name(segments: &[String]) -> (r: String)
    ensures
        r@ == crate::text::join(kept_segments(views(segments@)), "::"@),
{
    let ghost segs = views(segments@);
    let mut kept: Vec<String> = Vec::new();
    let mut i: usize = 0;
    while i < segments.len()
        invariant
            i <= segments@.len(),
            segs == views(segments@),
            views(kept@) == kept_segments(segs.take(i as int)),
        decreases segments@.len() - i,
    {
        let s = segments[i].as_str();
        let ghost prev = kept@;
        proof {
            assert(segs.take(i + 1).drop_last() =~= segs.take(i as int));
            assert(segs.take(i + 1).last() == s@);
        }
        if !(str_eq(s, "crate") || str_eq(s, "self") || str_eq(s, "super")) {
            let c = owned(s);
            kept.push(c);
            proof {
                crate::tag_sets::lemma_views_push(prev, c);
            }
        }
        i += 1;
    }
    assert(segs.take(segments@.len() as int) =~= segs);
    crate::text::join_strings(kept.as_slice(), "::")
}

/// The validation names of every selected library, in order.
pub fn library_validation_names(libraries: &[Vec<String>]) -> (r: Vec<String>)
    ensures
        r@.len() == libraries@.len(),
        forall|i: int|
            0 <= i < r@.len() ==> (#[trigger] r@[i])@ == crate::text::join(
                kept_segments(views(libraries@[i]@)),
                "::"@,
            ),
{
    let mut r: Vec<String> = Vec::new();
    let mut i: usize = 0;
    while i < libraries.len()
        invariant
            i <= libraries@.len(),
            r@.len() == i,
            forall|k: int|
                0 <= k < i ==> (#[trigger] r@[k])@ == crate::text::join(
                    kept_segments(views(libraries@[k]@)),
                    "::"@,
                ),
        decreases libraries@.len() - i,
    {
        r.push(library_validation_name(libraries[i].as_slice()));
        i += 1;
    }
    r
}

/// Whether a selected library path is the runtime crate's built-in global
/// library: the runtime crate's path followed by `global`.
pub fn is_builtin_global_library(path: &[String], runtime: &[String]) -> (r: bool)
    ensures
        r == (path@.len() == runtime@.len() + 1 && views(path@).take(runtime@.len() as int)
            == views(runtime@) && path@.last()@ == "global"@),
{
    if path.len() == 0 || path.len() - 1 != runtime.len() {
        return false;
    }
    let mut i: usize = 0;
    while i < runtime.len()
        invariant
            i <= runtime@.len(),
            path@.len() == runtime@.len() + 1,
            forall|k: int| 0 <= k < i ==> path@[k]@ == runtime@[k]@,
        decreases runtime@.len() - i,
    {
        if !str_eq(path[i].as_str(), runtime[i].as_str()) {
            assert(views(path@).take(runtime@.len() as int)[i as int] != views(runtime@)[i as int]);
            return false;
        }
        i += 1;
    }
    assert(views(path@).take(runtime@.len() as int) =~= views(runtime@));
    str_eq(path[runtime.len()].as_str(), "global")
}

/// How a selected library is referred to in generated code.
#[derive(Debug)]
pub enum LibraryMarker {
    /// The runtime crate's global library: its own `STEP_LIBRARY` item.
    Builtin,
    /// An empty path, which is reported as an error.
    Empty,
    /// The marker constant `__RSTEST_BDD_STEP_LIBRARY_<name>` beside the
    /// library module, under the module's parent path.
    Marker { parent: Vec<String>, name: String },
}

/// Chooses how a selected library path is referred to: the runtime's
/// global library by its own item, any other by the marker constant that
/// `#[step_library]` publishes next to the module.
pub fn library_marker(path: &[String], runtime: &[String]) -> (r: LibraryMarker)
    ensures
        ({
            let builtin = path@.len() == runtime@.len() + 1 && views(path@).take(
                runtime@.len() as int,
            ) == views(runtime@) && path@.last()@ == "global"@;
            &&& builtin ==> r is Builtin
            &&& !builtin && path@.len() == 0 ==> r is Empty
            &&& !builtin && path@.len() > 0 ==> (r matches LibraryMarker::Marker { parent, name }
                && views(parent@) == views(path@).drop_last() && name@ == "__RSTEST_BDD_STEP_LIBRARY_"@
                + path@.last()@)
        }),
{
    if is_builtin_global_library(path, runtime) {
        return LibraryMarker::Builtin;
    }
    if path.len() == 0 {
        return LibraryMarker::Empty;
    }
    let n = path.len() - 1;
    let mut parent: Vec<String> = Vec::new();
    let mut i: usize = 0;
    while i < n
        invariant
            i <= n,
            n == path@.len() - 1,
            views(parent@) == views(path@).take(i as int),
        decreases n - i,
    {
        let ghost prev = parent@;
        let s = path[i].clone();
        parent.push(s);
        i += 1;
        proof {
            crate::tag_sets::lemma_views_push(prev, s);
            assert(views(path@).take(i as int) =~= views(path@).take(i - 1).push(s@));
        }
    }
    assert(views(path@).take(n as int) =~= views(path@).drop_last());
    let mut name = owned("__RSTEST_BDD_STEP_LIBRARY_");
    push_str(&mut name, path[n].as_str());
    LibraryMarker::Marker { parent, name }
}

// ---------------------------------------------------------------------
// `#[scenario(...)]`

/// One argument of `#[scenario(...)]`, with its payload: literals `S`,
/// paths `P`.
#[derive(Debug)]
pub enum ScenarioArg<S, P> {
    /// The feature path (positional or `path = ...`).
    Path(S),
    /// `index = N`; `None` when the literal is no valid `usize`.
    Index(Option<usize>),
    /// `name = "..."`.
    Name(S),
    /// `tags = "..."`.
    Tags(S),
    /// `harness = path`.
    Harness(P),
    /// `attributes = path`.
    Attributes(P),
    /// `libraries = [...]`: the paths and their rendered text.
    Libraries(Vec<P>, Vec<String>),
}

/// The selector of a `#[scenario]` test, as given.
#[derive(Debug)]
pub enum SelectorArg<S> {
    Index(usize),
    Name(S),
}

/// The combined arguments of `#[scenario(...)]`.
#[derive(Debug)]
pub struct ScenarioArgs<S, P> {
    pub path: S,
    pub selector: Option<SelectorArg<S>>,
    pub tag_filter: Option<S>,
    pub harness: Option<P>,
    pub attributes: Option<P>,
    pub libraries: Option<Vec<P>>,
}

/// The fields set by the first `n` arguments, in the order path,
/// selector, tags, harness, attributes, libraries; a later argument
/// replaces an earlier value.
pub open spec fn scenario_fold<S, P>(args: Seq<ScenarioArg<S, P>>, n: int) -> (
    Option<S>,
    Option<SelectorArg<S>>,
    Option<S>,
    Option<P>,
    Option<P>,
    Option<Vec<P>>,
)
    decreases n,
{
    if n <= 0 {
        (None, None, None, None, None, None)
    } else {
        let st = scenario_fold(args, n - 1);
        match args[n - 1] {
            ScenarioArg::Path(p) => (Some(p), st.1, st.2, st.3, st.4, st.5),
            ScenarioArg::Index(Some(v)) => (st.0, Some(SelectorArg::Index(v)), st.2, st.3, st.4, st.5),
            ScenarioArg::Index(None) => st,
            ScenarioArg::Name(x) => (st.0, Some(SelectorArg::Name(x)), st.2, st.3, st.4, st.5),
            ScenarioArg::Tags(t) => (st.0, st.1, Some(t), st.3, st.4, st.5),
            ScenarioArg::Harness(h) => (st.0, st.1, st.2, Some(h), st.4, st.5),
            ScenarioArg::Attributes(h) => (st.0, st.1, st.2, st.3, Some(h), st.5),
            ScenarioArg::Libraries(ps, _) => (st.0, st.1, st.2, st.3, st.4, Some(ps)),
        }
    }
}

/// The kind of a selector.
pub open spec fn selector_kind<S>(s: SelectorArg<S>) -> SelectorKind {
    match s {
        SelectorArg::Index(_) => SelectorKind::Index,
        SelectorArg::Name(_) => SelectorKind::Name,
    }
}

/// The list of rendered library paths repeats one, first at position `p`.
pub open spec fn repeats_at(names: Seq<Seq<char>>, p: int) -> bool {
    &&& 0 <= p < names.len()
    &&& distinct_upto(names, p)
    &&& exists|i: int| 0 <= i < p && names[i] == names[p]
}

/// What is wrong with argument `i` given the fields the arguments before
/// it set.
pub open spec fn scenario_arg_error<S, P>(args: Seq<ScenarioArg<S, P>>, i: int) -> Option<ArgError> {
    let st = scenario_fold(args, i);
    match args[i] {
        ScenarioArg::Path(_) => if st.0 is Some {
            Some(ArgError::Duplicate(ArgField::Path))
        } else {
            None
        },
        ScenarioArg::Index(v) => match st.1 {
            Some(existing) => Some(
                ArgError::SelectorConflict {
                    existing: selector_kind(existing),
                    new: SelectorKind::Index,
                },
            ),
            None => if v is None {
                Some(ArgError::InvalidIndex)
            } else {
                None
            },
        },
        ScenarioArg::Name(_) => match st.1 {
            Some(existing) => Some(
                ArgError::SelectorConflict {
                    existing: selector_kind(existing),
                    new: SelectorKind::Name,
                },
            ),
            None => None,
        },
        ScenarioArg::Tags(_) => if st.2 is Some {
            Some(ArgError::Duplicate(ArgField::Tags))
        } else {
            None
        },
        ScenarioArg::Harness(_) => if st.3 is Some {
            Some(ArgError::Duplicate(ArgField::Harness))
        } else {
            None
        },
        ScenarioArg::Attributes(_) => if st.4 is Some {
            Some(ArgError::Duplicate(ArgField::Attributes))
        } else {
            None
        },
        ScenarioArg::Libraries(_, names) => if !distinct_upto(views(names@), names@.len() as int) {
            Some(
                ArgError::DuplicateLibrary {
                    position: choose|p: usize| repeats_at(views(names@), p as int),
                },
            )
        } else if st.5 is Some {
            Some(ArgError::Duplicate(ArgField::Libraries))
        } else {
            None
        },
    }
}

/// No argument before position `n` is in error.
pub open spec fn scenario_args_ok_upto<S, P>(args: Seq<ScenarioArg<S, P>>, n: int) -> bool {
    forall|j: int| 0 <= j < n ==> (#[trigger] scenario_arg_error(args, j)) is None
}

proof fn lemma_repeat_position(names: Seq<Seq<char>>, p: usize)
    requires
        repeats_at(names, p as int),
    ensures
        (choose|q: usize| repeats_at(names, q as int)) == p,
{
    let q = choose|q: usize| repeats_at(names, q as int);
    if q < p {
        let i = choose|i: int| 0 <= i < q && names[i] == names[q as int];
        assert(names[i] != names[q as int]);
    } else if q > p {
        let i = choose|i: int| 0 <= i < p && names[i] == names[p as int];
        assert(names[i] != names[p as int]);
    }
}

/// Combines the arguments of `#[scenario(...)]`.
///
/// Each argument is checked in order against those before it: a field may
/// be set once, `index` and `name` exclude each other (an `index` literal
/// is read only when no selector precedes it), and a `libraries` list may
/// not repeat a path. The first problem found is reported; without one,
/// a missing feature path is.
pub fn combine_scenario_args<S, P>(args: Vec<ScenarioArg<S, P>>) -> (r: Result<
    ScenarioArgs<S, P>,
    ArgFailure,
>)
    ensures
        match r {
            Ok(a) => {
                let st = scenario_fold(args@, args@.len() as int);
                &&& scenario_args_ok_upto(args@, args@.len() as int)
                &&& st.0 == Some(a.path)
                &&& st.1 == a.selector
                &&& st.2 == a.tag_filter
                &&& st.3 == a.harness
                &&& st.4 == a.attributes
                &&& st.5 == a.libraries
            },
            Err(f) => if f.arg < args@.len() {
                scenario_args_ok_upto(args@, f.arg as int) && scenario_arg_error(
                    args@,
                    f.arg as int,
                ) == Some(f.error)
            } else {
                &&& f.arg == args@.len()
                &&& scenario_args_ok_upto(args@, args@.len() as int)
                &&& scenario_fold(args@, args@.len() as int).0 is None
                &&& f.error == ArgError::MissingPath
            },
        },
{
    let ghost orig = args@;
    let mut rest = args;
    let n = rest.len();
    let mut path: Option<S> = None;
    let mut selector: Option<SelectorArg<S>> = None;
    let mut tag_filter: Option<S> = None;
    let mut harness: Option<P> = None;
    let mut attributes: Option<P> = None;
    let mut libraries: Option<Vec<P>> = None;
    let mut i: usize = 0;
    while i < n
        invariant
            n == orig.len(),
            orig == args@,
            i <= n,
            rest@ == orig.skip(i as int),
            scenario_args_ok_upto(orig, i as int),
            scenario_fold(orig, i as int) == (
                path,
                selector,
                tag_filter,
                harness,
                attributes,
                libraries,
            ),
        decreases n - i,
    {
        proof {
            assert(orig.skip(i as int)[0] == orig[i as int]);
        }
        let arg = rest.remove(0);
        proof {
            assert(orig.skip(i as int).remove(0) =~= orig.skip(i + 1));
        }
        match arg {
            ScenarioArg::Path(p) => {
                if path.is_some() {
                    return Err(ArgFailure { arg: i, error: ArgError::Duplicate(ArgField::Path) });
                }
                path = Some(p);
            },
            ScenarioArg::Index(v) => {
                match &selector {
                    Some(existing) => {
                        let kind = match existing {
                            SelectorArg::Index(_) => SelectorKind::Index,
                            SelectorArg::Name(_) => SelectorKind::Name,
                        };
                        return Err(
                            ArgFailure {
                                arg: i,
                                error: ArgError::SelectorConflict {
                                    existing: kind,
                                    new: SelectorKind::Index,
                                },
                            },
                        );
                    },
                    None => {},
                }
                match v {
                    Some(value) => {
                        selector = Some(SelectorArg::Index(value));
                    },
                    None => {
                        return Err(ArgFailure { arg: i, error: ArgError::InvalidIndex });
                    },
                }
            },
            ScenarioArg::Name(x) => {
                match &selector {
                    Some(existing) => {
                        let kind = match existing {
                            SelectorArg::Index(_) => SelectorKind::Index,
                            SelectorArg::Name(_) => SelectorKind::Name,
                        };
                        return Err(
                            ArgFailure {
                                arg: i,
                                error: ArgError::SelectorConflict {
                                    existing: kind,
                                    new: SelectorKind::Name,
                                },
                            },
                        );
                    },
                    None => {},
                }
                selector = Some(SelectorArg::Name(x));
            },
            ScenarioArg::Tags(t) => {
                if tag_filter.is_some() {
                    return Err(ArgFailure { arg: i, error: ArgError::Duplicate(ArgField::Tags) });
                }
                tag_filter = Some(t);
            },
            ScenarioArg::Harness(h) => {
                if harness.is_some() {
                    return Err(ArgFailure { arg: i, error: ArgError::Duplicate(ArgField::Harness) });
                }
                harness = Some(h);
            },
            ScenarioArg::Attributes(h) => {
                if attributes.is_some() {
                    return Err(
                        ArgFailure { arg: i, error: ArgError::Duplicate(ArgField::Attributes) },
                    );
                }
                attributes = Some(h);
            },
            ScenarioArg::Libraries(ps, names) => {
                match validate_unique_libraries(names.as_slice()) {
                    Err(p) => {
                        proof {
                            lemma_repeat_position(views(names@), p);
                        }
                        return Err(
                            ArgFailure { arg: i, error: ArgError::DuplicateLibrary { position: p } },
                        );
                    },
                    Ok(()) => {},
                }
                if libraries.is_some() {
                    return Err(
                        ArgFailure { arg: i, error: ArgError::Duplicate(ArgField::Libraries) },
                    );
                }
                libraries = Some(ps);
            },
        }
        i += 1;
    }
    proof {
        assert(orig == args@);
    }
    match path {
        Some(p) => Ok(ScenarioArgs { path: p, selector, tag_filter, harness, attributes, libraries }),
        None => Err(ArgFailure { arg: n, error: ArgError::MissingPath }),
    }
}

// ---------------------------------------------------------------------
// `scenarios!(...)`

/// One argument of `scenarios!(...)`, with its payload: literals `S`,
/// fixture specifications `F`, paths `P`.
#[derive(Debug)]
pub enum ScenariosArg<S, F, P> {
    /// The directory (positional, `dir = ...` or `path = ...`).
    Dir(S),
    /// `tags = "..."`.
    Tags(S),
    /// `fixtures = [name: Type, ...]`.
    Fixtures(Vec<F>),
    /// `runtime = "..."`, already read.
    Runtime(RuntimeMode),
    /// `harness = path`.
    Harness(P),
    /// `attributes = path`.
    Attributes(P),
    /// `libraries = [...]`: the paths and their rendered text.
    Libraries(Vec<P>, Vec<String>),
}

/// The combined arguments of `scenarios!(...)`.
#[derive(Debug)]
pub struct ScenariosArgs<S, F, P> {
    pub dir: S,
    pub tag_filter: Option<S>,
    pub fixtures: Vec<F>,
    pub runtime: RuntimeMode,
    pub harness: Option<P>,
    pub attributes: Option<P>,
    pub libraries: Option<Vec<P>>,
}

/// The fields set by the first `n` arguments: directory, tags, fixtures,
/// runtime, harness, attributes, libraries.
pub open spec fn scenarios_fold<S, F, P>(args: Seq<ScenariosArg<S, F, P>>, n: int) -> (
    Option<S>,
    Option<S>,
    Option<Vec<F>>,
    Option<RuntimeMode>,
    Option<P>,
    Option<P>,
    Option<Vec<P>>,
)
    decreases n,
{
    if n <= 0 {
        (None, None, None, None, None, None, None)
    } else {
        let st = scenarios_fold(args, n - 1);
        match args[n - 1] {
            ScenariosArg::Dir(d) => (Some(d), st.1, st.2, st.3, st.4, st.5, st.6),
            ScenariosArg::Tags(t) => (st.0, Some(t), st.2, st.3, st.4, st.5, st.6),
            ScenariosArg::Fixtures(f) => (st.0, st.1, Some(f), st.3, st.4, st.5, st.6),
            ScenariosArg::Runtime(m) => (st.0, st.1, st.2, Some(m), st.4, st.5, st.6),
            ScenariosArg::Harness(h) => (st.0, st.1, st.2, st.3, Some(h), st.5, st.6),
            ScenariosArg::Attributes(h) => (st.0, st.1, st.2, st.3, st.4, Some(h), st.6),
            ScenariosArg::Libraries(ps, _) => (st.0, st.1, st.2, st.3, st.4, st.5, Some(ps)),
        }
    }
}

/// What is wrong with argument `i` given the fields set before it.
pub open spec fn scenarios_arg_error<S, F, P>(args: Seq<ScenariosArg<S, F, P>>, i: int) -> Option<
    ArgError,
> {
    let st = scenarios_fold(args, i);
    match args[i] {
        ScenariosArg::Dir(_) => if st.0 is Some {
            Some(ArgError::Duplicate(ArgField::DirPath))
        } else {
            None
        },
        ScenariosArg::Tags(_) => if st.1 is Some {
            Some(ArgError::Duplicate(ArgField::Tags))
        } else {
            None
        },
        ScenariosArg::Fixtures(_) => if st.2 is Some {
            Some(ArgError::Duplicate(ArgField::Fixtures))
        } else {
            None
        },
        ScenariosArg::Runtime(_) => if st.3 is Some {
            Some(ArgError::Duplicate(ArgField::Runtime))
        } else {
            None
        },
        ScenariosArg::Harness(_) => if st.4 is Some {
            Some(ArgError::Duplicate(ArgField::Harness))
        } else {
            None
        },
        ScenariosArg::Attributes(_) => if st.5 is Some {
            Some(ArgError::Duplicate(ArgField::Attributes))
        } else {
            None
        },
        ScenariosArg::Libraries(_, names) => if !distinct_upto(views(names@), names@.len() as int) {
            Some(
                ArgError::DuplicateLibrary {
                    position: choose|p: usize| repeats_at(views(names@), p as int),
                },
            )
        } else if st.6 is Some {
            Some(ArgError::Duplicate(ArgField::Libraries))
        } else {
            None
        },
    }
}

/// No argument before position `n` is in error.
pub open spec fn scenarios_args_ok_upto<S, F, P>(args: Seq<ScenariosArg<S, F, P>>, n: int) -> bool {
    forall|j: int| 0 <= j < n ==> (#[trigger] scenarios_arg_error(args, j)) is None
}

/// Combines the arguments of `scenarios!(...)`.
///
/// Each field may be given once (`dir` and `path` are one field), and a
/// `libraries` list may not repeat a path; the first problem found is
/// reported, and without one a missing directory. Fixtures default to
/// none and the runtime to synchronous tests.
pub fn combine_scenarios_args<S, F, P>(args: Vec<ScenariosArg<S, F, P>>) -> (r: Result<
    ScenariosArgs<S, F, P>,
    ArgFailure,
>)
    ensures
        match r {
            Ok(a) => {
                let st = scenarios_fold(args@, args@.len() as int);
                &&& scenarios_args_ok_upto(args@, args@.len() as int)
                &&& st.0 == Some(a.dir)
                &&& st.1 == a.tag_filter
                &&& match st.2 {
                    Some(f) => a.fixtures == f,
                    None => a.fixtures@.len() == 0,
                }
                &&& match st.3 {
                    Some(m) => a.runtime == m,
                    None => a.runtime == RuntimeMode::Sync,
                }
                &&& st.4 == a.harness
                &&& st.5 == a.attributes
                &&& st.6 == a.libraries
            },
            Err(f) => if f.arg < args@.len() {
                scenarios_args_ok_upto(args@, f.arg as int) && scenarios_arg_error(
                    args@,
                    f.arg as int,
                ) == Some(f.error)
            } else {
                &&& f.arg == args@.len()
                &&& scenarios_args_ok_upto(args@, args@.len() as int)
                &&& scenarios_fold(args@, args@.len() as int).0 is None
                &&& f.error == ArgError::MissingDir
            },
        },
{
    let ghost orig = args@;
    let mut rest = args;
    let n = rest.len();
    let mut dir: Option<S> = None;
    let mut tag_filter: Option<S> = None;
    let mut fixtures: Option<Vec<F>> = None;
    let mut runtime: Option<RuntimeMode> = None;
    let mut harness: Option<P> = None;
    let mut attributes: Option<P> = None;
    let mut libraries: Option<Vec<P>> = None;
    let mut i: usize = 0;
    while i < n
        invariant
            n == orig.len(),
            orig == args@,
            i <= n,
            rest@ == orig.skip(i as int),
            scenarios_args_ok_upto(orig, i as int),
            scenarios_fold(orig, i as int) == (
                dir,
                tag_filter,
                fixtures,
                runtime,
                harness,
                attributes,
                libraries,
            ),
        decreases n - i,
    {
        proof {
            assert(orig.skip(i as int)[0] == orig[i as int]);
        }
        let arg = rest.remove(0);
        proof {
            assert(orig.skip(i as int).remove(0) =~= orig.skip(i + 1));
        }
        match arg {
            ScenariosArg::Dir(d) => {
                if dir.is_some() {
                    return Err(ArgFailure { arg: i, error: ArgError::Duplicate(ArgField::DirPath) });
                }
                dir = Some(d);
            },
            ScenariosArg::Tags(t) => {
                if tag_filter.is_some() {
                    return Err(ArgFailure { arg: i, error: ArgError::Duplicate(ArgField::Tags) });
                }
                tag_filter = Some(t);
            },
            ScenariosArg::Fixtures(f) => {
                if fixtures.is_some() {
                    return Err(ArgFailure { arg: i, error: ArgError::Duplicate(ArgField::Fixtures) });
                }
                fixtures = Some(f);
            },
            ScenariosArg::Runtime(m) => {
                if runtime.is_some() {
                    return Err(ArgFailure { arg: i, error: ArgError::Duplicate(ArgField::Runtime) });
                }
                runtime = Some(m);
            },
            ScenariosArg::Harness(h) => {
                if harness.is_some() {
                    return Err(ArgFailure { arg: i, error: ArgError::Duplicate(ArgField::Harness) });
                }
                harness = Some(h);
            },
            ScenariosArg::Attributes(h) => {
                if attributes.is_some() {
                    return Err(
                        ArgFailure { arg: i, error: ArgError::Duplicate(ArgField::Attributes) },
                    );
                }
                attributes = Some(h);
            },
            ScenariosArg::Libraries(ps, names) => {
                match validate_unique_libraries(names.as_slice()) {
                    Err(p) => {
                        proof {
                            lemma_repeat_position(views(names@), p);
                        }
                        return Err(
                            ArgFailure { arg: i, error: ArgError::DuplicateLibrary { position: p } },
                        );
                    },
                    Ok(()) => {},
                }
                if libraries.is_some() {
                    return Err(
                        ArgFailure { arg: i, error: ArgError::Duplicate(ArgField::Libraries) },
                    );
                }
                libraries = Some(ps);
            },
        }
        i += 1;
    }
    let d = match dir {
        Some(d) => d,
        None => {
            return Err(ArgFailure { arg: n, error: ArgError::MissingDir });
        },
    };
    let fixtures = match fixtures {
        Some(f) => f,
        None => Vec::new(),
    };
    let runtime = match runtime {
        Some(m) => m,
        None => RuntimeMode::Sync,
    };
    Ok(ScenariosArgs { dir: d, tag_filter, fixtures, runtime, harness, attributes, libraries })
}

} // verus!
