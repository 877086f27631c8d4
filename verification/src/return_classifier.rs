//! Classification of step and scenario return types by their spelling.
//!
//! Generated step wrappers normalise what a step returns. Without type
//! information, the return type is recognised syntactically: `()` and `!`,
//! and the spelled `Result` shapes `Result<..>`, `std::result::Result<..>`,
//! `core::result::Result<..>`, `StepResult<..>` and `rstest_bdd::`,
//! `crate::`, `self::` or `super::StepResult<..>`. Aliases are not
//! resolved; explicit `value` and `result` hints override the guess.
//!
//! A type is given as a [`TypeShape`]: the parts of its syntax the rules
//! read.

use vstd::prelude::*;
use crate::text::str_eq;

verus! {

/// The syntax of a type, as far as classification reads it.
#[derive(Debug)]
pub enum TypeShape {
    /// A tuple type; `()` when empty.
    Tuple(Vec<TypeShape>),
    /// The never type `!`.
    Never,
    /// `impl Trait`.
    ImplTrait,
    /// A path type such as `std::result::Result<T, E>`.
    Path(Vec<PathSegment>),
    /// Any other type (references, slices, function pointers, ...).
    Other,
}

/// One segment of a type path.
#[derive(Debug)]
pub struct PathSegment {
    /// The segment's identifier.
    pub ident: String,
    /// Its angle-bracketed arguments; `None` when it has none or
    /// parenthesised ones.
    pub args: Option<Vec<GenericArg>>,
}

/// One generic argument of a path segment.
#[derive(Debug)]
pub enum GenericArg {
    /// A type argument.
    Type(TypeShape),
    /// A lifetime, const or binding argument.
    Other,
}

/// How a step return value is normalised.
#[derive(Clone, Copy, Debug, PartialEq, Eq, Structural)]
pub enum ReturnKind {
    /// `()` or no return type.
    Unit,
    /// A value payload.
    Value,
    /// `Result<(), E>`: errors propagate.
    ResultUnit,
    /// `Result<T, E>`: errors propagate, values become payloads.
    ResultValue,
}

/// An explicit hint overriding the classification.
#[derive(Clone, Copy, Debug, PartialEq, Eq, Structural)]
pub enum ReturnOverride {
    /// Treat the return type as `Result<..>`.
    Result,
    /// Treat the return type as a value payload.
    Value,
}

/// How a step wrapper dispatches a returned value.
#[derive(Clone, Copy, Debug, PartialEq, Eq, Structural)]
pub enum StepReturnStrategy {
    /// `()` or no return type.
    Unit,
    /// The step diverges.
    Never,
    /// The compiler picks the `Result` or the value arm.
    Dispatch,
    /// The `value` hint forces payload treatment.
    ForcedValue,
    /// The `result` hint forces fallible treatment.
    ForcedResult,
}

/// What a `#[scenario]` body may return.
#[derive(Clone, Copy, Debug, PartialEq, Eq, Structural)]
pub enum ScenarioReturnKind {
    Unit,
    ResultUnit,
}

/// Why a return type was rejected.
#[derive(Clone, Copy, Debug, PartialEq, Eq, Structural)]
pub enum ReturnError {
    /// The `result` hint on a type that cannot be a `Result`.
    OverrideNeedsResult,
    /// An unhinted `Result` whose payload is a `Result`.
    NestedResult,
    /// An unhinted `impl Trait` return.
    ImplTrait,
    /// A scenario body returning a value.
    ScenarioValue,
}

/// The diagnostic text of a rejected return type.
pub open spec fn return_error_message(e: ReturnError) -> Seq<char> {
    match e {
        ReturnError::OverrideNeedsResult =>
            "return override `result` requires a return type shaped like `Result<T, E>` or `StepResult<T, E>`"@,
        ReturnError::NestedResult =>
            "unhinted step returns may not nest `Result`; use an explicit `value` or `result` hint"@,
        ReturnError::ImplTrait =>
            "unhinted step returns may not use `impl Trait`; use an explicit `value` or `result` hint"@,
        ReturnError::ScenarioValue => "#[scenario] bodies must return () or a unit Result/StepResult"@,
    }
}

impl ReturnError {
    /// The diagnostic text.
    pub fn message(self) -> (r: String)
        ensures
            r@ == return_error_message(self),
    {
        match self {
            ReturnError::OverrideNeedsResult => crate::text::owned(
                "return override `result` requires a return type shaped like `Result<T, E>` or `StepResult<T, E>`",
            ),
            ReturnError::NestedResult => crate::text::owned(
                "unhinted step returns may not nest `Result`; use an explicit `value` or `result` hint",
            ),
            ReturnError::ImplTrait => crate::text::owned(
                "unhinted step returns may not use `impl Trait`; use an explicit `value` or `result` hint",
            ),
            ReturnError::ScenarioValue => crate::text::owned(
                "#[scenario] bodies must return () or a unit Result/StepResult",
            ),
        }
    }
}

// ---------------------------------------------------------------------
// Shapes

/// The identifiers of a path's segments.
pub open spec fn idents(segs: Seq<PathSegment>) -> Seq<Seq<char>> {
    segs.map_values(|s: PathSegment| s.ident@)
}

/// `()`.
pub open spec fn is_unit(t: TypeShape) -> bool {
    t matches TypeShape::Tuple(v) && v@.len() == 0
}

/// The primitive type names.
pub open spec fn is_primitive_name(s: Seq<char>) -> bool {
    s == "u8"@ || s == "u16"@ || s == "u32"@ || s == "u64"@ || s == "u128"@ || s == "usize"@ || s
        == "i8"@ || s == "i16"@ || s == "i32"@ || s == "i64"@ || s == "i128"@ || s == "isize"@ || s
        == "f32"@ || s == "f64"@ || s == "bool"@ || s == "char"@ || s == "str"@
}

/// `u32`, `std::primitive::u32`, `core::primitive::bool`, ...
pub open spec fn is_primitive_path(ids: Seq<Seq<char>>) -> bool {
    ||| ids.len() == 1 && is_primitive_name(ids[0])
    ||| ids.len() == 3 && (ids[0] == "std"@ || ids[0] == "core"@) && ids[1] == "primitive"@
        && is_primitive_name(ids[2])
}

/// `String`, `Option` and `Vec`, bare or by their standard paths.
pub open spec fn is_known_non_result_path(ids: Seq<Seq<char>>) -> bool {
    ||| ids.len() == 1 && (ids[0] == "String"@ || ids[0] == "Option"@ || ids[0] == "Vec"@)
    ||| ids.len() == 3 && (ids[0] == "std"@ || ids[0] == "alloc"@) && ids[1] == "string"@ && ids[2]
        == "String"@
    ||| ids.len() == 3 && (ids[0] == "std"@ || ids[0] == "core"@) && ids[1] == "option"@ && ids[2]
        == "Option"@
    ||| ids.len() == 3 && (ids[0] == "std"@ || ids[0] == "alloc"@) && ids[1] == "vec"@ && ids[2]
        == "Vec"@
}

/// `Result`, `std::result::Result` or `core::result::Result`.
pub open spec fn is_result_path(ids: Seq<Seq<char>>) -> bool {
    ||| ids.len() == 1 && ids[0] == "Result"@
    ||| ids.len() == 3 && (ids[0] == "std"@ || ids[0] == "core"@) && ids[1] == "result"@ && ids[2]
        == "Result"@
}

/// `StepResult`, or it behind `rstest_bdd`, `crate`, `self` or `super`.
pub open spec fn is_step_result_path(ids: Seq<Seq<char>>) -> bool {
    ||| ids.len() == 1 && ids[0] == "StepResult"@
    ||| ids.len() == 2 && (ids[0] == "rstest_bdd"@ || ids[0] == "crate"@ || ids[0] == "self"@
        || ids[0] == "super"@) && ids[1] == "StepResult"@
}

pub open spec fn is_result_like_path(ids: Seq<Seq<char>>) -> bool {
    is_result_path(ids) || is_step_result_path(ids)
}

/// The type arguments among `args`, in order.
pub open spec fn type_args(args: Seq<GenericArg>) -> Seq<TypeShape>
    decreases args.len(),
{
    if args.len() == 0 {
        seq![]
    } else {
        let prev = type_args(args.drop_last());
        match args.last() {
            GenericArg::Type(t) => prev.push(t),
            GenericArg::Other => prev,
        }
    }
}

/// The `n`-th type argument of the path's last segment.
pub open spec fn nth_type_arg(segs: Seq<PathSegment>, n: int) -> Option<TypeShape> {
    if segs.len() == 0 {
        None
    } else {
        match segs.last().args {
            Some(a) => if 0 <= n < type_args(a@).len() {
                Some(type_args(a@)[n])
            } else {
                None
            },
            None => None,
        }
    }
}

/// The kind of a spelled `Result`-like type: `ResultUnit` when its first
/// type argument is `()`, `ResultValue` for any other.
pub open spec fn result_like_kind(t: TypeShape) -> Option<ReturnKind> {
    match t {
        TypeShape::Path(segs) => if is_result_like_path(idents(segs@)) {
            match nth_type_arg(segs@, 0) {
                Some(ok) => Some(
                    if is_unit(ok) {
                        ReturnKind::ResultUnit
                    } else {
                        ReturnKind::ResultValue
                    },
                ),
                None => None,
            }
        } else {
            None
        },
        _ => None,
    }
}

/// A spelled `Result` whose payload is itself a spelled `Result`.
pub open spec fn is_nested_result(t: TypeShape) -> bool {
    &&& t matches TypeShape::Path(segs)
    &&& is_result_like_path(idents(segs@))
    &&& nth_type_arg(segs@, 0) matches Some(inner)
    &&& result_like_kind(inner) is Some
}

/// A type that cannot be a `Result`: a primitive, `String`, `Option`,
/// `Vec`, or anything that is not a path.
pub open spec fn is_definitely_non_result(t: TypeShape) -> bool {
    match t {
        TypeShape::Path(segs) => is_primitive_path(idents(segs@)) || is_known_non_result_path(
            idents(segs@),
        ),
        _ => true,
    }
}

// ---------------------------------------------------------------------
// Executable recognisers

fn idents_are(segs: &[PathSegment], a: &str, b: &str, c: &str) -> (r: bool)
    requires
        segs@.len() == 3,
    ensures
        r == (segs@[0].ident@ == a@ && segs@[1].ident@ == b@ && segs@[2].ident@ == c@),
{
    str_eq(segs[0].ident.as_str(), a) && str_eq(segs[1].ident.as_str(), b) && str_eq(
        segs[2].ident.as_str(),
        c,
    )
}

fn is_primitive_name_exec(s: &str) -> (r: bool)
    ensures
        r == is_primitive_name(s@),
{
    str_eq(s, "u8") || str_eq(s, "u16") || str_eq(s, "u32") || str_eq(s, "u64") || str_eq(
        s,
        "u128",
    ) || str_eq(s, "usize") || str_eq(s, "i8") || str_eq(s, "i16") || str_eq(s, "i32") || str_eq(
        s,
        "i64",
    ) || str_eq(s, "i128") || str_eq(s, "isize") || str_eq(s, "f32") || str_eq(s, "f64")
        || str_eq(s, "bool") || str_eq(s, "char") || str_eq(s, "str")
}

fn is_primitive_path_exec(segs: &[PathSegment]) -> (r: bool)
    ensures
        r == is_primitive_path(idents(segs@)),
{
    if segs.len() == 1 {
        is_primitive_name_exec(segs[0].ident.as_str())
    } else if segs.len() == 3 {
        let root = segs[0].ident.as_str();
        (str_eq(root, "std") || str_eq(root, "core")) && str_eq(segs[1].ident.as_str(), "primitive")
            && is_primitive_name_exec(segs[2].ident.as_str())
    } else {
        false
    }
}

fn is_known_non_result_path_exec(segs: &[PathSegment]) -> (r: bool)
    ensures
        r == is_known_non_result_path(idents(segs@)),
{
    if segs.len() == 1 {
        let s = segs[0].ident.as_str();
        str_eq(s, "String") || str_eq(s, "Option") || str_eq(s, "Vec")
    } else if segs.len() == 3 {
        idents_are(segs, "std", "string", "String") || idents_are(segs, "alloc", "string", "String")
            || idents_are(segs, "std", "option", "Option") || idents_are(
            segs,
            "core",
            "option",
            "Option",
        ) || idents_are(segs, "std", "vec", "Vec") || idents_are(segs, "alloc", "vec", "Vec")
    } else {
        false
    }
}

/// Whether a path is a spelled `Result` or `StepResult`.
pub fn is_result_like_path_exec(segs: &[PathSegment]) -> (r: bool)
    ensures
        r == is_result_like_path(idents(segs@)),
{
    if segs.len() == 1 {
        let s = segs[0].ident.as_str();
        str_eq(s, "Result") || str_eq(s, "StepResult")
    } else if segs.len() == 3 {
        idents_are(segs, "std", "result", "Result") || idents_are(segs, "core", "result", "Result")
    } else if segs.len() == 2 {
        let root = segs[0].ident.as_str();
        (str_eq(root, "rstest_bdd") || str_eq(root, "crate") || str_eq(root, "self") || str_eq(
            root,
            "super",
        )) && str_eq(segs[1].ident.as_str(), "StepResult")
    } else {
        false
    }
}

fn is_unit_exec(t: &TypeShape) -> (r: bool)
    ensures
        r == is_unit(*t),
{
    match t {
        TypeShape::Tuple(v) => v.len() == 0,
        _ => false,
    }
}

/// The type argument at position `n` of the path's last segment.
pub fn nth_type_argument(segs: &[PathSegment], n: usize) -> (r: Option<&TypeShape>)
    ensures
        match (r, nth_type_arg(segs@, n as int)) {
            (Some(a), Some(b)) => *a == b,
            (None, None) => true,
            _ => false,
        },
{
    if segs.len() == 0 {
        return None;
    }
    let last = &segs[segs.len() - 1];
    assert(segs@.last() == *last);
    let args = match &last.args {
        Some(a) => a,
        None => {
            return None;
        },
    };
    let ghost all = args@;
    let mut seen: usize = 0;
    let mut i: usize = 0;
    while i < args.len()
        invariant
            i <= all.len(),
            all == args@,
            segs@.len() > 0,
            segs@.last().args matches Some(a) && a@ == all,
            seen == type_args(all.take(i as int)).len(),
            seen <= n,
        decreases all.len() - i,
    {
        proof {
            assert(all.take(i + 1).drop_last() =~= all.take(i as int));
            assert(all.take(i + 1).last() == all[i as int]);
        }
        match &args[i] {
            GenericArg::Type(t) => {
                if seen == n {
                    proof {
                        lemma_type_args_prefix(all, i as int + 1);
                        assert(all[i as int] == GenericArg::Type(*t));
                        assert(type_args(all.take(i + 1)) == type_args(all.take(i as int)).push(
                            *t,
                        ));
                        assert(type_args(all.take(i + 1))[n as int] == *t);
                        assert(type_args(all)[n as int] == *t);
                    }
                    return Some(t);
                }
                seen += 1;
            },
            GenericArg::Other => {},
        }
        i += 1;
    }
    proof {
        assert(all.take(all.len() as int) =~= all);
    }
    None
}

/// The type arguments of a prefix are a prefix of the type arguments.
proof fn lemma_type_args_prefix(args: Seq<GenericArg>, k: int)
    requires
        0 <= k <= args.len(),
    ensures
        type_args(args.take(k)).len() <= type_args(args).len(),
        forall|j: int|
            0 <= j < type_args(args.take(k)).len() ==> #[trigger] type_args(args.take(k))[j]
                == type_args(args)[j],
    decreases args.len() - k,
{
    if k < args.len() {
        lemma_type_args_prefix(args, k + 1);
        let x = args.take(k + 1);
        assert(x.drop_last() =~= args.take(k));
        assert(x.last() == args[k]);
        let tk = type_args(args.take(k));
        let tk1 = type_args(x);
        assert(tk1.len() >= tk.len());
        assert forall|j: int| 0 <= j < tk.len() implies #[trigger] tk[j] == type_args(args)[j] by {
            assert(tk1[j] == tk[j]);
        }
    } else {
        assert(args.take(k) =~= args);
    }
}

/// The kind of a spelled `Result`-like type, `None` for any other type.
pub fn classify_result_like(t: &TypeShape) -> (r: Option<ReturnKind>)
    ensures
        r == result_like_kind(*t),
{
    match t {
        TypeShape::Path(segs) => {
            if !is_result_like_path_exec(segs.as_slice()) {
                return None;
            }
            match nth_type_argument(segs.as_slice(), 0) {
                Some(ok) => {
                    if is_unit_exec(ok) {
                        Some(ReturnKind::ResultUnit)
                    } else {
                        Some(ReturnKind::ResultValue)
                    }
                },
                None => None,
            }
        },
        _ => None,
    }
}

/// Whether a spelled `Result` carries a spelled `Result` as its payload.
pub fn is_nested_result_type(t: &TypeShape) -> (r: bool)
    ensures
        r == is_nested_result(*t),
{
    match t {
        TypeShape::Path(segs) => {
            if !is_result_like_path_exec(segs.as_slice()) {
                return false;
            }
            match nth_type_argument(segs.as_slice(), 0) {
                Some(inner) => classify_result_like(inner).is_some(),
                None => false,
            }
        },
        _ => false,
    }
}

/// Whether a type can be ruled out as a `Result`.
pub fn is_definitely_non_result_type(t: &TypeShape) -> (r: bool)
    ensures
        r == is_definitely_non_result(*t),
{
    match t {
        TypeShape::Path(segs) => is_primitive_path_exec(segs.as_slice())
            || is_known_non_result_path_exec(segs.as_slice()),
        _ => true,
    }
}

// ---------------------------------------------------------------------
// Classification

/// The return kind of a function with return type `output` (`None` when
/// it declares none) under an optional hint.
pub open spec fn return_kind_of(output: Option<TypeShape>, hint: Option<ReturnOverride>) -> Result<
    ReturnKind,
    ReturnError,
> {
    match output {
        None => Ok(ReturnKind::Unit),
        Some(t) => if is_unit(t) {
            Ok(ReturnKind::Unit)
        } else {
            match hint {
                Some(ReturnOverride::Value) => Ok(ReturnKind::Value),
                Some(ReturnOverride::Result) => match result_like_kind(t) {
                    Some(k) => Ok(k),
                    None => if is_definitely_non_result(t) {
                        Err(ReturnError::OverrideNeedsResult)
                    } else {
                        Ok(ReturnKind::ResultValue)
                    },
                },
                None => match result_like_kind(t) {
                    Some(k) => Ok(k),
                    None => Ok(ReturnKind::Value),
                },
            }
        },
    }
}

/// Classifies a return type into one of the wrapper shapes: `()` is
/// `Unit`; a `value` hint forces `Value`; a `result` hint takes a spelled
/// `Result`'s kind, assumes `ResultValue` for an unrecognised path, and
/// rejects types that cannot be a `Result`; without a hint, spelled
/// `Result`s give their kind and everything else is `Value`.
pub fn classify_return_type(output: &Option<TypeShape>, hint: Option<ReturnOverride>) -> (r: Result<
    ReturnKind,
    ReturnError,
>)
    ensures
        r == return_kind_of(*output, hint),
{
    let t = match output {
        None => {
            return Ok(ReturnKind::Unit);
        },
        Some(t) => t,
    };
    if is_unit_exec(t) {
        return Ok(ReturnKind::Unit);
    }
    match hint {
        Some(ReturnOverride::Value) => Ok(ReturnKind::Value),
        Some(ReturnOverride::Result) => match classify_result_like(t) {
            Some(k) => Ok(k),
            None => {
                if is_definitely_non_result_type(t) {
                    Err(ReturnError::OverrideNeedsResult)
                } else {
                    Ok(ReturnKind::ResultValue)
                }
            },
        },
        None => match classify_result_like(t) {
            Some(k) => Ok(k),
            None => Ok(ReturnKind::Value),
        },
    }
}

/// The `result` hint leaves the kind of a spelled `Result`-like type with
/// an `Ok` type argument as it is: with the hint or without it, the kind
/// is `ResultUnit` exactly when that first type argument is `()`, and
/// `ResultValue` otherwise.
pub proof fn law_result_hint_keeps_spelled_result_kind(segs: Vec<PathSegment>)
    requires
        is_result_like_path(idents(segs@)),
        nth_type_arg(segs@, 0) is Some,
    ensures
        return_kind_of(Some(TypeShape::Path(segs)), Some(ReturnOverride::Result)) == return_kind_of(
            Some(TypeShape::Path(segs)),
            None,
        ),
        return_kind_of(Some(TypeShape::Path(segs)), None) == Ok::<ReturnKind, ReturnError>(
            match nth_type_arg(segs@, 0) {
                Some(TypeShape::Tuple(v)) => if v@.len() == 0 {
                    ReturnKind::ResultUnit
                } else {
                    ReturnKind::ResultValue
                },
                _ => ReturnKind::ResultValue,
            },
        ),
{
}

/// Every spelling of a `Result` the classifier recognises, with an `Ok`
/// type argument, is classified as a `Result` without a hint:
/// `Result`, `std::result::Result`, `core::result::Result`, `StepResult`,
/// and `StepResult` behind `rstest_bdd`, `crate`, `self` or `super`.
pub proof fn law_spelled_results_are_results(segs: Vec<PathSegment>)
    requires
        nth_type_arg(segs@, 0) is Some,
        idents(segs@) == seq!["Result"@] || idents(segs@) == seq!["std"@, "result"@, "Result"@]
            || idents(segs@) == seq!["core"@, "result"@, "Result"@] || idents(segs@) == seq![
            "StepResult"@,
        ] || idents(segs@) == seq!["rstest_bdd"@, "StepResult"@] || idents(segs@) == seq![
            "crate"@,
            "StepResult"@,
        ] || idents(segs@) == seq!["self"@, "StepResult"@] || idents(segs@) == seq![
            "super"@,
            "StepResult"@,
        ],
    ensures
        return_kind_of(Some(TypeShape::Path(segs)), None) == Ok::<ReturnKind, ReturnError>(
            match nth_type_arg(segs@, 0) {
                Some(TypeShape::Tuple(v)) => if v@.len() == 0 {
                    ReturnKind::ResultUnit
                } else {
                    ReturnKind::ResultValue
                },
                _ => ReturnKind::ResultValue,
            },
        ),
{
    let ids = idents(segs@);
    assert(ids.len() == segs@.len());
    assert(is_result_like_path(ids));
    law_result_hint_keeps_spelled_result_kind(segs);
}

/// For a return type that is no spelled `Result` (and not `()`): without
/// a hint it is a `Value`; the `result` hint makes it a `ResultValue`
/// unless it cannot be a `Result` (a primitive, `String`, `Option`, `Vec`
/// or a non-path type), which is rejected.
pub proof fn law_hints_on_unspelled_types(t: TypeShape)
    requires
        result_like_kind(t) is None,
        !(t matches TypeShape::Tuple(v) && v@.len() == 0),
    ensures
        return_kind_of(Some(t), None) == Ok::<ReturnKind, ReturnError>(ReturnKind::Value),
        return_kind_of(Some(t), Some(ReturnOverride::Result)) == if is_definitely_non_result(t) {
            Err::<ReturnKind, ReturnError>(ReturnError::OverrideNeedsResult)
        } else {
            Ok::<ReturnKind, ReturnError>(ReturnKind::ResultValue)
        },
{
}

/// Whatever the hint, a function without a return type or returning `()`
/// is `Unit`; with the `value` hint every other return type is `Value`.
pub proof fn law_unit_and_value_hint(output: Option<TypeShape>, hint: Option<ReturnOverride>)
    ensures
        match output {
            None => return_kind_of(output, hint) == Ok::<ReturnKind, ReturnError>(ReturnKind::Unit),
            Some(TypeShape::Tuple(v)) => if v@.len() == 0 {
                return_kind_of(output, hint) == Ok::<ReturnKind, ReturnError>(ReturnKind::Unit)
            } else {
                return_kind_of(output, Some(ReturnOverride::Value)) == Ok::<ReturnKind, ReturnError>(
                    ReturnKind::Value,
                )
            },
            Some(_) => return_kind_of(output, Some(ReturnOverride::Value)) == Ok::<
                ReturnKind,
                ReturnError,
            >(ReturnKind::Value),
        },
{
}

/// The dispatch strategy of a step with return type `output` under an
/// optional hint.
pub open spec fn step_strategy_of(output: Option<TypeShape>, hint: Option<ReturnOverride>) -> Result<
    StepReturnStrategy,
    ReturnError,
> {
    match output {
        None => Ok(StepReturnStrategy::Unit),
        Some(t) => if is_unit(t) {
            Ok(StepReturnStrategy::Unit)
        } else if t is Never {
            Ok(StepReturnStrategy::Never)
        } else {
            match hint {
                Some(ReturnOverride::Value) => Ok(StepReturnStrategy::ForcedValue),
                Some(ReturnOverride::Result) => if is_definitely_non_result(t) {
                    Err(ReturnError::OverrideNeedsResult)
                } else {
                    Ok(StepReturnStrategy::ForcedResult)
                },
                None => if is_nested_result(t) {
                    Err(ReturnError::NestedResult)
                } else if t is ImplTrait {
                    Err(ReturnError::ImplTrait)
                } else {
                    Ok(StepReturnStrategy::Dispatch)
                },
            }
        },
    }
}

/// Chooses how a step wrapper handles the step's return value: `()` and
/// `!` need nothing, hints force their treatment (a `result` hint only on
/// a type that may be a `Result`), and other returns are dispatched by
/// the compiler, except nested `Result`s and `impl Trait`, which need a
/// hint.
pub fn classify_step_return_type(output: &Option<TypeShape>, hint: Option<ReturnOverride>) -> (r:
    Result<StepReturnStrategy, ReturnError>)
    ensures
        r == step_strategy_of(*output, hint),
{
    let t = match output {
        None => {
            return Ok(StepReturnStrategy::Unit);
        },
        Some(t) => t,
    };
    if is_unit_exec(t) {
        return Ok(StepReturnStrategy::Unit);
    }
    if let TypeShape::Never = t {
        return Ok(StepReturnStrategy::Never);
    }
    match hint {
        Some(ReturnOverride::Value) => Ok(StepReturnStrategy::ForcedValue),
        Some(ReturnOverride::Result) => {
            if is_definitely_non_result_type(t) {
                Err(ReturnError::OverrideNeedsResult)
            } else {
                Ok(StepReturnStrategy::ForcedResult)
            }
        },
        None => {
            if is_nested_result_type(t) {
                Err(ReturnError::NestedResult)
            } else if let TypeShape::ImplTrait = t {
                Err(ReturnError::ImplTrait)
            } else {
                Ok(StepReturnStrategy::Dispatch)
            }
        },
    }
}

/// The return kind of a `#[scenario]` body: `()` or a unit `Result`.
pub open spec fn scenario_return_of(output: Option<TypeShape>) -> Result<
    ScenarioReturnKind,
    ReturnError,
> {
    match return_kind_of(output, None) {
        Ok(ReturnKind::Unit) => Ok(ScenarioReturnKind::Unit),
        Ok(ReturnKind::ResultUnit) => Ok(ScenarioReturnKind::ResultUnit),
        Ok(_) => Err(ReturnError::ScenarioValue),
        Err(e) => Err(e),
    }
}

/// What a `#[scenario]` body returns: `()` or a unit `Result`; anything
/// that carries a value is rejected.
pub fn classify_scenario_return(output: &Option<TypeShape>) -> (r: Result<
    ScenarioReturnKind,
    ReturnError,
>)
    ensures
        r == scenario_return_of(*output),
        match return_kind_of(*output, None) {
            Ok(ReturnKind::Unit) => r == Ok::<ScenarioReturnKind, ReturnError>(
                ScenarioReturnKind::Unit,
            ),
            Ok(ReturnKind::ResultUnit) => r == Ok::<ScenarioReturnKind, ReturnError>(
                ScenarioReturnKind::ResultUnit,
            ),
            Ok(_) => r == Err::<ScenarioReturnKind, ReturnError>(ReturnError::ScenarioValue),
            Err(e) => r == Err::<ScenarioReturnKind, ReturnError>(e),
        },
{
    match classify_return_type(output, None) {
        Ok(ReturnKind::Unit) => Ok(ScenarioReturnKind::Unit),
        Ok(ReturnKind::ResultUnit) => Ok(ScenarioReturnKind::ResultUnit),
        Ok(_) => Err(ReturnError::ScenarioValue),
        Err(e) => Err(e),
    }
}

} // verus!
