//! Checking a `#[derive(ScenarioState)]` input: only structs qualify, and
//! every field must be a `Slot<T>`; resetting the state clears each field
//! in declaration order.

use vstd::prelude::*;
use crate::return_classifier::TypeShape;
use crate::text::{decimal, owned, push_str, str_eq, usize_to_string};

verus! {

/// The shape of a derive input, as far as the check reads it.
#[derive(Debug)]
pub enum StateShape {
    /// A struct with named fields (a field's name is `None` only in
    /// malformed input, and such a field is passed over).
    Named(Vec<(Option<String>, TypeShape)>),
    /// A tuple struct.
    Unnamed(Vec<TypeShape>),
    /// A unit struct.
    Unit,
    /// An enum.
    Enum,
    /// A union.
    Union,
}

/// A field that `reset` clears.
#[derive(Debug)]
pub enum ResetTarget {
    Named(String),
    Index(usize),
}

/// Why the derive was rejected.
#[derive(Debug)]
pub enum StateError {
    /// The input is an enum.
    NotStruct,
    /// The input is a union.
    Union,
    /// A field that is not a `Slot<T>`, by its label (its name, or `#`
    /// and its position).
    NotSlot { label: String },
}

/// A type whose path ends in `Slot`.
pub open spec fn is_slot(t: TypeShape) -> bool {
    t matches TypeShape::Path(segs) && segs@.len() > 0 && segs@.last().ident@ == "Slot"@
}

fn is_slot_exec(t: &TypeShape) -> (r: bool)
    ensures
        r == is_slot(*t),
{
    match t {
        TypeShape::Path(segs) => {
            if segs.len() == 0 {
                false
            } else {
                str_eq(segs[segs.len() - 1].ident.as_str(), "Slot")
            }
        },
        _ => false,
    }
}

/// The named fields up to `n` to clear, or the position of the first one
/// that is no slot.
pub open spec fn named_plan(fields: Seq<(Option<String>, TypeShape)>, n: int) -> Result<
    Seq<Seq<char>>,
    int,
>
    decreases n,
{
    if n <= 0 {
        Ok(seq![])
    } else {
        match named_plan(fields, n - 1) {
            Err(k) => Err(k),
            Ok(v) => match fields[n - 1].0 {
                None => Ok(v),
                Some(name) => if is_slot(fields[n - 1].1) {
                    Ok(v.push(name@))
                } else {
                    Err(n - 1)
                },
            },
        }
    }
}

/// The position of the first tuple field below `n` that is no slot.
pub open spec fn first_non_slot(fields: Seq<TypeShape>, n: int) -> Option<int>
    decreases n,
{
    if n <= 0 {
        None
    } else {
        match first_non_slot(fields, n - 1) {
            Some(k) => Some(k),
            None => if is_slot(fields[n - 1]) {
                None
            } else {
                Some(n - 1)
            },
        }
    }
}

/// The type's spelling is a path whose last segment is exactly `Slot`.
pub open spec fn spelled_slot(t: TypeShape) -> bool {
    match t {
        TypeShape::Path(segs) => segs@.len() > 0 && segs@[segs@.len() - 1].ident@ == seq![
            'S',
            'l',
            'o',
            't',
        ],
        _ => false,
    }
}

proof fn lemma_slot_spelling(t: TypeShape)
    ensures
        is_slot(t) == spelled_slot(t),
{
    reveal_strlit("Slot");
    assert("Slot"@ =~= seq!['S', 'l', 'o', 't']);
}

proof fn lemma_named_plan_slots(fields: Seq<(Option<String>, TypeShape)>, n: int)
    requires
        0 <= n <= fields.len(),
    ensures
        named_plan(fields, n) is Ok <==> forall|i: int|
            0 <= i < n && (#[trigger] fields[i]).0 is Some ==> spelled_slot(fields[i].1),
        named_plan(fields, n) matches Err(k) ==> {
            &&& 0 <= k < n
            &&& fields[k].0 is Some
            &&& !spelled_slot(fields[k].1)
            &&& forall|j: int| 0 <= j < k && (#[trigger] fields[j]).0 is Some ==> spelled_slot(fields[j].1)
        },
    decreases n,
{
    if n > 0 {
        lemma_named_plan_slots(fields, n - 1);
        lemma_slot_spelling(fields[n - 1].1);
        if named_plan(fields, n - 1) is Ok && fields[n - 1].0 is Some && spelled_slot(fields[n - 1].1) {
            assert forall|i: int|
                0 <= i < n && (#[trigger] fields[i]).0 is Some implies spelled_slot(fields[i].1) by {
                if i < n - 1 {
                }
            }
        }
    }
}

proof fn lemma_named_plan_all_slots(fields: Seq<(Option<String>, TypeShape)>, n: int)
    requires
        0 <= n <= fields.len(),
        forall|i: int| 0 <= i < n ==> (#[trigger] fields[i]).0 is Some && spelled_slot(fields[i].1),
    ensures
        named_plan(fields, n) == Ok::<Seq<Seq<char>>, int>(
            Seq::new(n as nat, |i: int| fields[i].0->Some_0@),
        ),
    decreases n,
{
    if n > 0 {
        lemma_named_plan_all_slots(fields, n - 1);
        lemma_slot_spelling(fields[n - 1].1);
        assert(fields[n - 1].0 is Some);
        assert(Seq::new((n - 1) as nat, |i: int| fields[i].0->Some_0@).push(fields[n - 1].0->Some_0@)
            =~= Seq::new(n as nat, |i: int| fields[i].0->Some_0@));
    } else {
        assert(Seq::new(0, |i: int| fields[i].0->Some_0@) =~= Seq::<Seq<char>>::empty());
    }
}

/// When every field is named and spelled `Slot`, `reset` clears exactly
/// those fields, by name, in declaration order.
pub proof fn law_reset_clears_every_slot_field_in_order(fields: Seq<(Option<String>, TypeShape)>)
    requires
        forall|i: int|
            0 <= i < fields.len() ==> (#[trigger] fields[i]).0 is Some && spelled_slot(fields[i].1),
    ensures
        named_plan(fields, fields.len() as int) == Ok::<Seq<Seq<char>>, int>(
            Seq::new(fields.len(), |i: int| fields[i].0->Some_0@),
        ),
{
    lemma_named_plan_all_slots(fields, fields.len() as int);
}

/// A named field is accepted only when its type is a path ending in
/// `Slot`: the plan succeeds exactly when every named field is one, and
/// otherwise names the first named field that is not.
pub proof fn law_reset_accepts_only_slot_fields(fields: Seq<(Option<String>, TypeShape)>)
    ensures
        named_plan(fields, fields.len() as int) is Ok <==> forall|i: int|
            0 <= i < fields.len() && (#[trigger] fields[i]).0 is Some ==> spelled_slot(fields[i].1),
        named_plan(fields, fields.len() as int) matches Err(k) ==> {
            &&& 0 <= k < fields.len()
            &&& fields[k].0 is Some
            &&& !spelled_slot(fields[k].1)
            &&& forall|j: int| 0 <= j < k && (#[trigger] fields[j]).0 is Some ==> spelled_slot(fields[j].1)
        },
{
    lemma_named_plan_slots(fields, fields.len() as int);
}

proof fn lemma_first_non_slot(fields: Seq<TypeShape>, n: int)
    requires
        0 <= n <= fields.len(),
    ensures
        first_non_slot(fields, n) is None <==> forall|i: int| 0 <= i < n ==> spelled_slot(#[trigger] fields[i]),
        first_non_slot(fields, n) matches Some(k) ==> {
            &&& 0 <= k < n
            &&& !spelled_slot(fields[k])
            &&& forall|j: int| 0 <= j < k ==> spelled_slot(#[trigger] fields[j])
        },
    decreases n,
{
    if n > 0 {
        lemma_first_non_slot(fields, n - 1);
        lemma_slot_spelling(fields[n - 1]);
        if first_non_slot(fields, n - 1) is None && spelled_slot(fields[n - 1]) {
            assert forall|i: int| 0 <= i < n implies spelled_slot(#[trigger] fields[i]) by {
                if i < n - 1 {
                }
            }
        }
    }
}

/// A tuple field is accepted only when its type is a path ending in
/// `Slot`: every field is one exactly when none is reported, and the one
/// reported is the first that is not.
pub proof fn law_reset_accepts_only_slot_positions(fields: Seq<TypeShape>)
    ensures
        first_non_slot(fields, fields.len() as int) is None <==> forall|i: int|
            0 <= i < fields.len() ==> spelled_slot(#[trigger] fields[i]),
        first_non_slot(fields, fields.len() as int) matches Some(k) ==> {
            &&& 0 <= k < fields.len()
            &&& !spelled_slot(fields[k])
            &&& forall|j: int| 0 <= j < k ==> spelled_slot(#[trigger] fields[j])
        },
{
    lemma_first_non_slot(fields, fields.len() as int);
}

/// The message of a rejected derive.
pub open spec fn state_error_message(e: StateError) -> Seq<char> {
    match e {
        StateError::NotStruct => "ScenarioState can only be derived for structs"@,
        StateError::Union => "ScenarioState cannot be derived for unions"@,
        StateError::NotSlot { label } => "ScenarioState field '"@ + label@ + "' must use Slot<T>"@,
    }
}

impl StateError {
    /// The diagnostic text.
    pub fn message(&self) -> (r: String)
        ensures
            r@ == state_error_message(*self),
    {
        match self {
            StateError::NotStruct => owned("ScenarioState can only be derived for structs"),
            StateError::Union => owned("ScenarioState cannot be derived for unions"),
            StateError::NotSlot { label } => {
                let mut r = owned("ScenarioState field '");
                push_str(&mut r, label.as_str());
                push_str(&mut r, "' must use Slot<T>");
                r
            },
        }
    }
}

/// The views of reset targets: a name, or a position.
pub open spec fn target_views(v: Seq<ResetTarget>) -> Seq<Result<Seq<char>, usize>> {
    v.map_values(
        |t: ResetTarget|
            match t {
                ResetTarget::Named(s) => Ok(s@),
                ResetTarget::Index(i) => Err(i),
            },
    )
}

/// Checks a derive input and lists the fields `reset` clears: every field
/// of a struct, in order, each of which must be a `Slot<T>`; enums and
/// unions are rejected, and the first field of another type is reported.
pub fn plan_reset(shape: &StateShape) -> (r: Result<Vec<ResetTarget>, StateError>)
    ensures
        match shape {
            StateShape::Enum => r matches Err(StateError::NotStruct),
            StateShape::Union => r matches Err(StateError::Union),
            StateShape::Unit => r matches Ok(v) && v@.len() == 0,
            StateShape::Named(fields) => match named_plan(fields@, fields@.len() as int) {
                Ok(names) => r matches Ok(v) && target_views(v@) == names.map_values(
                    |s: Seq<char>| Ok::<Seq<char>, usize>(s),
                ),
                Err(k) => r matches Err(StateError::NotSlot { label }) && fields@[k].0 matches Some(
                    name,
                ) && label@ == name@,
            },
            StateShape::Unnamed(fields) => match first_non_slot(fields@, fields@.len() as int) {
                None => r matches Ok(v) && target_views(v@) == Seq::new(
                    fields@.len(),
                    |i: int| Err::<Seq<char>, usize>(i as usize),
                ),
                Some(k) => r matches Err(StateError::NotSlot { label }) && label@ == "#"@ + decimal(
                    k as nat,
                ),
            },
        },
{
    match shape {
        StateShape::Enum => Err(StateError::NotStruct),
        StateShape::Union => Err(StateError::Union),
        StateShape::Unit => Ok(Vec::new()),
        StateShape::Named(fields) => {
            let mut out: Vec<ResetTarget> = Vec::new();
            let mut i: usize = 0;
            while i < fields.len()
                invariant
                    i <= fields@.len(),
                    *shape == StateShape::Named(*fields),
                    named_plan(fields@, i as int) matches Ok(names) && target_views(out@)
                        == names.map_values(|s: Seq<char>| Ok::<Seq<char>, usize>(s)),
                decreases fields@.len() - i,
            {
                let ghost before = target_views(out@);
                match &fields[i].0 {
                    None => {},
                    Some(name) => {
                        if !is_slot_exec(&fields[i].1) {
                            assert(named_plan(fields@, i + 1) == Err::<Seq<Seq<char>>, int>(
                                i as int,
                            ));
                            proof {
                                let n = fields@.len() as int;
                                lemma_named_plan_err_sticks(fields@, i + 1, n);
                            }
                            return Err(StateError::NotSlot { label: name.clone() });
                        }
                        let t = ResetTarget::Named(name.clone());
                        out.push(t);
                        proof {
                            assert(target_views(out@) =~= before.push(Ok(name@)));
                        }
                    },
                }
                proof {
                    let names = named_plan(fields@, i as int)->Ok_0;
                    match named_plan(fields@, i + 1) {
                        Ok(next) => {
                            assert(next.map_values(|s: Seq<char>| Ok::<Seq<char>, usize>(s))
                                =~= target_views(out@));
                        },
                        Err(_) => {},
                    }
                }
                i += 1;
            }
            Ok(out)
        },
        StateShape::Unnamed(fields) => {
            let mut out: Vec<ResetTarget> = Vec::new();
            let mut i: usize = 0;
            while i < fields.len()
                invariant
                    i <= fields@.len(),
                    *shape == StateShape::Unnamed(*fields),
                    first_non_slot(fields@, i as int) is None,
                    target_views(out@) == Seq::new(i as nat, |k: int| Err::<Seq<char>, usize>(k as usize)),
                decreases fields@.len() - i,
            {
                if !is_slot_exec(&fields[i]) {
                    proof {
                        lemma_first_non_slot_sticks(fields@, i + 1, fields@.len() as int);
                    }
                    let mut label = owned("#");
                    push_str(&mut label, usize_to_string(i).as_str());
                    return Err(StateError::NotSlot { label });
                }
                let ghost before = target_views(out@);
                out.push(ResetTarget::Index(i));
                proof {
                    assert(target_views(out@) =~= before.push(Err(i)));
                    assert(target_views(out@) =~= Seq::new(
                        (i + 1) as nat,
                        |k: int| Err::<Seq<char>, usize>(k as usize),
                    ));
                }
                i += 1;
            }
            Ok(out)
        },
    }
}

proof fn lemma_named_plan_err_sticks(fields: Seq<(Option<String>, TypeShape)>, m: int, n: int)
    requires
        0 < m <= n,
        named_plan(fields, m) is Err,
    ensures
        named_plan(fields, n) == named_plan(fields, m),
    decreases n - m,
{
    if m < n {
        lemma_named_plan_err_sticks(fields, m, n - 1);
    }
}

proof fn lemma_first_non_slot_sticks(fields: Seq<TypeShape>, m: int, n: int)
    requires
        0 < m <= n,
        first_non_slot(fields, m) is Some,
    ensures
        first_non_slot(fields, n) == first_non_slot(fields, m),
    decreases n - m,
{
    if m < n {
        lemma_first_non_slot_sticks(fields, m, n - 1);
    }
}

} // verus!
