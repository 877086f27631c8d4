//! Checking `#[derive(StepArgs)]` input, and the binding rules of the
//! implementation it generates.
//!
//! Each named field is bound to the step capture whose name is the field's
//! placeholder: its name (or renamed form), unless a
//! `#[step_args(placeholder = "...")]` attribute gives another. Because
//! binding goes by name, captures may arrive in any order.

use vstd::prelude::*;
use crate::tag_sets::lemma_views_push;
use crate::text::views;
use crate::text::{owned, push_str};

verus! {

// ---------------------------------------------------------------------
// The input's shape
// ---------------------------------------------------------------------

/// What kind of item the derive is applied to.
#[derive(Debug, Clone, Copy, PartialEq, Eq, Structural)]
pub enum InputKind {
    /// A struct with named fields.
    NamedStruct,
    /// A tuple or unit struct.
    OtherStruct,
    /// An enum or a union.
    NotStruct,
}

/// Why the derive input was rejected by its shape.
#[derive(Debug, Clone, Copy, PartialEq, Eq, Structural)]
pub enum ShapeError {
    NotStruct,
    UnnamedFields,
}

pub open spec fn shape_error_message(e: ShapeError) -> Seq<char> {
    match e {
        ShapeError::NotStruct => "StepArgs can only be derived for structs"@,
        ShapeError::UnnamedFields => "StepArgs requires named struct fields"@,
    }
}

impl ShapeError {
    /// The diagnostic text.
    pub fn message(self) -> (r: String)
        ensures
            r@ == shape_error_message(self),
    {
        match self {
            ShapeError::NotStruct => owned("StepArgs can only be derived for structs"),
            ShapeError::UnnamedFields => owned("StepArgs requires named struct fields"),
        }
    }
}

/// Only structs with named fields can derive `StepArgs`.
pub fn check_input_kind(kind: InputKind) -> (r: Result<(), ShapeError>)
    ensures
        r == match kind {
            InputKind::NamedStruct => Ok::<(), ShapeError>(()),
            InputKind::OtherStruct => Err(ShapeError::UnnamedFields),
            InputKind::NotStruct => Err(ShapeError::NotStruct),
        },
{
    match kind {
        InputKind::NamedStruct => Ok(()),
        InputKind::OtherStruct => Err(ShapeError::UnnamedFields),
        InputKind::NotStruct => Err(ShapeError::NotStruct),
    }
}

// ---------------------------------------------------------------------
// Field attributes
// ---------------------------------------------------------------------

/// Options read from one field's `#[step_args(...)]` attributes; `P` is
/// the parser path given by `parse_with`.
pub struct StepFieldConfig<P> {
    /// An explicit placeholder name.
    pub placeholder: Option<String>,
    /// Whether surrounding whitespace is trimmed before conversion.
    pub trim: bool,
    /// A parser used in place of `FromStr`.
    pub parse_with: Option<P>,
}

/// One item of a field's `#[step_args(...)]` attribute.
pub enum FieldAttribute<P> {
    /// `placeholder = "name"`
    Placeholder(String),
    /// `trim`
    Trim,
    /// `parse_with = path`
    ParseWith(P),
    /// Any other key.
    Unsupported,
}

/// Why a field attribute was rejected.
#[derive(Debug, Clone, Copy, PartialEq, Eq, Structural)]
pub enum FieldAttrError {
    DuplicatePlaceholder,
    DuplicateTrim,
    DuplicateParseWith,
    Unsupported,
}

pub open spec fn field_attr_error_message(e: FieldAttrError) -> Seq<char> {
    match e {
        FieldAttrError::DuplicatePlaceholder => "duplicate placeholder attribute"@,
        FieldAttrError::DuplicateTrim => "duplicate trim attribute"@,
        FieldAttrError::DuplicateParseWith => "duplicate parse_with attribute"@,
        FieldAttrError::Unsupported => "unsupported step_args field attribute"@,
    }
}

impl FieldAttrError {
    /// The diagnostic text.
    pub fn message(self) -> (r: String)
        ensures
            r@ == field_attr_error_message(self),
    {
        match self {
            FieldAttrError::DuplicatePlaceholder => owned("duplicate placeholder attribute"),
            FieldAttrError::DuplicateTrim => owned("duplicate trim attribute"),
            FieldAttrError::DuplicateParseWith => owned("duplicate parse_with attribute"),
            FieldAttrError::Unsupported => owned("unsupported step_args field attribute"),
        }
    }
}

/// The options before any attribute is read.
pub open spec fn initial_config<P>() -> StepFieldConfig<P> {
    StepFieldConfig { placeholder: None, trim: false, parse_with: None }
}

/// The options after one item, and the error the item raises, if any. A
/// repeated `placeholder` or `parse_with` replaces the earlier value
/// before it is reported.
pub open spec fn after_field_item<P>(c: StepFieldConfig<P>, item: FieldAttribute<P>) -> (
    StepFieldConfig<P>,
    Option<FieldAttrError>,
) {
    match item {
        FieldAttribute::Placeholder(v) => (
            StepFieldConfig { placeholder: Some(v), trim: c.trim, parse_with: c.parse_with },
            if c.placeholder is Some {
                Some(FieldAttrError::DuplicatePlaceholder)
            } else {
                None
            },
        ),
        FieldAttribute::Trim => if c.trim {
            (c, Some(FieldAttrError::DuplicateTrim))
        } else {
            (StepFieldConfig { placeholder: c.placeholder, trim: true, parse_with: c.parse_with }, None)
        },
        FieldAttribute::ParseWith(p) => (
            StepFieldConfig { placeholder: c.placeholder, trim: c.trim, parse_with: Some(p) },
            if c.parse_with is Some {
                Some(FieldAttrError::DuplicateParseWith)
            } else {
                None
            },
        ),
        FieldAttribute::Unsupported => (c, Some(FieldAttrError::Unsupported)),
    }
}

/// The options the first `n` items give, or the first item's error.
pub open spec fn field_config_of<P>(items: Seq<FieldAttribute<P>>, n: int) -> Result<
    StepFieldConfig<P>,
    FieldAttrError,
>
    decreases n,
{
    if n <= 0 {
        Ok(initial_config())
    } else {
        match field_config_of(items, n - 1) {
            Err(e) => Err(e),
            Ok(c) => {
                let o = after_field_item(c, items[n - 1]);
                match o.1 {
                    Some(e) => Err(e),
                    None => Ok(o.0),
                }
            },
        }
    }
}

proof fn lemma_config_error_stays<P>(items: Seq<FieldAttribute<P>>, m: int, n: int)
    requires
        0 <= m <= n,
        field_config_of(items, m) is Err,
    ensures
        field_config_of(items, n) == field_config_of(items, m),
    decreases n - m,
{
    if n > m {
        lemma_config_error_stays(items, m, n - 1);
    }
}

/// Applies one attribute item to a field's options: each key may be given
/// once, and only `placeholder`, `trim` and `parse_with` are known.
pub fn process_step_field_meta_item<P>(
    config: &mut StepFieldConfig<P>,
    item: FieldAttribute<P>,
) -> (r: Result<(), FieldAttrError>)
    ensures
        ({
            let o = after_field_item(*old(config), item);
            &&& *final(config) == o.0
            &&& r == match o.1 {
                Some(e) => Err(e),
                None => Ok::<(), FieldAttrError>(()),
            }
        }),
{
    match item {
        FieldAttribute::Placeholder(v) => process_placeholder_attribute(config, v),
        FieldAttribute::Trim => process_trim_attribute(config),
        FieldAttribute::ParseWith(p) => process_parse_with_attribute(config, p),
        FieldAttribute::Unsupported => Err(FieldAttrError::Unsupported),
    }
}

fn process_placeholder_attribute<P>(config: &mut StepFieldConfig<P>, value: String) -> (r: Result<
    (),
    FieldAttrError,
>)
    ensures
        ({
            let o = after_field_item(*old(config), FieldAttribute::Placeholder(value));
            *final(config) == o.0 && r == match o.1 {
                Some(e) => Err(e),
                None => Ok::<(), FieldAttrError>(()),
            }
        }),
{
    let had = config.placeholder.is_some();
    config.placeholder = Some(value);
    if had {
        Err(FieldAttrError::DuplicatePlaceholder)
    } else {
        Ok(())
    }
}

fn process_trim_attribute<P>(config: &mut StepFieldConfig<P>) -> (r: Result<(), FieldAttrError>)
    ensures
        ({
            let o = after_field_item(*old(config), FieldAttribute::<P>::Trim);
            *final(config) == o.0 && r == match o.1 {
                Some(e) => Err(e),
                None => Ok::<(), FieldAttrError>(()),
            }
        }),
{
    if config.trim {
        Err(FieldAttrError::DuplicateTrim)
    } else {
        config.trim = true;
        Ok(())
    }
}

fn process_parse_with_attribute<P>(config: &mut StepFieldConfig<P>, parser: P) -> (r: Result<
    (),
    FieldAttrError,
>)
    ensures
        ({
            let o = after_field_item(*old(config), FieldAttribute::ParseWith(parser));
            *final(config) == o.0 && r == match o.1 {
                Some(e) => Err(e),
                None => Ok::<(), FieldAttrError>(()),
            }
        }),
{
    let had = config.parse_with.is_some();
    config.parse_with = Some(parser);
    if had {
        Err(FieldAttrError::DuplicateParseWith)
    } else {
        Ok(())
    }
}

/// Reads a field's options from its attribute items, in order, stopping at
/// the first rejected item.
pub fn parse_step_field<P>(items: Vec<FieldAttribute<P>>) -> (r: Result<
    StepFieldConfig<P>,
    FieldAttrError,
>)
    ensures
        r == field_config_of(items@, items@.len() as int),
{
    let ghost orig = items@;
    let mut rest = items;
    let n = rest.len();
    let mut config: StepFieldConfig<P> = StepFieldConfig {
        placeholder: None,
        trim: false,
        parse_with: None,
    };
    let mut i: usize = 0;
    while i < n
        invariant
            n == orig.len(),
            orig == items@,
            i <= n,
            rest@ == orig.skip(i as int),
            field_config_of(orig, i as int) == Ok::<StepFieldConfig<P>, FieldAttrError>(config),
        decreases n - i,
    {
        proof {
            assert(orig.skip(i as int)[0] == orig[i as int]);
        }
        let item = rest.remove(0);
        proof {
            assert(orig.skip(i as int).remove(0) =~= orig.skip(i + 1));
        }
        let ghost before = config;
        let ghost it = item;
        assert(it == orig[i as int]);
        let res = process_step_field_meta_item(&mut config, item);
        match res {
            Err(e) => {
                proof {
                    assert(after_field_item(before, it).1 == Some(e));
                    assert(field_config_of(orig, i + 1) == Err::<StepFieldConfig<P>, FieldAttrError>(e));
                    lemma_config_error_stays(orig, i + 1, n as int);
                }
                return Err(e);
            },
            Ok(()) => {},
        }
        i += 1;
    }
    Ok(config)
}

// ---------------------------------------------------------------------
// The struct-level `rename_all` setting
// ---------------------------------------------------------------------

/// One item of the struct's `#[step_args(...)]` attribute; `R` is a rename
/// rule.
pub enum StructAttribute<R> {
    /// `rename_all = "..."`, read as a rule.
    RenameAll(R),
    /// Any other key.
    Unsupported,
}

/// Why a struct attribute was rejected.
#[derive(Debug, Clone, Copy, PartialEq, Eq, Structural)]
pub enum RenameAttrError {
    Unsupported,
    DuplicateRenameAll,
}

pub open spec fn rename_attr_error_message(e: RenameAttrError) -> Seq<char> {
    match e {
        RenameAttrError::Unsupported => "unsupported step_args attribute"@,
        RenameAttrError::DuplicateRenameAll => "duplicate rename_all attribute"@,
    }
}

impl RenameAttrError {
    /// The diagnostic text.
    pub fn message(self) -> (r: String)
        ensures
            r@ == rename_attr_error_message(self),
    {
        match self {
            RenameAttrError::Unsupported => owned("unsupported step_args attribute"),
            RenameAttrError::DuplicateRenameAll => owned("duplicate rename_all attribute"),
        }
    }
}

/// The rule the first `n` items set, or the first item's error.
pub open spec fn rename_rule_of<R>(items: Seq<StructAttribute<R>>, n: int) -> Result<
    Option<R>,
    RenameAttrError,
>
    decreases n,
{
    if n <= 0 {
        Ok(None)
    } else {
        match rename_rule_of(items, n - 1) {
            Err(e) => Err(e),
            Ok(rule) => match items[n - 1] {
                StructAttribute::Unsupported => Err(RenameAttrError::Unsupported),
                StructAttribute::RenameAll(r) => if rule is Some {
                    Err(RenameAttrError::DuplicateRenameAll)
                } else {
                    Ok(Some(r))
                },
            },
        }
    }
}

proof fn lemma_rename_error_stays<R>(items: Seq<StructAttribute<R>>, m: int, n: int)
    requires
        0 <= m <= n,
        rename_rule_of(items, m) is Err,
    ensures
        rename_rule_of(items, n) == rename_rule_of(items, m),
    decreases n - m,
{
    if n > m {
        lemma_rename_error_stays(items, m, n - 1);
    }
}

/// Reads the struct-level setting: `rename_all` may be given once, and no
/// other key is known.
pub fn parse_rename_rule<R>(items: Vec<StructAttribute<R>>) -> (r: Result<
    Option<R>,
    RenameAttrError,
>)
    ensures
        r == rename_rule_of(items@, items@.len() as int),
{
    let ghost orig = items@;
    let mut rest = items;
    let n = rest.len();
    let mut rule: Option<R> = None;
    let mut i: usize = 0;
    while i < n
        invariant
            n == orig.len(),
            orig == items@,
            i <= n,
            rest@ == orig.skip(i as int),
            rename_rule_of(orig, i as int) == Ok::<Option<R>, RenameAttrError>(rule),
        decreases n - i,
    {
        proof {
            assert(orig.skip(i as int)[0] == orig[i as int]);
        }
        let item = rest.remove(0);
        proof {
            assert(orig.skip(i as int).remove(0) =~= orig.skip(i + 1));
        }
        assert(item == orig[i as int]);
        match item {
            StructAttribute::Unsupported => {
                proof {
                    assert(rename_rule_of(orig, i + 1) == Err::<Option<R>, RenameAttrError>(
                        RenameAttrError::Unsupported,
                    ));
                    lemma_rename_error_stays(orig, i + 1, n as int);
                }
                return Err(RenameAttrError::Unsupported);
            },
            StructAttribute::RenameAll(r) => {
                if rule.is_some() {
                    proof {
                        assert(rename_rule_of(orig, i + 1) == Err::<Option<R>, RenameAttrError>(
                            RenameAttrError::DuplicateRenameAll,
                        ));
                        lemma_rename_error_stays(orig, i + 1, n as int);
                    }
                    return Err(RenameAttrError::DuplicateRenameAll);
                }
                rule = Some(r);
            },
        }
        i += 1;
    }
    Ok(rule)
}

// ---------------------------------------------------------------------
// Collecting the fields
// ---------------------------------------------------------------------

/// A named field of the derive input.
pub struct StepField<P> {
    /// The field's name.
    pub ident: String,
    /// The placeholder the field has without a `placeholder` attribute: its
    /// name, or its name under the struct's rename rule.
    pub default_name: String,
    /// The items of the field's `#[step_args(...)]` attributes.
    pub attrs: Vec<FieldAttribute<P>>,
}

/// A field ready for binding.
pub struct FieldInfo<P> {
    /// The field's name.
    pub rust_field: String,
    /// The capture name the field is bound to.
    pub source_name: String,
    /// Whether the capture is trimmed before conversion.
    pub trim: bool,
    /// A parser used in place of `FromStr`.
    pub parse_with: Option<P>,
}

/// Why the fields were rejected.
#[derive(Debug)]
pub enum CollectError {
    /// A field attribute was rejected.
    Attribute(FieldAttrError),
    /// Two fields share a placeholder, given by its name.
    DuplicatePlaceholder(String),
    /// The struct has no fields.
    NoFields,
}

pub open spec fn collect_error_message(e: CollectError) -> Seq<char> {
    match e {
        CollectError::Attribute(a) => field_attr_error_message(a),
        CollectError::DuplicatePlaceholder(s) => "duplicate StepArgs placeholder `"@ + s@ + "`"@,
        CollectError::NoFields => "StepArgs structs must define at least one field"@,
    }
}

impl CollectError {
    /// The diagnostic text.
    pub fn message(&self) -> (r: String)
        ensures
            r@ == collect_error_message(*self),
    {
        match self {
            CollectError::Attribute(a) => a.message(),
            CollectError::DuplicatePlaceholder(s) => {
                let mut r = owned("duplicate StepArgs placeholder `");
                push_str(&mut r, s.as_str());
                push_str(&mut r, "`");
                r
            },
            CollectError::NoFields => owned("StepArgs structs must define at least one field"),
        }
    }
}

/// A field's options, read from its attribute items.
pub open spec fn field_config<P>(f: StepField<P>) -> Result<StepFieldConfig<P>, FieldAttrError> {
    field_config_of(f.attrs@, f.attrs@.len() as int)
}

/// The placeholder of a field with options `c`.
pub open spec fn placeholder_of<P>(f: StepField<P>, c: StepFieldConfig<P>) -> Seq<char> {
    match c.placeholder {
        Some(p) => p@,
        None => f.default_name@,
    }
}

/// Field `f` reads its options without error, and its placeholder is `s`.
pub open spec fn has_placeholder<P>(f: StepField<P>, s: Seq<char>) -> bool {
    &&& field_config(f) matches Ok(c)
    &&& s == placeholder_of(f, c)
}

/// `info` is field `f` prepared for binding.
pub open spec fn prepared_as<P>(f: StepField<P>, info: FieldInfo<P>) -> bool {
    &&& info.rust_field == f.ident
    &&& field_config(f) matches Ok(c)
    &&& info.trim == c.trim
    &&& info.parse_with == c.parse_with
}

/// The placeholders of the first `n` fields, or the position of the first
/// field that fails, with its attribute error (`None` when its placeholder
/// repeats an earlier one).
pub open spec fn collect_upto<P>(fields: Seq<StepField<P>>, n: int) -> Result<
    Seq<Seq<char>>,
    (int, Option<FieldAttrError>),
>
    decreases n,
{
    if n <= 0 {
        Ok(seq![])
    } else {
        match collect_upto(fields, n - 1) {
            Err(e) => Err(e),
            Ok(srcs) => match field_config(fields[n - 1]) {
                Err(a) => Err((n - 1, Some(a))),
                Ok(c) => {
                    let s = placeholder_of(fields[n - 1], c);
                    if srcs.contains(s) {
                        Err((n - 1, None))
                    } else {
                        Ok(srcs.push(s))
                    }
                },
            },
        }
    }
}

/// No value occurs twice.
pub open spec fn distinct(v: Seq<Seq<char>>) -> bool {
    forall|i: int, j: int| 0 <= i < j < v.len() ==> v[i] != v[j]
}

/// The capture names of prepared fields.
pub open spec fn info_names<P>(v: Seq<FieldInfo<P>>) -> Seq<Seq<char>> {
    v.map_values(|f: FieldInfo<P>| f.source_name@)
}

proof fn lemma_collect_error_stays<P>(fields: Seq<StepField<P>>, m: int, n: int)
    requires
        0 <= m <= n,
        collect_upto(fields, m) is Err,
    ensures
        collect_upto(fields, n) == collect_upto(fields, m),
    decreases n - m,
{
    if n > m {
        lemma_collect_error_stays(fields, m, n - 1);
    }
}

proof fn lemma_collect_shape<P>(fields: Seq<StepField<P>>, n: int)
    requires
        0 <= n <= fields.len(),
    ensures
        collect_upto(fields, n) matches Ok(srcs) ==> srcs.len() == n && distinct(srcs) && forall|
            i: int,
        |
            0 <= i < n ==> has_placeholder(#[trigger] fields[i], srcs[i]),
        collect_upto(fields, n) matches Err(e) ==> 0 <= e.0 < n && collect_upto(fields, e.0) is Ok,
    decreases n,
{
    if n > 0 {
        lemma_collect_shape(fields, n - 1);
        if let Ok(srcs) = collect_upto(fields, n - 1) {
            if let Ok(c) = field_config(fields[n - 1]) {
                let s = placeholder_of(fields[n - 1], c);
                if !srcs.contains(s) {
                    let all = srcs.push(s);
                    assert forall|i: int, j: int| 0 <= i < j < all.len() implies all[i]
                        != all[j] by {
                        if j == all.len() - 1 {
                            assert(srcs[i] == all[i]);
                        } else {
                            assert(srcs[i] == all[i] && srcs[j] == all[j]);
                        }
                    }
                }
            }
        }
    }
}

/// Prepares the fields for binding: each field's attribute items are read
/// in turn and its placeholder worked out; a rejected attribute or a
/// placeholder that an earlier field already has stops the derive, and a
/// struct without fields is rejected. The placeholders of the prepared
/// fields are distinct.
pub fn collect_field_info<P>(fields: Vec<StepField<P>>) -> (r: Result<
    Vec<FieldInfo<P>>,
    CollectError,
>)
    ensures
        match collect_upto(fields@, fields@.len() as int) {
            Err((k, Some(a))) => r == Err::<Vec<FieldInfo<P>>, CollectError>(
                CollectError::Attribute(a),
            ),
            Err((k, None)) => r matches Err(CollectError::DuplicatePlaceholder(s))
                && field_config(fields@[k]) matches Ok(c) && s@ == placeholder_of(fields@[k], c),
            Ok(srcs) => if fields@.len() == 0 {
                r matches Err(CollectError::NoFields)
            } else {
                r matches Ok(v) && v@.len() == fields@.len() && info_names(v@) == srcs && forall|
                    i: int,
                | 0 <= i < v@.len() ==> prepared_as(fields@[i], #[trigger] v@[i])
            },
        },
        r matches Ok(v) ==> distinct(info_names(v@)),
{
    let ghost orig = fields@;
    proof {
        lemma_collect_shape(orig, orig.len() as int);
    }
    let mut rest = fields;
    let n = rest.len();
    let mut out: Vec<FieldInfo<P>> = Vec::new();
    let mut seen: Vec<String> = Vec::new();
    let mut i: usize = 0;
    while i < n
        invariant
            n == orig.len(),
            orig == fields@,
            i <= n,
            rest@ == orig.skip(i as int),
            collect_upto(orig, i as int) matches Ok(srcs) && srcs == views(seen@) && info_names(out@) == srcs,
            out@.len() == i,
            forall|k: int| 0 <= k < i ==> prepared_as(orig[k], #[trigger] out@[k]),
        decreases n - i,
    {
        proof {
            assert(orig.skip(i as int)[0] == orig[i as int]);
            lemma_collect_shape(orig, i as int);
        }
        let field = rest.remove(0);
        proof {
            assert(orig.skip(i as int).remove(0) =~= orig.skip(i + 1));
        }
        assert(field == orig[i as int]);
        let StepField { ident, default_name, attrs } = field;
        let config = match parse_step_field(attrs) {
            Err(e) => {
                proof {
                    assert(field_config(orig[i as int]) == Err::<StepFieldConfig<P>, FieldAttrError>(e));
                    assert(collect_upto(orig, i + 1) == Err::<Seq<Seq<char>>, (int, Option<FieldAttrError>)>((i as int, Some(e))));
                    lemma_collect_error_stays(orig, i + 1, n as int);
                }
                return Err(CollectError::Attribute(e));
            },
            Ok(c) => c,
        };
        let ghost cfg = config;
        let StepFieldConfig { placeholder, trim, parse_with } = config;
        let source = match placeholder {
            Some(p) => p,
            None => default_name,
        };
        let ghost srcs = views(seen@);
        let present = find_capture(seen.as_slice(), &source).is_some();
        if present {
            proof {
                assert(placeholder_of(orig[i as int], cfg) == source@);
                assert(collect_upto(orig, i + 1) == Err::<Seq<Seq<char>>, (int, Option<FieldAttrError>)>((i as int, None)));
                lemma_collect_error_stays(orig, i + 1, n as int);
            }
            return Err(CollectError::DuplicatePlaceholder(source));
        }
        let copy = source.clone();
        let ghost prev_seen = seen@;
        let ghost prev_out = out@;
        seen.push(copy);
        out.push(FieldInfo { rust_field: ident, source_name: source, trim, parse_with });
        proof {
            lemma_views_push(prev_seen, copy);
            assert(views(seen@) =~= srcs.push(source@));
            assert(info_names(out@) =~= info_names(prev_out).push(source@));
            assert forall|k: int| 0 <= k < i + 1 implies prepared_as(
                orig[k],
                #[trigger] out@[k],
            ) by {
                if k < i {
                    assert(out@[k] == prev_out[k]);
                }
            }
        }
        i += 1;
    }
    if n == 0 {
        return Err(CollectError::NoFields);
    }
    Ok(out)
}

// ---------------------------------------------------------------------
// Conversion of one capture
// ---------------------------------------------------------------------

/// How a captured string becomes a field's value.
#[derive(Debug, Clone, Copy, PartialEq, Eq, Structural)]
pub enum ScalarParseKind {
    /// By the field's `parse_with` parser.
    CustomParser,
    /// By the data-table truthy vocabulary for booleans.
    TruthyBool,
    /// Taken as an owned string.
    OwnedString,
    /// By `FromStr`.
    FromStr,
}

pub open spec fn parse_kind(has_parser: bool, truthy: bool, is_string: bool) -> ScalarParseKind {
    if has_parser {
        ScalarParseKind::CustomParser
    } else if truthy {
        ScalarParseKind::TruthyBool
    } else if is_string {
        ScalarParseKind::OwnedString
    } else {
        ScalarParseKind::FromStr
    }
}

/// Chooses the conversion of a (possibly trimmed) capture: a custom parser
/// wins, then the truthy vocabulary, then plain strings are taken as they
/// are, and anything else goes through `FromStr`.
pub fn scalar_parse_kind(has_parser: bool, truthy: bool, is_string: bool) -> (r: ScalarParseKind)
    ensures
        r == parse_kind(has_parser, truthy, is_string),
{
    if has_parser {
        ScalarParseKind::CustomParser
    } else if truthy {
        ScalarParseKind::TruthyBool
    } else if is_string {
        ScalarParseKind::OwnedString
    } else {
        ScalarParseKind::FromStr
    }
}

/// Whether the generated code needs a `FromStr` bound on the field's type:
/// exactly when the conversion goes through `FromStr`.
pub fn requires_fromstr(has_parser: bool, truthy: bool, is_string: bool) -> (r: bool)
    ensures
        r == (parse_kind(has_parser, truthy, is_string) == ScalarParseKind::FromStr),
        r == (!has_parser && !truthy && !is_string),
{
    !has_parser && !truthy && !is_string
}

// ---------------------------------------------------------------------
// Binding captures to fields
// ---------------------------------------------------------------------

/// Why captures could not be bound to the fields.
#[derive(Debug)]
pub enum CaptureError {
    /// The number of captures differs from the number of fields.
    CountMismatch { expected: usize, actual: usize },
    /// A capture whose name no field has.
    UnconsumedCapture(String),
    /// A capture whose name an earlier capture has.
    DuplicateCapture(String),
    /// A field that no capture names, with its placeholder.
    MissingField { field: String, placeholder: String },
}

/// The first capture below `n` whose name is not among `names`.
pub open spec fn first_unknown(names: Seq<Seq<char>>, caps: Seq<Seq<char>>, n: int) -> Option<int>
    decreases n,
{
    if n <= 0 {
        None
    } else {
        match first_unknown(names, caps, n - 1) {
            Some(j) => Some(j),
            None => if names.contains(caps[n - 1]) {
                None
            } else {
                Some(n - 1)
            },
        }
    }
}

/// The first capture below `n` whose name an earlier capture has.
pub open spec fn first_repeat(caps: Seq<Seq<char>>, n: int) -> Option<int>
    decreases n,
{
    if n <= 0 {
        None
    } else {
        match first_repeat(caps, n - 1) {
            Some(j) => Some(j),
            None => if caps.take(n - 1).contains(caps[n - 1]) {
                Some(n - 1)
            } else {
                None
            },
        }
    }
}

/// The first field below `n` whose placeholder no capture has.
pub open spec fn first_missing(names: Seq<Seq<char>>, caps: Seq<Seq<char>>, n: int) -> Option<int>
    decreases n,
{
    if n <= 0 {
        None
    } else {
        match first_missing(names, caps, n - 1) {
            Some(i) => Some(i),
            None => if caps.contains(names[n - 1]) {
                None
            } else {
                Some(n - 1)
            },
        }
    }
}

/// `j` is the first capture named `x`.
pub open spec fn first_named(caps: Seq<Seq<char>>, x: Seq<char>, j: int) -> bool {
    &&& 0 <= j < caps.len()
    &&& caps[j] == x
    &&& forall|k: int| 0 <= k < j ==> caps[k] != x
}

proof fn lemma_first_unknown(names: Seq<Seq<char>>, caps: Seq<Seq<char>>, n: int)
    requires
        0 <= n <= caps.len(),
    ensures
        first_unknown(names, caps, n) matches Some(j) ==> 0 <= j < n && !names.contains(caps[j])
            && first_unknown(names, caps, j) is None,
        first_unknown(names, caps, n) is None ==> forall|j: int|
            0 <= j < n ==> names.contains(#[trigger] caps[j]),
    decreases n,
{
    if n > 0 {
        lemma_first_unknown(names, caps, n - 1);
    }
}

proof fn lemma_first_repeat(caps: Seq<Seq<char>>, n: int)
    requires
        0 <= n <= caps.len(),
    ensures
        first_repeat(caps, n) matches Some(j) ==> 0 <= j < n && caps.take(j).contains(caps[j])
            && first_repeat(caps, j) is None,
        first_repeat(caps, n) is None ==> forall|i: int, j: int|
            0 <= i < j < n ==> caps[i] != caps[j],
    decreases n,
{
    if n > 0 {
        lemma_first_repeat(caps, n - 1);
        if first_repeat(caps, n) is None {
            assert forall|i: int, j: int| 0 <= i < j < n implies caps[i] != caps[j] by {
                if j == n - 1 {
                    assert(caps.take(n - 1)[i] == caps[i]);
                }
            }
        }
    }
}

proof fn lemma_first_missing(names: Seq<Seq<char>>, caps: Seq<Seq<char>>, n: int)
    requires
        0 <= n <= names.len(),
    ensures
        first_missing(names, caps, n) matches Some(i) ==> 0 <= i < n && !caps.contains(names[i])
            && first_missing(names, caps, i) is None,
        first_missing(names, caps, n) is None ==> forall|i: int|
            0 <= i < n ==> caps.contains(#[trigger] names[i]),
    decreases n,
{
    if n > 0 {
        lemma_first_missing(names, caps, n - 1);
    }
}

proof fn lemma_unknown_stays(names: Seq<Seq<char>>, caps: Seq<Seq<char>>, m: int, n: int)
    requires
        0 <= m <= n,
        first_unknown(names, caps, m) is Some,
    ensures
        first_unknown(names, caps, n) == first_unknown(names, caps, m),
    decreases n - m,
{
    if n > m {
        lemma_unknown_stays(names, caps, m, n - 1);
    }
}

proof fn lemma_repeat_stays(caps: Seq<Seq<char>>, m: int, n: int)
    requires
        0 <= m <= n,
        first_repeat(caps, m) is Some,
    ensures
        first_repeat(caps, n) == first_repeat(caps, m),
    decreases n - m,
{
    if n > m {
        lemma_repeat_stays(caps, m, n - 1);
    }
}

proof fn lemma_missing_stays(names: Seq<Seq<char>>, caps: Seq<Seq<char>>, m: int, n: int)
    requires
        0 <= m <= n,
        first_missing(names, caps, m) is Some,
    ensures
        first_missing(names, caps, n) == first_missing(names, caps, m),
    decreases n - m,
{
    if n > m {
        lemma_missing_stays(names, caps, m, n - 1);
    }
}

/// The first capture named `x`, if any.
fn find_capture(caps: &[String], x: &String) -> (r: Option<usize>)
    ensures
        match r {
            Some(j) => first_named(views(caps@), x@, j as int),
            None => !views(caps@).contains(x@),
        },
{
    let ghost names = views(caps@);
    let mut j: usize = 0;
    while j < caps.len()
        invariant
            j <= caps.len(),
            names == views(caps@),
            forall|k: int| 0 <= k < j ==> names[k] != x@,
        decreases caps.len() - j,
    {
        assert(names[j as int] == caps@[j as int]@);
        if caps[j] == *x {
            return Some(j);
        }
        j += 1;
    }
    None
}

/// Binds named captures to the fields, as the generated
/// `from_named_captures` does: the counts must agree, every capture must
/// name a field, no name may repeat, and each field takes the first capture
/// with its placeholder. The result gives, for each field, the position of
/// its capture.
pub fn bind_named_captures<P>(fields: &[FieldInfo<P>], captures: &[String]) -> (r: Result<
    Vec<usize>,
    CaptureError,
>)
    ensures
        ({
            let names = info_names(fields@);
            let caps = views(captures@);
            let n = fields@.len() as int;
            if caps.len() != n {
                r == Err::<Vec<usize>, CaptureError>(
                    CaptureError::CountMismatch {
                        expected: fields@.len() as usize,
                        actual: captures@.len() as usize,
                    },
                )
            } else {
                match first_unknown(names, caps, n) {
                    Some(j) => r matches Err(CaptureError::UnconsumedCapture(s)) && s@ == caps[j],
                    None => match first_repeat(caps, n) {
                        Some(j) => r matches Err(CaptureError::DuplicateCapture(s)) && s@ == caps[j],
                        None => match first_missing(names, caps, n) {
                            Some(i) => r matches Err(
                                CaptureError::MissingField { field, placeholder },
                            ) && field@ == fields@[i].rust_field@ && placeholder@ == names[i],
                            None => r matches Ok(v) && v@.len() == n && forall|i: int|
                                0 <= i < n ==> first_named(caps, names[i], #[trigger] v@[i] as int),
                        },
                    },
                }
            }
        }),
{
    let ghost names = info_names(fields@);
    let ghost caps = views(captures@);
    let n = fields.len();
    if captures.len() != n {
        return Err(CaptureError::CountMismatch { expected: n, actual: captures.len() });
    }
    proof {
        lemma_first_unknown(names, caps, n as int);
        lemma_first_repeat(caps, n as int);
        lemma_first_missing(names, caps, n as int);
    }
    // Every capture must name a field.
    let mut j: usize = 0;
    while j < n
        invariant
            n == fields@.len(),
            n == captures@.len(),
            names == info_names(fields@),
            caps == views(captures@),
            j <= n,
            first_unknown(names, caps, j as int) is None,
        decreases n - j,
    {
        let mut found = false;
        let mut i: usize = 0;
        while i < n
            invariant
                n == fields@.len(),
                n == captures@.len(),
                names == info_names(fields@),
                caps == views(captures@),
                j < n,
                i <= n,
                found == exists|k: int| 0 <= k < i && names[k] == caps[j as int],
            decreases n - i,
        {
            assert(names[i as int] == fields@[i as int].source_name@);
            assert(caps[j as int] == captures@[j as int]@);
            if fields[i].source_name == captures[j] {
                found = true;
            }
            i += 1;
        }
        if !found {
            assert(!names.contains(caps[j as int]));
            assert(captures@[j as int]@ == caps[j as int]);
            proof {
                lemma_unknown_stays(names, caps, j + 1, n as int);
            }
            return Err(CaptureError::UnconsumedCapture(captures[j].clone()));
        }
        assert(names.contains(caps[j as int]));
        j += 1;
    }
    // No capture name may repeat.
    let mut j: usize = 0;
    while j < n
        invariant
            n == fields@.len(),
            n == captures@.len(),
            names == info_names(fields@),
            caps == views(captures@),
            j <= n,
            first_unknown(names, caps, n as int) is None,
            first_repeat(caps, j as int) is None,
        decreases n - j,
    {
        let mut dup = false;
        let mut k: usize = 0;
        while k < j
            invariant
                n == captures@.len(),
                caps == views(captures@),
                j < n,
                k <= j,
                dup == exists|m: int| 0 <= m < k && caps[m] == caps[j as int],
            decreases j - k,
        {
            assert(caps[k as int] == captures@[k as int]@);
            assert(caps[j as int] == captures@[j as int]@);
            if captures[k] == captures[j] {
                dup = true;
            }
            k += 1;
        }
        proof {
            let t = caps.take(j as int);
            if dup {
                let m = choose|m: int| 0 <= m < j && caps[m] == caps[j as int];
                assert(t[m] == caps[j as int]);
            } else {
                assert forall|m: int| 0 <= m < t.len() implies t[m] != caps[j as int] by {
                    assert(t[m] == caps[m]);
                }
            }
        }
        if dup {
            assert(captures@[j as int]@ == caps[j as int]);
            proof {
                lemma_repeat_stays(caps, j + 1, n as int);
            }
            return Err(CaptureError::DuplicateCapture(captures[j].clone()));
        }
        j += 1;
    }
    // Each field takes the first capture with its placeholder.
    let mut out: Vec<usize> = Vec::new();
    let mut i: usize = 0;
    while i < n
        invariant
            n == fields@.len(),
            n == captures@.len(),
            names == info_names(fields@),
            caps == views(captures@),
            i <= n,
            first_unknown(names, caps, n as int) is None,
            first_repeat(caps, n as int) is None,
            first_missing(names, caps, i as int) is None,
            out@.len() == i,
            forall|k: int| 0 <= k < i ==> first_named(caps, names[k], #[trigger] out@[k] as int),
        decreases n - i,
    {
        assert(names[i as int] == fields@[i as int].source_name@);
        match find_capture(captures, &fields[i].source_name) {
            None => {
                proof {
                    lemma_missing_stays(names, caps, i + 1, n as int);
                }
                return Err(
                    CaptureError::MissingField {
                        field: fields[i].rust_field.clone(),
                        placeholder: fields[i].source_name.clone(),
                    },
                );
            },
            Some(j) => {
                let ghost prev = out@;
                out.push(j);
                proof {
                    assert forall|k: int| 0 <= k < i + 1 implies first_named(
                        caps,
                        names[k],
                        #[trigger] out@[k] as int,
                    ) by {
                        if k < i {
                            assert(out@[k] == prev[k]);
                        }
                    }
                }
            },
        }
        i += 1;
    }
    Ok(out)
}

/// Binds positional captures, as the generated `from_captures` does: the
/// values, which come in field order, must be as many as the fields, and
/// are then bound by the fields' own placeholders. With distinct
/// placeholders each field takes the value at its own position.
pub fn bind_positional_captures<P>(fields: &[FieldInfo<P>], values: usize) -> (r: Result<
    Vec<usize>,
    CaptureError,
>)
    ensures
        values != fields@.len() ==> r == Err::<Vec<usize>, CaptureError>(
            CaptureError::CountMismatch { expected: fields@.len() as usize, actual: values },
        ),
        values == fields@.len() && distinct(info_names(fields@)) ==> (r matches Ok(v) && v@
            == Seq::new(fields@.len(), |i: int| i as usize)),
        values == fields@.len() && !distinct(info_names(fields@)) ==> (first_repeat(
            info_names(fields@),
            fields@.len() as int,
        ) matches Some(j) && r matches Err(CaptureError::DuplicateCapture(s)) && s@ == info_names(
            fields@,
        )[j]),
{
    let n = fields.len();
    if values != n {
        return Err(CaptureError::CountMismatch { expected: n, actual: values });
    }
    let mut names: Vec<String> = Vec::new();
    let mut i: usize = 0;
    while i < n
        invariant
            n == fields@.len(),
            i <= n,
            views(names@) == info_names(fields@).take(i as int),
        decreases n - i,
    {
        let s = fields[i].source_name.clone();
        let ghost prev = names@;
        names.push(s);
        proof {
            lemma_views_push(prev, s);
            assert(views(names@) =~= info_names(fields@).take(i + 1));
        }
        i += 1;
    }
    proof {
        assert(info_names(fields@).take(n as int) =~= info_names(fields@));
    }
    let ghost own = info_names(fields@);
    proof {
        if distinct(own) {
            law_own_names_bind_in_order(own);
        } else {
            lemma_first_unknown(own, own, n as int);
            lemma_first_repeat(own, n as int);
            if first_unknown(own, own, n as int) is Some {
                let j = first_unknown(own, own, n as int)->0;
                assert(own.contains(own[j]));
            }
        }
    }
    let r = bind_named_captures(fields, names.as_slice());
    proof {
        if distinct(own) {
            if r is Ok {
                let v = r->Ok_0;
                assert forall|i: int| 0 <= i < n implies v@[i] == i as usize by {
                    assert(first_named(own, own[i], v@[i] as int));
                    if (v@[i] as int) != i {
                        assert(own[v@[i] as int] == own[i]);
                    }
                }
                assert(v@ =~= Seq::new(fields@.len(), |i: int| i as usize));
            }
        }
    }
    r
}

// ---------------------------------------------------------------------
// Laws of binding
// ---------------------------------------------------------------------

/// When the captures are as many as the fields, each names some field and
/// none repeats, every field finds a capture: the binding never reports a
/// missing field after the earlier checks pass.
pub proof fn law_checked_captures_bind_every_field(names: Seq<Seq<char>>, caps: Seq<Seq<char>>)
    requires
        caps.len() == names.len(),
        first_unknown(names, caps, caps.len() as int) is None,
        first_repeat(caps, caps.len() as int) is None,
    ensures
        first_missing(names, caps, names.len() as int) is None,
{
    broadcast use vstd::set::group_set_axioms;
    broadcast use vstd::seq_lib::seq_to_set_is_finite;

    let n = caps.len() as int;
    lemma_first_unknown(names, caps, n);
    lemma_first_repeat(caps, n);
    lemma_first_missing(names, caps, n);
    if first_missing(names, caps, n) is Some {
        let i = first_missing(names, caps, n)->0;
        let x = names[i];
        assert(caps.no_duplicates());
        caps.unique_seq_to_set();
        names.lemma_cardinality_of_set();
        let others = names.to_set().remove(x);
        assert(names.to_set().contains(x)) by {
            assert(names.contains(x));
        }
        assert(others.len() + 1 == names.to_set().len());
        assert(caps.to_set().subset_of(others)) by {
            assert forall|y: Seq<char>| caps.to_set().contains(y) implies others.contains(y) by {
                let j = choose|j: int| 0 <= j < caps.len() && caps[j] == y;
                assert(names.contains(caps[j]));
                if y == x {
                    assert(caps.contains(x));
                }
            }
        }
        vstd::set_lib::lemma_len_subset(caps.to_set(), others);
        assert(false);
    }
}

/// Binding the fields' own placeholders, in field order, against fields
/// with distinct placeholders passes every check, and field `i` takes
/// capture `i`.
pub proof fn law_own_names_bind_in_order(names: Seq<Seq<char>>)
    requires
        distinct(names),
    ensures
        first_unknown(names, names, names.len() as int) is None,
        first_repeat(names, names.len() as int) is None,
        first_missing(names, names, names.len() as int) is None,
        forall|i: int| 0 <= i < names.len() ==> first_named(names, names[i], i),
{
    let n = names.len() as int;
    lemma_first_unknown(names, names, n);
    lemma_first_repeat(names, n);
    lemma_first_missing(names, names, n);
    if first_unknown(names, names, n) is Some {
        let j = first_unknown(names, names, n)->0;
        assert(names.contains(names[j]));
    }
    if first_repeat(names, n) is Some {
        let j = first_repeat(names, n)->0;
        let t = names.take(j);
        let m = choose|m: int| 0 <= m < t.len() && t[m] == names[j];
        assert(t[m] == names[m]);
    }
    if first_missing(names, names, n) is Some {
        let i = first_missing(names, names, n)->0;
        assert(names.contains(names[i]));
    }
}

} // verus!
