//! The typed parameter schema and its validator.
//!
//! A manifest parameter entry is dispatched on the type of its default
//! value and checked against the restriction keys it carries: a numeric
//! range, a maximum string length, or an allow-list. Swapped range
//! bounds are repaired with a warning; duplicate allow-list entries are
//! dropped with a warning; every other irregularity is an error that
//! aborts indexing.

use vstd::prelude::*;

use crate::decimal::{spec_dec_eq, spec_dec_lt, Decimal};
use crate::manifest::{ManifestValue, ParamEntry, PartEntry, ScalarValue};
use crate::store::{
    db_add_parameter, db_add_part, ParameterRecord, ParameterRecordView, PartRecord, Store,
};

verus! {

/// A validation error, carrying the offending parameter's name.
#[derive(Debug, Clone, PartialEq, Eq)]
pub enum SchemaError {
    /// Conflicting or missing restriction keys.
    InvalidFormatting(String),
    /// The default value has an unsupported type.
    TypeError(String),
    /// Range bounds are equal, or an allow-list is empty.
    InvalidRange(String),
    /// An allow-list element has the wrong type.
    InvalidList(String),
}

/// A repair the validator performed while accepting an entry.
#[derive(Debug, Clone, PartialEq, Eq)]
pub enum Warning {
    /// `lower` and `upper` were given in the wrong order and swapped.
    SwappedBounds { parameter: String },
    /// A duplicate allow-list value was dropped.
    DuplicateListValue { parameter: String },
}

/// A validated parameter: the typed restriction with its default.
#[derive(Debug)]
pub enum ParamSchema {
    Bool { default_value: bool },
    IntRange { default_value: i64, lower: i64, upper: i64 },
    FloatRange { default_value: Decimal, lower: Decimal, upper: Decimal },
    StringLength { default_value: String, length: i64 },
    IntList { default_value: i64, items: Vec<i64> },
    FloatList { default_value: Decimal, items: Vec<Decimal> },
    StringList { default_value: String, items: Vec<String> },
}

/// The mathematical shape of a validated parameter: allow-lists as
/// sequences.
pub enum SchemaView {
    Bool { default_value: bool },
    IntRange { default_value: i64, lower: i64, upper: i64 },
    FloatRange { default_value: Decimal, lower: Decimal, upper: Decimal },
    StringLength { default_value: String, length: i64 },
    IntList { default_value: i64, items: Seq<i64> },
    FloatList { default_value: Decimal, items: Seq<Decimal> },
    StringList { default_value: String, items: Seq<String> },
}

impl View for ParamSchema {
    type V = SchemaView;

    open spec fn view(&self) -> SchemaView {
        match self {
            ParamSchema::Bool { default_value } => SchemaView::Bool { default_value: *default_value },
            ParamSchema::IntRange { default_value, lower, upper } => SchemaView::IntRange {
                default_value: *default_value,
                lower: *lower,
                upper: *upper,
            },
            ParamSchema::FloatRange { default_value, lower, upper } => SchemaView::FloatRange {
                default_value: *default_value,
                lower: *lower,
                upper: *upper,
            },
            ParamSchema::StringLength { default_value, length } => SchemaView::StringLength {
                default_value: *default_value,
                length: *length,
            },
            ParamSchema::IntList { default_value, items } => SchemaView::IntList {
                default_value: *default_value,
                items: items@,
            },
            ParamSchema::FloatList { default_value, items } => SchemaView::FloatList {
                default_value: *default_value,
                items: items@,
            },
            ParamSchema::StringList { default_value, items } => SchemaView::StringList {
                default_value: *default_value,
                items: items@,
            },
        }
    }
}

/// All four restriction keys are absent.
pub open spec fn all_keys_absent(p: ParamEntry) -> bool {
    &&& p.lower matches ManifestValue::Null
    &&& p.upper matches ManifestValue::Null
    &&& p.length matches ManifestValue::Null
    &&& p.allowed matches ManifestValue::Null
}

/// A numeric manifest value as a decimal: integer literals are
/// accepted where a fractional value is expected.
pub open spec fn spec_as_num(v: ManifestValue) -> Option<Decimal> {
    match v {
        ManifestValue::Int(i) => Some(Decimal { mantissa: i, scale: 0 }),
        ManifestValue::Dec(d) => Some(d),
        _ => None,
    }
}

/// A numeric allow-list element as a decimal.
pub open spec fn spec_elem_num(v: ScalarValue) -> Option<Decimal> {
    match v {
        ScalarValue::Int(i) => Some(Decimal { mantissa: i, scale: 0 }),
        ScalarValue::Dec(d) => Some(d),
        _ => None,
    }
}

/// Whether `s` holds a decimal numerically equal to `d`.
pub open spec fn dec_in(s: Seq<Decimal>, d: Decimal) -> bool {
    exists|i: int| 0 <= i < s.len() && spec_dec_eq(s[i], d)
}

/// Whether `s` holds a string with the characters of `x`.
pub open spec fn str_in(s: Seq<String>, x: Seq<char>) -> bool {
    exists|i: int| 0 <= i < s.len() && s[i]@ == x
}

/// Validation of an integer allow-list: every element must be an
/// integer; duplicates are dropped, each with a warning.
pub open spec fn spec_int_list(name: String, elems: Seq<ScalarValue>) -> Result<
    (Seq<i64>, Seq<Warning>),
    SchemaError,
>
    decreases elems.len(),
{
    if elems.len() == 0 {
        Ok((Seq::empty(), Seq::empty()))
    } else {
        match spec_int_list(name, elems.drop_last()) {
            Err(e) => Err(e),
            Ok(pr) => match elems.last() {
                ScalarValue::Int(v) => if pr.0.contains(v) {
                    Ok((pr.0, pr.1.push(Warning::DuplicateListValue { parameter: name })))
                } else {
                    Ok((pr.0.push(v), pr.1))
                },
                _ => Err(SchemaError::InvalidList(name)),
            },
        }
    }
}

/// Validation of a fractional allow-list: every element must be
/// numeric; numeric duplicates are dropped, each with a warning.
pub open spec fn spec_float_list(name: String, elems: Seq<ScalarValue>) -> Result<
    (Seq<Decimal>, Seq<Warning>),
    SchemaError,
>
    decreases elems.len(),
{
    if elems.len() == 0 {
        Ok((Seq::empty(), Seq::empty()))
    } else {
        match spec_float_list(name, elems.drop_last()) {
            Err(e) => Err(e),
            Ok(pr) => match spec_elem_num(elems.last()) {
                Some(d) => if dec_in(pr.0, d) {
                    Ok((pr.0, pr.1.push(Warning::DuplicateListValue { parameter: name })))
                } else {
                    Ok((pr.0.push(d), pr.1))
                },
                None => Err(SchemaError::InvalidList(name)),
            },
        }
    }
}

/// Validation of a string allow-list: every element must be a string;
/// duplicates are dropped, each with a warning.
pub open spec fn spec_string_list(name: String, elems: Seq<ScalarValue>) -> Result<
    (Seq<String>, Seq<Warning>),
    SchemaError,
>
    decreases elems.len(),
{
    if elems.len() == 0 {
        Ok((Seq::empty(), Seq::empty()))
    } else {
        match spec_string_list(name, elems.drop_last()) {
            Err(e) => Err(e),
            Ok(pr) => match elems.last() {
                ScalarValue::Str(v) => if str_in(pr.0, v@) {
                    Ok((pr.0, pr.1.push(Warning::DuplicateListValue { parameter: name })))
                } else {
                    Ok((pr.0.push(v), pr.1))
                },
                _ => Err(SchemaError::InvalidList(name)),
            },
        }
    }
}

/// What the validator decides for one parameter entry: the typed
/// schema value and its warnings, or the error that rejects it.
pub open spec fn spec_validate(p: ParamEntry) -> Result<
    (SchemaView, Seq<Warning>),
    SchemaError,
> {
    match p.default {
        ManifestValue::Bool(b) => {
            if all_keys_absent(p) {
                Ok((SchemaView::Bool { default_value: b }, Seq::empty()))
            } else {
                Err(SchemaError::InvalidFormatting(p.name))
            }
        },
        ManifestValue::Int(d) => match (p.lower, p.upper, p.length, p.allowed) {
            (
                ManifestValue::Int(lo),
                ManifestValue::Int(hi),
                ManifestValue::Null,
                ManifestValue::Null,
            ) => {
                if lo < hi {
                    Ok((
                        SchemaView::IntRange { default_value: d, lower: lo, upper: hi },
                        Seq::empty(),
                    ))
                } else if lo > hi {
                    Ok((
                        SchemaView::IntRange { default_value: d, lower: hi, upper: lo },
                        seq![Warning::SwappedBounds { parameter: p.name }],
                    ))
                } else {
                    Err(SchemaError::InvalidRange(p.name))
                }
            },
            (
                ManifestValue::Null,
                ManifestValue::Null,
                ManifestValue::Null,
                ManifestValue::Arr(elems),
            ) => {
                if elems@.len() == 0 {
                    Err(SchemaError::InvalidRange(p.name))
                } else {
                    match spec_int_list(p.name, elems@) {
                        Err(e) => Err(e),
                        Ok(pr) => Ok((SchemaView::IntList { default_value: d, items: pr.0 }, pr.1)),
                    }
                }
            },
            _ => Err(SchemaError::InvalidFormatting(p.name)),
        },
        ManifestValue::Dec(d) => match (spec_as_num(p.lower), spec_as_num(p.upper)) {
            (Some(lo), Some(hi)) => {
                if (p.length matches ManifestValue::Null) && (p.allowed
                    matches ManifestValue::Null) {
                    if spec_dec_lt(lo, hi) {
                        Ok((
                            SchemaView::FloatRange { default_value: d, lower: lo, upper: hi },
                            Seq::empty(),
                        ))
                    } else if spec_dec_lt(hi, lo) {
                        Ok((
                            SchemaView::FloatRange { default_value: d, lower: hi, upper: lo },
                            seq![Warning::SwappedBounds { parameter: p.name }],
                        ))
                    } else {
                        Err(SchemaError::InvalidRange(p.name))
                    }
                } else {
                    Err(SchemaError::InvalidFormatting(p.name))
                }
            },
            _ => match (p.lower, p.upper, p.length, p.allowed) {
                (
                    ManifestValue::Null,
                    ManifestValue::Null,
                    ManifestValue::Null,
                    ManifestValue::Arr(elems),
                ) => {
                    if elems@.len() == 0 {
                        Err(SchemaError::InvalidRange(p.name))
                    } else {
                        match spec_float_list(p.name, elems@) {
                            Err(e) => Err(e),
                            Ok(pr) => Ok(
                                (SchemaView::FloatList { default_value: d, items: pr.0 }, pr.1),
                            ),
                        }
                    }
                },
                _ => Err(SchemaError::InvalidFormatting(p.name)),
            },
        },
        ManifestValue::Str(d) => match (p.lower, p.upper, p.length, p.allowed) {
            (
                ManifestValue::Null,
                ManifestValue::Null,
                ManifestValue::Int(l),
                ManifestValue::Null,
            ) => {
                if l > 0 {
                    Ok((SchemaView::StringLength { default_value: d, length: l }, Seq::empty()))
                } else {
                    Err(SchemaError::InvalidRange(p.name))
                }
            },
            (
                ManifestValue::Null,
                ManifestValue::Null,
                ManifestValue::Null,
                ManifestValue::Arr(elems),
            ) => {
                if elems@.len() == 0 {
                    Err(SchemaError::InvalidRange(p.name))
                } else {
                    match spec_string_list(p.name, elems@) {
                        Err(e) => Err(e),
                        Ok(pr) => Ok(
                            (SchemaView::StringList { default_value: d, items: pr.0 }, pr.1),
                        ),
                    }
                }
            },
            _ => Err(SchemaError::InvalidFormatting(p.name)),
        },
        _ => Err(SchemaError::TypeError(p.name)),
    }
}

/// Every fractional value carried by the entry is a well-formed
/// decimal.
pub open spec fn entry_wf(p: ParamEntry) -> bool {
    &&& (p.default matches ManifestValue::Dec(d) ==> d.wf())
    &&& (p.lower matches ManifestValue::Dec(d) ==> d.wf())
    &&& (p.upper matches ManifestValue::Dec(d) ==> d.wf())
    &&& (p.allowed matches ManifestValue::Arr(v) ==> forall|i: int|
        0 <= i < v@.len() ==> ((#[trigger] v@[i]) matches ScalarValue::Dec(d) ==> d.wf()))
}

/// Every decimal produced by a valid allow-list is well-formed.
pub open spec fn elems_wf(elems: Seq<ScalarValue>) -> bool {
    forall|i: int|
        0 <= i < elems.len() ==> ((#[trigger] elems[i]) matches ScalarValue::Dec(d) ==> d.wf())
}

/// An integer allow-list that fails on some prefix fails as a whole,
/// with the same error.
proof fn lemma_int_list_err(name: String, s: Seq<ScalarValue>, j: int)
    requires
        0 <= j <= s.len(),
        spec_int_list(name, s.take(j)) is Err,
    ensures
        spec_int_list(name, s) == spec_int_list(name, s.take(j)),
    decreases s.len() - j,
{
    if j < s.len() {
        assert(s.take(j + 1).drop_last() =~= s.take(j));
        assert(spec_int_list(name, s.take(j + 1)) == spec_int_list(name, s.take(j)));
        lemma_int_list_err(name, s, j + 1);
    } else {
        assert(s.take(j) =~= s);
    }
}

/// A fractional allow-list that fails on some prefix fails as a
/// whole, with the same error.
proof fn lemma_float_list_err(name: String, s: Seq<ScalarValue>, j: int)
    requires
        0 <= j <= s.len(),
        spec_float_list(name, s.take(j)) is Err,
    ensures
        spec_float_list(name, s) == spec_float_list(name, s.take(j)),
    decreases s.len() - j,
{
    if j < s.len() {
        assert(s.take(j + 1).drop_last() =~= s.take(j));
        assert(spec_float_list(name, s.take(j + 1)) == spec_float_list(name, s.take(j)));
        lemma_float_list_err(name, s, j + 1);
    } else {
        assert(s.take(j) =~= s);
    }
}

/// A string allow-list that fails on some prefix fails as a whole,
/// with the same error.
proof fn lemma_string_list_err(name: String, s: Seq<ScalarValue>, j: int)
    requires
        0 <= j <= s.len(),
        spec_string_list(name, s.take(j)) is Err,
    ensures
        spec_string_list(name, s) == spec_string_list(name, s.take(j)),
    decreases s.len() - j,
{
    if j < s.len() {
        assert(s.take(j + 1).drop_last() =~= s.take(j));
        assert(spec_string_list(name, s.take(j + 1)) == spec_string_list(name, s.take(j)));
        lemma_string_list_err(name, s, j + 1);
    } else {
        assert(s.take(j) =~= s);
    }
}

/// Whether `items` holds `x`.
fn vec_contains_i64(items: &Vec<i64>, x: i64) -> (b: bool)
    ensures
        b == items@.contains(x),
{
    let mut i: usize = 0;
    while i < items.len()
        invariant
            i <= items@.len(),
            forall|j: int| 0 <= j < i ==> (#[trigger] items@[j]) != x,
        decreases items@.len() - i,
    {
        if items[i] == x {
            return true;
        }
        i = i + 1;
    }
    false
}

/// Whether `items` holds a decimal numerically equal to `x`.
fn vec_contains_dec(items: &Vec<Decimal>, x: &Decimal) -> (b: bool)
    requires
        x.wf(),
        forall|j: int| 0 <= j < items@.len() ==> (#[trigger] items@[j]).wf(),
    ensures
        b == dec_in(items@, *x),
{
    let mut i: usize = 0;
    while i < items.len()
        invariant
            i <= items@.len(),
            x.wf(),
            forall|j: int| 0 <= j < items@.len() ==> (#[trigger] items@[j]).wf(),
            forall|j: int| 0 <= j < i ==> !spec_dec_eq(#[trigger] items@[j], *x),
        decreases items@.len() - i,
    {
        if items[i].num_eq(x) {
            return true;
        }
        i = i + 1;
    }
    false
}

/// Whether `items` holds a string with the characters of `x`.
fn vec_contains_str(items: &Vec<String>, x: &String) -> (b: bool)
    ensures
        b == str_in(items@, x@),
{
    let mut i: usize = 0;
    while i < items.len()
        invariant
            i <= items@.len(),
            forall|j: int| 0 <= j < i ==> (#[trigger] items@[j])@ != x@,
        decreases items@.len() - i,
    {
        if items[i].eq(x) {
            return true;
        }
        i = i + 1;
    }
    false
}

/// Check an integer allow-list, collecting items and warnings.
fn check_int_list(name: &String, elems: &Vec<ScalarValue>) -> (r: Result<
    (Vec<i64>, Vec<Warning>),
    SchemaError,
>)
    ensures
        match spec_int_list(*name, elems@) {
            Ok(pr) => r matches Ok(o) && o.0@ == pr.0 && o.1@ == pr.1,
            Err(e) => r matches Err(e2) && e2 == e,
        },
{
    let mut items: Vec<i64> = Vec::new();
    let mut warns: Vec<Warning> = Vec::new();
    let mut k: usize = 0;
    while k < elems.len()
        invariant
            k <= elems@.len(),
            spec_int_list(*name, elems@.take(k as int)) == Ok::<_, SchemaError>((items@, warns@)),
        decreases elems@.len() - k,
    {
        proof {
            assert(elems@.take((k + 1) as int).drop_last() =~= elems@.take(k as int));
            assert(elems@.take((k + 1) as int).last() == elems@[k as int]);
        }
        match &elems[k] {
            ScalarValue::Int(v) => {
                if vec_contains_i64(&items, *v) {
                    warns.push(Warning::DuplicateListValue { parameter: name.clone() });
                } else {
                    items.push(*v);
                }
            },
            _ => {
                proof {
                    lemma_int_list_err(*name, elems@, k + 1);
                }
                return Err(SchemaError::InvalidList(name.clone()));
            },
        }
        k = k + 1;
    }
    proof {
        assert(elems@.take(elems@.len() as int) =~= elems@);
    }
    Ok((items, warns))
}

/// Check a fractional allow-list, collecting items and warnings.
fn check_float_list(name: &String, elems: &Vec<ScalarValue>) -> (r: Result<
    (Vec<Decimal>, Vec<Warning>),
    SchemaError,
>)
    requires
        elems_wf(elems@),
    ensures
        match spec_float_list(*name, elems@) {
            Ok(pr) => r matches Ok(o) && o.0@ == pr.0 && o.1@ == pr.1,
            Err(e) => r matches Err(e2) && e2 == e,
        },
{
    let mut items: Vec<Decimal> = Vec::new();
    let mut warns: Vec<Warning> = Vec::new();
    let mut k: usize = 0;
    while k < elems.len()
        invariant
            k <= elems@.len(),
            elems_wf(elems@),
            forall|j: int| 0 <= j < items@.len() ==> (#[trigger] items@[j]).wf(),
            spec_float_list(*name, elems@.take(k as int)) == Ok::<_, SchemaError>(
                (items@, warns@),
            ),
        decreases elems@.len() - k,
    {
        proof {
            assert(elems@.take((k + 1) as int).drop_last() =~= elems@.take(k as int));
            assert(elems@.take((k + 1) as int).last() == elems@[k as int]);
        }
        let d: Decimal;
        match &elems[k] {
            ScalarValue::Int(v) => {
                d = Decimal { mantissa: *v, scale: 0 };
            },
            ScalarValue::Dec(x) => {
                d = *x;
            },
            _ => {
                proof {
                    lemma_float_list_err(*name, elems@, k + 1);
                }
                return Err(SchemaError::InvalidList(name.clone()));
            },
        }
        if vec_contains_dec(&items, &d) {
            warns.push(Warning::DuplicateListValue { parameter: name.clone() });
        } else {
            items.push(d);
        }
        k = k + 1;
    }
    proof {
        assert(elems@.take(elems@.len() as int) =~= elems@);
    }
    Ok((items, warns))
}

/// Check a string allow-list, collecting items and warnings.
fn check_string_list(name: &String, elems: &Vec<ScalarValue>) -> (r: Result<
    (Vec<String>, Vec<Warning>),
    SchemaError,
>)
    ensures
        match spec_string_list(*name, elems@) {
            Ok(pr) => r matches Ok(o) && o.0@ == pr.0 && o.1@ == pr.1,
            Err(e) => r matches Err(e2) && e2 == e,
        },
{
    let mut items: Vec<String> = Vec::new();
    let mut warns: Vec<Warning> = Vec::new();
    let mut k: usize = 0;
    while k < elems.len()
        invariant
            k <= elems@.len(),
            spec_string_list(*name, elems@.take(k as int)) == Ok::<_, SchemaError>(
                (items@, warns@),
            ),
        decreases elems@.len() - k,
    {
        proof {
            assert(elems@.take((k + 1) as int).drop_last() =~= elems@.take(k as int));
            assert(elems@.take((k + 1) as int).last() == elems@[k as int]);
        }
        match &elems[k] {
            ScalarValue::Str(v) => {
                if vec_contains_str(&items, v) {
                    warns.push(Warning::DuplicateListValue { parameter: name.clone() });
                } else {
                    items.push(v.clone());
                }
            },
            _ => {
                proof {
                    lemma_string_list_err(*name, elems@, k + 1);
                }
                return Err(SchemaError::InvalidList(name.clone()));
            },
        }
        k = k + 1;
    }
    proof {
        assert(elems@.take(elems@.len() as int) =~= elems@);
    }
    Ok((items, warns))
}

/// Whether a manifest value is absent.
fn is_null(v: &ManifestValue) -> (b: bool)
    ensures
        b == (*v matches ManifestValue::Null),
{
    match v {
        ManifestValue::Null => true,
        _ => false,
    }
}

/// A numeric manifest value as a decimal.
fn as_num(v: &ManifestValue) -> (r: Option<Decimal>)
    ensures
        r == spec_as_num(*v),
{
    match v {
        ManifestValue::Int(i) => Some(Decimal { mantissa: *i, scale: 0 }),
        ManifestValue::Dec(d) => Some(*d),
        _ => None,
    }
}

/// Validate one manifest parameter entry against the schema rules:
/// dispatch on the type of the default value, then check the
/// restriction keys, repairing swapped bounds and duplicate list
/// values with warnings and rejecting every other irregularity.
pub fn validate_parameter(p: &ParamEntry) -> (r: Result<
    (ParamSchema, Vec<Warning>),
    SchemaError,
>)
    requires
        entry_wf(*p),
    ensures
        match spec_validate(*p) {
            Ok(pr) => r matches Ok(o) && o.0@ == pr.0 && o.1@ == pr.1,
            Err(e) => r matches Err(e2) && e2 == e,
        },
{
    match &p.default {
        ManifestValue::Bool(b) => {
            if is_null(&p.lower) && is_null(&p.upper) && is_null(&p.length) && is_null(
                &p.allowed,
            ) {
                Ok((ParamSchema::Bool { default_value: *b }, Vec::new()))
            } else {
                Err(SchemaError::InvalidFormatting(p.name.clone()))
            }
        },
        ManifestValue::Int(d) => {
            match (&p.lower, &p.upper, &p.length, &p.allowed) {
                (
                    ManifestValue::Int(lo),
                    ManifestValue::Int(hi),
                    ManifestValue::Null,
                    ManifestValue::Null,
                ) => {
                    if *lo < *hi {
                        Ok(
                            (
                                ParamSchema::IntRange {
                                    default_value: *d,
                                    lower: *lo,
                                    upper: *hi,
                                },
                                Vec::new(),
                            ),
                        )
                    } else if *lo > *hi {
                        let mut w: Vec<Warning> = Vec::new();
                        w.push(Warning::SwappedBounds { parameter: p.name.clone() });
                        proof {
                            assert(w@ =~= seq![
                                Warning::SwappedBounds { parameter: p.name },
                            ]);
                        }
                        Ok(
                            (
                                ParamSchema::IntRange {
                                    default_value: *d,
                                    lower: *hi,
                                    upper: *lo,
                                },
                                w,
                            ),
                        )
                    } else {
                        Err(SchemaError::InvalidRange(p.name.clone()))
                    }
                },
                (
                    ManifestValue::Null,
                    ManifestValue::Null,
                    ManifestValue::Null,
                    ManifestValue::Arr(elems),
                ) => {
                    if elems.len() == 0 {
                        Err(SchemaError::InvalidRange(p.name.clone()))
                    } else {
                        match check_int_list(&p.name, elems) {
                            Ok(ow) => {
                                let (items, warns) = ow;
                                Ok((ParamSchema::IntList { default_value: *d, items }, warns))
                            },
                            Err(e) => Err(e),
                        }
                    }
                },
                _ => Err(SchemaError::InvalidFormatting(p.name.clone())),
            }
        },
        ManifestValue::Dec(d) => {
            let lo_n = as_num(&p.lower);
            let hi_n = as_num(&p.upper);
            match (lo_n, hi_n) {
                (Some(lo), Some(hi)) => {
                    if is_null(&p.length) && is_null(&p.allowed) {
                        if lo.num_lt(&hi) {
                            Ok(
                                (
                                    ParamSchema::FloatRange {
                                        default_value: *d,
                                        lower: lo,
                                        upper: hi,
                                    },
                                    Vec::new(),
                                ),
                            )
                        } else if hi.num_lt(&lo) {
                            let mut w: Vec<Warning> = Vec::new();
                            w.push(Warning::SwappedBounds { parameter: p.name.clone() });
                            proof {
                                assert(w@ =~= seq![
                                    Warning::SwappedBounds { parameter: p.name },
                                ]);
                            }
                            Ok(
                                (
                                    ParamSchema::FloatRange {
                                        default_value: *d,
                                        lower: hi,
                                        upper: lo,
                                    },
                                    w,
                                ),
                            )
                        } else {
                            Err(SchemaError::InvalidRange(p.name.clone()))
                        }
                    } else {
                        Err(SchemaError::InvalidFormatting(p.name.clone()))
                    }
                },
                _ => {
                    match (&p.lower, &p.upper, &p.length, &p.allowed) {
                        (
                            ManifestValue::Null,
                            ManifestValue::Null,
                            ManifestValue::Null,
                            ManifestValue::Arr(elems),
                        ) => {
                            if elems.len() == 0 {
                                Err(SchemaError::InvalidRange(p.name.clone()))
                            } else {
                                match check_float_list(&p.name, elems) {
                                    Ok(ow) => {
                                        let (items, warns) = ow;
                                        Ok(
                                            (
                                                ParamSchema::FloatList {
                                                    default_value: *d,
                                                    items,
                                                },
                                                warns,
                                            ),
                                        )
                                    },
                                    Err(e) => Err(e),
                                }
                            }
                        },
                        _ => Err(SchemaError::InvalidFormatting(p.name.clone())),
                    }
                },
            }
        },
        ManifestValue::Str(d) => {
            match (&p.lower, &p.upper, &p.length, &p.allowed) {
                (
                    ManifestValue::Null,
                    ManifestValue::Null,
                    ManifestValue::Int(l),
                    ManifestValue::Null,
                ) => {
                    if *l > 0 {
                        Ok(
                            (
                                ParamSchema::StringLength {
                                    default_value: d.clone(),
                                    length: *l,
                                },
                                Vec::new(),
                            ),
                        )
                    } else {
                        Err(SchemaError::InvalidRange(p.name.clone()))
                    }
                },
                (
                    ManifestValue::Null,
                    ManifestValue::Null,
                    ManifestValue::Null,
                    ManifestValue::Arr(elems),
                ) => {
                    if elems.len() == 0 {
                        Err(SchemaError::InvalidRange(p.name.clone()))
                    } else {
                        match check_string_list(&p.name, elems) {
                            Ok(ow) => {
                                let (items, warns) = ow;
                                Ok(
                                    (
                                        ParamSchema::StringList {
                                            default_value: d.clone(),
                                            items,
                                        },
                                        warns,
                                    ),
                                )
                            },
                            Err(e) => Err(e),
                        }
                    }
                },
                _ => Err(SchemaError::InvalidFormatting(p.name.clone())),
            }
        },
        _ => Err(SchemaError::TypeError(p.name.clone())),
    }
}

/// Monotonic identifiers assigned across one index pass.
pub struct IdCounter {
    pub model_id: i64,
    pub part_id: i64,
    pub parameter_id: i64,
}

/// The rows and warnings a parameter list produces, with identifiers
/// assigned from `pid0` in list order, or the first entry's error.
pub open spec fn spec_params_ok(entries: Seq<ParamEntry>, pid0: int, part_id: i64) -> Result<
    (Seq<ParameterRecordView>, Seq<Warning>),
    SchemaError,
>
    decreases entries.len(),
{
    if entries.len() == 0 {
        Ok((Seq::empty(), Seq::empty()))
    } else {
        match spec_params_ok(entries.drop_last(), pid0, part_id) {
            Err(e) => Err(e),
            Ok(pr) => match spec_validate(entries.last()) {
                Err(e) => Err(e),
                Ok(vr) => Ok(
                    (
                        pr.0.push(
                            ParameterRecordView {
                                parameter_id: (pid0 + entries.len() - 1) as i64,
                                name: entries.last().name,
                                part_id: part_id,
                                schema: vr.0,
                            },
                        ),
                        pr.1 + vr.1,
                    ),
                ),
            },
        }
    }
}

/// A parameter list that fails on some prefix fails as a whole, with
/// the same error.
proof fn lemma_params_err(entries: Seq<ParamEntry>, pid0: int, part_id: i64, j: int)
    requires
        0 <= j <= entries.len(),
        spec_params_ok(entries.take(j), pid0, part_id) is Err,
    ensures
        spec_params_ok(entries, pid0, part_id) == spec_params_ok(entries.take(j), pid0, part_id),
    decreases entries.len() - j,
{
    if j < entries.len() {
        assert(entries.take(j + 1).drop_last() =~= entries.take(j));
        lemma_params_err(entries, pid0, part_id, j + 1);
    } else {
        assert(entries.take(j) =~= entries);
    }
}

/// Move every warning of `src` to the end of `dst`, in order.
pub(crate) fn append_warnings(dst: &mut Vec<Warning>, src: Vec<Warning>)
    ensures
        final(dst)@ == old(dst)@ + src@,
{
    let ghost s0 = src@;
    let mut src = src;
    proof {
        assert(dst@ =~= old(dst)@ + s0.take(0));
        assert(src@ =~= s0.skip(0));
    }
    while src.len() > 0
        invariant
            src@.len() <= s0.len(),
            dst@ == old(dst)@ + s0.take(s0.len() - src@.len()),
            src@ == s0.skip(s0.len() - src@.len()),
        decreases src@.len(),
    {
        let ghost k = s0.len() - src@.len();
        let w = src.remove(0);
        proof {
            assert(w == s0[k]);
            assert(src@ =~= s0.skip(k + 1));
        }
        dst.push(w);
        proof {
            assert(dst@ =~= old(dst)@ + s0.take(k + 1));
        }
    }
    proof {
        assert(s0.take(s0.len() as int) =~= s0);
    }
}

/// Validate a parameter list and insert one schema row per entry,
/// drawing identifiers from the counter; warnings are collected in
/// list order and the first invalid entry aborts with its error,
/// leaving the rows of the entries before it.
pub fn parse_parameters(
    store: &mut Store,
    parameters: &Vec<ParamEntry>,
    id_counter: &mut IdCounter,
) -> (r: Result<Vec<Warning>, SchemaError>)
    requires
        forall|i: int| 0 <= i < parameters@.len() ==> entry_wf(#[trigger] parameters@[i]),
        old(id_counter).parameter_id + parameters@.len() <= i64::MAX,
        old(id_counter).parameter_id >= 0,
    ensures
        final(id_counter).model_id == old(id_counter).model_id,
        final(id_counter).part_id == old(id_counter).part_id,
        final(id_counter).parameter_id >= old(id_counter).parameter_id,
        final(store).models == old(store).models,
        final(store).parts == old(store).parts,
        final(store).instances == old(store).instances,
        final(store).next_age == old(store).next_age,
        old(store).inv() ==> final(store).inv(),
        match spec_params_ok(
            parameters@,
            old(id_counter).parameter_id as int,
            old(id_counter).part_id,
        ) {
            Ok(pr) => r matches Ok(w) && w@ == pr.1 && final(store).parameters@.map_values(
                |p: ParameterRecord| p@,
            ) == old(store).parameters@.map_values(|p: ParameterRecord| p@) + pr.0
                && final(id_counter).parameter_id == old(id_counter).parameter_id
                + parameters@.len(),
            Err(e) => r matches Err(e2) && e2 == e && exists|k: int|
                0 <= k <= parameters@.len() && ((#[trigger] spec_params_ok(
                    parameters@.take(k),
                    old(id_counter).parameter_id as int,
                    old(id_counter).part_id,
                )) matches Ok(pk) && final(store).parameters@.map_values(|p: ParameterRecord| p@)
                    == old(store).parameters@.map_values(|p: ParameterRecord| p@) + pk.0
                    && final(id_counter).parameter_id == old(id_counter).parameter_id + k),
        },
{
    let ghost entries = parameters@;
    let ghost pid0 = old(id_counter).parameter_id as int;
    let ghost part_id = old(id_counter).part_id;
    let ghost old_rows = old(store).parameters@.map_values(|p: ParameterRecord| p@);
    let mut warnings: Vec<Warning> = Vec::new();
    let mut i: usize = 0;
    while i < parameters.len()
        invariant
            i <= entries.len(),
            parameters@ == entries,
            forall|k: int| 0 <= k < entries.len() ==> entry_wf(#[trigger] entries[k]),
            pid0 + entries.len() <= i64::MAX,
            pid0 >= 0,
            pid0 == old(id_counter).parameter_id as int,
            part_id == old(id_counter).part_id,
            id_counter.parameter_id == pid0 + i,
            id_counter.part_id == part_id,
            id_counter.model_id == old(id_counter).model_id,
            store.models == old(store).models,
            store.parts == old(store).parts,
            store.instances == old(store).instances,
            store.next_age == old(store).next_age,
            old(store).inv() ==> store.inv(),
            old_rows == old(store).parameters@.map_values(|p: ParameterRecord| p@),
            spec_params_ok(entries.take(i as int), pid0, part_id) matches Ok(pr)
                && store.parameters@.map_values(|p: ParameterRecord| p@) == old_rows + pr.0
                && warnings@ == pr.1,
        decreases entries.len() - i,
    {
        proof {
            assert(entries.take((i + 1) as int).drop_last() =~= entries.take(i as int));
            assert(entries.take((i + 1) as int).last() == entries[i as int]);
        }
        match validate_parameter(&parameters[i]) {
            Ok(ow) => {
                let (schema, w) = ow;
                let pid = id_counter.parameter_id;
                db_add_parameter(store, pid, parameters[i].name.clone(), id_counter.part_id, schema);
                proof {
                    broadcast use vstd::seq::Seq::lemma_push_map_commute;

                    let pr = spec_params_ok(entries.take(i as int), pid0, part_id)->Ok_0;
                    let npr = spec_params_ok(entries.take((i + 1) as int), pid0, part_id)->Ok_0;
                    assert(store.parameters@.map_values(|p: ParameterRecord| p@) =~= old_rows
                        + npr.0);
                }
                append_warnings(&mut warnings, w);
                id_counter.parameter_id = pid + 1;
            },
            Err(e) => {
                proof {
                    lemma_params_err(entries, pid0, part_id, i as int + 1);
                    assert(spec_params_ok(entries, pid0, part_id) == spec_params_ok(
                        entries.take(i as int + 1),
                        pid0,
                        part_id,
                    ));
                    assert(exists|k: int|
                        0 <= k <= entries.len() && ((#[trigger] spec_params_ok(
                            entries.take(k),
                            pid0,
                            part_id,
                        )) matches Ok(pk) && store.parameters@.map_values(|p: ParameterRecord| p@)
                            == old_rows + pk.0 && id_counter.parameter_id == pid0 + k)) by {
                        assert(0 <= i as int <= entries.len() && ((#[trigger] spec_params_ok(
                            entries.take(i as int),
                            pid0,
                            part_id,
                        )) matches Ok(pk) && store.parameters@.map_values(
                            |p: ParameterRecord| p@,
                        ) == old_rows + pk.0 && id_counter.parameter_id == pid0 + i));
                    }
                }
                return Err(e);
            },
        }
        i = i + 1;
    }
    proof {
        assert(entries.take(entries.len() as int) =~= entries);
    }
    Ok(warnings)
}

/// The restriction a validated parameter carries actually holds:
/// range bounds are ordered, a string length is positive, and an
/// allow-list is non-empty with distinct, well-formed values.
pub open spec fn schema_wf(sv: SchemaView) -> bool {
    match sv {
        SchemaView::Bool { .. } => true,
        SchemaView::IntRange { lower, upper, .. } => lower < upper,
        SchemaView::FloatRange { default_value, lower, upper } => default_value.wf() && lower.wf()
            && upper.wf() && spec_dec_lt(lower, upper),
        SchemaView::StringLength { length, .. } => length > 0,
        SchemaView::IntList { items, .. } => items.len() > 0 && forall|i: int, j: int|
            0 <= i < j < items.len() ==> (#[trigger] items[i]) != (#[trigger] items[j]),
        SchemaView::FloatList { default_value, items } => default_value.wf() && items.len() > 0
            && (forall|i: int| 0 <= i < items.len() ==> (#[trigger] items[i]).wf()) && (forall|
            i: int,
            j: int,
        |
            0 <= i < j < items.len() ==> !spec_dec_eq(
                #[trigger] items[i],
                #[trigger] items[j],
            )),
        SchemaView::StringList { items, .. } => items.len() > 0 && forall|i: int, j: int|
            0 <= i < j < items.len() ==> (#[trigger] items[i])@ != (#[trigger] items[j])@,
    }
}

/// `p` is the manifest entry the emitter writes for the validated
/// parameter `sv` under `name`: the default in its native type, range
/// bounds or length or allow-list as the variant demands, and every
/// other restriction key absent.
pub open spec fn is_emission(p: ParamEntry, name: String, sv: SchemaView) -> bool {
    p.name == name && match sv {
        SchemaView::Bool { default_value } => p.default == ManifestValue::Bool(default_value)
            && all_keys_absent(p),
        SchemaView::IntRange { default_value, lower, upper } => p.default == ManifestValue::Int(
            default_value,
        ) && p.lower == ManifestValue::Int(lower) && p.upper == ManifestValue::Int(upper)
            && (p.length matches ManifestValue::Null) && (p.allowed matches ManifestValue::Null),
        SchemaView::FloatRange { default_value, lower, upper } => p.default == ManifestValue::Dec(
            default_value,
        ) && p.lower == ManifestValue::Dec(lower) && p.upper == ManifestValue::Dec(upper)
            && (p.length matches ManifestValue::Null) && (p.allowed matches ManifestValue::Null),
        SchemaView::StringLength { default_value, length } => p.default == ManifestValue::Str(
            default_value,
        ) && p.length == ManifestValue::Int(length) && (p.lower matches ManifestValue::Null) && (
        p.upper matches ManifestValue::Null) && (p.allowed matches ManifestValue::Null),
        SchemaView::IntList { default_value, items } => p.default == ManifestValue::Int(
            default_value,
        ) && (p.lower matches ManifestValue::Null) && (p.upper matches ManifestValue::Null) && (
        p.length matches ManifestValue::Null) && (p.allowed matches ManifestValue::Arr(v)
            && v@.len() == items.len() && forall|i: int|
            0 <= i < items.len() ==> v@[i] == ScalarValue::Int(#[trigger] items[i])),
        SchemaView::FloatList { default_value, items } => p.default == ManifestValue::Dec(
            default_value,
        ) && (p.lower matches ManifestValue::Null) && (p.upper matches ManifestValue::Null) && (
        p.length matches ManifestValue::Null) && (p.allowed matches ManifestValue::Arr(v)
            && v@.len() == items.len() && forall|i: int|
            0 <= i < items.len() ==> v@[i] == ScalarValue::Dec(#[trigger] items[i])),
        SchemaView::StringList { default_value, items } => p.default == ManifestValue::Str(
            default_value,
        ) && (p.lower matches ManifestValue::Null) && (p.upper matches ManifestValue::Null) && (
        p.length matches ManifestValue::Null) && (p.allowed matches ManifestValue::Arr(v)
            && v@.len() == items.len() && forall|i: int|
            0 <= i < items.len() ==> v@[i] == ScalarValue::Str(#[trigger] items[i])),
    }
}

/// An emitted integer allow-list validates to its items, without
/// warnings.
proof fn lemma_int_list_emission(name: String, elems: Seq<ScalarValue>, items: Seq<i64>)
    requires
        elems.len() == items.len(),
        forall|i: int| 0 <= i < items.len() ==> elems[i] == ScalarValue::Int(#[trigger] items[i]),
        forall|i: int, j: int|
            0 <= i < j < items.len() ==> (#[trigger] items[i]) != (#[trigger] items[j]),
    ensures
        spec_int_list(name, elems) == Ok::<_, SchemaError>((items, Seq::<Warning>::empty())),
    decreases elems.len(),
{
    if elems.len() > 0 {
        assert forall|i: int| 0 <= i < items.len() - 1 implies elems.drop_last()[i]
            == ScalarValue::Int(#[trigger] items.drop_last()[i]) by {
            assert(items.drop_last()[i] == items[i]);
            assert(elems.drop_last()[i] == elems[i]);
        }
        lemma_int_list_emission(name, elems.drop_last(), items.drop_last());
        assert(elems.last() == ScalarValue::Int(items.last()));
        assert(!items.drop_last().contains(items.last())) by {
            if items.drop_last().contains(items.last()) {
                let i = choose|i: int|
                    0 <= i < items.drop_last().len() && items.drop_last()[i] == items.last();
                assert(items[i] == items[items.len() - 1]);
            }
        }
        assert(items.drop_last().push(items.last()) =~= items);
    } else {
        assert(items =~= Seq::<i64>::empty());
    }
}

/// An emitted fractional allow-list validates to its items, without
/// warnings.
proof fn lemma_float_list_emission(name: String, elems: Seq<ScalarValue>, items: Seq<Decimal>)
    requires
        elems.len() == items.len(),
        forall|i: int| 0 <= i < items.len() ==> elems[i] == ScalarValue::Dec(#[trigger] items[i]),
        forall|i: int, j: int|
            0 <= i < j < items.len() ==> !spec_dec_eq(#[trigger] items[i], #[trigger] items[j]),
    ensures
        spec_float_list(name, elems) == Ok::<_, SchemaError>((items, Seq::<Warning>::empty())),
    decreases elems.len(),
{
    if elems.len() > 0 {
        assert forall|i: int| 0 <= i < items.len() - 1 implies elems.drop_last()[i]
            == ScalarValue::Dec(#[trigger] items.drop_last()[i]) by {
            assert(items.drop_last()[i] == items[i]);
            assert(elems.drop_last()[i] == elems[i]);
        }
        assert forall|i: int, j: int|
            0 <= i < j < items.drop_last().len() implies !spec_dec_eq(
            #[trigger] items.drop_last()[i],
            #[trigger] items.drop_last()[j],
        ) by {
            assert(items.drop_last()[i] == items[i] && items.drop_last()[j] == items[j]);
        }
        lemma_float_list_emission(name, elems.drop_last(), items.drop_last());
        assert(elems.last() == ScalarValue::Dec(items.last()));
        assert(!dec_in(items.drop_last(), items.last())) by {
            if dec_in(items.drop_last(), items.last()) {
                let i = choose|i: int|
                    0 <= i < items.drop_last().len() && spec_dec_eq(
                        items.drop_last()[i],
                        items.last(),
                    );
                assert(!spec_dec_eq(items[i], items[items.len() - 1]));
            }
        }
        assert(items.drop_last().push(items.last()) =~= items);
    } else {
        assert(items =~= Seq::<Decimal>::empty());
    }
}

/// An emitted string allow-list validates to its items, without
/// warnings.
proof fn lemma_string_list_emission(name: String, elems: Seq<ScalarValue>, items: Seq<String>)
    requires
        elems.len() == items.len(),
        forall|i: int| 0 <= i < items.len() ==> elems[i] == ScalarValue::Str(#[trigger] items[i]),
        forall|i: int, j: int|
            0 <= i < j < items.len() ==> (#[trigger] items[i])@ != (#[trigger] items[j])@,
    ensures
        spec_string_list(name, elems) == Ok::<_, SchemaError>((items, Seq::<Warning>::empty())),
    decreases elems.len(),
{
    if elems.len() > 0 {
        assert forall|i: int| 0 <= i < items.len() - 1 implies elems.drop_last()[i]
            == ScalarValue::Str(#[trigger] items.drop_last()[i]) by {
            assert(items.drop_last()[i] == items[i]);
            assert(elems.drop_last()[i] == elems[i]);
        }
        assert forall|i: int, j: int|
            0 <= i < j < items.drop_last().len() implies (#[trigger] items.drop_last()[i])@ != (
        #[trigger] items.drop_last()[j])@ by {
            assert(items.drop_last()[i] == items[i] && items.drop_last()[j] == items[j]);
        }
        lemma_string_list_emission(name, elems.drop_last(), items.drop_last());
        assert(elems.last() == ScalarValue::Str(items.last()));
        assert(!str_in(items.drop_last(), items.last()@)) by {
            if str_in(items.drop_last(), items.last()@) {
                let i = choose|i: int|
                    0 <= i < items.drop_last().len() && items.drop_last()[i]@ == items.last()@;
                assert(items[i]@ != items[items.len() - 1]@);
            }
        }
        assert(items.drop_last().push(items.last()) =~= items);
    } else {
        assert(items =~= Seq::<String>::empty());
    }
}

/// The round trip law: the validator accepts what the emitter writes.
/// Any manifest entry emitted for a well-formed validated parameter
/// validates back to exactly that parameter, with no warnings.
pub proof fn lemma_validate_emission(p: ParamEntry, name: String, sv: SchemaView)
    requires
        schema_wf(sv),
        is_emission(p, name, sv),
    ensures
        spec_validate(p) == Ok::<_, SchemaError>((sv, Seq::<Warning>::empty())),
{
    match sv {
        SchemaView::IntList { default_value, items } => {
            let elems = (choose|v: Vec<ScalarValue>| p.allowed == ManifestValue::Arr(v))@;
            match p.allowed {
                ManifestValue::Arr(v) => {
                    lemma_int_list_emission(name, v@, items);
                },
                _ => {
                    assert(false);
                },
            }
        },
        SchemaView::FloatList { default_value, items } => {
            match p.allowed {
                ManifestValue::Arr(v) => {
                    lemma_float_list_emission(name, v@, items);
                },
                _ => {
                    assert(false);
                },
            }
        },
        SchemaView::StringList { default_value, items } => {
            match p.allowed {
                ManifestValue::Arr(v) => {
                    lemma_string_list_emission(name, v@, items);
                },
                _ => {
                    assert(false);
                },
            }
        },
        _ => {},
    }
}

/// Write the manifest entry for a validated parameter: the inverse
/// direction of the validator, used to re-emit a schema in manifest
/// form.
pub fn emit_parameter(name: String, schema: &ParamSchema) -> (p: ParamEntry)
    ensures
        is_emission(p, name, schema@),
        schema_wf(schema@) ==> entry_wf(p),
{
    match schema {
        ParamSchema::Bool { default_value } => ParamEntry {
            name,
            default: ManifestValue::Bool(*default_value),
            lower: ManifestValue::Null,
            upper: ManifestValue::Null,
            length: ManifestValue::Null,
            allowed: ManifestValue::Null,
        },
        ParamSchema::IntRange { default_value, lower, upper } => ParamEntry {
            name,
            default: ManifestValue::Int(*default_value),
            lower: ManifestValue::Int(*lower),
            upper: ManifestValue::Int(*upper),
            length: ManifestValue::Null,
            allowed: ManifestValue::Null,
        },
        ParamSchema::FloatRange { default_value, lower, upper } => {
            let p = ParamEntry {
                name,
                default: ManifestValue::Dec(*default_value),
                lower: ManifestValue::Dec(*lower),
                upper: ManifestValue::Dec(*upper),
                length: ManifestValue::Null,
                allowed: ManifestValue::Null,
            };
            proof {
                if schema_wf(schema@) {
                    assert(entry_wf(p));
                }
            }
            p
        },
        ParamSchema::StringLength { default_value, length } => ParamEntry {
            name,
            default: ManifestValue::Str(default_value.clone()),
            lower: ManifestValue::Null,
            upper: ManifestValue::Null,
            length: ManifestValue::Int(*length),
            allowed: ManifestValue::Null,
        },
        ParamSchema::IntList { default_value, items } => {
            let mut v: Vec<ScalarValue> = Vec::new();
            let mut i: usize = 0;
            while i < items.len()
                invariant
                    i <= items@.len(),
                    v@.len() == i,
                    forall|j: int| 0 <= j < i ==> v@[j] == ScalarValue::Int(#[trigger] items@[j]),
                decreases items@.len() - i,
            {
                v.push(ScalarValue::Int(items[i]));
                i = i + 1;
            }
            let p = ParamEntry {
                name,
                default: ManifestValue::Int(*default_value),
                lower: ManifestValue::Null,
                upper: ManifestValue::Null,
                length: ManifestValue::Null,
                allowed: ManifestValue::Arr(v),
            };
            proof {
                assert forall|k: int|
                    0 <= k < v@.len() implies ((#[trigger] v@[k]) matches ScalarValue::Dec(d)
                    ==> d.wf()) by {
                    assert(v@[k] == ScalarValue::Int(items@[k]));
                }
                assert(entry_wf(p));
            }
            p
        },
        ParamSchema::FloatList { default_value, items } => {
            let mut v: Vec<ScalarValue> = Vec::new();
            let mut i: usize = 0;
            while i < items.len()
                invariant
                    i <= items@.len(),
                    v@.len() == i,
                    forall|j: int| 0 <= j < i ==> v@[j] == ScalarValue::Dec(#[trigger] items@[j]),
                decreases items@.len() - i,
            {
                v.push(ScalarValue::Dec(items[i]));
                i = i + 1;
            }
            let p = ParamEntry {
                name,
                default: ManifestValue::Dec(*default_value),
                lower: ManifestValue::Null,
                upper: ManifestValue::Null,
                length: ManifestValue::Null,
                allowed: ManifestValue::Arr(v),
            };
            proof {
                if schema_wf(schema@) {
                    assert forall|k: int|
                        0 <= k < v@.len() implies ((#[trigger] v@[k]) matches ScalarValue::Dec(d)
                        ==> d.wf()) by {
                        assert(v@[k] == ScalarValue::Dec(items@[k]));
                        assert(items@[k].wf());
                    }
                    assert(entry_wf(p));
                }
            }
            p
        },
        ParamSchema::StringList { default_value, items } => {
            let mut v: Vec<ScalarValue> = Vec::new();
            let mut i: usize = 0;
            while i < items.len()
                invariant
                    i <= items@.len(),
                    v@.len() == i,
                    forall|j: int| 0 <= j < i ==> v@[j] == ScalarValue::Str(#[trigger] items@[j]),
                decreases items@.len() - i,
            {
                v.push(ScalarValue::Str(items[i].clone()));
                i = i + 1;
            }
            let p = ParamEntry {
                name,
                default: ManifestValue::Str(default_value.clone()),
                lower: ManifestValue::Null,
                upper: ManifestValue::Null,
                length: ManifestValue::Null,
                allowed: ManifestValue::Arr(v),
            };
            proof {
                assert forall|k: int|
                    0 <= k < v@.len() implies ((#[trigger] v@[k]) matches ScalarValue::Dec(d)
                    ==> d.wf()) by {
                    assert(v@[k] == ScalarValue::Str(items@[k]));
                }
                assert(entry_wf(p));
            }
            p
        },
    }
}

/// Total number of parameter entries across a part list.
pub open spec fn spec_param_count(parts: Seq<PartEntry>) -> int
    decreases parts.len(),
{
    if parts.len() == 0 {
        0
    } else {
        spec_param_count(parts.drop_last()) + parts.last().parameters@.len()
    }
}

/// Prefix parameter counts are bounded by the total.
pub proof fn lemma_param_count_prefix(parts: Seq<PartEntry>, j: int)
    requires
        0 <= j <= parts.len(),
    ensures
        0 <= spec_param_count(parts.take(j)) <= spec_param_count(parts),
        spec_param_count(parts.take(parts.len() as int)) == spec_param_count(parts),
    decreases parts.len() - j,
{
    lemma_param_count_nonneg(parts.take(j));
    if j < parts.len() {
        assert(parts.take(j + 1).drop_last() =~= parts.take(j));
        lemma_param_count_prefix(parts, j + 1);
    } else {
        assert(parts.take(j) =~= parts);
    }
}

/// A parameter count is never negative.
proof fn lemma_param_count_nonneg(parts: Seq<PartEntry>)
    ensures
        spec_param_count(parts) >= 0,
    decreases parts.len(),
{
    if parts.len() > 0 {
        lemma_param_count_nonneg(parts.drop_last());
    }
}

/// Every parameter entry of every part is well-formed.
pub open spec fn parts_wf(parts: Seq<PartEntry>) -> bool {
    forall|i: int, j: int|
        0 <= i < parts.len() && 0 <= j < (#[trigger] parts[i]).parameters@.len() ==> entry_wf(
            #[trigger] parts[i].parameters@[j],
        )
}

/// The rows and warnings a part list produces: one part row per part,
/// parameter rows in part order with identifiers drawn monotonically,
/// or the first invalid entry's error.
pub open spec fn spec_parts_ok(parts: Seq<PartEntry>, model_id: i64, part0: int, pid0: int) -> Result<
    (Seq<PartRecord>, Seq<ParameterRecordView>, Seq<Warning>),
    SchemaError,
>
    decreases parts.len(),
{
    if parts.len() == 0 {
        Ok((Seq::empty(), Seq::empty(), Seq::empty()))
    } else {
        match spec_parts_ok(parts.drop_last(), model_id, part0, pid0) {
            Err(e) => Err(e),
            Ok(t) => {
                let part = parts.last();
                let this_part_id = (part0 + parts.len() - 1) as i64;
                match spec_params_ok(
                    part.parameters@,
                    pid0 + spec_param_count(parts.drop_last()),
                    this_part_id,
                ) {
                    Err(e) => Err(e),
                    Ok(pr) => Ok(
                        (
                            t.0.push(
                                PartRecord { part_id: this_part_id, name: part.name, model_id },
                            ),
                            t.1 + pr.0,
                            t.2 + pr.1,
                        ),
                    ),
                }
            },
        }
    }
}

/// A part list that fails on some prefix fails as a whole, with the
/// same error.
proof fn lemma_parts_err(parts: Seq<PartEntry>, model_id: i64, part0: int, pid0: int, j: int)
    requires
        0 <= j <= parts.len(),
        spec_parts_ok(parts.take(j), model_id, part0, pid0) is Err,
    ensures
        spec_parts_ok(parts, model_id, part0, pid0) == spec_parts_ok(
            parts.take(j),
            model_id,
            part0,
            pid0,
        ),
    decreases parts.len() - j,
{
    if j < parts.len() {
        assert(parts.take(j + 1).drop_last() =~= parts.take(j));
        lemma_parts_err(parts, model_id, part0, pid0, j + 1);
    } else {
        assert(parts.take(j) =~= parts);
    }
}

/// Insert each part with its validated parameters, drawing part and
/// parameter identifiers from the counter; the first invalid entry
/// aborts with its error, leaving the rows inserted before it.
pub fn parse_parts(store: &mut Store, parts: &Vec<PartEntry>, id_counter: &mut IdCounter) -> (r:
    Result<Vec<Warning>, SchemaError>)
    requires
        parts_wf(parts@),
        old(id_counter).parameter_id >= 0,
        old(id_counter).part_id >= 0,
        old(id_counter).parameter_id + spec_param_count(parts@) <= i64::MAX,
        old(id_counter).part_id + parts@.len() <= i64::MAX,
    ensures
        final(id_counter).model_id == old(id_counter).model_id,
        final(store).models == old(store).models,
        final(store).instances == old(store).instances,
        final(store).next_age == old(store).next_age,
        old(store).inv() ==> final(store).inv(),
        match spec_parts_ok(
            parts@,
            old(id_counter).model_id,
            old(id_counter).part_id as int,
            old(id_counter).parameter_id as int,
        ) {
            Ok(t) => r matches Ok(w) && w@ == t.2 && final(store).parts@ == old(store).parts@
                + t.0 && final(store).parameters@.map_values(|p: ParameterRecord| p@) == old(
                store,
            ).parameters@.map_values(|p: ParameterRecord| p@) + t.1 && final(id_counter).part_id
                == old(id_counter).part_id + parts@.len() && final(id_counter).parameter_id == old(
                id_counter,
            ).parameter_id + spec_param_count(parts@),
            Err(e) => r matches Err(e2) && e2 == e,
        },
{
    let ghost ps = parts@;
    let ghost model_id = old(id_counter).model_id;
    let ghost part0 = old(id_counter).part_id as int;
    let ghost pid0 = old(id_counter).parameter_id as int;
    let ghost old_parts = old(store).parts@;
    let ghost old_rows = old(store).parameters@.map_values(|p: ParameterRecord| p@);
    let mut warnings: Vec<Warning> = Vec::new();
    let mut i: usize = 0;
    proof {
        lemma_param_count_prefix(ps, 0);
    }
    while i < parts.len()
        invariant
            i <= ps.len(),
            parts@ == ps,
            parts_wf(ps),
            model_id == old(id_counter).model_id,
            part0 == old(id_counter).part_id as int,
            pid0 == old(id_counter).parameter_id as int,
            pid0 >= 0,
            part0 >= 0,
            pid0 + spec_param_count(ps) <= i64::MAX,
            part0 + ps.len() <= i64::MAX,
            id_counter.model_id == model_id,
            id_counter.part_id == part0 + i,
            id_counter.parameter_id == pid0 + spec_param_count(ps.take(i as int)),
            store.models == old(store).models,
            store.instances == old(store).instances,
            store.next_age == old(store).next_age,
            old(store).inv() ==> store.inv(),
            old_parts == old(store).parts@,
            old_rows == old(store).parameters@.map_values(|p: ParameterRecord| p@),
            spec_parts_ok(ps.take(i as int), model_id, part0, pid0) matches Ok(t)
                && store.parts@ == old_parts + t.0 && store.parameters@.map_values(
                |p: ParameterRecord| p@,
            ) == old_rows + t.1 && warnings@ == t.2,
        decreases ps.len() - i,
    {
        proof {
            assert(ps.take((i + 1) as int).drop_last() =~= ps.take(i as int));
            assert(ps.take((i + 1) as int).last() == ps[i as int]);
            lemma_param_count_prefix(ps, i as int);
            lemma_param_count_prefix(ps, i as int + 1);
        }
        let this_part_id = id_counter.part_id;
        db_add_part(store, this_part_id, parts[i].name.clone(), id_counter.model_id);
        proof {
            assert(ps[i as int].parameters@.len() >= 0);
        }
        match parse_parameters(store, &parts[i].parameters, id_counter) {
            Ok(w) => {
                append_warnings(&mut warnings, w);
                id_counter.part_id = this_part_id + 1;
                proof {
                    broadcast use vstd::seq::Seq::lemma_push_map_commute;

                    let t = spec_parts_ok(ps.take(i as int), model_id, part0, pid0)->Ok_0;
                    let nt = spec_parts_ok(ps.take((i + 1) as int), model_id, part0, pid0)->Ok_0;
                    assert(store.parts@ =~= old_parts + nt.0);
                    assert(store.parameters@.map_values(|p: ParameterRecord| p@) =~= old_rows
                        + nt.1);
                    assert(warnings@ =~= nt.2);
                }
            },
            Err(e) => {
                proof {
                    lemma_parts_err(ps, model_id, part0, pid0, i as int + 1);
                }
                return Err(e);
            },
        }
        i = i + 1;
    }
    proof {
        assert(ps.take(ps.len() as int) =~= ps);
    }
    Ok(warnings)
}

} // verus!
