//! The read surface of the metadata store, shaped for the request
//! handlers: model listings, one model with its parts and parameters,
//! and the typed parameter listing of one part.

use vstd::prelude::*;

use crate::decimal::Decimal;
use crate::schema::{ParamSchema, SchemaView};
use crate::store::{ModelRecord, ParameterRecord, Store};

verus! {

/// One model as the listing shows it.
pub struct DisplayModel {
    pub model_id: i64,
    pub name: String,
    pub creation_date: String,
    pub description: String,
    pub author: String,
    pub image_path: String,
}

/// One model with its parts.
pub struct Model {
    pub model_id: i64,
    pub name: String,
    pub scad_path: String,
    pub parts: Vec<Part>,
}

/// One part with its typed parameters.
pub struct Part {
    pub part_id: i64,
    pub name: String,
    pub parameters: Vec<Parameter>,
}

/// One typed parameter as the surface shows it.
pub enum Parameter {
    IntRange(IntRangeParameter),
    FloatRange(FloatRangeParameter),
    StringLength(StringLengthParameter),
    Bool(BoolParameter),
    IntList(IntListParameter),
    FloatList(FloatListParameter),
    StringList(StringListParameter),
}

pub struct IntRangeParameter {
    pub parameter_id: i64,
    pub name: String,
    pub default_value: i64,
    pub lower: i64,
    pub upper: i64,
}

pub struct FloatRangeParameter {
    pub parameter_id: i64,
    pub name: String,
    pub default_value: Decimal,
    pub lower: Decimal,
    pub upper: Decimal,
}

pub struct StringLengthParameter {
    pub parameter_id: i64,
    pub name: String,
    pub default_value: String,
    pub length: i64,
}

pub struct BoolParameter {
    pub parameter_id: i64,
    pub name: String,
    pub default_value: bool,
}

pub struct IntListParameter {
    pub parameter_id: i64,
    pub name: String,
    pub default_value: i64,
    pub items: Vec<i64>,
}

pub struct FloatListParameter {
    pub parameter_id: i64,
    pub name: String,
    pub default_value: Decimal,
    pub items: Vec<Decimal>,
}

pub struct StringListParameter {
    pub parameter_id: i64,
    pub name: String,
    pub default_value: String,
    pub items: Vec<String>,
}

impl View for Parameter {
    type V = (i64, String, SchemaView);

    open spec fn view(&self) -> (i64, String, SchemaView) {
        match self {
            Parameter::IntRange(p) => (
                p.parameter_id,
                p.name,
                SchemaView::IntRange {
                    default_value: p.default_value,
                    lower: p.lower,
                    upper: p.upper,
                },
            ),
            Parameter::FloatRange(p) => (
                p.parameter_id,
                p.name,
                SchemaView::FloatRange {
                    default_value: p.default_value,
                    lower: p.lower,
                    upper: p.upper,
                },
            ),
            Parameter::StringLength(p) => (
                p.parameter_id,
                p.name,
                SchemaView::StringLength { default_value: p.default_value, length: p.length },
            ),
            Parameter::Bool(p) => (
                p.parameter_id,
                p.name,
                SchemaView::Bool { default_value: p.default_value },
            ),
            Parameter::IntList(p) => (
                p.parameter_id,
                p.name,
                SchemaView::IntList { default_value: p.default_value, items: p.items@ },
            ),
            Parameter::FloatList(p) => (
                p.parameter_id,
                p.name,
                SchemaView::FloatList { default_value: p.default_value, items: p.items@ },
            ),
            Parameter::StringList(p) => (
                p.parameter_id,
                p.name,
                SchemaView::StringList { default_value: p.default_value, items: p.items@ },
            ),
        }
    }
}

/// The kind of a typed parameter, for the listing order.
pub enum SchemaKind {
    Bool,
    IntRange,
    FloatRange,
    StringLength,
    IntList,
    FloatList,
    StringList,
}

/// The kind of a validated parameter.
pub open spec fn kind_of(sv: SchemaView) -> SchemaKind {
    match sv {
        SchemaView::Bool { .. } => SchemaKind::Bool,
        SchemaView::IntRange { .. } => SchemaKind::IntRange,
        SchemaView::FloatRange { .. } => SchemaKind::FloatRange,
        SchemaView::StringLength { .. } => SchemaKind::StringLength,
        SchemaView::IntList { .. } => SchemaKind::IntList,
        SchemaView::FloatList { .. } => SchemaKind::FloatList,
        SchemaView::StringList { .. } => SchemaKind::StringList,
    }
}

/// The rows of one part with one kind, in store order, as views.
pub open spec fn spec_params_kind(
    rows: Seq<ParameterRecord>,
    part_id: i64,
    k: SchemaKind,
) -> Seq<(i64, String, SchemaView)>
    decreases rows.len(),
{
    if rows.len() == 0 {
        Seq::empty()
    } else {
        let r = spec_params_kind(rows.drop_last(), part_id, k);
        let row = rows.last();
        if row.part_id == part_id && kind_of(row.schema@) == k {
            r.push((row.parameter_id, row.name, row.schema@))
        } else {
            r
        }
    }
}

/// The full typed listing of one part: ranges first, then length and
/// boolean parameters, then the allow-lists, each group in store
/// order.
pub open spec fn spec_parameters_of(rows: Seq<ParameterRecord>, part_id: i64) -> Seq<
    (i64, String, SchemaView),
> {
    spec_params_kind(rows, part_id, SchemaKind::IntRange) + spec_params_kind(
        rows,
        part_id,
        SchemaKind::FloatRange,
    ) + spec_params_kind(rows, part_id, SchemaKind::StringLength) + spec_params_kind(
        rows,
        part_id,
        SchemaKind::Bool,
    ) + spec_params_kind(rows, part_id, SchemaKind::IntList) + spec_params_kind(
        rows,
        part_id,
        SchemaKind::FloatList,
    ) + spec_params_kind(rows, part_id, SchemaKind::StringList)
}

/// Copy of an integer allow-list.
fn copy_i64s(v: &Vec<i64>) -> (r: Vec<i64>)
    ensures
        r@ == v@,
{
    let mut r: Vec<i64> = Vec::new();
    let mut i: usize = 0;
    while i < v.len()
        invariant
            i <= v@.len(),
            r@ == v@.take(i as int),
        decreases v@.len() - i,
    {
        r.push(v[i]);
        proof {
            assert(r@ =~= v@.take((i + 1) as int));
        }
        i = i + 1;
    }
    proof {
        assert(r@ =~= v@);
    }
    r
}

/// Copy of a fractional allow-list.
fn copy_decs(v: &Vec<Decimal>) -> (r: Vec<Decimal>)
    ensures
        r@ == v@,
{
    let mut r: Vec<Decimal> = Vec::new();
    let mut i: usize = 0;
    while i < v.len()
        invariant
            i <= v@.len(),
            r@ == v@.take(i as int),
        decreases v@.len() - i,
    {
        r.push(v[i]);
        proof {
            assert(r@ =~= v@.take((i + 1) as int));
        }
        i = i + 1;
    }
    proof {
        assert(r@ =~= v@);
    }
    r
}

/// Copy of a string allow-list.
fn copy_strs(v: &Vec<String>) -> (r: Vec<String>)
    ensures
        r@ == v@,
{
    let mut r: Vec<String> = Vec::new();
    let mut i: usize = 0;
    while i < v.len()
        invariant
            i <= v@.len(),
            r@ == v@.take(i as int),
        decreases v@.len() - i,
    {
        r.push(v[i].clone());
        proof {
            assert(r@ =~= v@.take((i + 1) as int));
        }
        i = i + 1;
    }
    proof {
        assert(r@ =~= v@);
    }
    r
}

/// The typed parameter of one row, in surface form.
fn row_to_parameter(row: &ParameterRecord) -> (p: Parameter)
    ensures
        p@ == (row.parameter_id, row.name, row.schema@),
{
    match &row.schema {
        ParamSchema::Bool { default_value } => Parameter::Bool(
            BoolParameter {
                parameter_id: row.parameter_id,
                name: row.name.clone(),
                default_value: *default_value,
            },
        ),
        ParamSchema::IntRange { default_value, lower, upper } => Parameter::IntRange(
            IntRangeParameter {
                parameter_id: row.parameter_id,
                name: row.name.clone(),
                default_value: *default_value,
                lower: *lower,
                upper: *upper,
            },
        ),
        ParamSchema::FloatRange { default_value, lower, upper } => Parameter::FloatRange(
            FloatRangeParameter {
                parameter_id: row.parameter_id,
                name: row.name.clone(),
                default_value: *default_value,
                lower: *lower,
                upper: *upper,
            },
        ),
        ParamSchema::StringLength { default_value, length } => Parameter::StringLength(
            StringLengthParameter {
                parameter_id: row.parameter_id,
                name: row.name.clone(),
                default_value: default_value.clone(),
                length: *length,
            },
        ),
        ParamSchema::IntList { default_value, items } => Parameter::IntList(
            IntListParameter {
                parameter_id: row.parameter_id,
                name: row.name.clone(),
                default_value: *default_value,
                items: copy_i64s(items),
            },
        ),
        ParamSchema::FloatList { default_value, items } => Parameter::FloatList(
            FloatListParameter {
                parameter_id: row.parameter_id,
                name: row.name.clone(),
                default_value: *default_value,
                items: copy_decs(items),
            },
        ),
        ParamSchema::StringList { default_value, items } => Parameter::StringList(
            StringListParameter {
                parameter_id: row.parameter_id,
                name: row.name.clone(),
                default_value: default_value.clone(),
                items: copy_strs(items),
            },
        ),
    }
}

/// Whether the row belongs to the part and has the kind.
fn row_has_kind(row: &ParameterRecord, part_id: i64, k: &SchemaKind) -> (b: bool)
    ensures
        b == (row.part_id == part_id && kind_of(row.schema@) == *k),
{
    if row.part_id != part_id {
        return false;
    }
    match (&row.schema, k) {
        (ParamSchema::Bool { .. }, SchemaKind::Bool) => true,
        (ParamSchema::IntRange { .. }, SchemaKind::IntRange) => true,
        (ParamSchema::FloatRange { .. }, SchemaKind::FloatRange) => true,
        (ParamSchema::StringLength { .. }, SchemaKind::StringLength) => true,
        (ParamSchema::IntList { .. }, SchemaKind::IntList) => true,
        (ParamSchema::FloatList { .. }, SchemaKind::FloatList) => true,
        (ParamSchema::StringList { .. }, SchemaKind::StringList) => true,
        _ => false,
    }
}

/// Append one part's rows of one kind, in store order.
fn push_params_kind(store: &Store, part_id: i64, k: SchemaKind, out: &mut Vec<Parameter>)
    ensures
        final(out)@.map_values(|p: Parameter| p@) == old(out)@.map_values(|p: Parameter| p@)
            + spec_params_kind(store.parameters@, part_id, k),
{
    let ghost rows = store.parameters@;
    let ghost base = old(out)@.map_values(|p: Parameter| p@);
    let mut i: usize = 0;
    while i < store.parameters.len()
        invariant
            i <= rows.len(),
            store.parameters@ == rows,
            out@.map_values(|p: Parameter| p@) == base + spec_params_kind(
                rows.take(i as int),
                part_id,
                k,
            ),
        decreases rows.len() - i,
    {
        proof {
            assert(rows.take((i + 1) as int).drop_last() =~= rows.take(i as int));
            assert(rows.take((i + 1) as int).last() == rows[i as int]);
        }
        if row_has_kind(&store.parameters[i], part_id, &k) {
            let p = row_to_parameter(&store.parameters[i]);
            out.push(p);
            proof {
                broadcast use vstd::seq::Seq::lemma_push_map_commute;

                assert(out@.map_values(|p2: Parameter| p2@) =~= base + spec_params_kind(
                    rows.take((i + 1) as int),
                    part_id,
                    k,
                ));
            }
        }
        i = i + 1;
    }
    proof {
        assert(rows.take(rows.len() as int) =~= rows);
    }
}

/// The rows of one part with one kind, as a fresh listing.
fn params_of_kind(store: &Store, part_id: i64, k: SchemaKind) -> (r: Vec<Parameter>)
    ensures
        r@.map_values(|p: Parameter| p@) == spec_params_kind(store.parameters@, part_id, k),
{
    let mut out: Vec<Parameter> = Vec::new();
    proof {
        assert(out@.map_values(|p: Parameter| p@) =~= Seq::<(i64, String, SchemaView)>::empty());
    }
    push_params_kind(store, part_id, k, &mut out);
    proof {
        assert(out@.map_values(|p: Parameter| p@) =~= spec_params_kind(
            store.parameters@,
            part_id,
            k,
        ));
    }
    out
}

/// The integer range parameters of one part.
pub fn get_int_range_parameters(store: &Store, part_id: i64) -> (r: Vec<Parameter>)
    ensures
        r@.map_values(|p: Parameter| p@) == spec_params_kind(
            store.parameters@,
            part_id,
            SchemaKind::IntRange,
        ),
{
    params_of_kind(store, part_id, SchemaKind::IntRange)
}

/// The fractional range parameters of one part.
pub fn get_float_range_parameters(store: &Store, part_id: i64) -> (r: Vec<Parameter>)
    ensures
        r@.map_values(|p: Parameter| p@) == spec_params_kind(
            store.parameters@,
            part_id,
            SchemaKind::FloatRange,
        ),
{
    params_of_kind(store, part_id, SchemaKind::FloatRange)
}

/// The length-restricted string parameters of one part.
pub fn get_string_length_parameters(store: &Store, part_id: i64) -> (r: Vec<Parameter>)
    ensures
        r@.map_values(|p: Parameter| p@) == spec_params_kind(
            store.parameters@,
            part_id,
            SchemaKind::StringLength,
        ),
{
    params_of_kind(store, part_id, SchemaKind::StringLength)
}

/// The boolean parameters of one part.
pub fn get_bool_parameters(store: &Store, part_id: i64) -> (r: Vec<Parameter>)
    ensures
        r@.map_values(|p: Parameter| p@) == spec_params_kind(
            store.parameters@,
            part_id,
            SchemaKind::Bool,
        ),
{
    params_of_kind(store, part_id, SchemaKind::Bool)
}

/// The integer allow-list parameters of one part.
pub fn get_int_list_parameters(store: &Store, part_id: i64) -> (r: Vec<Parameter>)
    ensures
        r@.map_values(|p: Parameter| p@) == spec_params_kind(
            store.parameters@,
            part_id,
            SchemaKind::IntList,
        ),
{
    params_of_kind(store, part_id, SchemaKind::IntList)
}

/// The fractional allow-list parameters of one part.
pub fn get_float_list_parameters(store: &Store, part_id: i64) -> (r: Vec<Parameter>)
    ensures
        r@.map_values(|p: Parameter| p@) == spec_params_kind(
            store.parameters@,
            part_id,
            SchemaKind::FloatList,
        ),
{
    params_of_kind(store, part_id, SchemaKind::FloatList)
}

/// The string allow-list parameters of one part.
pub fn get_string_list_parameters(store: &Store, part_id: i64) -> (r: Vec<Parameter>)
    ensures
        r@.map_values(|p: Parameter| p@) == spec_params_kind(
            store.parameters@,
            part_id,
            SchemaKind::StringList,
        ),
{
    params_of_kind(store, part_id, SchemaKind::StringList)
}

/// The typed parameters of one part, ranges before lengths and
/// booleans before allow-lists, each group in store order.
pub fn get_parameters(store: &Store, part_id: i64) -> (r: Vec<Parameter>)
    ensures
        r@.map_values(|p: Parameter| p@) == spec_parameters_of(store.parameters@, part_id),
{
    let mut out: Vec<Parameter> = Vec::new();
    proof {
        assert(out@.map_values(|p: Parameter| p@) =~= Seq::<(i64, String, SchemaView)>::empty());
    }
    push_params_kind(store, part_id, SchemaKind::IntRange, &mut out);
    push_params_kind(store, part_id, SchemaKind::FloatRange, &mut out);
    push_params_kind(store, part_id, SchemaKind::StringLength, &mut out);
    push_params_kind(store, part_id, SchemaKind::Bool, &mut out);
    push_params_kind(store, part_id, SchemaKind::IntList, &mut out);
    push_params_kind(store, part_id, SchemaKind::FloatList, &mut out);
    push_params_kind(store, part_id, SchemaKind::StringList, &mut out);
    proof {
        assert(out@.map_values(|p: Parameter| p@) =~= spec_parameters_of(
            store.parameters@,
            part_id,
        ));
    }
    out
}

/// The integer allow-list values stored under one parameter
/// identifier, in store order.
pub open spec fn spec_int_items_of(rows: Seq<ParameterRecord>, parameter_id: i64) -> Seq<i64>
    decreases rows.len(),
{
    if rows.len() == 0 {
        Seq::empty()
    } else {
        let r = spec_int_items_of(rows.drop_last(), parameter_id);
        let row = rows.last();
        match row.schema {
            ParamSchema::IntList { items, .. } => if row.parameter_id == parameter_id {
                r + items@
            } else {
                r
            },
            _ => r,
        }
    }
}

/// The fractional allow-list values stored under one parameter
/// identifier, in store order.
pub open spec fn spec_float_items_of(rows: Seq<ParameterRecord>, parameter_id: i64) -> Seq<
    Decimal,
>
    decreases rows.len(),
{
    if rows.len() == 0 {
        Seq::empty()
    } else {
        let r = spec_float_items_of(rows.drop_last(), parameter_id);
        let row = rows.last();
        match row.schema {
            ParamSchema::FloatList { items, .. } => if row.parameter_id == parameter_id {
                r + items@
            } else {
                r
            },
            _ => r,
        }
    }
}

/// The string allow-list values stored under one parameter
/// identifier, in store order.
pub open spec fn spec_string_items_of(rows: Seq<ParameterRecord>, parameter_id: i64) -> Seq<
    String,
>
    decreases rows.len(),
{
    if rows.len() == 0 {
        Seq::empty()
    } else {
        let r = spec_string_items_of(rows.drop_last(), parameter_id);
        let row = rows.last();
        match row.schema {
            ParamSchema::StringList { items, .. } => if row.parameter_id == parameter_id {
                r + items@
            } else {
                r
            },
            _ => r,
        }
    }
}

/// The integer allow-list values of one parameter.
pub fn get_int_list_items(store: &Store, parameter_id: i64) -> (r: Vec<i64>)
    ensures
        r@ == spec_int_items_of(store.parameters@, parameter_id),
{
    let ghost rows = store.parameters@;
    let mut out: Vec<i64> = Vec::new();
    let mut i: usize = 0;
    while i < store.parameters.len()
        invariant
            i <= rows.len(),
            store.parameters@ == rows,
            out@ == spec_int_items_of(rows.take(i as int), parameter_id),
        decreases rows.len() - i,
    {
        proof {
            assert(rows.take((i + 1) as int).drop_last() =~= rows.take(i as int));
            assert(rows.take((i + 1) as int).last() == rows[i as int]);
        }
        let row = &store.parameters[i];
        if row.parameter_id == parameter_id {
            match &row.schema {
                ParamSchema::IntList { items, .. } => {
                    let mut j: usize = 0;
                    while j < items.len()
                        invariant
                            j <= items@.len(),
                            items@ == (match rows[i as int].schema {
                                ParamSchema::IntList { items: it, .. } => it@,
                                _ => Seq::<i64>::empty(),
                            }),
                            out@ == spec_int_items_of(rows.take(i as int), parameter_id)
                                + items@.take(j as int),
                        decreases items@.len() - j,
                    {
                        out.push(items[j]);
                        proof {
                            assert(out@ =~= spec_int_items_of(rows.take(i as int), parameter_id)
                                + items@.take((j + 1) as int));
                        }
                        j = j + 1;
                    }
                    proof {
                        assert(items@.take(items@.len() as int) =~= items@);
                        assert(out@ =~= spec_int_items_of(
                            rows.take((i + 1) as int),
                            parameter_id,
                        ));
                    }
                },
                _ => {},
            }
        }
        i = i + 1;
    }
    proof {
        assert(rows.take(rows.len() as int) =~= rows);
    }
    out
}

/// The fractional allow-list values of one parameter.
pub fn get_float_list_items(store: &Store, parameter_id: i64) -> (r: Vec<Decimal>)
    ensures
        r@ == spec_float_items_of(store.parameters@, parameter_id),
{
    let ghost rows = store.parameters@;
    let mut out: Vec<Decimal> = Vec::new();
    let mut i: usize = 0;
    while i < store.parameters.len()
        invariant
            i <= rows.len(),
            store.parameters@ == rows,
            out@ == spec_float_items_of(rows.take(i as int), parameter_id),
        decreases rows.len() - i,
    {
        proof {
            assert(rows.take((i + 1) as int).drop_last() =~= rows.take(i as int));
            assert(rows.take((i + 1) as int).last() == rows[i as int]);
        }
        let row = &store.parameters[i];
        if row.parameter_id == parameter_id {
            match &row.schema {
                ParamSchema::FloatList { items, .. } => {
                    let mut j: usize = 0;
                    while j < items.len()
                        invariant
                            j <= items@.len(),
                            items@ == (match rows[i as int].schema {
                                ParamSchema::FloatList { items: it, .. } => it@,
                                _ => Seq::<Decimal>::empty(),
                            }),
                            out@ == spec_float_items_of(rows.take(i as int), parameter_id)
                                + items@.take(j as int),
                        decreases items@.len() - j,
                    {
                        out.push(items[j]);
                        proof {
                            assert(out@ =~= spec_float_items_of(
                                rows.take(i as int),
                                parameter_id,
                            ) + items@.take((j + 1) as int));
                        }
                        j = j + 1;
                    }
                    proof {
                        assert(items@.take(items@.len() as int) =~= items@);
                        assert(out@ =~= spec_float_items_of(
                            rows.take((i + 1) as int),
                            parameter_id,
                        ));
                    }
                },
                _ => {},
            }
        }
        i = i + 1;
    }
    proof {
        assert(rows.take(rows.len() as int) =~= rows);
    }
    out
}

/// The string allow-list values of one parameter.
pub fn get_string_list_items(store: &Store, parameter_id: i64) -> (r: Vec<String>)
    ensures
        r@ == spec_string_items_of(store.parameters@, parameter_id),
{
    let ghost rows = store.parameters@;
    let mut out: Vec<String> = Vec::new();
    let mut i: usize = 0;
    while i < store.parameters.len()
        invariant
            i <= rows.len(),
            store.parameters@ == rows,
            out@ == spec_string_items_of(rows.take(i as int), parameter_id),
        decreases rows.len() - i,
    {
        proof {
            assert(rows.take((i + 1) as int).drop_last() =~= rows.take(i as int));
            assert(rows.take((i + 1) as int).last() == rows[i as int]);
        }
        let row = &store.parameters[i];
        if row.parameter_id == parameter_id {
            match &row.schema {
                ParamSchema::StringList { items, .. } => {
                    let mut j: usize = 0;
                    while j < items.len()
                        invariant
                            j <= items@.len(),
                            items@ == (match rows[i as int].schema {
                                ParamSchema::StringList { items: it, .. } => it@,
                                _ => Seq::<String>::empty(),
                            }),
                            out@ == spec_string_items_of(rows.take(i as int), parameter_id)
                                + items@.take(j as int),
                        decreases items@.len() - j,
                    {
                        out.push(items[j].clone());
                        proof {
                            assert(out@ =~= spec_string_items_of(
                                rows.take(i as int),
                                parameter_id,
                            ) + items@.take((j + 1) as int));
                        }
                        j = j + 1;
                    }
                    proof {
                        assert(items@.take(items@.len() as int) =~= items@);
                        assert(out@ =~= spec_string_items_of(
                            rows.take((i + 1) as int),
                            parameter_id,
                        ));
                    }
                },
                _ => {},
            }
        }
        i = i + 1;
    }
    proof {
        assert(rows.take(rows.len() as int) =~= rows);
    }
    out
}

/// The listing row of one model.
pub open spec fn spec_display(m: ModelRecord) -> DisplayModel {
    DisplayModel {
        model_id: m.model_id,
        name: m.name,
        creation_date: m.creation_date,
        description: m.description,
        author: m.author,
        image_path: m.image_path,
    }
}

/// Every indexed model, as the listing shows it, in store order.
pub fn get_display_models(store: &Store) -> (r: Vec<DisplayModel>)
    ensures
        r@.len() == store.models@.len(),
        forall|i: int|
            0 <= i < r@.len() ==> (#[trigger] r@[i]) == spec_display(store.models@[i]),
{
    let mut out: Vec<DisplayModel> = Vec::new();
    let mut i: usize = 0;
    while i < store.models.len()
        invariant
            i <= store.models@.len(),
            out@.len() == i,
            forall|j: int|
                0 <= j < i ==> (#[trigger] out@[j]) == spec_display(store.models@[j]),
        decreases store.models@.len() - i,
    {
        let m = &store.models[i];
        out.push(
            DisplayModel {
                model_id: m.model_id,
                name: m.name.clone(),
                creation_date: m.creation_date.clone(),
                description: m.description.clone(),
                author: m.author.clone(),
                image_path: m.image_path.clone(),
            },
        );
        i = i + 1;
    }
    out
}

/// The part rows of one model, in store order.
pub open spec fn spec_parts_of(rows: Seq<crate::store::PartRecord>, model_id: i64) -> Seq<
    crate::store::PartRecord,
>
    decreases rows.len(),
{
    if rows.len() == 0 {
        Seq::empty()
    } else {
        let r = spec_parts_of(rows.drop_last(), model_id);
        if rows.last().model_id == model_id {
            r.push(rows.last())
        } else {
            r
        }
    }
}

/// The parts of one model, each with its typed parameters.
pub fn get_parts(store: &Store, model_id: i64) -> (r: Vec<Part>)
    ensures
        r@.len() == spec_parts_of(store.parts@, model_id).len(),
        forall|i: int|
            0 <= i < r@.len() ==> (#[trigger] r@[i]).part_id == spec_parts_of(
                store.parts@,
                model_id,
            )[i].part_id && r@[i].name == spec_parts_of(store.parts@, model_id)[i].name
                && r@[i].parameters@.map_values(|p: Parameter| p@) == spec_parameters_of(
                store.parameters@,
                spec_parts_of(store.parts@, model_id)[i].part_id,
            ),
{
    let ghost rows = store.parts@;
    let mut out: Vec<Part> = Vec::new();
    let mut i: usize = 0;
    while i < store.parts.len()
        invariant
            i <= rows.len(),
            store.parts@ == rows,
            out@.len() == spec_parts_of(rows.take(i as int), model_id).len(),
            forall|j: int|
                0 <= j < out@.len() ==> (#[trigger] out@[j]).part_id == spec_parts_of(
                    rows.take(i as int),
                    model_id,
                )[j].part_id && out@[j].name == spec_parts_of(rows.take(i as int), model_id)[j].name
                    && out@[j].parameters@.map_values(|p: Parameter| p@) == spec_parameters_of(
                    store.parameters@,
                    spec_parts_of(rows.take(i as int), model_id)[j].part_id,
                ),
        decreases rows.len() - i,
    {
        proof {
            assert(rows.take((i + 1) as int).drop_last() =~= rows.take(i as int));
            assert(rows.take((i + 1) as int).last() == rows[i as int]);
        }
        let row = &store.parts[i];
        if row.model_id == model_id {
            let parameters = get_parameters(store, row.part_id);
            out.push(Part { part_id: row.part_id, name: row.name.clone(), parameters });
        }
        i = i + 1;
    }
    proof {
        assert(rows.take(rows.len() as int) =~= rows);
    }
    out
}

/// The first model row with this identifier, with its parts; `None`
/// when no model has it.
pub fn get_model(store: &Store, model_id: i64) -> (r: Option<Model>)
    ensures
        r is None <==> forall|i: int|
            0 <= i < store.models@.len() ==> (#[trigger] store.models@[i]).model_id != model_id,
        r matches Some(m) ==> m.model_id == model_id && exists|j: int|
            0 <= j < store.models@.len() && (#[trigger] store.models@[j]).model_id == model_id
                && m.name == store.models@[j].name && m.scad_path == store.models@[j].scad_path
                && (forall|k: int|
                0 <= k < j ==> (#[trigger] store.models@[k]).model_id != model_id),
        r matches Some(m) ==> m.parts@.len() == spec_parts_of(store.parts@, model_id).len() && (
        forall|i: int|
            0 <= i < m.parts@.len() ==> (#[trigger] m.parts@[i]).part_id == spec_parts_of(
                store.parts@,
                model_id,
            )[i].part_id && m.parts@[i].name == spec_parts_of(store.parts@, model_id)[i].name
                && m.parts@[i].parameters@.map_values(|p: Parameter| p@) == spec_parameters_of(
                store.parameters@,
                spec_parts_of(store.parts@, model_id)[i].part_id,
            )),
{
    let mut i: usize = 0;
    while i < store.models.len()
        invariant
            i <= store.models@.len(),
            forall|k: int|
                0 <= k < i ==> (#[trigger] store.models@[k]).model_id != model_id,
        decreases store.models@.len() - i,
    {
        let m = &store.models[i];
        if m.model_id == model_id {
            let parts = get_parts(store, model_id);
            return Some(
                Model {
                    model_id,
                    name: m.name.clone(),
                    scad_path: m.scad_path.clone(),
                    parts,
                },
            );
        }
        i = i + 1;
    }
    None
}

} // verus!
