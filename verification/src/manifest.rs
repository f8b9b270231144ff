//! The shape of a parsed model manifest.
//!
//! A manifest holds the model's descriptive fields and its parts, each
//! part a list of free-form parameter entries. An entry carries a name,
//! a default, and the four recognized restriction keys; a key that is
//! absent, or holds a value of a shape the schema never uses, is
//! `Null`.

use vstd::prelude::*;

use crate::decimal::Decimal;

verus! {

/// A scalar element of an `allowed` array. `Null` stands for any
/// element that is not a boolean, a number or a string.
#[derive(Clone)]
pub enum ScalarValue {
    Null,
    Bool(bool),
    Int(i64),
    Dec(Decimal),
    Str(String),
}

/// A value of a manifest parameter mapping. `Null` stands both for an
/// absent key and for a value of a shape the schema never uses.
pub enum ManifestValue {
    Null,
    Bool(bool),
    Int(i64),
    Dec(Decimal),
    Str(String),
    Arr(Vec<ScalarValue>),
}

/// One parameter entry of a manifest.
pub struct ParamEntry {
    pub name: String,
    pub default: ManifestValue,
    pub lower: ManifestValue,
    pub upper: ManifestValue,
    pub length: ManifestValue,
    pub allowed: ManifestValue,
}

/// One named part of a manifest, with its parameter entries.
pub struct PartEntry {
    pub name: String,
    pub parameters: Vec<ParamEntry>,
}

/// A parsed model manifest.
pub struct ModelManifest {
    pub name: String,
    pub date: String,
    pub description: String,
    pub author: String,
    pub parts: Vec<PartEntry>,
}

} // verus!
