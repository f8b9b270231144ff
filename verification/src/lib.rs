//! Artifact cache and build pipeline for a parameterized 3D-model service.
//!
//! The library indexes a tree of parametric models into a relational
//! metadata store, validates each model's typed parameter schema, derives
//! canonical artifact keys for parameter assignments, and maintains a
//! capacity-bounded cache of built artifacts with a usage/age eviction
//! policy and a restore protocol for re-indexing.
//!
//! Everything here is pure logic over plain values; the surrounding
//! binary performs the filesystem, process and persistence work and
//! feeds the outcomes back in.

use vstd::prelude::*;

pub mod api;
pub mod cache;
pub mod decimal;
pub mod indexer;
pub mod manager;
pub mod manifest;
pub mod restore;
pub mod schema;
pub mod store;
pub mod text;

pub use decimal::Decimal;

verus! {

/// Service configuration: where the model sources live, where built
/// artifacts go, where the metadata store is kept, and how many
/// artifacts may exist at once.
pub struct ParakeetConfig {
    pub models_path: String,
    pub build_path: String,
    pub database_path: String,
    pub model_limit: i64,
}

impl Default for ParakeetConfig {
    fn default() -> (c: Self)
        ensures
            c.models_path@ == Seq::<char>::empty(),
            c.build_path@ == Seq::<char>::empty(),
            c.database_path@ == Seq::<char>::empty(),
            c.model_limit == 100,
    {
        ParakeetConfig {
            models_path: String::new(),
            build_path: String::new(),
            database_path: String::new(),
            model_limit: 100,
        }
    }
}

} // verus!
