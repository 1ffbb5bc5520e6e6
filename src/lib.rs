//! Semantic pass of a schema-driven code generator: resolves raw reflection records of an
//! IDL schema into a typed, queryable registry of objects.
pub mod attrs;
pub mod docs;
pub mod error;
pub mod objects;
pub mod raw;
pub mod registry;
pub mod sort;
pub mod text;
pub mod types;
