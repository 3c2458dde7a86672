//! Schema-driven secondary indexes over an embedded transactional key-value
//! store.
//!
//! Records of a named type ("noun") carry an identifier and named string
//! fields.  A schema catalog maps each noun to an ordered list of index
//! definitions; each index derives a composite byte key from the record's
//! fields and stores `key -> id` in a sub-database of its own, named
//! `<noun>.<index>`.  Within one sub-database a key maps to at most one id
//! and is never overwritten by the engine: the first writer wins.
//!
//! The record's primary content lives elsewhere (one flat file per id);
//! this crate only maintains the index entries and the identifier scheme
//! that ties the two together.

pub mod text;

pub mod record;

pub mod schema;

pub mod ident;

pub mod store;

pub mod db;

