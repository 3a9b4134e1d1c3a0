//! A verified photo-catalog engine: cursor pagination over a catalog of
//! photo records, tag and publication filtering, tag facet counting, and
//! field-level diffing updates applied atomically to the stored records.
//!
//! The catalog itself is an in-memory store with the same semantics as the
//! two-table layout it models (a photo table keyed by an auto-assigned id
//! with a unique file stem, and a child table of rendered variants owned by
//! each photo). The surrounding web, storage and transcoding layers are
//! external collaborators; they talk to this crate through plain values.

pub mod api;
pub mod catalog;
pub mod config;
pub mod gallery;
pub mod laws;
pub mod page;
pub mod photos;
pub mod query;
pub mod strutil;
pub mod update;
pub mod variants;
