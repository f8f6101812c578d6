//! Compact storage of OpenStreetMap data: tags folded into literals and
//! values kept in deduplicating pools, elements written in a compact binary
//! form, values stored in pages or files of their own, and a tree of
//! bounding boxes over the map. The functions are verified against their
//! contracts; the few that call `sha2`, `zstd` or
//! `String::push` are trusted to meet theirs.
//! Reading and writing files and databases is left to the caller.

pub mod serialize_min;
pub mod primitive_serialization;
pub mod serialize_fast;
pub mod lazy_slot;
pub mod cache;
pub mod storage;
pub mod paged_storage;
pub mod compression;
pub mod pooled_storage;
pub mod varint;
pub mod bit_sections;
mod text;
pub mod packed_string_serialization;
pub mod tree;
pub mod compressor;
pub mod writer;
pub mod postgres_objects;
