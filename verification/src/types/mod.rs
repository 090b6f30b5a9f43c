//! Definitions of the NBT tag types and related data structures.
//!
//! Provided types ensure the data can be serialized to a valid NBT by validating the data at creation time.
mod array;
mod clone;
mod compound;
mod float;
pub mod float_value;
mod list;
mod model;
pub(crate) mod string;
mod tag;

pub use array::NbtArray;
pub use compound::{entries_map, lemma_compound_view, lemma_map_roundtrip, without_end, NbtCompound};
pub use float::{F32Bits, F64Bits};
pub use list::NbtList;
pub(crate) use model::{lemma_compounds_model_len, lemma_lists_model_len};
pub use model::{
    compounds_model, entries_model, lemma_list_view, lemma_tag_view, list_model, lists_model,
    tag_model, Entries, TagModel,
};
pub use string::NbtString;
pub use tag::{NbtTag, NbtTagId};
