//! Reading and writing Minecraft's NBT binary format.
//!
//! The format is described at <https://minecraft.wiki/w/NBT_format#Binary_format>.
//! `format` states it as a pair of mathematical functions, one from values to bytes
//! and one from bytes to values; `parser` and `serializer` compute them, and `laws`
//! proves that reading back what was written gives the value that was written.
use vstd::prelude::*;

pub mod error;
pub mod foreign;
pub mod format;
pub mod laws;
pub mod parser;
pub mod prefix;
pub mod rewrite;
pub mod serializer;
pub mod traits;
pub mod types;

pub use parser::parse_nbt;
pub use serializer::serialize_nbt;

verus! {

} // verus!
