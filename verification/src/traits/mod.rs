//! The traits that the NBT payload types share.
mod parse;
mod serialize;

pub use parse::NbtParse;
pub use serialize::{concat_payloads, NbtSerialize};
pub(crate) use serialize::lemma_u16_as_i16;
