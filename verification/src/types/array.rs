use vstd::prelude::*;
use vstd::std_specs::convert::{FromSpecImpl, TryFromSpecImpl};

use crate::error::{ParseError, ValidationError};
use crate::foreign::i8_as_bytes;
use crate::format::{
    encode_bytes, encode_ints, encode_len, encode_longs, spec_byte_array, spec_int_array,
    spec_long_array, Read,
};
use crate::parser::{parse_byte_array, parse_int_array, parse_long_array};
use crate::serializer::{extend_bytes, serialize_each};
use crate::traits::{concat_payloads, NbtParse, NbtSerialize};

verus! {

/// A wrapper around a `Vec<T>`, limiting its length to the maximum allowed in nbt.
#[derive(Debug, PartialEq, Eq, Hash, PartialOrd, Ord)]
pub struct NbtArray<T> {
    pub(crate) items: Vec<T>,
}

impl<T> View for NbtArray<T> {
    type V = Seq<T>;

    open(crate) spec fn view(&self) -> Seq<T> {
        self.items@
    }
}

impl<T> NbtArray<T> {
    /// The longest array that NBT can hold: its length is written as an `i32`.
    pub open spec fn fits(len: nat) -> bool {
        len <= i32::MAX
    }

    /// Every `NbtArray` fits.
    #[verifier::type_invariant]
    pub(crate) open spec fn holds_fitting_count(self) -> bool {
        NbtArray::<T>::fits(self.items@.len())
    }
}

impl<T> TryFrom<Vec<T>> for NbtArray<T> {
    type Error = (ValidationError, Vec<T>);

    /// Attempts to create an `NbtArray`.
    ///
    /// # Errors
    /// Will fail if the source vec has more than `i32::MAX` items.
    fn try_from(vec: Vec<T>) -> (r: Result<Self, Self::Error>) {
        if vec.len() > i32::MAX as usize {
            Err((ValidationError::ArrayTooLong(vec.len()), vec))
        } else {
            Ok(Self { items: vec })
        }
    }
}

impl<T> TryFromSpecImpl<Vec<T>> for NbtArray<T> {
    open spec fn obeys_try_from_spec() -> bool {
        true
    }

    open(crate) spec fn try_from_spec(vec: Vec<T>) -> Result<Self, (ValidationError, Vec<T>)> {
        if vec@.len() > i32::MAX {
            Err((ValidationError::ArrayTooLong(vec@.len() as usize), vec))
        } else {
            Ok(NbtArray { items: vec })
        }
    }
}

impl<T> From<NbtArray<T>> for Vec<T> {
    fn from(array: NbtArray<T>) -> (r: Vec<T>)
        ensures
            r@ == array@,
    {
        array.items
    }
}

impl<T> FromSpecImpl<NbtArray<T>> for Vec<T> {
    open spec fn obeys_from_spec() -> bool {
        true
    }

    open(crate) spec fn from_spec(array: NbtArray<T>) -> Vec<T> {
        array.items
    }
}

impl<T> core::ops::Deref for NbtArray<T> {
    type Target = [T];

    fn deref(&self) -> (r: &[T])
        ensures
            r@ == self@,
            NbtArray::<T>::fits(r@.len()),
    {
        proof {
            use_type_invariant(self);
        }
        self.items.as_slice()
    }
}

impl NbtParse for NbtArray<i8> {
    open spec fn spec_parse_nbt_payload(data: Seq<u8>) -> Read<Seq<i8>> {
        spec_byte_array(data)
    }

    fn try_parse_nbt_payload(data: &[u8]) -> (r: Result<(Self, &[u8]), ParseError>) {
        parse_byte_array(data)
    }
}

impl NbtParse for NbtArray<i32> {
    open spec fn spec_parse_nbt_payload(data: Seq<u8>) -> Read<Seq<i32>> {
        spec_int_array(data)
    }

    fn try_parse_nbt_payload(data: &[u8]) -> (r: Result<(Self, &[u8]), ParseError>) {
        parse_int_array(data)
    }
}

impl NbtParse for NbtArray<i64> {
    open spec fn spec_parse_nbt_payload(data: Seq<u8>) -> Read<Seq<i64>> {
        spec_long_array(data)
    }

    fn try_parse_nbt_payload(data: &[u8]) -> (r: Result<(Self, &[u8]), ParseError>) {
        parse_long_array(data)
    }
}

impl NbtSerialize for NbtArray<i8> {
    open spec fn payload_fits(&self) -> bool {
        NbtArray::<i8>::fits(self@.len())
    }

    open spec fn spec_serialize_nbt_payload(&self) -> Seq<u8> {
        encode_len(self@.len()) + encode_bytes(self@)
    }

    fn serialize_nbt_payload(&self, buf: &mut Vec<u8>) {
        proof {
            use_type_invariant(self);
        }
        (self.items.len() as i32).serialize_nbt_payload(buf);
        extend_bytes(buf, i8_as_bytes(self.items.as_slice()));
    }
}

/// The payloads of ints, one after the other, are their big-endian bytes.
proof fn lemma_ints(s: Seq<i32>)
    ensures
        concat_payloads(s) == encode_ints(s),
    decreases s.len(),
{
    if s.len() > 0 {
        lemma_ints(s.drop_last());
    }
}

/// The payloads of longs, one after the other, are their big-endian bytes.
proof fn lemma_longs(s: Seq<i64>)
    ensures
        concat_payloads(s) == encode_longs(s),
    decreases s.len(),
{
    if s.len() > 0 {
        lemma_longs(s.drop_last());
    }
}

impl NbtSerialize for NbtArray<i32> {
    open spec fn payload_fits(&self) -> bool {
        NbtArray::<i32>::fits(self@.len())
    }

    open spec fn spec_serialize_nbt_payload(&self) -> Seq<u8> {
        encode_len(self@.len()) + encode_ints(self@)
    }

    fn serialize_nbt_payload(&self, buf: &mut Vec<u8>) {
        proof {
            use_type_invariant(self);
        }
        (self.items.len() as i32).serialize_nbt_payload(buf);
        serialize_each(&self.items, buf);
        proof {
            lemma_ints(self@);
        }
    }
}

impl NbtSerialize for NbtArray<i64> {
    open spec fn payload_fits(&self) -> bool {
        NbtArray::<i64>::fits(self@.len())
    }

    open spec fn spec_serialize_nbt_payload(&self) -> Seq<u8> {
        encode_len(self@.len()) + encode_longs(self@)
    }

    fn serialize_nbt_payload(&self, buf: &mut Vec<u8>) {
        proof {
            use_type_invariant(self);
        }
        (self.items.len() as i32).serialize_nbt_payload(buf);
        serialize_each(&self.items, buf);
        proof {
            lemma_longs(self@);
        }
    }
}

/// Unsigned ints, each big-endian.
impl NbtSerialize for NbtArray<u32> {
    open spec fn payload_fits(&self) -> bool {
        NbtArray::<u32>::fits(self@.len())
    }

    open spec fn spec_serialize_nbt_payload(&self) -> Seq<u8> {
        encode_len(self@.len()) + concat_payloads(self@)
    }

    fn serialize_nbt_payload(&self, buf: &mut Vec<u8>) {
        proof {
            use_type_invariant(self);
        }
        (self.items.len() as i32).serialize_nbt_payload(buf);
        serialize_each(&self.items, buf);
    }
}

/// Unsigned longs, each big-endian.
impl NbtSerialize for NbtArray<u64> {
    open spec fn payload_fits(&self) -> bool {
        NbtArray::<u64>::fits(self@.len())
    }

    open spec fn spec_serialize_nbt_payload(&self) -> Seq<u8> {
        encode_len(self@.len()) + concat_payloads(self@)
    }

    fn serialize_nbt_payload(&self, buf: &mut Vec<u8>) {
        proof {
            use_type_invariant(self);
        }
        (self.items.len() as i32).serialize_nbt_payload(buf);
        serialize_each(&self.items, buf);
    }
}

} // verus!
