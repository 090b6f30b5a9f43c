use vstd::prelude::*;

use crate::format::{be16, be32, be64};
use crate::serializer::{push_be16, push_be32, push_be64};
use crate::types::{F32Bits, F64Bits};

verus! {

/// Nbt Serialize Trait
///
/// A basic trait to serialize nbt payload.
/// Implemented for all the types nbt uses.
pub trait NbtSerialize {
    /// The bytes that serializing the value appends.
    spec fn spec_serialize_nbt_payload(&self) -> Seq<u8>;

    /// What the value promises of itself once written: that every length in it
    /// fits its field, and so on, as far as the type's invariant holds it.
    spec fn payload_fits(&self) -> bool;

    /// Serializes the value, extending the `buf`.
    fn serialize_nbt_payload(&self, buf: &mut Vec<u8>)
        ensures
            final(buf)@ == old(buf)@ + self.spec_serialize_nbt_payload(),
            self.payload_fits(),
    ;
}

/// The payloads of a sequence of values, one after the other.
pub open spec fn concat_payloads<T: NbtSerialize>(s: Seq<T>) -> Seq<u8>
    decreases s.len(),
{
    if s.len() == 0 {
        Seq::empty()
    } else {
        concat_payloads(s.drop_last()) + s.last().spec_serialize_nbt_payload()
    }
}

pub(crate) proof fn lemma_u16_as_i16(v: u16)
    ensures
        (v as i16) as u16 == v,
{
    assert((v as i16) as u16 == v) by (bit_vector);
}

proof fn lemma_unsigned_as_signed(a: u32, b: u64)
    ensures
        (a as i32) as u32 == a,
        (b as i64) as u64 == b,
{
    assert((a as i32) as u32 == a) by (bit_vector);
    assert((b as i64) as u64 == b) by (bit_vector);
}

impl NbtSerialize for i8 {
    open spec fn payload_fits(&self) -> bool {
        true
    }

    open spec fn spec_serialize_nbt_payload(&self) -> Seq<u8> {
        seq![*self as u8]
    }

    fn serialize_nbt_payload(&self, buf: &mut Vec<u8>) {
        (*self as u8).serialize_nbt_payload(buf);
    }
}

impl NbtSerialize for u8 {
    open spec fn payload_fits(&self) -> bool {
        true
    }

    open spec fn spec_serialize_nbt_payload(&self) -> Seq<u8> {
        seq![*self]
    }

    fn serialize_nbt_payload(&self, buf: &mut Vec<u8>) {
        buf.push(*self);
    }
}

impl NbtSerialize for i16 {
    open spec fn payload_fits(&self) -> bool {
        true
    }

    open spec fn spec_serialize_nbt_payload(&self) -> Seq<u8> {
        be16(*self as u16)
    }

    fn serialize_nbt_payload(&self, buf: &mut Vec<u8>) {
        push_be16(buf, *self as u16);
    }
}

impl NbtSerialize for u16 {
    open spec fn payload_fits(&self) -> bool {
        true
    }

    open spec fn spec_serialize_nbt_payload(&self) -> Seq<u8> {
        be16(*self)
    }

    fn serialize_nbt_payload(&self, buf: &mut Vec<u8>) {
        proof {
            lemma_u16_as_i16(*self);
        }
        (*self as i16).serialize_nbt_payload(buf)
    }
}

impl NbtSerialize for i32 {
    open spec fn payload_fits(&self) -> bool {
        true
    }

    open spec fn spec_serialize_nbt_payload(&self) -> Seq<u8> {
        be32(*self as u32)
    }

    fn serialize_nbt_payload(&self, buf: &mut Vec<u8>) {
        push_be32(buf, *self as u32);
    }
}

/// The bits of a 4-byte float, written as the float is.
impl NbtSerialize for u32 {
    open spec fn payload_fits(&self) -> bool {
        true
    }

    open spec fn spec_serialize_nbt_payload(&self) -> Seq<u8> {
        be32(*self)
    }

    fn serialize_nbt_payload(&self, buf: &mut Vec<u8>) {
        proof {
            lemma_unsigned_as_signed(*self, 0);
        }
        (*self as i32).serialize_nbt_payload(buf)
    }
}

impl NbtSerialize for i64 {
    open spec fn payload_fits(&self) -> bool {
        true
    }

    open spec fn spec_serialize_nbt_payload(&self) -> Seq<u8> {
        be64(*self as u64)
    }

    fn serialize_nbt_payload(&self, buf: &mut Vec<u8>) {
        push_be64(buf, *self as u64);
    }
}

/// The bits of an 8-byte float, written as the float is.
impl NbtSerialize for u64 {
    open spec fn payload_fits(&self) -> bool {
        true
    }

    open spec fn spec_serialize_nbt_payload(&self) -> Seq<u8> {
        be64(*self)
    }

    fn serialize_nbt_payload(&self, buf: &mut Vec<u8>) {
        proof {
            lemma_unsigned_as_signed(0, *self);
        }
        (*self as i64).serialize_nbt_payload(buf)
    }
}

/// A 4-byte float, by its bits.
impl NbtSerialize for F32Bits {
    open spec fn payload_fits(&self) -> bool {
        true
    }

    open spec fn spec_serialize_nbt_payload(&self) -> Seq<u8> {
        be32(self.bits)
    }

    fn serialize_nbt_payload(&self, buf: &mut Vec<u8>) {
        self.bits.serialize_nbt_payload(buf)
    }
}

/// An 8-byte float, by its bits.
impl NbtSerialize for F64Bits {
    open spec fn payload_fits(&self) -> bool {
        true
    }

    open spec fn spec_serialize_nbt_payload(&self) -> Seq<u8> {
        be64(self.bits)
    }

    fn serialize_nbt_payload(&self, buf: &mut Vec<u8>) {
        self.bits.serialize_nbt_payload(buf)
    }
}

} // verus!
