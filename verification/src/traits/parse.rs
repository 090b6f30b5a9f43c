use vstd::prelude::*;

use crate::error::ParseError;
use crate::format::{after, spec_u16, spec_u32, spec_u64, spec_u8, Read};
use crate::types::{F32Bits, F64Bits};
use crate::parser::{
    parse_byte, parse_double, parse_float, parse_int, parse_long, parse_short, parsed, split_1,
};

verus! {

/// Nbt Parse Trait
///
/// A basic trait to parse nbt payloads.
/// Implemented for all the types nbt uses.
pub trait NbtParse: Sized + View {
    /// What reading a payload of this type from the front of `data` gives.
    spec fn spec_parse_nbt_payload(data: Seq<u8>) -> Read<Self::V>;

    /// Tries to parse the slice, returns the value and the slice without the consumed bytes.
    fn try_parse_nbt_payload(data: &[u8]) -> (r: Result<(Self, &[u8]), ParseError>)
        ensures
            parsed(data@, r, Self::spec_parse_nbt_payload(data@)),
    ;
}

impl NbtParse for i8 {
    open spec fn spec_parse_nbt_payload(data: Seq<u8>) -> Read<i8> {
        after(0, spec_u8(data), |v: u8| v as i8)
    }

    fn try_parse_nbt_payload(data: &[u8]) -> (r: Result<(Self, &[u8]), ParseError>) {
        parse_byte(data)
    }
}

impl NbtParse for u8 {
    open spec fn spec_parse_nbt_payload(data: Seq<u8>) -> Read<u8> {
        spec_u8(data)
    }

    fn try_parse_nbt_payload(data: &[u8]) -> (r: Result<(Self, &[u8]), ParseError>) {
        split_1(data)
    }
}

impl NbtParse for i16 {
    open spec fn spec_parse_nbt_payload(data: Seq<u8>) -> Read<i16> {
        after(0, spec_u16(data), |v: u16| v as i16)
    }

    fn try_parse_nbt_payload(data: &[u8]) -> (r: Result<(Self, &[u8]), ParseError>) {
        parse_short(data)
    }
}

impl NbtParse for i32 {
    open spec fn spec_parse_nbt_payload(data: Seq<u8>) -> Read<i32> {
        after(0, spec_u32(data), |v: u32| v as i32)
    }

    fn try_parse_nbt_payload(data: &[u8]) -> (r: Result<(Self, &[u8]), ParseError>) {
        parse_int(data)
    }
}

impl NbtParse for i64 {
    open spec fn spec_parse_nbt_payload(data: Seq<u8>) -> Read<i64> {
        after(0, spec_u64(data), |v: u64| v as i64)
    }

    fn try_parse_nbt_payload(data: &[u8]) -> (r: Result<(Self, &[u8]), ParseError>) {
        parse_long(data)
    }
}

/// A 4-byte float.
impl NbtParse for F32Bits {
    open spec fn spec_parse_nbt_payload(data: Seq<u8>) -> Read<u32> {
        spec_u32(data)
    }

    fn try_parse_nbt_payload(data: &[u8]) -> (r: Result<(Self, &[u8]), ParseError>) {
        parse_float(data)
    }
}

/// An 8-byte float.
impl NbtParse for F64Bits {
    open spec fn spec_parse_nbt_payload(data: Seq<u8>) -> Read<u64> {
        spec_u64(data)
    }

    fn try_parse_nbt_payload(data: &[u8]) -> (r: Result<(Self, &[u8]), ParseError>) {
        parse_double(data)
    }
}

} // verus!
