use vstd::prelude::*;

use crate::error::ParseError;
use crate::format::{encode_payload, spec_list, wf_tag, Read};
use crate::parser::parse_list;
use crate::serializer::serialize_list;
use crate::traits::{NbtParse, NbtSerialize};
use crate::types::{F32Bits, F64Bits, NbtArray, NbtCompound, NbtString, TagModel};

verus! {

/// Represents all possible NBT lists.
/// Uses `NbtArray` underneath as it is the same thing really.
/// A float or a double is held as its IEEE 754 bit pattern.
#[derive(Debug, PartialEq, PartialOrd)]
pub enum NbtList {
    /// An empty list with no type.
    End,
    /// A list of signed bytes.
    Byte(NbtArray<i8>),
    /// A list of signed 2-byte integers.
    Short(NbtArray<i16>),
    /// A list of signed 4-byte integers.
    Int(NbtArray<i32>),
    /// A list of signed 8-byte integers.
    Long(NbtArray<i64>),
    /// A list of 4-byte floats, as the bits of `f32`s.
    Float(NbtArray<F32Bits>),
    /// A list of 8-byte floats, as the bits of `f64`s.
    Double(NbtArray<F64Bits>),
    /// A list of nbt Byte Arrays.
    ByteArray(NbtArray<NbtArray<i8>>),
    /// A list of `NbtString`s.
    String(NbtArray<NbtString>),
    /// A list of `NbtList`s.
    List(NbtArray<NbtList>),
    /// A list of `NbtCompound`s.
    Compound(NbtArray<NbtCompound>),
    /// A list of nbt Int Arrays.
    IntArray(NbtArray<NbtArray<i32>>),
    /// A list of nbt Long Arrays.
    LongArray(NbtArray<NbtArray<i64>>),
}

impl NbtParse for NbtList {
    open spec fn spec_parse_nbt_payload(data: Seq<u8>) -> Read<TagModel> {
        spec_list(data)
    }

    fn try_parse_nbt_payload(data: &[u8]) -> (r: Result<(Self, &[u8]), ParseError>) {
        parse_list(data)
    }
}

impl NbtSerialize for NbtList {
    open spec fn payload_fits(&self) -> bool {
        wf_tag(self@)
    }

    open spec fn spec_serialize_nbt_payload(&self) -> Seq<u8> {
        encode_payload(self@)
    }

    fn serialize_nbt_payload(&self, buf: &mut Vec<u8>) {
        serialize_list(self, buf)
    }
}

impl NbtList {
    /// Whether this is a `NbtList::End`.
    pub fn is_end(&self) -> (r: bool)
        ensures
            r == (*self is End),
    {
        match self {
            NbtList::End => true,
            _ => false,
        }
    }

    /// Whether this is a `NbtList::Byte`.
    pub fn is_byte(&self) -> (r: bool)
        ensures
            r == (*self is Byte),
    {
        match self {
            NbtList::Byte(_) => true,
            _ => false,
        }
    }

    /// The value inside, if this is a `NbtList::Byte`.
    pub fn as_byte(&self) -> (r: Option<&NbtArray<i8>>)
        ensures
            (r is Some) == (*self is Byte),
            r matches Some(v) ==> *v == self->Byte_0,
    {
        match self {
            NbtList::Byte(v) => Some(v),
            _ => None,
        }
    }

    /// The value inside, to change in place, if this is a `NbtList::Byte`.
    pub fn as_byte_mut(&mut self) -> (r: Option<&mut NbtArray<i8>>)
        ensures
            (r is Some) == (*old(self) is Byte),
            r matches Some(v) ==> *v == old(self)->Byte_0 && *final(self) == NbtList::Byte(*final(v)),
            r is None ==> *final(self) == *old(self),
    {
        match self {
            NbtList::Byte(v) => Some(v),
            _ => None,
        }
    }

    /// The value inside if this is a `NbtList::Byte`, or else this back.
    pub fn into_byte(self) -> (r: Result<NbtArray<i8>, Self>)
        ensures
            self is Byte ==> r == Ok::<NbtArray<i8>, Self>(self->Byte_0),
            !(self is Byte) ==> r == Err::<NbtArray<i8>, Self>(self),
    {
        match self {
            NbtList::Byte(v) => Ok(v),
            _ => Err(self),
        }
    }

    /// Whether this is a `NbtList::Short`.
    pub fn is_short(&self) -> (r: bool)
        ensures
            r == (*self is Short),
    {
        match self {
            NbtList::Short(_) => true,
            _ => false,
        }
    }

    /// The value inside, if this is a `NbtList::Short`.
    pub fn as_short(&self) -> (r: Option<&NbtArray<i16>>)
        ensures
            (r is Some) == (*self is Short),
            r matches Some(v) ==> *v == self->Short_0,
    {
        match self {
            NbtList::Short(v) => Some(v),
            _ => None,
        }
    }

    /// The value inside, to change in place, if this is a `NbtList::Short`.
    pub fn as_short_mut(&mut self) -> (r: Option<&mut NbtArray<i16>>)
        ensures
            (r is Some) == (*old(self) is Short),
            r matches Some(v) ==> *v == old(self)->Short_0 && *final(self) == NbtList::Short(*final(v)),
            r is None ==> *final(self) == *old(self),
    {
        match self {
            NbtList::Short(v) => Some(v),
            _ => None,
        }
    }

    /// The value inside if this is a `NbtList::Short`, or else this back.
    pub fn into_short(self) -> (r: Result<NbtArray<i16>, Self>)
        ensures
            self is Short ==> r == Ok::<NbtArray<i16>, Self>(self->Short_0),
            !(self is Short) ==> r == Err::<NbtArray<i16>, Self>(self),
    {
        match self {
            NbtList::Short(v) => Ok(v),
            _ => Err(self),
        }
    }

    /// Whether this is a `NbtList::Int`.
    pub fn is_int(&self) -> (r: bool)
        ensures
            r == (*self is Int),
    {
        match self {
            NbtList::Int(_) => true,
            _ => false,
        }
    }

    /// The value inside, if this is a `NbtList::Int`.
    pub fn as_int(&self) -> (r: Option<&NbtArray<i32>>)
        ensures
            (r is Some) == (*self is Int),
            r matches Some(v) ==> *v == self->Int_0,
    {
        match self {
            NbtList::Int(v) => Some(v),
            _ => None,
        }
    }

    /// The value inside, to change in place, if this is a `NbtList::Int`.
    pub fn as_int_mut(&mut self) -> (r: Option<&mut NbtArray<i32>>)
        ensures
            (r is Some) == (*old(self) is Int),
            r matches Some(v) ==> *v == old(self)->Int_0 && *final(self) == NbtList::Int(*final(v)),
            r is None ==> *final(self) == *old(self),
    {
        match self {
            NbtList::Int(v) => Some(v),
            _ => None,
        }
    }

    /// The value inside if this is a `NbtList::Int`, or else this back.
    pub fn into_int(self) -> (r: Result<NbtArray<i32>, Self>)
        ensures
            self is Int ==> r == Ok::<NbtArray<i32>, Self>(self->Int_0),
            !(self is Int) ==> r == Err::<NbtArray<i32>, Self>(self),
    {
        match self {
            NbtList::Int(v) => Ok(v),
            _ => Err(self),
        }
    }

    /// Whether this is a `NbtList::Long`.
    pub fn is_long(&self) -> (r: bool)
        ensures
            r == (*self is Long),
    {
        match self {
            NbtList::Long(_) => true,
            _ => false,
        }
    }

    /// The value inside, if this is a `NbtList::Long`.
    pub fn as_long(&self) -> (r: Option<&NbtArray<i64>>)
        ensures
            (r is Some) == (*self is Long),
            r matches Some(v) ==> *v == self->Long_0,
    {
        match self {
            NbtList::Long(v) => Some(v),
            _ => None,
        }
    }

    /// The value inside, to change in place, if this is a `NbtList::Long`.
    pub fn as_long_mut(&mut self) -> (r: Option<&mut NbtArray<i64>>)
        ensures
            (r is Some) == (*old(self) is Long),
            r matches Some(v) ==> *v == old(self)->Long_0 && *final(self) == NbtList::Long(*final(v)),
            r is None ==> *final(self) == *old(self),
    {
        match self {
            NbtList::Long(v) => Some(v),
            _ => None,
        }
    }

    /// The value inside if this is a `NbtList::Long`, or else this back.
    pub fn into_long(self) -> (r: Result<NbtArray<i64>, Self>)
        ensures
            self is Long ==> r == Ok::<NbtArray<i64>, Self>(self->Long_0),
            !(self is Long) ==> r == Err::<NbtArray<i64>, Self>(self),
    {
        match self {
            NbtList::Long(v) => Ok(v),
            _ => Err(self),
        }
    }

    /// Whether this is a `NbtList::Float`.
    pub fn is_float(&self) -> (r: bool)
        ensures
            r == (*self is Float),
    {
        match self {
            NbtList::Float(_) => true,
            _ => false,
        }
    }

    /// The value inside, if this is a `NbtList::Float`.
    pub fn as_float(&self) -> (r: Option<&NbtArray<F32Bits>>)
        ensures
            (r is Some) == (*self is Float),
            r matches Some(v) ==> *v == self->Float_0,
    {
        match self {
            NbtList::Float(v) => Some(v),
            _ => None,
        }
    }

    /// The value inside, to change in place, if this is a `NbtList::Float`.
    pub fn as_float_mut(&mut self) -> (r: Option<&mut NbtArray<F32Bits>>)
        ensures
            (r is Some) == (*old(self) is Float),
            r matches Some(v) ==> *v == old(self)->Float_0 && *final(self) == NbtList::Float(*final(v)),
            r is None ==> *final(self) == *old(self),
    {
        match self {
            NbtList::Float(v) => Some(v),
            _ => None,
        }
    }

    /// The value inside if this is a `NbtList::Float`, or else this back.
    pub fn into_float(self) -> (r: Result<NbtArray<F32Bits>, Self>)
        ensures
            self is Float ==> r == Ok::<NbtArray<F32Bits>, Self>(self->Float_0),
            !(self is Float) ==> r == Err::<NbtArray<F32Bits>, Self>(self),
    {
        match self {
            NbtList::Float(v) => Ok(v),
            _ => Err(self),
        }
    }

    /// Whether this is a `NbtList::Double`.
    pub fn is_double(&self) -> (r: bool)
        ensures
            r == (*self is Double),
    {
        match self {
            NbtList::Double(_) => true,
            _ => false,
        }
    }

    /// The value inside, if this is a `NbtList::Double`.
    pub fn as_double(&self) -> (r: Option<&NbtArray<F64Bits>>)
        ensures
            (r is Some) == (*self is Double),
            r matches Some(v) ==> *v == self->Double_0,
    {
        match self {
            NbtList::Double(v) => Some(v),
            _ => None,
        }
    }

    /// The value inside, to change in place, if this is a `NbtList::Double`.
    pub fn as_double_mut(&mut self) -> (r: Option<&mut NbtArray<F64Bits>>)
        ensures
            (r is Some) == (*old(self) is Double),
            r matches Some(v) ==> *v == old(self)->Double_0 && *final(self) == NbtList::Double(*final(v)),
            r is None ==> *final(self) == *old(self),
    {
        match self {
            NbtList::Double(v) => Some(v),
            _ => None,
        }
    }

    /// The value inside if this is a `NbtList::Double`, or else this back.
    pub fn into_double(self) -> (r: Result<NbtArray<F64Bits>, Self>)
        ensures
            self is Double ==> r == Ok::<NbtArray<F64Bits>, Self>(self->Double_0),
            !(self is Double) ==> r == Err::<NbtArray<F64Bits>, Self>(self),
    {
        match self {
            NbtList::Double(v) => Ok(v),
            _ => Err(self),
        }
    }

    /// Whether this is a `NbtList::ByteArray`.
    pub fn is_byte_array(&self) -> (r: bool)
        ensures
            r == (*self is ByteArray),
    {
        match self {
            NbtList::ByteArray(_) => true,
            _ => false,
        }
    }

    /// The value inside, if this is a `NbtList::ByteArray`.
    pub fn as_byte_array(&self) -> (r: Option<&NbtArray<NbtArray<i8>>>)
        ensures
            (r is Some) == (*self is ByteArray),
            r matches Some(v) ==> *v == self->ByteArray_0,
    {
        match self {
            NbtList::ByteArray(v) => Some(v),
            _ => None,
        }
    }

    /// The value inside, to change in place, if this is a `NbtList::ByteArray`.
    pub fn as_byte_array_mut(&mut self) -> (r: Option<&mut NbtArray<NbtArray<i8>>>)
        ensures
            (r is Some) == (*old(self) is ByteArray),
            r matches Some(v) ==> *v == old(self)->ByteArray_0 && *final(self) == NbtList::ByteArray(*final(v)),
            r is None ==> *final(self) == *old(self),
    {
        match self {
            NbtList::ByteArray(v) => Some(v),
            _ => None,
        }
    }

    /// The value inside if this is a `NbtList::ByteArray`, or else this back.
    pub fn into_byte_array(self) -> (r: Result<NbtArray<NbtArray<i8>>, Self>)
        ensures
            self is ByteArray ==> r == Ok::<NbtArray<NbtArray<i8>>, Self>(self->ByteArray_0),
            !(self is ByteArray) ==> r == Err::<NbtArray<NbtArray<i8>>, Self>(self),
    {
        match self {
            NbtList::ByteArray(v) => Ok(v),
            _ => Err(self),
        }
    }

    /// Whether this is a `NbtList::String`.
    pub fn is_string(&self) -> (r: bool)
        ensures
            r == (*self is String),
    {
        match self {
            NbtList::String(_) => true,
            _ => false,
        }
    }

    /// The value inside, if this is a `NbtList::String`.
    pub fn as_string(&self) -> (r: Option<&NbtArray<NbtString>>)
        ensures
            (r is Some) == (*self is String),
            r matches Some(v) ==> *v == self->String_0,
    {
        match self {
            NbtList::String(v) => Some(v),
            _ => None,
        }
    }

    /// The value inside, to change in place, if this is a `NbtList::String`.
    pub fn as_string_mut(&mut self) -> (r: Option<&mut NbtArray<NbtString>>)
        ensures
            (r is Some) == (*old(self) is String),
            r matches Some(v) ==> *v == old(self)->String_0 && *final(self) == NbtList::String(*final(v)),
            r is None ==> *final(self) == *old(self),
    {
        match self {
            NbtList::String(v) => Some(v),
            _ => None,
        }
    }

    /// The value inside if this is a `NbtList::String`, or else this back.
    pub fn into_string(self) -> (r: Result<NbtArray<NbtString>, Self>)
        ensures
            self is String ==> r == Ok::<NbtArray<NbtString>, Self>(self->String_0),
            !(self is String) ==> r == Err::<NbtArray<NbtString>, Self>(self),
    {
        match self {
            NbtList::String(v) => Ok(v),
            _ => Err(self),
        }
    }

    /// Whether this is a `NbtList::List`.
    pub fn is_list(&self) -> (r: bool)
        ensures
            r == (*self is List),
    {
        match self {
            NbtList::List(_) => true,
            _ => false,
        }
    }

    /// The value inside, if this is a `NbtList::List`.
    pub fn as_list(&self) -> (r: Option<&NbtArray<NbtList>>)
        ensures
            (r is Some) == (*self is List),
            r matches Some(v) ==> *v == self->List_0,
    {
        match self {
            NbtList::List(v) => Some(v),
            _ => None,
        }
    }

    /// The value inside, to change in place, if this is a `NbtList::List`.
    pub fn as_list_mut(&mut self) -> (r: Option<&mut NbtArray<NbtList>>)
        ensures
            (r is Some) == (*old(self) is List),
            r matches Some(v) ==> *v == old(self)->List_0 && *final(self) == NbtList::List(*final(v)),
            r is None ==> *final(self) == *old(self),
    {
        match self {
            NbtList::List(v) => Some(v),
            _ => None,
        }
    }

    /// The value inside if this is a `NbtList::List`, or else this back.
    pub fn into_list(self) -> (r: Result<NbtArray<NbtList>, Self>)
        ensures
            self is List ==> r == Ok::<NbtArray<NbtList>, Self>(self->List_0),
            !(self is List) ==> r == Err::<NbtArray<NbtList>, Self>(self),
    {
        match self {
            NbtList::List(v) => Ok(v),
            _ => Err(self),
        }
    }

    /// Whether this is a `NbtList::Compound`.
    pub fn is_compound(&self) -> (r: bool)
        ensures
            r == (*self is Compound),
    {
        match self {
            NbtList::Compound(_) => true,
            _ => false,
        }
    }

    /// The value inside, if this is a `NbtList::Compound`.
    pub fn as_compound(&self) -> (r: Option<&NbtArray<NbtCompound>>)
        ensures
            (r is Some) == (*self is Compound),
            r matches Some(v) ==> *v == self->Compound_0,
    {
        match self {
            NbtList::Compound(v) => Some(v),
            _ => None,
        }
    }

    /// The value inside, to change in place, if this is a `NbtList::Compound`.
    pub fn as_compound_mut(&mut self) -> (r: Option<&mut NbtArray<NbtCompound>>)
        ensures
            (r is Some) == (*old(self) is Compound),
            r matches Some(v) ==> *v == old(self)->Compound_0 && *final(self) == NbtList::Compound(*final(v)),
            r is None ==> *final(self) == *old(self),
    {
        match self {
            NbtList::Compound(v) => Some(v),
            _ => None,
        }
    }

    /// The value inside if this is a `NbtList::Compound`, or else this back.
    pub fn into_compound(self) -> (r: Result<NbtArray<NbtCompound>, Self>)
        ensures
            self is Compound ==> r == Ok::<NbtArray<NbtCompound>, Self>(self->Compound_0),
            !(self is Compound) ==> r == Err::<NbtArray<NbtCompound>, Self>(self),
    {
        match self {
            NbtList::Compound(v) => Ok(v),
            _ => Err(self),
        }
    }

    /// Whether this is a `NbtList::IntArray`.
    pub fn is_int_array(&self) -> (r: bool)
        ensures
            r == (*self is IntArray),
    {
        match self {
            NbtList::IntArray(_) => true,
            _ => false,
        }
    }

    /// The value inside, if this is a `NbtList::IntArray`.
    pub fn as_int_array(&self) -> (r: Option<&NbtArray<NbtArray<i32>>>)
        ensures
            (r is Some) == (*self is IntArray),
            r matches Some(v) ==> *v == self->IntArray_0,
    {
        match self {
            NbtList::IntArray(v) => Some(v),
            _ => None,
        }
    }

    /// The value inside, to change in place, if this is a `NbtList::IntArray`.
    pub fn as_int_array_mut(&mut self) -> (r: Option<&mut NbtArray<NbtArray<i32>>>)
        ensures
            (r is Some) == (*old(self) is IntArray),
            r matches Some(v) ==> *v == old(self)->IntArray_0 && *final(self) == NbtList::IntArray(*final(v)),
            r is None ==> *final(self) == *old(self),
    {
        match self {
            NbtList::IntArray(v) => Some(v),
            _ => None,
        }
    }

    /// The value inside if this is a `NbtList::IntArray`, or else this back.
    pub fn into_int_array(self) -> (r: Result<NbtArray<NbtArray<i32>>, Self>)
        ensures
            self is IntArray ==> r == Ok::<NbtArray<NbtArray<i32>>, Self>(self->IntArray_0),
            !(self is IntArray) ==> r == Err::<NbtArray<NbtArray<i32>>, Self>(self),
    {
        match self {
            NbtList::IntArray(v) => Ok(v),
            _ => Err(self),
        }
    }

    /// Whether this is a `NbtList::LongArray`.
    pub fn is_long_array(&self) -> (r: bool)
        ensures
            r == (*self is LongArray),
    {
        match self {
            NbtList::LongArray(_) => true,
            _ => false,
        }
    }

    /// The value inside, if this is a `NbtList::LongArray`.
    pub fn as_long_array(&self) -> (r: Option<&NbtArray<NbtArray<i64>>>)
        ensures
            (r is Some) == (*self is LongArray),
            r matches Some(v) ==> *v == self->LongArray_0,
    {
        match self {
            NbtList::LongArray(v) => Some(v),
            _ => None,
        }
    }

    /// The value inside, to change in place, if this is a `NbtList::LongArray`.
    pub fn as_long_array_mut(&mut self) -> (r: Option<&mut NbtArray<NbtArray<i64>>>)
        ensures
            (r is Some) == (*old(self) is LongArray),
            r matches Some(v) ==> *v == old(self)->LongArray_0 && *final(self) == NbtList::LongArray(*final(v)),
            r is None ==> *final(self) == *old(self),
    {
        match self {
            NbtList::LongArray(v) => Some(v),
            _ => None,
        }
    }

    /// The value inside if this is a `NbtList::LongArray`, or else this back.
    pub fn into_long_array(self) -> (r: Result<NbtArray<NbtArray<i64>>, Self>)
        ensures
            self is LongArray ==> r == Ok::<NbtArray<NbtArray<i64>>, Self>(self->LongArray_0),
            !(self is LongArray) ==> r == Err::<NbtArray<NbtArray<i64>>, Self>(self),
    {
        match self {
            NbtList::LongArray(v) => Ok(v),
            _ => Err(self),
        }
    }
}

} // verus!
