use vstd::prelude::*;

use crate::error::ParseError;
use crate::format::{encode_payload, spec_tag_id, wf_tag, Read};
use crate::parser::parse_tag_id;
use crate::serializer::serialize_tag;
use crate::traits::{NbtParse, NbtSerialize};
use crate::types::{F32Bits, F64Bits, NbtArray, NbtCompound, NbtList, NbtString};

verus! {

/// An NBT Tag.
///
/// Represents all defined NBT tags. A float or a double is held as its IEEE 754
/// bit pattern, which is exactly what the binary format stores.
#[derive(Debug, PartialEq, PartialOrd)]
pub enum NbtTag {
    /// An empty tag.
    End,
    /// A signed byte.
    Byte(i8),
    /// A signed 2-byte integer.
    Short(i16),
    /// A signed 4-byte integer.
    Int(i32),
    /// A signed 8-byte integer.
    Long(i64),
    /// A 4-byte float, as the bits of an `f32`.
    Float(F32Bits),
    /// A 8-byte float, as the bits of an `f64`.
    Double(F64Bits),
    /// An NBT `Array` of signed bytes.
    ByteArray(NbtArray<i8>),
    /// An NBT `String`.
    String(NbtString),
    /// An NBT `List`.
    List(NbtList),
    /// A `HashMap` of NBT `Tag`s, with NBT `String` as a key.
    Compound(NbtCompound),
    /// An NBT `Array` of signed 4-byte integer.
    IntArray(NbtArray<i32>),
    /// An NBT `Array` of signed 8-byte integer.
    LongArray(NbtArray<i64>),
}

/// The kind of a tag, as the byte that introduces it in the binary format.
#[derive(Debug, PartialEq, Eq, Structural, Clone, Copy)]
pub enum NbtTagId {
    End,
    Byte,
    Short,
    Int,
    Long,
    Float,
    Double,
    ByteArray,
    String,
    List,
    Compound,
    IntArray,
    LongArray,
}

impl NbtTagId {
    /// The byte that stands for this kind of tag.
    pub open spec fn spec_byte(self) -> u8 {
        match self {
            NbtTagId::End => 0,
            NbtTagId::Byte => 1,
            NbtTagId::Short => 2,
            NbtTagId::Int => 3,
            NbtTagId::Long => 4,
            NbtTagId::Float => 5,
            NbtTagId::Double => 6,
            NbtTagId::ByteArray => 7,
            NbtTagId::String => 8,
            NbtTagId::List => 9,
            NbtTagId::Compound => 10,
            NbtTagId::IntArray => 11,
            NbtTagId::LongArray => 12,
        }
    }

    /// The kind of tag that a byte stands for, if any.
    pub open spec fn spec_from_byte(b: u8) -> Option<NbtTagId> {
        if b == 0 {
            Some(NbtTagId::End)
        } else if b == 1 {
            Some(NbtTagId::Byte)
        } else if b == 2 {
            Some(NbtTagId::Short)
        } else if b == 3 {
            Some(NbtTagId::Int)
        } else if b == 4 {
            Some(NbtTagId::Long)
        } else if b == 5 {
            Some(NbtTagId::Float)
        } else if b == 6 {
            Some(NbtTagId::Double)
        } else if b == 7 {
            Some(NbtTagId::ByteArray)
        } else if b == 8 {
            Some(NbtTagId::String)
        } else if b == 9 {
            Some(NbtTagId::List)
        } else if b == 10 {
            Some(NbtTagId::Compound)
        } else if b == 11 {
            Some(NbtTagId::IntArray)
        } else if b == 12 {
            Some(NbtTagId::LongArray)
        } else {
            None
        }
    }

    /// The byte that stands for this kind of tag.
    pub fn as_byte(self) -> (b: u8)
        ensures
            b == self.spec_byte(),
    {
        match self {
            NbtTagId::End => 0,
            NbtTagId::Byte => 1,
            NbtTagId::Short => 2,
            NbtTagId::Int => 3,
            NbtTagId::Long => 4,
            NbtTagId::Float => 5,
            NbtTagId::Double => 6,
            NbtTagId::ByteArray => 7,
            NbtTagId::String => 8,
            NbtTagId::List => 9,
            NbtTagId::Compound => 10,
            NbtTagId::IntArray => 11,
            NbtTagId::LongArray => 12,
        }
    }
}

impl View for NbtTagId {
    type V = NbtTagId;

    open spec fn view(&self) -> NbtTagId {
        *self
    }
}

impl TryFrom<u8> for NbtTagId {
    type Error = ();

    fn try_from(value: u8) -> (r: Result<Self, Self::Error>) {
        match value {
            0 => Ok(Self::End),
            1 => Ok(Self::Byte),
            2 => Ok(Self::Short),
            3 => Ok(Self::Int),
            4 => Ok(Self::Long),
            5 => Ok(Self::Float),
            6 => Ok(Self::Double),
            7 => Ok(Self::ByteArray),
            8 => Ok(Self::String),
            9 => Ok(Self::List),
            10 => Ok(Self::Compound),
            11 => Ok(Self::IntArray),
            12 => Ok(Self::LongArray),
            _ => Err(()),
        }
    }
}

impl vstd::std_specs::convert::TryFromSpecImpl<u8> for NbtTagId {
    open spec fn obeys_try_from_spec() -> bool {
        true
    }

    open spec fn try_from_spec(value: u8) -> Result<Self, ()> {
        match NbtTagId::spec_from_byte(value) {
            Some(id) => Ok(id),
            None => Err(()),
        }
    }
}

impl NbtTag {
    /// The kind of this tag.
    pub open spec fn spec_tag_id(&self) -> NbtTagId {
        match self {
            NbtTag::End => NbtTagId::End,
            NbtTag::Byte(_) => NbtTagId::Byte,
            NbtTag::Short(_) => NbtTagId::Short,
            NbtTag::Int(_) => NbtTagId::Int,
            NbtTag::Long(_) => NbtTagId::Long,
            NbtTag::Float(_) => NbtTagId::Float,
            NbtTag::Double(_) => NbtTagId::Double,
            NbtTag::ByteArray(_) => NbtTagId::ByteArray,
            NbtTag::String(_) => NbtTagId::String,
            NbtTag::List(_) => NbtTagId::List,
            NbtTag::Compound(_) => NbtTagId::Compound,
            NbtTag::IntArray(_) => NbtTagId::IntArray,
            NbtTag::LongArray(_) => NbtTagId::LongArray,
        }
    }

    /// The kind of this tag.
    pub fn tag_id(&self) -> (id: NbtTagId)
        ensures
            id == self.spec_tag_id(),
    {
        match self {
            NbtTag::End => NbtTagId::End,
            NbtTag::Byte(_) => NbtTagId::Byte,
            NbtTag::Short(_) => NbtTagId::Short,
            NbtTag::Int(_) => NbtTagId::Int,
            NbtTag::Long(_) => NbtTagId::Long,
            NbtTag::Float(_) => NbtTagId::Float,
            NbtTag::Double(_) => NbtTagId::Double,
            NbtTag::ByteArray(_) => NbtTagId::ByteArray,
            NbtTag::String(_) => NbtTagId::String,
            NbtTag::List(_) => NbtTagId::List,
            NbtTag::Compound(_) => NbtTagId::Compound,
            NbtTag::IntArray(_) => NbtTagId::IntArray,
            NbtTag::LongArray(_) => NbtTagId::LongArray,
        }
    }
}

impl NbtParse for NbtTagId {
    open spec fn spec_parse_nbt_payload(data: Seq<u8>) -> Read<NbtTagId> {
        spec_tag_id(data)
    }

    fn try_parse_nbt_payload(data: &[u8]) -> (r: Result<(Self, &[u8]), ParseError>) {
        parse_tag_id(data)
    }
}

impl NbtSerialize for NbtTag {
    open spec fn payload_fits(&self) -> bool {
        wf_tag(self@)
    }

    open spec fn spec_serialize_nbt_payload(&self) -> Seq<u8> {
        encode_payload(self@)
    }

    fn serialize_nbt_payload(&self, buf: &mut Vec<u8>) {
        serialize_tag(self, buf)
    }
}

impl NbtTag {
    /// Whether this is a `NbtTag::End`, as a spec function.
    pub open spec fn is_end_spec(&self) -> bool {
        *self is End
    }

    /// Whether this is a `NbtTag::End`.
    pub fn is_end(&self) -> (r: bool)
        ensures
            r == (*self is End),
    {
        match self {
            NbtTag::End => true,
            _ => false,
        }
    }

    /// Whether this is a `NbtTag::Byte`.
    pub fn is_byte(&self) -> (r: bool)
        ensures
            r == (*self is Byte),
    {
        match self {
            NbtTag::Byte(_) => true,
            _ => false,
        }
    }

    /// The value inside, if this is a `NbtTag::Byte`.
    pub fn as_byte(&self) -> (r: Option<&i8>)
        ensures
            (r is Some) == (*self is Byte),
            r matches Some(v) ==> *v == self->Byte_0,
    {
        match self {
            NbtTag::Byte(v) => Some(v),
            _ => None,
        }
    }

    /// The value inside, to change in place, if this is a `NbtTag::Byte`.
    pub fn as_byte_mut(&mut self) -> (r: Option<&mut i8>)
        ensures
            (r is Some) == (*old(self) is Byte),
            r matches Some(v) ==> *v == old(self)->Byte_0 && *final(self) == NbtTag::Byte(*final(v)),
            r is None ==> *final(self) == *old(self),
    {
        match self {
            NbtTag::Byte(v) => Some(v),
            _ => None,
        }
    }

    /// The value inside if this is a `NbtTag::Byte`, or else this back.
    pub fn into_byte(self) -> (r: Result<i8, Self>)
        ensures
            self is Byte ==> r == Ok::<i8, Self>(self->Byte_0),
            !(self is Byte) ==> r == Err::<i8, Self>(self),
    {
        match self {
            NbtTag::Byte(v) => Ok(v),
            _ => Err(self),
        }
    }

    /// Whether this is a `NbtTag::Short`.
    pub fn is_short(&self) -> (r: bool)
        ensures
            r == (*self is Short),
    {
        match self {
            NbtTag::Short(_) => true,
            _ => false,
        }
    }

    /// The value inside, if this is a `NbtTag::Short`.
    pub fn as_short(&self) -> (r: Option<&i16>)
        ensures
            (r is Some) == (*self is Short),
            r matches Some(v) ==> *v == self->Short_0,
    {
        match self {
            NbtTag::Short(v) => Some(v),
            _ => None,
        }
    }

    /// The value inside, to change in place, if this is a `NbtTag::Short`.
    pub fn as_short_mut(&mut self) -> (r: Option<&mut i16>)
        ensures
            (r is Some) == (*old(self) is Short),
            r matches Some(v) ==> *v == old(self)->Short_0 && *final(self) == NbtTag::Short(*final(v)),
            r is None ==> *final(self) == *old(self),
    {
        match self {
            NbtTag::Short(v) => Some(v),
            _ => None,
        }
    }

    /// The value inside if this is a `NbtTag::Short`, or else this back.
    pub fn into_short(self) -> (r: Result<i16, Self>)
        ensures
            self is Short ==> r == Ok::<i16, Self>(self->Short_0),
            !(self is Short) ==> r == Err::<i16, Self>(self),
    {
        match self {
            NbtTag::Short(v) => Ok(v),
            _ => Err(self),
        }
    }

    /// Whether this is a `NbtTag::Int`.
    pub fn is_int(&self) -> (r: bool)
        ensures
            r == (*self is Int),
    {
        match self {
            NbtTag::Int(_) => true,
            _ => false,
        }
    }

    /// The value inside, if this is a `NbtTag::Int`.
    pub fn as_int(&self) -> (r: Option<&i32>)
        ensures
            (r is Some) == (*self is Int),
            r matches Some(v) ==> *v == self->Int_0,
    {
        match self {
            NbtTag::Int(v) => Some(v),
            _ => None,
        }
    }

    /// The value inside, to change in place, if this is a `NbtTag::Int`.
    pub fn as_int_mut(&mut self) -> (r: Option<&mut i32>)
        ensures
            (r is Some) == (*old(self) is Int),
            r matches Some(v) ==> *v == old(self)->Int_0 && *final(self) == NbtTag::Int(*final(v)),
            r is None ==> *final(self) == *old(self),
    {
        match self {
            NbtTag::Int(v) => Some(v),
            _ => None,
        }
    }

    /// The value inside if this is a `NbtTag::Int`, or else this back.
    pub fn into_int(self) -> (r: Result<i32, Self>)
        ensures
            self is Int ==> r == Ok::<i32, Self>(self->Int_0),
            !(self is Int) ==> r == Err::<i32, Self>(self),
    {
        match self {
            NbtTag::Int(v) => Ok(v),
            _ => Err(self),
        }
    }

    /// Whether this is a `NbtTag::Long`.
    pub fn is_long(&self) -> (r: bool)
        ensures
            r == (*self is Long),
    {
        match self {
            NbtTag::Long(_) => true,
            _ => false,
        }
    }

    /// The value inside, if this is a `NbtTag::Long`.
    pub fn as_long(&self) -> (r: Option<&i64>)
        ensures
            (r is Some) == (*self is Long),
            r matches Some(v) ==> *v == self->Long_0,
    {
        match self {
            NbtTag::Long(v) => Some(v),
            _ => None,
        }
    }

    /// The value inside, to change in place, if this is a `NbtTag::Long`.
    pub fn as_long_mut(&mut self) -> (r: Option<&mut i64>)
        ensures
            (r is Some) == (*old(self) is Long),
            r matches Some(v) ==> *v == old(self)->Long_0 && *final(self) == NbtTag::Long(*final(v)),
            r is None ==> *final(self) == *old(self),
    {
        match self {
            NbtTag::Long(v) => Some(v),
            _ => None,
        }
    }

    /// The value inside if this is a `NbtTag::Long`, or else this back.
    pub fn into_long(self) -> (r: Result<i64, Self>)
        ensures
            self is Long ==> r == Ok::<i64, Self>(self->Long_0),
            !(self is Long) ==> r == Err::<i64, Self>(self),
    {
        match self {
            NbtTag::Long(v) => Ok(v),
            _ => Err(self),
        }
    }

    /// Whether this is a `NbtTag::Float`.
    pub fn is_float(&self) -> (r: bool)
        ensures
            r == (*self is Float),
    {
        match self {
            NbtTag::Float(_) => true,
            _ => false,
        }
    }

    /// The value inside, if this is a `NbtTag::Float`.
    pub fn as_float(&self) -> (r: Option<&F32Bits>)
        ensures
            (r is Some) == (*self is Float),
            r matches Some(v) ==> *v == self->Float_0,
    {
        match self {
            NbtTag::Float(v) => Some(v),
            _ => None,
        }
    }

    /// The value inside, to change in place, if this is a `NbtTag::Float`.
    pub fn as_float_mut(&mut self) -> (r: Option<&mut F32Bits>)
        ensures
            (r is Some) == (*old(self) is Float),
            r matches Some(v) ==> *v == old(self)->Float_0 && *final(self) == NbtTag::Float(*final(v)),
            r is None ==> *final(self) == *old(self),
    {
        match self {
            NbtTag::Float(v) => Some(v),
            _ => None,
        }
    }

    /// The value inside if this is a `NbtTag::Float`, or else this back.
    pub fn into_float(self) -> (r: Result<F32Bits, Self>)
        ensures
            self is Float ==> r == Ok::<F32Bits, Self>(self->Float_0),
            !(self is Float) ==> r == Err::<F32Bits, Self>(self),
    {
        match self {
            NbtTag::Float(v) => Ok(v),
            _ => Err(self),
        }
    }

    /// Whether this is a `NbtTag::Double`.
    pub fn is_double(&self) -> (r: bool)
        ensures
            r == (*self is Double),
    {
        match self {
            NbtTag::Double(_) => true,
            _ => false,
        }
    }

    /// The value inside, if this is a `NbtTag::Double`.
    pub fn as_double(&self) -> (r: Option<&F64Bits>)
        ensures
            (r is Some) == (*self is Double),
            r matches Some(v) ==> *v == self->Double_0,
    {
        match self {
            NbtTag::Double(v) => Some(v),
            _ => None,
        }
    }

    /// The value inside, to change in place, if this is a `NbtTag::Double`.
    pub fn as_double_mut(&mut self) -> (r: Option<&mut F64Bits>)
        ensures
            (r is Some) == (*old(self) is Double),
            r matches Some(v) ==> *v == old(self)->Double_0 && *final(self) == NbtTag::Double(*final(v)),
            r is None ==> *final(self) == *old(self),
    {
        match self {
            NbtTag::Double(v) => Some(v),
            _ => None,
        }
    }

    /// The value inside if this is a `NbtTag::Double`, or else this back.
    pub fn into_double(self) -> (r: Result<F64Bits, Self>)
        ensures
            self is Double ==> r == Ok::<F64Bits, Self>(self->Double_0),
            !(self is Double) ==> r == Err::<F64Bits, Self>(self),
    {
        match self {
            NbtTag::Double(v) => Ok(v),
            _ => Err(self),
        }
    }

    /// Whether this is a `NbtTag::ByteArray`.
    pub fn is_byte_array(&self) -> (r: bool)
        ensures
            r == (*self is ByteArray),
    {
        match self {
            NbtTag::ByteArray(_) => true,
            _ => false,
        }
    }

    /// The value inside, if this is a `NbtTag::ByteArray`.
    pub fn as_byte_array(&self) -> (r: Option<&NbtArray<i8>>)
        ensures
            (r is Some) == (*self is ByteArray),
            r matches Some(v) ==> *v == self->ByteArray_0,
    {
        match self {
            NbtTag::ByteArray(v) => Some(v),
            _ => None,
        }
    }

    /// The value inside, to change in place, if this is a `NbtTag::ByteArray`.
    pub fn as_byte_array_mut(&mut self) -> (r: Option<&mut NbtArray<i8>>)
        ensures
            (r is Some) == (*old(self) is ByteArray),
            r matches Some(v) ==> *v == old(self)->ByteArray_0 && *final(self) == NbtTag::ByteArray(*final(v)),
            r is None ==> *final(self) == *old(self),
    {
        match self {
            NbtTag::ByteArray(v) => Some(v),
            _ => None,
        }
    }

    /// The value inside if this is a `NbtTag::ByteArray`, or else this back.
    pub fn into_byte_array(self) -> (r: Result<NbtArray<i8>, Self>)
        ensures
            self is ByteArray ==> r == Ok::<NbtArray<i8>, Self>(self->ByteArray_0),
            !(self is ByteArray) ==> r == Err::<NbtArray<i8>, Self>(self),
    {
        match self {
            NbtTag::ByteArray(v) => Ok(v),
            _ => Err(self),
        }
    }

    /// Whether this is a `NbtTag::String`.
    pub fn is_string(&self) -> (r: bool)
        ensures
            r == (*self is String),
    {
        match self {
            NbtTag::String(_) => true,
            _ => false,
        }
    }

    /// The value inside, if this is a `NbtTag::String`.
    pub fn as_string(&self) -> (r: Option<&NbtString>)
        ensures
            (r is Some) == (*self is String),
            r matches Some(v) ==> *v == self->String_0,
    {
        match self {
            NbtTag::String(v) => Some(v),
            _ => None,
        }
    }

    /// The value inside, to change in place, if this is a `NbtTag::String`.
    pub fn as_string_mut(&mut self) -> (r: Option<&mut NbtString>)
        ensures
            (r is Some) == (*old(self) is String),
            r matches Some(v) ==> *v == old(self)->String_0 && *final(self) == NbtTag::String(*final(v)),
            r is None ==> *final(self) == *old(self),
    {
        match self {
            NbtTag::String(v) => Some(v),
            _ => None,
        }
    }

    /// The value inside if this is a `NbtTag::String`, or else this back.
    pub fn into_string(self) -> (r: Result<NbtString, Self>)
        ensures
            self is String ==> r == Ok::<NbtString, Self>(self->String_0),
            !(self is String) ==> r == Err::<NbtString, Self>(self),
    {
        match self {
            NbtTag::String(v) => Ok(v),
            _ => Err(self),
        }
    }

    /// Whether this is a `NbtTag::List`.
    pub fn is_list(&self) -> (r: bool)
        ensures
            r == (*self is List),
    {
        match self {
            NbtTag::List(_) => true,
            _ => false,
        }
    }

    /// The value inside, if this is a `NbtTag::List`.
    pub fn as_list(&self) -> (r: Option<&NbtList>)
        ensures
            (r is Some) == (*self is List),
            r matches Some(v) ==> *v == self->List_0,
    {
        match self {
            NbtTag::List(v) => Some(v),
            _ => None,
        }
    }

    /// The value inside, to change in place, if this is a `NbtTag::List`.
    pub fn as_list_mut(&mut self) -> (r: Option<&mut NbtList>)
        ensures
            (r is Some) == (*old(self) is List),
            r matches Some(v) ==> *v == old(self)->List_0 && *final(self) == NbtTag::List(*final(v)),
            r is None ==> *final(self) == *old(self),
    {
        match self {
            NbtTag::List(v) => Some(v),
            _ => None,
        }
    }

    /// The value inside if this is a `NbtTag::List`, or else this back.
    pub fn into_list(self) -> (r: Result<NbtList, Self>)
        ensures
            self is List ==> r == Ok::<NbtList, Self>(self->List_0),
            !(self is List) ==> r == Err::<NbtList, Self>(self),
    {
        match self {
            NbtTag::List(v) => Ok(v),
            _ => Err(self),
        }
    }

    /// Whether this is a `NbtTag::Compound`.
    pub fn is_compound(&self) -> (r: bool)
        ensures
            r == (*self is Compound),
    {
        match self {
            NbtTag::Compound(_) => true,
            _ => false,
        }
    }

    /// The value inside, if this is a `NbtTag::Compound`.
    pub fn as_compound(&self) -> (r: Option<&NbtCompound>)
        ensures
            (r is Some) == (*self is Compound),
            r matches Some(v) ==> *v == self->Compound_0,
    {
        match self {
            NbtTag::Compound(v) => Some(v),
            _ => None,
        }
    }

    /// The value inside, to change in place, if this is a `NbtTag::Compound`.
    pub fn as_compound_mut(&mut self) -> (r: Option<&mut NbtCompound>)
        ensures
            (r is Some) == (*old(self) is Compound),
            r matches Some(v) ==> *v == old(self)->Compound_0 && *final(self) == NbtTag::Compound(*final(v)),
            r is None ==> *final(self) == *old(self),
    {
        match self {
            NbtTag::Compound(v) => Some(v),
            _ => None,
        }
    }

    /// The value inside if this is a `NbtTag::Compound`, or else this back.
    pub fn into_compound(self) -> (r: Result<NbtCompound, Self>)
        ensures
            self is Compound ==> r == Ok::<NbtCompound, Self>(self->Compound_0),
            !(self is Compound) ==> r == Err::<NbtCompound, Self>(self),
    {
        match self {
            NbtTag::Compound(v) => Ok(v),
            _ => Err(self),
        }
    }

    /// Whether this is a `NbtTag::IntArray`.
    pub fn is_int_array(&self) -> (r: bool)
        ensures
            r == (*self is IntArray),
    {
        match self {
            NbtTag::IntArray(_) => true,
            _ => false,
        }
    }

    /// The value inside, if this is a `NbtTag::IntArray`.
    pub fn as_int_array(&self) -> (r: Option<&NbtArray<i32>>)
        ensures
            (r is Some) == (*self is IntArray),
            r matches Some(v) ==> *v == self->IntArray_0,
    {
        match self {
            NbtTag::IntArray(v) => Some(v),
            _ => None,
        }
    }

    /// The value inside, to change in place, if this is a `NbtTag::IntArray`.
    pub fn as_int_array_mut(&mut self) -> (r: Option<&mut NbtArray<i32>>)
        ensures
            (r is Some) == (*old(self) is IntArray),
            r matches Some(v) ==> *v == old(self)->IntArray_0 && *final(self) == NbtTag::IntArray(*final(v)),
            r is None ==> *final(self) == *old(self),
    {
        match self {
            NbtTag::IntArray(v) => Some(v),
            _ => None,
        }
    }

    /// The value inside if this is a `NbtTag::IntArray`, or else this back.
    pub fn into_int_array(self) -> (r: Result<NbtArray<i32>, Self>)
        ensures
            self is IntArray ==> r == Ok::<NbtArray<i32>, Self>(self->IntArray_0),
            !(self is IntArray) ==> r == Err::<NbtArray<i32>, Self>(self),
    {
        match self {
            NbtTag::IntArray(v) => Ok(v),
            _ => Err(self),
        }
    }

    /// Whether this is a `NbtTag::LongArray`.
    pub fn is_long_array(&self) -> (r: bool)
        ensures
            r == (*self is LongArray),
    {
        match self {
            NbtTag::LongArray(_) => true,
            _ => false,
        }
    }

    /// The value inside, if this is a `NbtTag::LongArray`.
    pub fn as_long_array(&self) -> (r: Option<&NbtArray<i64>>)
        ensures
            (r is Some) == (*self is LongArray),
            r matches Some(v) ==> *v == self->LongArray_0,
    {
        match self {
            NbtTag::LongArray(v) => Some(v),
            _ => None,
        }
    }

    /// The value inside, to change in place, if this is a `NbtTag::LongArray`.
    pub fn as_long_array_mut(&mut self) -> (r: Option<&mut NbtArray<i64>>)
        ensures
            (r is Some) == (*old(self) is LongArray),
            r matches Some(v) ==> *v == old(self)->LongArray_0 && *final(self) == NbtTag::LongArray(*final(v)),
            r is None ==> *final(self) == *old(self),
    {
        match self {
            NbtTag::LongArray(v) => Some(v),
            _ => None,
        }
    }

    /// The value inside if this is a `NbtTag::LongArray`, or else this back.
    pub fn into_long_array(self) -> (r: Result<NbtArray<i64>, Self>)
        ensures
            self is LongArray ==> r == Ok::<NbtArray<i64>, Self>(self->LongArray_0),
            !(self is LongArray) ==> r == Err::<NbtArray<i64>, Self>(self),
    {
        match self {
            NbtTag::LongArray(v) => Ok(v),
            _ => Err(self),
        }
    }
}

} // verus!
