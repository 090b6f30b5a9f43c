//! The calls into code that is not verified here, each with what it promises.
use vstd::prelude::*;
use std::collections::HashMap;
use vstd::utf8::{decode_utf8, valid_utf8};

use crate::types::{entries_map, NbtString, NbtTag};
use vstd::std_specs::hash::obeys_key_model;

verus! {

/// `bytemuck::cast_slice` from `u8` to `i8`. The two types have the same size and
/// alignment, so the cast never fails: each byte is read as the signed byte with
/// the same bits.
#[verifier::external_body]
pub(crate) fn bytes_as_i8(data: &[u8]) -> (r: &[i8])
    ensures
        r@ == data@.map_values(|b: u8| b as i8),
{
    bytemuck::cast_slice::<u8, i8>(data)
}

/// `bytemuck::cast_slice` from `i8` to `u8`. The two types have the same size and
/// alignment, so the cast never fails: each signed byte is read as the byte with
/// the same bits.
#[verifier::external_body]
pub(crate) fn i8_as_bytes(items: &[i8]) -> (r: &[u8])
    ensures
        r@ == items@.map_values(|v: i8| v as u8),
{
    bytemuck::cast_slice::<i8, u8>(items)
}

/// `String::from_utf8`, with its error dropped: it succeeds exactly when the bytes
/// are valid UTF-8, and the string then holds the characters that they encode.
#[verifier::external_body]
pub(crate) fn string_from_utf8(bytes: Vec<u8>) -> (r: Option<String>)
    ensures
        r is Some <==> valid_utf8(bytes@),
        r matches Some(s) ==> s@ == decode_utf8(bytes@),
{
    match String::from_utf8(bytes) {
        Ok(s) => Some(s),
        Err(_) => None,
    }
}

/// The entries of a `HashMap`, by `Vec::from_iter`: as many as the map holds, and no
/// name occurs twice,
/// since the map holds each key once and two `NbtString`s are equal exactly when
/// their characters are. Where `NbtString` behaves as a key in vstd's model of
/// `HashMap` (`obeys_key_model`), the entries are exactly those of the map, each
/// once. Their order is not stated: it is the map's own, which depends on a hasher
/// seeded per process.
#[verifier::external_body]
pub(crate) fn entries_of_map(map: HashMap<NbtString, NbtTag>) -> (r: Vec<(NbtString, NbtTag)>)
    ensures
        r@.len() == map.len(),
        forall|i: int, j: int| 0 <= i < j < r@.len() ==> r@[i].0@ != r@[j].0@,
        obeys_key_model::<NbtString>() ==> {
            &&& r@.len() == map@.len()
            &&& forall|i: int|
                0 <= i < r@.len() ==> map@.contains_key((#[trigger] r@[i]).0) && map@[r@[i].0]
                    == r@[i].1
            &&& forall|k: NbtString|
                #[trigger] map@.contains_key(k) ==> exists|i: int|
                    0 <= i < r@.len() && (#[trigger] r@[i]).0 == k
        },
{
    Vec::from_iter(map)
}

/// A `HashMap` of entries, by `HashMap::from_iter`, which inserts them in order.
/// Where no name occurs twice and `NbtString` behaves as a key in vstd's model of
/// `HashMap` (`obeys_key_model`), the map holds exactly the entries. Otherwise
/// nothing is stated: std does not say which of two values under one name is kept,
/// and without the model what the map holds is given by `NbtString`'s `Hash`,
/// which Verus does not read.
#[verifier::external_body]
pub(crate) fn map_of_entries(entries: Vec<(NbtString, NbtTag)>) -> (r: HashMap<NbtString, NbtTag>)
    ensures
        obeys_key_model::<NbtString>() && (forall|i: int, j: int|
            0 <= i < j < entries@.len() ==> entries@[i].0@ != entries@[j].0@) ==> r@
            == entries_map(entries@),
{
    HashMap::from_iter(entries)
}

} // verus!
