//! Functions for parsing NBT data.
//!
//! Each function reads a value from the front of a byte slice and hands back the
//! bytes after it; its contract says that it computes the matching function of
//! `format`: the same value and the same length read, or the same fault.
use vstd::prelude::*;
use vstd::slice::slice_to_vec;
use vstd::utf8::decode_utf8_encode_utf8;

pub use crate::error::ParseError;
use crate::foreign::{bytes_as_i8, string_from_utf8};
use crate::error::ParseFault;
use crate::format::{
    after, decode_bytes, decode_ints, decode_longs, has_name, read16, read32, read64, spec_byte_array,
    spec_elems, spec_entries, spec_int_array, spec_len, spec_list, spec_long_array, spec_nbt,
    spec_payload, spec_string, spec_tag_id, spec_u16, spec_u32, spec_u64, spec_u8, Read,
};
use crate::traits::{lemma_u16_as_i16, NbtParse};
use crate::types::{
    compounds_model, entries_model, lists_model, Entries, F32Bits, F64Bits, NbtArray, NbtCompound, NbtList,
    NbtString, NbtTag, NbtTagId, TagModel,
};

verus! {

/// `r` is what reading `data` gives according to `expected`: on success the same
/// value, and the bytes that follow the length read; on failure the same fault.
pub open spec fn parsed<'a, A: View>(
    data: Seq<u8>,
    r: Result<(A, &'a [u8]), ParseError>,
    expected: Read<A::V>,
) -> bool {
    match r {
        Ok((v, rest)) => match expected {
            Ok((m, n)) => v@ == m && 0 <= n <= data.len() && rest@ == data.skip(n),
            Err(_) => false,
        },
        Err(e) => expected == Err::<(A::V, int), ParseFault>(e@),
    }
}

/// What the entries read so far grow to, once the rest is read from the bytes left.
pub open spec fn shifted(k: int, r: Read<Entries>) -> Read<Entries> {
    after(k, r, |c: Entries| c)
}

proof fn lemma_shifted(a: int, b: int, r: Read<Entries>)
    ensures
        shifted(a, shifted(b, r)) == shifted(a + b, r),
{
    match r {
        Ok((v, n)) => {},
        Err(e) => {},
    }
}

proof fn lemma_shifted_zero(r: Read<Entries>)
    ensures
        shifted(0, r) == r,
{
    match r {
        Ok((v, n)) => {},
        Err(e) => {},
    }
}

/// Once reading the first `k` items fails, reading more fails the same way.
proof fn lemma_elems_err(id: NbtTagId, k: nat, n: nat, s: Seq<u8>)
    requires
        k <= n,
        spec_elems(id, k, s) is Err,
    ensures
        spec_elems(id, n, s) == spec_elems(id, k, s),
    decreases n - k,
{
    if k < n {
        lemma_elems_err(id, k, (n - 1) as nat, s);
    }
}

/// A payload of kind `List` is a list.
proof fn lemma_payload_list(s: Seq<u8>)
    ensures
        spec_payload(NbtTagId::List, s) == spec_list(s),
{
}

/// A payload of kind `Compound` is the entries of a compound.
proof fn lemma_payload_compound(s: Seq<u8>)
    ensures
        spec_payload(NbtTagId::Compound, s) == after(
            0,
            spec_entries(Seq::empty(), s),
            |c: Entries| TagModel::Compound(c),
        ),
{
}

/// One more item read after the first `i`.
proof fn lemma_elems_step(id: NbtTagId, i: nat, s: Seq<u8>, items: Seq<TagModel>, m: int)
    requires
        spec_elems(id, i, s) == Ok::<(Seq<TagModel>, int), ParseFault>((items, m)),
        0 <= m <= s.len(),
    ensures
        spec_elems(id, i + 1, s) == after(m, spec_payload(id, s.skip(m)), |t: TagModel| items.push(t)),
{
}

/// An entry whose name was read before is refused once its payload is read.
proof fn lemma_entries_dup(
    acc: Entries,
    s: Seq<u8>,
    id: NbtTagId,
    name: Seq<char>,
    k1: int,
    t: TagModel,
    k2: int,
)
    requires
        spec_tag_id(s) == Ok::<(NbtTagId, int), ParseFault>((id, 1)),
        id != NbtTagId::End,
        spec_string(s.skip(1)) == Ok::<(Seq<char>, int), ParseFault>((name, k1)),
        spec_payload(id, s.skip(1 + k1)) == Ok::<(TagModel, int), ParseFault>((t, k2)),
        has_name(acc, name),
    ensures
        spec_entries(acc, s) == Err::<(Entries, int), ParseFault>(ParseFault::DuplicateTagName(name)),
{
}

/// The entries of a compound, item by item.
pub(crate) proof fn lemma_entries_model(s: Seq<(NbtString, NbtTag)>)
    ensures
        entries_model(s).len() == s.len(),
        forall|j: int| 0 <= j < s.len() ==> #[trigger] entries_model(s)[j] == (s[j].0@, s[j].1@),
    decreases s.len(),
{
    if s.len() > 0 {
        lemma_entries_model(s.drop_last());
        assert forall|j: int| 0 <= j < s.len() implies #[trigger] entries_model(s)[j] == (
            s[j].0@,
            s[j].1@,
        ) by {
            if j < s.len() - 1 {
                assert(s[j] == s.drop_last()[j]);
            }
        }
    }
}

/// Splits off the first `n` bytes, if there are that many.
fn split_n(data: &[u8], n: usize) -> (r: Result<(&[u8], &[u8]), ParseError>)
    ensures
        data@.len() < n ==> r == Err::<(&[u8], &[u8]), ParseError>(
            ParseError::UnexpectedEndOfInput,
        ),
        data@.len() >= n ==> (r matches Ok((a, b)) && a@ == data@.take(n as int) && b@
            == data@.skip(n as int)),
{
    if data.len() < n {
        Err(ParseError::UnexpectedEndOfInput)
    } else {
        Ok(data.split_at(n))
    }
}

/// Splits off the first byte.
pub fn split_1(data: &[u8]) -> (r: Result<(u8, &[u8]), ParseError>)
    ensures
        parsed(data@, r, spec_u8(data@)),
{
    let (first, rest) = split_n(data, 1)?;
    Ok((first[0], rest))
}

/// The big-endian number in the two bytes at `pos`.
fn be_u16_at(s: &[u8], pos: usize) -> (v: u16)
    requires
        pos + 2 <= s@.len(),
    ensures
        v == read16(s@.skip(pos as int)),
{
    ((s[pos] as u16) << 8u16) | (s[pos + 1] as u16)
}

/// The big-endian number in the four bytes at `pos`.
fn be_u32_at(s: &[u8], pos: usize) -> (v: u32)
    requires
        pos + 4 <= s@.len(),
    ensures
        v == read32(s@.skip(pos as int)),
{
    ((s[pos] as u32) << 24u32) | ((s[pos + 1] as u32) << 16u32) | ((s[pos + 2] as u32) << 8u32)
        | (s[pos + 3] as u32)
}

/// The big-endian number in the eight bytes at `pos`.
fn be_u64_at(s: &[u8], pos: usize) -> (v: u64)
    requires
        pos + 8 <= s@.len(),
    ensures
        v == read64(s@.skip(pos as int)),
{
    ((s[pos] as u64) << 56u64) | ((s[pos + 1] as u64) << 48u64) | ((s[pos + 2] as u64) << 40u64)
        | ((s[pos + 3] as u64) << 32u64) | ((s[pos + 4] as u64) << 24u64) | ((s[pos + 5] as u64)
        << 16u64) | ((s[pos + 6] as u64) << 8u64) | (s[pos + 7] as u64)
}

/// Reads the byte that introduces a tag.
pub fn parse_tag_id(data: &[u8]) -> (r: Result<(NbtTagId, &[u8]), ParseError>)
    ensures
        parsed(data@, r, spec_tag_id(data@)),
{
    let (tag_id, rest) = split_1(data)?;
    match NbtTagId::try_from(tag_id) {
        Ok(id) => Ok((id, rest)),
        Err(_) => Err(ParseError::InvalidTagId(tag_id)),
    }
}

/// Reads a signed byte.
pub fn parse_byte(data: &[u8]) -> (r: Result<(i8, &[u8]), ParseError>)
    ensures
        parsed(data@, r, after(0, spec_u8(data@), |v: u8| v as i8)),
{
    let (v, rest) = split_1(data)?;
    Ok((v as i8, rest))
}

/// Reads a big-endian `u16`.
pub(crate) fn parse_u16(data: &[u8]) -> (r: Result<(u16, &[u8]), ParseError>)
    ensures
        parsed(data@, r, spec_u16(data@)),
{
    let (bytes, rest) = split_n(data, 2)?;
    Ok((be_u16_at(bytes, 0), rest))
}

/// Reads a big-endian `u32`.
pub(crate) fn parse_u32(data: &[u8]) -> (r: Result<(u32, &[u8]), ParseError>)
    ensures
        parsed(data@, r, spec_u32(data@)),
{
    let (bytes, rest) = split_n(data, 4)?;
    Ok((be_u32_at(bytes, 0), rest))
}

/// Reads a big-endian `u64`.
pub(crate) fn parse_u64(data: &[u8]) -> (r: Result<(u64, &[u8]), ParseError>)
    ensures
        parsed(data@, r, spec_u64(data@)),
{
    let (bytes, rest) = split_n(data, 8)?;
    Ok((be_u64_at(bytes, 0), rest))
}

/// Reads a big-endian `i16`.
pub(crate) fn parse_short(data: &[u8]) -> (r: Result<(i16, &[u8]), ParseError>)
    ensures
        parsed(data@, r, after(0, spec_u16(data@), |v: u16| v as i16)),
{
    let (v, rest) = parse_u16(data)?;
    Ok((v as i16, rest))
}

/// Reads a big-endian `i32`.
pub(crate) fn parse_int(data: &[u8]) -> (r: Result<(i32, &[u8]), ParseError>)
    ensures
        parsed(data@, r, after(0, spec_u32(data@), |v: u32| v as i32)),
{
    let (v, rest) = parse_u32(data)?;
    Ok((v as i32, rest))
}

/// Reads a big-endian `i64`.
pub(crate) fn parse_long(data: &[u8]) -> (r: Result<(i64, &[u8]), ParseError>)
    ensures
        parsed(data@, r, after(0, spec_u64(data@), |v: u64| v as i64)),
{
    let (v, rest) = parse_u64(data)?;
    Ok((v as i64, rest))
}

/// Reads a 4-byte float, as its bits.
pub(crate) fn parse_float(data: &[u8]) -> (r: Result<(F32Bits, &[u8]), ParseError>)
    ensures
        parsed(data@, r, spec_u32(data@)),
{
    let (bits, rest) = parse_u32(data)?;
    Ok((F32Bits::from_bits(bits), rest))
}

/// Reads an 8-byte float, as its bits.
pub(crate) fn parse_double(data: &[u8]) -> (r: Result<(F64Bits, &[u8]), ParseError>)
    ensures
        parsed(data@, r, spec_u64(data@)),
{
    let (bits, rest) = parse_u64(data)?;
    Ok((F64Bits::from_bits(bits), rest))
}

/// Reads the length of an array or a list, refusing a negative one.
fn parse_len(data: &[u8]) -> (r: Result<(usize, &[u8]), ParseError>)
    ensures
        match r {
            Ok((n, rest)) => spec_len(data@) == Ok::<(nat, int), ParseFault>((n as nat, 4)) && n
                <= i32::MAX && rest@ == data@.skip(4),
            Err(e) => spec_len(data@) == Err::<(nat, int), ParseFault>(e@),
        },
{
    let (len, rest) = parse_int(data)?;
    if len < 0 {
        return Err(ParseError::NegativeLength(len));
    }
    Ok((len as usize, rest))
}

/// Reads a byte array: its length, then that many bytes.
pub fn parse_byte_array(data: &[u8]) -> (r: Result<(NbtArray<i8>, &[u8]), ParseError>)
    ensures
        parsed(data@, r, spec_byte_array(data@)),
{
    let (len, data1) = parse_len(data)?;
    let (bytes, rest) = split_n(data1, len)?;
    let items = slice_to_vec(bytes_as_i8(bytes));
    assert(bytes@ =~= data@.subrange(4, 4 + len as int));
    assert(rest@ =~= data@.skip(4 + len as int));
    assert(items@ =~= decode_bytes(data@.subrange(4, 4 + len as int)));
    Ok((NbtArray { items }, rest))
}

/// Reads a string: its length in bytes, then that many bytes of UTF-8.
pub fn parse_string(data: &[u8]) -> (r: Result<(NbtString, &[u8]), ParseError>)
    ensures
        parsed(data@, r, spec_string(data@)),
{
    let (len, data1) = parse_short(data)?;
    proof {
        lemma_u16_as_i16(read16(data@));
    }
    let (bytes, rest) = split_n(data1, len as u16 as usize)?;
    assert(bytes@ =~= data@.subrange(2, 2 + read16(data@)));
    assert(rest@ =~= data@.skip(2 + read16(data@)));
    match string_from_utf8(slice_to_vec(bytes)) {
        Some(str) => {
            proof {
                decode_utf8_encode_utf8(bytes@);
            }
            Ok((NbtString { str }, rest))
        },
        None => Err(ParseError::InvalidUtf8),
    }
}

/// Reads an int array: its length, then that many big-endian `i32`s.
pub fn parse_int_array(data: &[u8]) -> (r: Result<(NbtArray<i32>, &[u8]), ParseError>)
    ensures
        parsed(data@, r, spec_int_array(data@)),
{
    let (len, data1) = parse_len(data)?;
    if data1.len() / 4 < len {
        return Err(ParseError::UnexpectedEndOfInput);
    }
    let width = len * 4;
    let (bytes, rest) = split_n(data1, width)?;
    assert(bytes@ =~= data@.subrange(4, 4 + width as int));
    assert(rest@ =~= data@.skip(4 + width as int));
    let mut items: Vec<i32> = Vec::new();
    let mut i: usize = 0;
    while i < len
        invariant
            i <= len,
            width == 4 * len,
            bytes@.len() == width,
            items@.len() == i,
            forall|j: int|
                0 <= j < i ==> #[trigger] items@[j] == read32(bytes@.subrange(4 * j, 4 * j + 4))
                    as i32,
        decreases len - i,
    {
        let v = be_u32_at(bytes, 4 * i);
        assert(bytes@.skip(4 * i as int)[0] == bytes@.subrange(4 * i as int, 4 * i + 4)[0]);
        assert(bytes@.skip(4 * i as int)[1] == bytes@.subrange(4 * i as int, 4 * i + 4)[1]);
        assert(bytes@.skip(4 * i as int)[2] == bytes@.subrange(4 * i as int, 4 * i + 4)[2]);
        assert(bytes@.skip(4 * i as int)[3] == bytes@.subrange(4 * i as int, 4 * i + 4)[3]);
        items.push(v as i32);
        i += 1;
    }
    assert(width / 4 == len);
    assert(items@ =~= decode_ints(bytes@));
    Ok((NbtArray { items }, rest))
}

/// Reads a long array: its length, then that many big-endian `i64`s.
pub fn parse_long_array(data: &[u8]) -> (r: Result<(NbtArray<i64>, &[u8]), ParseError>)
    ensures
        parsed(data@, r, spec_long_array(data@)),
{
    let (len, data1) = parse_len(data)?;
    if data1.len() / 8 < len {
        return Err(ParseError::UnexpectedEndOfInput);
    }
    let width = len * 8;
    let (bytes, rest) = split_n(data1, width)?;
    assert(bytes@ =~= data@.subrange(4, 4 + width as int));
    assert(rest@ =~= data@.skip(4 + width as int));
    let mut items: Vec<i64> = Vec::new();
    let mut i: usize = 0;
    while i < len
        invariant
            i <= len,
            width == 8 * len,
            bytes@.len() == width,
            items@.len() == i,
            forall|j: int|
                0 <= j < i ==> #[trigger] items@[j] == read64(bytes@.subrange(8 * j, 8 * j + 8))
                    as i64,
        decreases len - i,
    {
        let v = be_u64_at(bytes, 8 * i);
        assert(bytes@.skip(8 * i as int)[0] == bytes@.subrange(8 * i as int, 8 * i + 8)[0]);
        assert(bytes@.skip(8 * i as int)[1] == bytes@.subrange(8 * i as int, 8 * i + 8)[1]);
        assert(bytes@.skip(8 * i as int)[2] == bytes@.subrange(8 * i as int, 8 * i + 8)[2]);
        assert(bytes@.skip(8 * i as int)[3] == bytes@.subrange(8 * i as int, 8 * i + 8)[3]);
        assert(bytes@.skip(8 * i as int)[4] == bytes@.subrange(8 * i as int, 8 * i + 8)[4]);
        assert(bytes@.skip(8 * i as int)[5] == bytes@.subrange(8 * i as int, 8 * i + 8)[5]);
        assert(bytes@.skip(8 * i as int)[6] == bytes@.subrange(8 * i as int, 8 * i + 8)[6]);
        assert(bytes@.skip(8 * i as int)[7] == bytes@.subrange(8 * i as int, 8 * i + 8)[7]);
        items.push(v as i64);
        i += 1;
    }
    assert(width / 8 == len);
    assert(items@ =~= decode_longs(bytes@));
    Ok((NbtArray { items }, rest))
}

/// Reads `n` payloads of the kind `id`, each by `T`'s parser, whose values stand for
/// payloads of that kind through `embed`.
fn parse_elems<'a, T: NbtParse>(
    id: Ghost<NbtTagId>,
    embed: Ghost<spec_fn(T::V) -> TagModel>,
    n: usize,
    data: &'a [u8],
) -> (r: Result<(Vec<T>, &'a [u8]), ParseError>)
    requires
        forall|s: Seq<u8>| #[trigger]
            spec_payload(id@, s) == after(0, T::spec_parse_nbt_payload(s), embed@),
    ensures
        match r {
            Ok((items, rest)) => {
                &&& items@.len() == n
                &&& spec_elems(id@, n as nat, data@) is Ok
                &&& spec_elems(id@, n as nat, data@)->Ok_0.1 == data@.len() - rest@.len()
                &&& spec_elems(id@, n as nat, data@)->Ok_0.0.len() == items@.len()
                &&& forall|i: int|
                    0 <= i < items@.len() ==> #[trigger] spec_elems(
                        id@,
                        n as nat,
                        data@,
                    )->Ok_0.0[i] == embed@(items@[i]@)
                &&& rest@.len() <= data@.len()
                &&& rest@ == data@.skip(data@.len() - rest@.len())
            },
            Err(e) => spec_elems(id@, n as nat, data@) == Err::<(Seq<TagModel>, int), ParseFault>(
                e@,
            ),
        },
{
    let mut items: Vec<T> = Vec::new();
    let mut cur = data;
    let mut i: usize = 0;
    assert(data@.skip(0) =~= data@);
    while i < n
        invariant
            i <= n,
            cur@.len() <= data@.len(),
            cur@ == data@.skip(data@.len() - cur@.len()),
            spec_elems(id@, i as nat, data@) is Ok,
            spec_elems(id@, i as nat, data@)->Ok_0.1 == data@.len() - cur@.len(),
            spec_elems(id@, i as nat, data@)->Ok_0.0.len() == items@.len(),
            items@.len() == i,
            forall|k: int|
                0 <= k < items@.len() ==> #[trigger] spec_elems(id@, i as nat, data@)->Ok_0.0[k]
                    == embed@(items@[k]@),
            forall|s: Seq<u8>| #[trigger]
                spec_payload(id@, s) == after(0, T::spec_parse_nbt_payload(s), embed@),
        decreases n - i,
    {
        let ghost consumed = data@.len() - cur@.len();
        match T::try_parse_nbt_payload(cur) {
            Ok((v, rest)) => {
                let ghost old_items = items@;
                let ghost old_m = spec_elems(id@, i as nat, data@)->Ok_0.0;
                proof {
                    lemma_elems_step(id@, i as nat, data@, old_m, consumed);
                }
                items.push(v);
                assert forall|k: int| 0 <= k < items@.len() implies #[trigger] spec_elems(
                    id@,
                    (i + 1) as nat,
                    data@,
                )->Ok_0.0[k] == embed@(items@[k]@) by {
                    if k < old_items.len() {
                        assert(items@[k] == old_items[k]);
                    }
                }
                assert(rest@ =~= data@.skip(data@.len() - rest@.len()));
                cur = rest;
            },
            Err(e) => {
                assert(spec_elems(id@, (i + 1) as nat, data@) == Err::<
                    (Seq<TagModel>, int),
                    ParseFault,
                >(e@)) by {
                    assert(spec_payload(id@, data@.skip(consumed)) == after(
                        0,
                        T::spec_parse_nbt_payload(cur@),
                        embed@,
                    ));
                }
                proof {
                    lemma_elems_err(id@, (i + 1) as nat, n as nat, data@);
                }
                return Err(e);
            },
        }
        i += 1;
    }
    Ok((items, cur))
}

/// Reads a list: the kind of its items, their number, then their payloads.
pub(crate) fn parse_list(data: &[u8]) -> (r: Result<(NbtList, &[u8]), ParseError>)
    ensures
        parsed(data@, r, spec_list(data@)),
    decreases data@.len(), 0nat,
{
    let (tag_id, data1) = parse_tag_id(data)?;
    match tag_id {
        NbtTagId::Byte => {
            let (a, rest) = parse_byte_array(data1)?;
            assert(rest@ =~= data@.skip(data@.len() - rest@.len()));
            return Ok((NbtList::Byte(a), rest));
        },
        NbtTagId::Int => {
            let (a, rest) = parse_int_array(data1)?;
            assert(rest@ =~= data@.skip(data@.len() - rest@.len()));
            return Ok((NbtList::Int(a), rest));
        },
        NbtTagId::Long => {
            let (a, rest) = parse_long_array(data1)?;
            assert(rest@ =~= data@.skip(data@.len() - rest@.len()));
            return Ok((NbtList::Long(a), rest));
        },
        _ => {},
    }
    let (n, data2) = parse_len(data1)?;
    assert(data2@ =~= data@.skip(5));
    if tag_id == NbtTagId::End {
        return Ok((NbtList::End, data2));
    }
    let (list, rest) = parse_items(tag_id, n, data2)?;
    assert(rest@ =~= data@.skip(data@.len() - rest@.len()));
    Ok((list, rest))
}

/// Reads `n` payloads of a kind other than those read as arrays, as a list.
fn parse_items(tag_id: NbtTagId, n: usize, data: &[u8]) -> (r: Result<(NbtList, &[u8]), ParseError>)
    requires
        n <= i32::MAX,
        tag_id != NbtTagId::End,
        tag_id != NbtTagId::Byte,
        tag_id != NbtTagId::Int,
        tag_id != NbtTagId::Long,
    ensures
        parsed(
            data@,
            r,
            after(0, spec_elems(tag_id, n as nat, data@), |items: Seq<TagModel>| TagModel::List(tag_id, items)),
        ),
    decreases data@.len(), 2nat,
{
    match tag_id {
        NbtTagId::List => parse_list_items(n, data),
        NbtTagId::Compound => parse_compound_items(n, data),
        _ => parse_leaf_items(tag_id, n, data),
    }
}

/// Reads `n` payloads of a kind that holds no other tag, as a list.
fn parse_leaf_items(tag_id: NbtTagId, n: usize, data: &[u8]) -> (r: Result<(NbtList, &[u8]), ParseError>)
    requires
        n <= i32::MAX,
        tag_id != NbtTagId::End,
        tag_id != NbtTagId::Byte,
        tag_id != NbtTagId::Int,
        tag_id != NbtTagId::Long,
        tag_id != NbtTagId::List,
        tag_id != NbtTagId::Compound,
    ensures
        parsed(
            data@,
            r,
            after(0, spec_elems(tag_id, n as nat, data@), |items: Seq<TagModel>| TagModel::List(tag_id, items)),
        ),
{
    match tag_id {
        NbtTagId::Short => {
            let ghost embed: spec_fn(i16) -> TagModel = |v: i16| TagModel::Short(v);
            assert forall|s: Seq<u8>| #[trigger]
                spec_payload(NbtTagId::Short, s) == after(
                    0,
                    <i16 as NbtParse>::spec_parse_nbt_payload(s),
                    embed,
                ) by {
                match spec_u16(s) {
                    Ok(_) => {},
                    Err(_) => {},
                }
            }
            let (items, rest) = parse_elems::<i16>(Ghost(NbtTagId::Short), Ghost(embed), n, data)?;
            assert(spec_elems(NbtTagId::Short, n as nat, data@)->Ok_0.0 =~= items@.map_values(|v: i16| TagModel::Short(v)));
            let list = NbtList::Short(NbtArray { items });
            Ok((list, rest))
        },
        NbtTagId::Float => {
            let ghost embed: spec_fn(u32) -> TagModel = |v: u32| TagModel::Float(v);
            assert forall|s: Seq<u8>| #[trigger]
                spec_payload(NbtTagId::Float, s) == after(
                    0,
                    <F32Bits as NbtParse>::spec_parse_nbt_payload(s),
                    embed,
                ) by {
                match spec_u32(s) {
                    Ok(_) => {},
                    Err(_) => {},
                }
            }
            let (items, rest) = parse_elems::<F32Bits>(Ghost(NbtTagId::Float), Ghost(embed), n, data)?;
            assert(spec_elems(NbtTagId::Float, n as nat, data@)->Ok_0.0 =~= items@.map_values(|v: F32Bits| TagModel::Float(v.bits)));
            let list = NbtList::Float(NbtArray { items });
            Ok((list, rest))
        },
        NbtTagId::Double => {
            let ghost embed: spec_fn(u64) -> TagModel = |v: u64| TagModel::Double(v);
            assert forall|s: Seq<u8>| #[trigger]
                spec_payload(NbtTagId::Double, s) == after(
                    0,
                    <F64Bits as NbtParse>::spec_parse_nbt_payload(s),
                    embed,
                ) by {
                match spec_u64(s) {
                    Ok(_) => {},
                    Err(_) => {},
                }
            }
            let (items, rest) = parse_elems::<F64Bits>(Ghost(NbtTagId::Double), Ghost(embed), n, data)?;
            assert(spec_elems(NbtTagId::Double, n as nat, data@)->Ok_0.0 =~= items@.map_values(|v: F64Bits| TagModel::Double(v.bits)));
            let list = NbtList::Double(NbtArray { items });
            Ok((list, rest))
        },
        NbtTagId::ByteArray => {
            let ghost embed: spec_fn(Seq<i8>) -> TagModel = |v: Seq<i8>| TagModel::ByteArray(v);
            assert forall|s: Seq<u8>| #[trigger]
                spec_payload(NbtTagId::ByteArray, s) == after(
                    0,
                    <NbtArray<i8> as NbtParse>::spec_parse_nbt_payload(s),
                    embed,
                ) by {
                match spec_byte_array(s) {
                    Ok(_) => {},
                    Err(_) => {},
                }
            }
            let (items, rest) = parse_elems::<NbtArray<i8>>(Ghost(NbtTagId::ByteArray), Ghost(embed), n, data)?;
            assert(spec_elems(NbtTagId::ByteArray, n as nat, data@)->Ok_0.0 =~= items@.map_values(|v: NbtArray<i8>| TagModel::ByteArray(v.items@)));
            let list = NbtList::ByteArray(NbtArray { items });
            Ok((list, rest))
        },
        NbtTagId::String => {
            let ghost embed: spec_fn(Seq<char>) -> TagModel = |v: Seq<char>| TagModel::String(v);
            assert forall|s: Seq<u8>| #[trigger]
                spec_payload(NbtTagId::String, s) == after(
                    0,
                    <NbtString as NbtParse>::spec_parse_nbt_payload(s),
                    embed,
                ) by {
                match spec_string(s) {
                    Ok(_) => {},
                    Err(_) => {},
                }
            }
            let (items, rest) = parse_elems::<NbtString>(Ghost(NbtTagId::String), Ghost(embed), n, data)?;
            assert(spec_elems(NbtTagId::String, n as nat, data@)->Ok_0.0 =~= items@.map_values(|v: NbtString| TagModel::String(v.str@)));
            let list = NbtList::String(NbtArray { items });
            Ok((list, rest))
        },
        NbtTagId::IntArray => {
            let ghost embed: spec_fn(Seq<i32>) -> TagModel = |v: Seq<i32>| TagModel::IntArray(v);
            assert forall|s: Seq<u8>| #[trigger]
                spec_payload(NbtTagId::IntArray, s) == after(
                    0,
                    <NbtArray<i32> as NbtParse>::spec_parse_nbt_payload(s),
                    embed,
                ) by {
                match spec_int_array(s) {
                    Ok(_) => {},
                    Err(_) => {},
                }
            }
            let (items, rest) = parse_elems::<NbtArray<i32>>(Ghost(NbtTagId::IntArray), Ghost(embed), n, data)?;
            assert(spec_elems(NbtTagId::IntArray, n as nat, data@)->Ok_0.0 =~= items@.map_values(|v: NbtArray<i32>| TagModel::IntArray(v.items@)));
            let list = NbtList::IntArray(NbtArray { items });
            Ok((list, rest))
        },
        NbtTagId::LongArray => {
            let ghost embed: spec_fn(Seq<i64>) -> TagModel = |v: Seq<i64>| TagModel::LongArray(v);
            assert forall|s: Seq<u8>| #[trigger]
                spec_payload(NbtTagId::LongArray, s) == after(
                    0,
                    <NbtArray<i64> as NbtParse>::spec_parse_nbt_payload(s),
                    embed,
                ) by {
                match spec_long_array(s) {
                    Ok(_) => {},
                    Err(_) => {},
                }
            }
            let (items, rest) = parse_elems::<NbtArray<i64>>(Ghost(NbtTagId::LongArray), Ghost(embed), n, data)?;
            assert(spec_elems(NbtTagId::LongArray, n as nat, data@)->Ok_0.0 =~= items@.map_values(|v: NbtArray<i64>| TagModel::LongArray(v.items@)));
            let list = NbtList::LongArray(NbtArray { items });
            Ok((list, rest))
        },
        _ => vstd::pervasive::unreached(),
    }
}

/// Reads `n` lists, as a list.
fn parse_list_items(n: usize, data: &[u8]) -> (r: Result<(NbtList, &[u8]), ParseError>)
    requires
        n <= i32::MAX,
    ensures
        parsed(
            data@,
            r,
            after(0, spec_elems(NbtTagId::List, n as nat, data@), |items: Seq<TagModel>| TagModel::List(NbtTagId::List, items)),
        ),
    decreases data@.len(), 1nat,
{
    let mut items: Vec<NbtList> = Vec::new();
    let mut cur = data;
    let mut i: usize = 0;
    assert(lists_model(items@) =~= Seq::<TagModel>::empty());
    assert(data@.skip(0) =~= data@);
    while i < n
        invariant
            i <= n,
            items@.len() == i,
            cur@.len() <= data@.len(),
            cur@ == data@.skip(data@.len() - cur@.len()),
            spec_elems(NbtTagId::List, i as nat, data@) == Ok::<
                (Seq<TagModel>, int),
                ParseFault,
            >((lists_model(items@), data@.len() - cur@.len())),
        decreases n - i,
    {
        let ghost consumed = data@.len() - cur@.len();
        proof {
            lemma_elems_step(NbtTagId::List, i as nat, data@, lists_model(items@), consumed);
            lemma_payload_list(cur@);
        }
        match parse_list(cur) {
            Ok((v, rest)) => {
                let ghost old_items = items@;
                items.push(v);
                assert(items@.drop_last() =~= old_items);
                assert(rest@ =~= data@.skip(data@.len() - rest@.len()));
                cur = rest;
            },
            Err(e) => {
                proof {
                    lemma_elems_err(NbtTagId::List, (i + 1) as nat, n as nat, data@);
                }
                return Err(e);
            },
        }
        i += 1;
    }
    Ok((NbtList::List(NbtArray { items }), cur))
}

/// Reads `n` compounds, as a list.
fn parse_compound_items(n: usize, data: &[u8]) -> (r: Result<(NbtList, &[u8]), ParseError>)
    requires
        n <= i32::MAX,
    ensures
        parsed(
            data@,
            r,
            after(0, spec_elems(NbtTagId::Compound, n as nat, data@), |items: Seq<TagModel>| TagModel::List(NbtTagId::Compound, items)),
        ),
    decreases data@.len(), 1nat,
{
    let mut items: Vec<NbtCompound> = Vec::new();
    let mut cur = data;
    let mut i: usize = 0;
    assert(compounds_model(items@) =~= Seq::<TagModel>::empty());
    assert(data@.skip(0) =~= data@);
    while i < n
        invariant
            i <= n,
            items@.len() == i,
            cur@.len() <= data@.len(),
            cur@ == data@.skip(data@.len() - cur@.len()),
            spec_elems(NbtTagId::Compound, i as nat, data@) == Ok::<
                (Seq<TagModel>, int),
                ParseFault,
            >((compounds_model(items@), data@.len() - cur@.len())),
        decreases n - i,
    {
        let ghost consumed = data@.len() - cur@.len();
        proof {
            lemma_elems_step(NbtTagId::Compound, i as nat, data@, compounds_model(items@), consumed);
            lemma_payload_compound(cur@);
        }
        match parse_compound(cur) {
            Ok((v, rest)) => {
                let ghost old_items = items@;
                items.push(v);
                assert(items@.drop_last() =~= old_items);
                assert(rest@ =~= data@.skip(data@.len() - rest@.len()));
                cur = rest;
            },
            Err(e) => {
                proof {
                    lemma_elems_err(NbtTagId::Compound, (i + 1) as nat, n as nat, data@);
                }
                return Err(e);
            },
        }
        i += 1;
    }
    Ok((NbtList::Compound(NbtArray { items }), cur))
}

/// Reads the payload of a tag of the given kind.
pub(crate) fn parse_payload(tag_id: NbtTagId, data: &[u8]) -> (r: Result<(NbtTag, &[u8]), ParseError>)
    ensures
        parsed(data@, r, spec_payload(tag_id, data@)),
    decreases data@.len(), 1nat,
{
    match tag_id {
        NbtTagId::End => {
            assert(data@.skip(0) =~= data@);
            Ok((NbtTag::End, data))
        },
        NbtTagId::Byte => {
            let (v, rest) = parse_byte(data)?;
            Ok((NbtTag::Byte(v), rest))
        },
        NbtTagId::Short => {
            let (v, rest) = parse_short(data)?;
            Ok((NbtTag::Short(v), rest))
        },
        NbtTagId::Int => {
            let (v, rest) = parse_int(data)?;
            Ok((NbtTag::Int(v), rest))
        },
        NbtTagId::Long => {
            let (v, rest) = parse_long(data)?;
            Ok((NbtTag::Long(v), rest))
        },
        NbtTagId::Float => {
            let (v, rest) = parse_float(data)?;
            Ok((NbtTag::Float(v), rest))
        },
        NbtTagId::Double => {
            let (v, rest) = parse_double(data)?;
            Ok((NbtTag::Double(v), rest))
        },
        NbtTagId::ByteArray => {
            let (v, rest) = parse_byte_array(data)?;
            Ok((NbtTag::ByteArray(v), rest))
        },
        NbtTagId::String => {
            let (v, rest) = parse_string(data)?;
            Ok((NbtTag::String(v), rest))
        },
        NbtTagId::List => {
            proof {
                lemma_payload_list(data@);
            }
            let (v, rest) = parse_list(data)?;
            Ok((NbtTag::List(v), rest))
        },
        NbtTagId::Compound => {
            proof {
                lemma_payload_compound(data@);
            }
            let (v, rest) = parse_compound(data)?;
            Ok((NbtTag::Compound(v), rest))
        },
        NbtTagId::IntArray => {
            let (v, rest) = parse_int_array(data)?;
            Ok((NbtTag::IntArray(v), rest))
        },
        NbtTagId::LongArray => {
            let (v, rest) = parse_long_array(data)?;
            Ok((NbtTag::LongArray(v), rest))
        },
    }
}

/// Whether some entry already has the name.
fn contains_name(compound: &Vec<(NbtString, NbtTag)>, name: &NbtString) -> (b: bool)
    ensures
        b == has_name(entries_model(compound@), name@),
{
    proof {
        lemma_entries_model(compound@);
    }
    let ghost acc = entries_model(compound@);
    let mut j: usize = 0;
    while j < compound.len()
        invariant
            j <= compound@.len(),
            acc == entries_model(compound@),
            acc.len() == compound@.len(),
            forall|k: int|
                0 <= k < compound@.len() ==> #[trigger] acc[k] == (compound@[k].0@, compound@[k].1@),
            forall|k: int| 0 <= k < j ==> (#[trigger] acc[k]).0 != name@,
        decreases compound@.len() - j,
    {
        if compound[j].0 == *name {
            assert(acc[j as int].0 == name@);
            return true;
        }
        j += 1;
    }
    false
}

/// Adding an entry under a name that no entry has, with a tag other than `End`,
/// keeps the names distinct and leaves no `End` among the tags.
proof fn lemma_push_new_name(data: Seq<(NbtString, NbtTag)>, name: NbtString, tag: NbtTag)
    requires
        NbtCompound::distinct_names(data),
        NbtCompound::no_end_values(data),
        !has_name(entries_model(data), name@),
        !tag.is_end_spec(),
    ensures
        NbtCompound::distinct_names(data.push((name, tag))),
        NbtCompound::no_end_values(data.push((name, tag))),
{
    reveal(NbtCompound::no_end_values);
    assert forall|i: int| 0 <= i < data.len() + 1 implies !(#[trigger] data.push((name, tag))[i]).1.is_end_spec() by {
        if i < data.len() {
            assert(data.push((name, tag))[i] == data[i]);
        }
    }
    reveal(NbtCompound::distinct_names);
    lemma_entries_model(data);
    let acc = entries_model(data);
    assert forall|k: int| 0 <= k < data.len() implies data[k].0@ != name@ by {
        assert(acc[k] == (data[k].0@, data[k].1@));
    }
    let next = data.push((name, tag));
    assert forall|i: int, j: int| 0 <= i < j < next.len() implies next[i].0@ != next[j].0@ by {
        if j < data.len() {
            assert(next[i] == data[i] && next[j] == data[j]);
        } else {
            assert(next[i] == data[i]);
        }
    }
}

/// Reads the entries of a compound up to its `End`, refusing a name met twice.
#[verifier::spinoff_prover]
pub(crate) fn parse_compound(data: &[u8]) -> (r: Result<(NbtCompound, &[u8]), ParseError>)
    ensures
        parsed(data@, r, spec_entries(Seq::empty(), data@)),
    decreases data@.len(), 0nat,
{
    let mut compound: Vec<(NbtString, NbtTag)> = Vec::new();
    let mut cur = data;
    assert(entries_model(compound@) =~= Seq::<(Seq<char>, TagModel)>::empty());
    assert(data@.skip(0) =~= data@);
    proof {
        lemma_shifted_zero(spec_entries(Seq::empty(), data@));
    }
    assert(NbtCompound::distinct_names(compound@)) by {
        reveal(NbtCompound::distinct_names);
    }
    assert(NbtCompound::no_end_values(compound@)) by {
        reveal(NbtCompound::no_end_values);
    }
    loop
        invariant
            NbtCompound::distinct_names(compound@),
            NbtCompound::no_end_values(compound@),
            cur@.len() <= data@.len(),
            cur@ == data@.skip(data@.len() - cur@.len()),
            spec_entries(Seq::empty(), data@) == shifted(
                data@.len() - cur@.len(),
                spec_entries(entries_model(compound@), cur@),
            ),
        decreases cur@.len(),
    {
        let ghost consumed = data@.len() - cur@.len();
        let ghost acc = entries_model(compound@);
        let (tag_id, rest) = parse_tag_id(cur)?;
        if tag_id == NbtTagId::End {
            assert(rest@ =~= data@.skip(consumed + 1));
            return Ok((NbtCompound { data: compound }, rest));
        }
        let (name, rest1) = parse_string(rest)?;
        assert(rest1@ =~= cur@.skip(cur@.len() - rest1@.len()));
        let (tag, rest) = parse_payload(tag_id, rest1)?;
        assert(rest@ =~= cur@.skip(cur@.len() - rest@.len()));
        if contains_name(&compound, &name) {
            proof {
                lemma_entries_dup(
                    acc,
                    cur@,
                    tag_id,
                    name@,
                    cur@.len() - 1 - rest1@.len(),
                    tag@,
                    rest1@.len() - rest@.len(),
                );
            }
            return Err(ParseError::DuplicateTagName(name));
        }
        assert(!has_name(acc, name@));
        proof {
            crate::laws::lemma_payload_wf(tag_id, rest1@);
            lemma_push_new_name(compound@, name, tag);
        }
        let ghost step = data@.len() - consumed - rest@.len();
        let ghost old_compound = compound@;
        compound.push((name, tag));
        assert(compound@.drop_last() =~= old_compound);
        assert(entries_model(compound@) == acc.push((name@, tag@)));
        proof {
            lemma_shifted(consumed, step, spec_entries(entries_model(compound@), rest@));
        }
        assert(rest@ =~= data@.skip(data@.len() - rest@.len()));
        cur = rest;
    }
}

/// Parses a named `NbtCompound` from a byte slice.
///
/// # Errors
/// Will fail if the nbt data is invalid, or if there is any leftover data after parsing.
pub fn parse_nbt(data: &[u8]) -> (r: Result<(NbtString, NbtCompound), ParseError>)
    ensures
        match r {
            Ok((name, c)) => spec_nbt(data@) == Ok::<(Seq<char>, Entries), ParseFault>((name@, c@)),
            Err(e) => spec_nbt(data@) == Err::<(Seq<char>, Entries), ParseFault>(e@),
        },
{
    let (tag_id, data1) = parse_tag_id(data)?;
    if tag_id != NbtTagId::Compound {
        return Err(ParseError::NotNBT);
    }
    let (name, data2) = parse_string(data1)?;
    assert(data2@ =~= data@.skip(data@.len() - data2@.len()));
    let (tag, data3) = parse_compound(data2)?;
    assert(data3@ =~= data@.skip(data@.len() - data3@.len()));
    if !data3.is_empty() {
        Err(ParseError::LeftoverData(data3.len()))
    } else {
        Ok((name, tag))
    }
}

} // verus!
