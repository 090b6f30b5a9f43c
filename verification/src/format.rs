//! The NBT binary format, as a function from values to bytes and one from bytes to
//! values (or to the first fault met while reading).
use vstd::prelude::*;
use vstd::utf8::{decode_utf8, encode_utf8, valid_utf8};

use crate::error::ParseFault;
use crate::types::{Entries, NbtTagId, TagModel};

verus! {

// ---------------------------------------------------------------------------
// Big-endian numbers
// ---------------------------------------------------------------------------

/// The two bytes of `v`, most significant first.
pub open spec fn be16(v: u16) -> Seq<u8> {
    seq![(v >> 8u16) as u8, v as u8]
}

/// The four bytes of `v`, most significant first.
pub open spec fn be32(v: u32) -> Seq<u8> {
    seq![(v >> 24u32) as u8, (v >> 16u32) as u8, (v >> 8u32) as u8, v as u8]
}

/// The eight bytes of `v`, most significant first.
pub open spec fn be64(v: u64) -> Seq<u8> {
    seq![
        (v >> 56u64) as u8,
        (v >> 48u64) as u8,
        (v >> 40u64) as u8,
        (v >> 32u64) as u8,
        (v >> 24u64) as u8,
        (v >> 16u64) as u8,
        (v >> 8u64) as u8,
        v as u8,
    ]
}

/// The number that the first two bytes of `s` spell, most significant first.
pub open spec fn read16(s: Seq<u8>) -> u16 {
    ((s[0] as u16) << 8u16) | (s[1] as u16)
}

/// The number that the first four bytes of `s` spell, most significant first.
pub open spec fn read32(s: Seq<u8>) -> u32 {
    ((s[0] as u32) << 24u32) | ((s[1] as u32) << 16u32) | ((s[2] as u32) << 8u32) | (s[3] as u32)
}

/// The number that the first eight bytes of `s` spell, most significant first.
pub open spec fn read64(s: Seq<u8>) -> u64 {
    ((s[0] as u64) << 56u64) | ((s[1] as u64) << 48u64) | ((s[2] as u64) << 40u64) | ((s[3] as u64)
        << 32u64) | ((s[4] as u64) << 24u64) | ((s[5] as u64) << 16u64) | ((s[6] as u64) << 8u64)
        | (s[7] as u64)
}

// ---------------------------------------------------------------------------
// Writing
// ---------------------------------------------------------------------------

/// The kind of tag that a value is.
pub open spec fn tag_kind(t: TagModel) -> NbtTagId {
    match t {
        TagModel::End => NbtTagId::End,
        TagModel::Byte(_) => NbtTagId::Byte,
        TagModel::Short(_) => NbtTagId::Short,
        TagModel::Int(_) => NbtTagId::Int,
        TagModel::Long(_) => NbtTagId::Long,
        TagModel::Float(_) => NbtTagId::Float,
        TagModel::Double(_) => NbtTagId::Double,
        TagModel::ByteArray(_) => NbtTagId::ByteArray,
        TagModel::String(_) => NbtTagId::String,
        TagModel::List(_, _) => NbtTagId::List,
        TagModel::Compound(_) => NbtTagId::Compound,
        TagModel::IntArray(_) => NbtTagId::IntArray,
        TagModel::LongArray(_) => NbtTagId::LongArray,
    }
}

/// The length of an array or a list, written as an `i32`.
pub open spec fn encode_len(n: nat) -> Seq<u8> {
    be32((n as i32) as u32)
}

/// A string: its length in UTF-8 bytes as a `u16`, then those bytes.
pub open spec fn encode_string(s: Seq<char>) -> Seq<u8> {
    be16(encode_utf8(s).len() as u16) + encode_utf8(s)
}

/// The bytes of a byte array, each as it is stored.
pub open spec fn encode_bytes(a: Seq<i8>) -> Seq<u8> {
    a.map_values(|v: i8| v as u8)
}

/// The items of an int array, each big-endian.
pub open spec fn encode_ints(a: Seq<i32>) -> Seq<u8>
    decreases a.len(),
{
    if a.len() == 0 {
        Seq::empty()
    } else {
        encode_ints(a.drop_last()) + be32(a.last() as u32)
    }
}

/// The items of a long array, each big-endian.
pub open spec fn encode_longs(a: Seq<i64>) -> Seq<u8>
    decreases a.len(),
{
    if a.len() == 0 {
        Seq::empty()
    } else {
        encode_longs(a.drop_last()) + be64(a.last() as u64)
    }
}

/// The payload of a tag: what follows its kind (and its name, in a compound).
pub open spec fn encode_payload(t: TagModel) -> Seq<u8>
    decreases t,
{
    match t {
        TagModel::End => Seq::empty(),
        TagModel::Byte(v) => seq![v as u8],
        TagModel::Short(v) => be16(v as u16),
        TagModel::Int(v) => be32(v as u32),
        TagModel::Long(v) => be64(v as u64),
        TagModel::Float(v) => be32(v),
        TagModel::Double(v) => be64(v),
        TagModel::ByteArray(a) => encode_len(a.len()) + encode_bytes(a),
        TagModel::String(s) => encode_string(s),
        TagModel::List(id, items) => seq![id.spec_byte()] + encode_len(items.len()) + encode_items(
            items,
        ),
        TagModel::Compound(c) => encode_entries(c) + seq![0u8],
        TagModel::IntArray(a) => encode_len(a.len()) + encode_ints(a),
        TagModel::LongArray(a) => encode_len(a.len()) + encode_longs(a),
    }
}

/// The payloads of the items of a list, one after the other.
pub open spec fn encode_items(items: Seq<TagModel>) -> Seq<u8>
    decreases items,
{
    if items.len() == 0 {
        Seq::empty()
    } else {
        encode_items(items.drop_last()) + encode_payload(items.last())
    }
}

/// The entries of a compound, each as its kind, its name and its payload.
pub open spec fn encode_entries(c: Entries) -> Seq<u8>
    decreases c,
{
    if c.len() == 0 {
        Seq::empty()
    } else {
        encode_entries(c.drop_last()) + seq![tag_kind(c.last().1).spec_byte()] + encode_string(
            c.last().0,
        ) + encode_payload(c.last().1)
    }
}

/// A whole NBT document: a named compound.
pub open spec fn encode_nbt(name: Seq<char>, c: Entries) -> Seq<u8> {
    seq![NbtTagId::Compound.spec_byte()] + encode_string(name) + encode_payload(
        TagModel::Compound(c),
    )
}

// ---------------------------------------------------------------------------
// Values that the format can hold
// ---------------------------------------------------------------------------

/// Whether a compound already holds a name.
pub open spec fn has_name(c: Entries, name: Seq<char>) -> bool {
    exists|i: int| 0 <= i < c.len() && (#[trigger] c[i]).0 == name
}

/// Whether a string fits: its length in bytes is written as a `u16`.
pub open spec fn wf_string(s: Seq<char>) -> bool {
    encode_utf8(s).len() <= u16::MAX
}

/// Whether writing a tag and reading it back gives the tag: every length fits
/// its field, every list holds items of its own kind only (and none if that kind
/// is `End`), and every compound holds distinct names and no `End` tag.
pub open spec fn wf_tag(t: TagModel) -> bool
    decreases t,
{
    match t {
        TagModel::ByteArray(a) => a.len() <= i32::MAX,
        TagModel::String(s) => wf_string(s),
        TagModel::List(id, items) => {
            &&& items.len() <= i32::MAX
            &&& id == NbtTagId::End ==> items.len() == 0
            &&& wf_items(id, items)
        },
        TagModel::Compound(c) => wf_entries(c),
        TagModel::IntArray(a) => a.len() <= i32::MAX,
        TagModel::LongArray(a) => a.len() <= i32::MAX,
        _ => true,
    }
}

/// Whether every item of a list is a well-formed tag of the given kind.
pub open spec fn wf_items(id: NbtTagId, items: Seq<TagModel>) -> bool
    decreases items,
{
    if items.len() == 0 {
        true
    } else {
        &&& wf_items(id, items.drop_last())
        &&& tag_kind(items.last()) == id
        &&& wf_tag(items.last())
    }
}

/// Whether the entries of a compound have distinct names that fit, and
/// well-formed values none of which is `End`.
pub open spec fn wf_entries(c: Entries) -> bool
    decreases c,
{
    if c.len() == 0 {
        true
    } else {
        &&& wf_entries(c.drop_last())
        &&& !has_name(c.drop_last(), c.last().0)
        &&& wf_string(c.last().0)
        &&& !(c.last().1 is End)
        &&& wf_tag(c.last().1)
    }
}

// ---------------------------------------------------------------------------
// Reading
// ---------------------------------------------------------------------------

/// A value read from the front of some bytes, with how many bytes it took.
pub type Read<A> = Result<(A, int), ParseFault>;

/// What was read, turned by `f`, as though `k` more bytes had been read before it.
pub open spec fn after<A, B>(k: int, r: Read<A>, f: spec_fn(A) -> B) -> Read<B> {
    match r {
        Ok((v, n)) => Ok((f(v), k + n)),
        Err(e) => Err(e),
    }
}

/// One byte.
pub open spec fn spec_u8(s: Seq<u8>) -> Read<u8> {
    if s.len() < 1 {
        Err(ParseFault::UnexpectedEndOfInput)
    } else {
        Ok((s[0], 1))
    }
}

/// A big-endian 2-byte number.
pub open spec fn spec_u16(s: Seq<u8>) -> Read<u16> {
    if s.len() < 2 {
        Err(ParseFault::UnexpectedEndOfInput)
    } else {
        Ok((read16(s), 2))
    }
}

/// A big-endian 4-byte number.
pub open spec fn spec_u32(s: Seq<u8>) -> Read<u32> {
    if s.len() < 4 {
        Err(ParseFault::UnexpectedEndOfInput)
    } else {
        Ok((read32(s), 4))
    }
}

/// A big-endian 8-byte number.
pub open spec fn spec_u64(s: Seq<u8>) -> Read<u64> {
    if s.len() < 8 {
        Err(ParseFault::UnexpectedEndOfInput)
    } else {
        Ok((read64(s), 8))
    }
}

/// The byte that introduces a tag, as its kind.
pub open spec fn spec_tag_id(s: Seq<u8>) -> Read<NbtTagId> {
    if s.len() < 1 {
        Err(ParseFault::UnexpectedEndOfInput)
    } else {
        match NbtTagId::spec_from_byte(s[0]) {
            Some(id) => Ok((id, 1)),
            None => Err(ParseFault::InvalidTagId(s[0])),
        }
    }
}

/// The length of an array or a list: an `i32` that may not be negative.
pub open spec fn spec_len(s: Seq<u8>) -> Read<nat> {
    if s.len() < 4 {
        Err(ParseFault::UnexpectedEndOfInput)
    } else if (read32(s) as i32) < 0 {
        Err(ParseFault::NegativeLength(read32(s) as i32))
    } else {
        Ok(((read32(s) as i32) as nat, 4))
    }
}

/// Bytes as signed bytes.
pub open spec fn decode_bytes(b: Seq<u8>) -> Seq<i8> {
    b.map_values(|v: u8| v as i8)
}

/// Bytes as big-endian `i32`s, four bytes each.
pub open spec fn decode_ints(b: Seq<u8>) -> Seq<i32> {
    Seq::new(b.len() / 4, |i: int| read32(b.subrange(4 * i, 4 * i + 4)) as i32)
}

/// Bytes as big-endian `i64`s, eight bytes each.
pub open spec fn decode_longs(b: Seq<u8>) -> Seq<i64> {
    Seq::new(b.len() / 8, |i: int| read64(b.subrange(8 * i, 8 * i + 8)) as i64)
}

/// A byte array: its length, then that many bytes.
pub open spec fn spec_byte_array(s: Seq<u8>) -> Read<Seq<i8>> {
    match spec_len(s) {
        Err(e) => Err(e),
        Ok((n, _)) => if s.len() < 4 + n {
            Err(ParseFault::UnexpectedEndOfInput)
        } else {
            Ok((decode_bytes(s.subrange(4, 4 + n as int)), 4 + n as int))
        },
    }
}

/// An int array: its length, then that many `i32`s.
pub open spec fn spec_int_array(s: Seq<u8>) -> Read<Seq<i32>> {
    match spec_len(s) {
        Err(e) => Err(e),
        Ok((n, _)) => if s.len() < 4 + 4 * n {
            Err(ParseFault::UnexpectedEndOfInput)
        } else {
            Ok((decode_ints(s.subrange(4, 4 + 4 * n as int)), 4 + 4 * n as int))
        },
    }
}

/// A long array: its length, then that many `i64`s.
pub open spec fn spec_long_array(s: Seq<u8>) -> Read<Seq<i64>> {
    match spec_len(s) {
        Err(e) => Err(e),
        Ok((n, _)) => if s.len() < 4 + 8 * n {
            Err(ParseFault::UnexpectedEndOfInput)
        } else {
            Ok((decode_longs(s.subrange(4, 4 + 8 * n as int)), 4 + 8 * n as int))
        },
    }
}

/// A string: a 2-byte length, then that many bytes of UTF-8.
pub open spec fn spec_string(s: Seq<u8>) -> Read<Seq<char>> {
    if s.len() < 2 {
        Err(ParseFault::UnexpectedEndOfInput)
    } else if s.len() < 2 + read16(s) {
        Err(ParseFault::UnexpectedEndOfInput)
    } else if !valid_utf8(s.subrange(2, 2 + read16(s))) {
        Err(ParseFault::InvalidUtf8)
    } else {
        Ok((decode_utf8(s.subrange(2, 2 + read16(s))), 2 + read16(s)))
    }
}

/// The payload of a tag of the given kind.
pub open spec fn spec_payload(id: NbtTagId, s: Seq<u8>) -> Read<TagModel>
    decreases s.len(), 1nat, 0nat,
{
    match id {
        NbtTagId::End => Ok((TagModel::End, 0)),
        NbtTagId::Byte => after(0, spec_u8(s), |v: u8| TagModel::Byte(v as i8)),
        NbtTagId::Short => after(0, spec_u16(s), |v: u16| TagModel::Short(v as i16)),
        NbtTagId::Int => after(0, spec_u32(s), |v: u32| TagModel::Int(v as i32)),
        NbtTagId::Long => after(0, spec_u64(s), |v: u64| TagModel::Long(v as i64)),
        NbtTagId::Float => after(0, spec_u32(s), |v: u32| TagModel::Float(v)),
        NbtTagId::Double => after(0, spec_u64(s), |v: u64| TagModel::Double(v)),
        NbtTagId::ByteArray => after(0, spec_byte_array(s), |a: Seq<i8>| TagModel::ByteArray(a)),
        NbtTagId::String => after(0, spec_string(s), |v: Seq<char>| TagModel::String(v)),
        NbtTagId::List => spec_list(s),
        NbtTagId::Compound => after(
            0,
            spec_entries(Seq::empty(), s),
            |c: Entries| TagModel::Compound(c),
        ),
        NbtTagId::IntArray => after(0, spec_int_array(s), |a: Seq<i32>| TagModel::IntArray(a)),
        NbtTagId::LongArray => after(0, spec_long_array(s), |a: Seq<i64>| TagModel::LongArray(a)),
    }
}

/// A list: the kind of its items, their number, then their payloads. Lists of
/// bytes, ints and longs are read as the arrays of the same layout; a list of
/// kind `End` holds nothing, whatever number follows its kind.
pub open spec fn spec_list(s: Seq<u8>) -> Read<TagModel>
    decreases s.len(), 0nat, 0nat,
{
    match spec_tag_id(s) {
        Err(e) => Err(e),
        Ok((id, _)) => if id == NbtTagId::Byte {
            after(
                1,
                spec_byte_array(s.skip(1)),
                |a: Seq<i8>| TagModel::List(NbtTagId::Byte, a.map_values(|v: i8| TagModel::Byte(v))),
            )
        } else if id == NbtTagId::Int {
            after(
                1,
                spec_int_array(s.skip(1)),
                |a: Seq<i32>| TagModel::List(NbtTagId::Int, a.map_values(|v: i32| TagModel::Int(v))),
            )
        } else if id == NbtTagId::Long {
            after(
                1,
                spec_long_array(s.skip(1)),
                |a: Seq<i64>| TagModel::List(NbtTagId::Long, a.map_values(|v: i64| TagModel::Long(v))),
            )
        } else {
            match spec_len(s.skip(1)) {
                Err(e) => Err(e),
                Ok((n, _)) => if id == NbtTagId::End {
                    Ok((TagModel::List(NbtTagId::End, Seq::empty()), 5))
                } else {
                    after(
                        5,
                        spec_elems(id, n, s.skip(5)),
                        |items: Seq<TagModel>| TagModel::List(id, items),
                    )
                },
            }
        },
    }
}

/// The first `n` payloads of the given kind, one after the other.
pub open spec fn spec_elems(id: NbtTagId, n: nat, s: Seq<u8>) -> Read<Seq<TagModel>>
    decreases s.len(), 2nat, n,
{
    if n == 0 {
        Ok((Seq::empty(), 0))
    } else {
        match spec_elems(id, (n - 1) as nat, s) {
            Err(e) => Err(e),
            Ok((items, m)) => if 0 <= m <= s.len() {
                after(m, spec_payload(id, s.skip(m)), |t: TagModel| items.push(t))
            } else {
                Err(ParseFault::UnexpectedEndOfInput)
            },
        }
    }
}

/// The entries of a compound up to its `End`, after the entries `acc` already read.
/// A name that `acc` already holds is refused once its payload has been read.
pub open spec fn spec_entries(acc: Entries, s: Seq<u8>) -> Read<Entries>
    decreases s.len(), 0nat, 0nat,
{
    match spec_tag_id(s) {
        Err(e) => Err(e),
        Ok((id, _)) => if id == NbtTagId::End {
            Ok((acc, 1))
        } else {
            match spec_string(s.skip(1)) {
                Err(e) => Err(e),
                Ok((name, k1)) => match spec_payload(id, s.skip(1 + k1)) {
                    Err(e) => Err(e),
                    Ok((t, k2)) => if has_name(acc, name) {
                        Err(ParseFault::DuplicateTagName(name))
                    } else if 0 <= k2 <= s.len() - 1 - k1 {
                        after(
                            1 + k1 + k2,
                            spec_entries(acc.push((name, t)), s.skip(1 + k1 + k2)),
                            |c: Entries| c,
                        )
                    } else {
                        Err(ParseFault::UnexpectedEndOfInput)
                    },
                },
            }
        },
    }
}

/// A whole NBT document: the kind `Compound`, a name, a compound, and nothing more.
pub open spec fn spec_nbt(s: Seq<u8>) -> Result<(Seq<char>, Entries), ParseFault> {
    match spec_tag_id(s) {
        Err(e) => Err(e),
        Ok((id, _)) => if id != NbtTagId::Compound {
            Err(ParseFault::NotNBT)
        } else {
            match spec_string(s.skip(1)) {
                Err(e) => Err(e),
                Ok((name, k1)) => match spec_entries(Seq::empty(), s.skip(1 + k1)) {
                    Err(e) => Err(e),
                    Ok((c, k2)) => if 1 + k1 + k2 < s.len() {
                        Err(ParseFault::LeftoverData((s.len() - (1 + k1 + k2)) as usize))
                    } else {
                        Ok((name, c))
                    },
                },
            }
        },
    }
}

} // verus!
