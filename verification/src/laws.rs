//! What writing and reading promise together.
use vstd::prelude::*;
use vstd::std_specs::convert::{FromSpec, TryFromSpec};
use vstd::utf8::encode_utf8;

use crate::error::{ParseFault, ValidationError};
use crate::format::{
    after, be16, be32, be64, decode_bytes, decode_ints, decode_longs, encode_bytes, encode_entries,
    encode_ints, encode_items, encode_len, encode_longs, encode_nbt, encode_payload, encode_string,
    has_name, read16, read32, read64, spec_byte_array, spec_elems, spec_entries, spec_int_array,
    spec_len, spec_list, spec_long_array, spec_nbt, spec_payload, spec_string, spec_tag_id,
    tag_kind, wf_entries, wf_items, wf_string, wf_tag,
};
use crate::types::{Entries, NbtArray, NbtString, NbtTagId, TagModel};

verus! {

broadcast use {vstd::utf8::encode_utf8_valid_utf8, vstd::utf8::encode_utf8_decode_utf8};

proof fn lemma_read16(v: u16, rest: Seq<u8>)
    ensures
        read16(be16(v) + rest) == v,
        (be16(v) + rest).len() == 2 + rest.len(),
{
    let s = be16(v) + rest;
    assert(s[0] == (v >> 8u16) as u8 && s[1] == v as u8);
    assert(((((v >> 8u16) as u8) as u16) << 8u16) | ((v as u8) as u16) == v) by (bit_vector);
}

proof fn lemma_read32(v: u32, rest: Seq<u8>)
    ensures
        read32(be32(v) + rest) == v,
        (be32(v) + rest).len() == 4 + rest.len(),
{
    let s = be32(v) + rest;
    assert(s[0] == (v >> 24u32) as u8 && s[1] == (v >> 16u32) as u8 && s[2] == (v >> 8u32) as u8
        && s[3] == v as u8);
    assert(((((v >> 24u32) as u8) as u32) << 24u32) | ((((v >> 16u32) as u8) as u32) << 16u32) | ((((v
        >> 8u32) as u8) as u32) << 8u32) | ((v as u8) as u32) == v) by (bit_vector);
}

proof fn lemma_read64(v: u64, rest: Seq<u8>)
    ensures
        read64(be64(v) + rest) == v,
        (be64(v) + rest).len() == 8 + rest.len(),
{
    let s = be64(v) + rest;
    assert(s[0] == (v >> 56u64) as u8 && s[1] == (v >> 48u64) as u8 && s[2] == (v >> 40u64) as u8
        && s[3] == (v >> 32u64) as u8 && s[4] == (v >> 24u64) as u8 && s[5] == (v >> 16u64) as u8
        && s[6] == (v >> 8u64) as u8 && s[7] == v as u8);
    assert(((((v >> 56u64) as u8) as u64) << 56u64) | ((((v >> 48u64) as u8) as u64) << 48u64) | ((((v
        >> 40u64) as u8) as u64) << 40u64) | ((((v >> 32u64) as u8) as u64) << 32u64) | ((((v
        >> 24u64) as u8) as u64) << 24u64) | ((((v >> 16u64) as u8) as u64) << 16u64) | ((((v
        >> 8u64) as u8) as u64) << 8u64) | ((v as u8) as u64) == v) by (bit_vector);
}

proof fn lemma_signed_casts(a: i8, b: i16, c: i32, d: i64)
    ensures
        (a as u8) as i8 == a,
        (b as u16) as i16 == b,
        (c as u32) as i32 == c,
        (d as u64) as i64 == d,
{
    assert((a as u8) as i8 == a) by (bit_vector);
    assert((b as u16) as i16 == b) by (bit_vector);
    assert((c as u32) as i32 == c) by (bit_vector);
    assert((d as u64) as i64 == d) by (bit_vector);
}

proof fn lemma_tag_byte(id: NbtTagId)
    ensures
        NbtTagId::spec_from_byte(id.spec_byte()) == Some(id),
{
}

proof fn lemma_len(n: nat, rest: Seq<u8>)
    requires
        n <= i32::MAX,
    ensures
        spec_len(encode_len(n) + rest) == Ok::<(nat, int), ParseFault>((n, 4)),
        (encode_len(n) + rest).len() == 4 + rest.len(),
{
    lemma_read32((n as i32) as u32, rest);
    lemma_signed_casts(0, 0, n as i32, 0);
}

/// Reading a written string that fits, followed by anything, gives the string back
/// and stops where it ends.
pub proof fn lemma_string(s: Seq<char>, rest: Seq<u8>)
    requires
        wf_string(s),
    ensures
        spec_string(encode_string(s) + rest) == Ok::<(Seq<char>, int), ParseFault>(
            (s, encode_string(s).len() as int),
        ),
        encode_string(s).len() == 2 + encode_utf8(s).len(),
{
    let b = encode_utf8(s);
    let n = b.len();
    lemma_read16(n as u16, b + rest);
    let x = encode_string(s) + rest;
    assert(x =~= be16(n as u16) + (b + rest));
    assert(x.subrange(2, 2 + n as int) =~= b);
}

proof fn lemma_byte_array(a: Seq<i8>, rest: Seq<u8>)
    requires
        a.len() <= i32::MAX,
    ensures
        spec_byte_array(encode_len(a.len()) + encode_bytes(a) + rest) == Ok::<
            (Seq<i8>, int),
            ParseFault,
        >((a, 4 + a.len() as int)),
{
    let x = encode_len(a.len()) + encode_bytes(a) + rest;
    lemma_len(a.len(), encode_bytes(a) + rest);
    assert(x =~= encode_len(a.len()) + (encode_bytes(a) + rest));
    assert(x.subrange(4, 4 + a.len() as int) =~= encode_bytes(a));
    assert forall|i: int| 0 <= i < a.len() implies (a[i] as u8) as i8 == a[i] by {
        lemma_signed_casts(a[i], 0, 0, 0);
    }
    assert(decode_bytes(encode_bytes(a)) =~= a);
}

proof fn lemma_encode_ints(a: Seq<i32>)
    ensures
        encode_ints(a).len() == 4 * a.len(),
        forall|i: int|
            0 <= i < a.len() ==> encode_ints(a).subrange(4 * i, 4 * i + 4) == be32(
                #[trigger] a[i] as u32,
            ),
    decreases a.len(),
{
    if a.len() > 0 {
        lemma_encode_ints(a.drop_last());
        let p = encode_ints(a.drop_last());
        assert forall|i: int| 0 <= i < a.len() implies encode_ints(a).subrange(4 * i, 4 * i + 4)
            == be32(#[trigger] a[i] as u32) by {
            if i < a.len() - 1 {
                assert(encode_ints(a).subrange(4 * i, 4 * i + 4) =~= p.subrange(4 * i, 4 * i + 4));
                assert(a[i] == a.drop_last()[i]);
            } else {
                assert(encode_ints(a).subrange(4 * i, 4 * i + 4) =~= be32(a.last() as u32));
            }
        }
    }
}

proof fn lemma_encode_longs(a: Seq<i64>)
    ensures
        encode_longs(a).len() == 8 * a.len(),
        forall|i: int|
            0 <= i < a.len() ==> encode_longs(a).subrange(8 * i, 8 * i + 8) == be64(
                #[trigger] a[i] as u64,
            ),
    decreases a.len(),
{
    if a.len() > 0 {
        lemma_encode_longs(a.drop_last());
        let p = encode_longs(a.drop_last());
        assert forall|i: int| 0 <= i < a.len() implies encode_longs(a).subrange(8 * i, 8 * i + 8)
            == be64(#[trigger] a[i] as u64) by {
            if i < a.len() - 1 {
                assert(encode_longs(a).subrange(8 * i, 8 * i + 8) =~= p.subrange(8 * i, 8 * i + 8));
                assert(a[i] == a.drop_last()[i]);
            } else {
                assert(encode_longs(a).subrange(8 * i, 8 * i + 8) =~= be64(a.last() as u64));
            }
        }
    }
}

proof fn lemma_int_array(a: Seq<i32>, rest: Seq<u8>)
    requires
        a.len() <= i32::MAX,
    ensures
        spec_int_array(encode_len(a.len()) + encode_ints(a) + rest) == Ok::<
            (Seq<i32>, int),
            ParseFault,
        >((a, 4 + 4 * a.len() as int)),
{
    lemma_encode_ints(a);
    let x = encode_len(a.len()) + encode_ints(a) + rest;
    lemma_len(a.len(), encode_ints(a) + rest);
    assert(x =~= encode_len(a.len()) + (encode_ints(a) + rest));
    let b = x.subrange(4, 4 + 4 * a.len() as int);
    assert(b =~= encode_ints(a));
    let d = decode_ints(b);
    assert(d.len() == a.len());
    assert forall|i: int| 0 <= i < a.len() implies d[i] == a[i] by {
        assert(b.subrange(4 * i, 4 * i + 4) == be32(a[i] as u32));
        lemma_read32(a[i] as u32, Seq::empty());
        assert(be32(a[i] as u32) + Seq::empty() =~= be32(a[i] as u32));
        lemma_signed_casts(0, 0, a[i], 0);
    }
    assert(d =~= a);
}

proof fn lemma_long_array(a: Seq<i64>, rest: Seq<u8>)
    requires
        a.len() <= i32::MAX,
    ensures
        spec_long_array(encode_len(a.len()) + encode_longs(a) + rest) == Ok::<
            (Seq<i64>, int),
            ParseFault,
        >((a, 4 + 8 * a.len() as int)),
{
    lemma_encode_longs(a);
    let x = encode_len(a.len()) + encode_longs(a) + rest;
    lemma_len(a.len(), encode_longs(a) + rest);
    assert(x =~= encode_len(a.len()) + (encode_longs(a) + rest));
    let b = x.subrange(4, 4 + 8 * a.len() as int);
    assert(b =~= encode_longs(a));
    let d = decode_longs(b);
    assert(d.len() == a.len());
    assert forall|i: int| 0 <= i < a.len() implies d[i] == a[i] by {
        assert(b.subrange(8 * i, 8 * i + 8) == be64(a[i] as u64));
        lemma_read64(a[i] as u64, Seq::empty());
        assert(be64(a[i] as u64) + Seq::empty() =~= be64(a[i] as u64));
        lemma_signed_casts(0, 0, 0, a[i]);
    }
    assert(d =~= a);
}

spec fn byte_of(t: TagModel) -> i8 {
    match t {
        TagModel::Byte(v) => v,
        _ => 0,
    }
}

spec fn int_of(t: TagModel) -> i32 {
    match t {
        TagModel::Int(v) => v,
        _ => 0,
    }
}

spec fn long_of(t: TagModel) -> i64 {
    match t {
        TagModel::Long(v) => v,
        _ => 0,
    }
}

/// A list of bytes is laid out as a byte array.
proof fn lemma_byte_items(items: Seq<TagModel>)
    requires
        wf_items(NbtTagId::Byte, items),
    ensures
        items =~= items.map_values(|t: TagModel| byte_of(t)).map_values(|v: i8| TagModel::Byte(v)),
        encode_items(items) =~= encode_bytes(items.map_values(|t: TagModel| byte_of(t))),
    decreases items.len(),
{
    if items.len() > 0 {
        let init = items.drop_last();
        lemma_byte_items(init);
        let a = items.map_values(|t: TagModel| byte_of(t));
        let ai = init.map_values(|t: TagModel| byte_of(t));
        assert(a.drop_last() =~= ai);
        assert(items.last() == TagModel::Byte(byte_of(items.last())));
        assert forall|i: int| 0 <= i < items.len() implies items[i] == TagModel::Byte(a[i]) by {
            if i < items.len() - 1 {
                assert(items[i] == init[i]);
                assert(init[i] == ai.map_values(|v: i8| TagModel::Byte(v))[i]);
            }
        }
        assert(encode_items(items) == encode_items(init) + encode_payload(items.last()));
        assert(encode_bytes(a) =~= encode_bytes(ai) + encode_payload(items.last()));
    }
}

/// A list of ints is laid out as an int array.
proof fn lemma_int_items(items: Seq<TagModel>)
    requires
        wf_items(NbtTagId::Int, items),
    ensures
        items =~= items.map_values(|t: TagModel| int_of(t)).map_values(|v: i32| TagModel::Int(v)),
        encode_items(items) =~= encode_ints(items.map_values(|t: TagModel| int_of(t))),
    decreases items.len(),
{
    if items.len() > 0 {
        let init = items.drop_last();
        lemma_int_items(init);
        let a = items.map_values(|t: TagModel| int_of(t));
        let ai = init.map_values(|t: TagModel| int_of(t));
        assert(a.drop_last() =~= ai);
        assert(items.last() == TagModel::Int(int_of(items.last())));
        assert forall|i: int| 0 <= i < items.len() implies items[i] == TagModel::Int(a[i]) by {
            if i < items.len() - 1 {
                assert(items[i] == init[i]);
                assert(init[i] == ai.map_values(|v: i32| TagModel::Int(v))[i]);
            }
        }
        assert(encode_items(items) == encode_items(init) + encode_payload(items.last()));
        assert(encode_ints(a) =~= encode_ints(ai) + encode_payload(items.last()));
    }
}

/// A list of longs is laid out as a long array.
proof fn lemma_long_items(items: Seq<TagModel>)
    requires
        wf_items(NbtTagId::Long, items),
    ensures
        items =~= items.map_values(|t: TagModel| long_of(t)).map_values(|v: i64| TagModel::Long(v)),
        encode_items(items) =~= encode_longs(items.map_values(|t: TagModel| long_of(t))),
    decreases items.len(),
{
    if items.len() > 0 {
        let init = items.drop_last();
        lemma_long_items(init);
        let a = items.map_values(|t: TagModel| long_of(t));
        let ai = init.map_values(|t: TagModel| long_of(t));
        assert(a.drop_last() =~= ai);
        assert(items.last() == TagModel::Long(long_of(items.last())));
        assert forall|i: int| 0 <= i < items.len() implies items[i] == TagModel::Long(a[i]) by {
            if i < items.len() - 1 {
                assert(items[i] == init[i]);
                assert(init[i] == ai.map_values(|v: i64| TagModel::Long(v))[i]);
            }
        }
        assert(encode_items(items) == encode_items(init) + encode_payload(items.last()));
        assert(encode_longs(a) =~= encode_longs(ai) + encode_payload(items.last()));
    }
}

/// Reading the payload of a well-formed tag, followed by anything, gives the tag
/// back and stops where its payload ends.
pub proof fn lemma_payload(t: TagModel, rest: Seq<u8>)
    requires
        wf_tag(t),
    ensures
        spec_payload(tag_kind(t), encode_payload(t) + rest) == Ok::<(TagModel, int), ParseFault>(
            (t, encode_payload(t).len() as int),
        ),
    decreases t, 1nat,
{
    match t {
        TagModel::List(id, items) => {
            lemma_list_payload(id, items, rest);
        },
        TagModel::Compound(c) => {
            lemma_compound_payload(c, rest);
        },
        _ => {
            lemma_leaf_payload(t, rest);
        },
    }
}

/// Reading the payload of a well-formed tag that holds no other tag.
proof fn lemma_leaf_payload(t: TagModel, rest: Seq<u8>)
    requires
        wf_tag(t),
        !(t is List),
        !(t is Compound),
    ensures
        spec_payload(tag_kind(t), encode_payload(t) + rest) == Ok::<(TagModel, int), ParseFault>(
            (t, encode_payload(t).len() as int),
        ),
{
    match t {
        TagModel::End => {
            assert(encode_payload(t).len() == 0);
            assert(encode_payload(t) + rest =~= rest);
        },
        TagModel::Byte(v) => lemma_byte_payload(v, rest),
        TagModel::Short(v) => lemma_short_payload(v, rest),
        TagModel::Int(v) => lemma_int_payload(v, rest),
        TagModel::Long(v) => lemma_long_payload(v, rest),
        TagModel::Float(v) => lemma_float_payload(v, rest),
        TagModel::Double(v) => lemma_double_payload(v, rest),
        TagModel::ByteArray(v) => lemma_bytearray_payload(v, rest),
        TagModel::String(v) => lemma_string_payload(v, rest),
        TagModel::IntArray(v) => lemma_intarray_payload(v, rest),
        TagModel::LongArray(v) => lemma_longarray_payload(v, rest),
        _ => {},
    }
}

proof fn lemma_byte_payload(v: i8, rest: Seq<u8>)
    requires
        wf_tag(TagModel::Byte(v)),
    ensures
        spec_payload(NbtTagId::Byte, encode_payload(TagModel::Byte(v)) + rest) == Ok::<(TagModel, int), ParseFault>(
            (TagModel::Byte(v), encode_payload(TagModel::Byte(v)).len() as int),
        ),
{
    lemma_signed_casts(v, 0, 0, 0);
}

proof fn lemma_short_payload(v: i16, rest: Seq<u8>)
    requires
        wf_tag(TagModel::Short(v)),
    ensures
        spec_payload(NbtTagId::Short, encode_payload(TagModel::Short(v)) + rest) == Ok::<(TagModel, int), ParseFault>(
            (TagModel::Short(v), encode_payload(TagModel::Short(v)).len() as int),
        ),
{
    lemma_read16(v as u16, rest);
    lemma_signed_casts(0, v, 0, 0);
}

proof fn lemma_int_payload(v: i32, rest: Seq<u8>)
    requires
        wf_tag(TagModel::Int(v)),
    ensures
        spec_payload(NbtTagId::Int, encode_payload(TagModel::Int(v)) + rest) == Ok::<(TagModel, int), ParseFault>(
            (TagModel::Int(v), encode_payload(TagModel::Int(v)).len() as int),
        ),
{
    lemma_read32(v as u32, rest);
    lemma_signed_casts(0, 0, v, 0);
}

proof fn lemma_long_payload(v: i64, rest: Seq<u8>)
    requires
        wf_tag(TagModel::Long(v)),
    ensures
        spec_payload(NbtTagId::Long, encode_payload(TagModel::Long(v)) + rest) == Ok::<(TagModel, int), ParseFault>(
            (TagModel::Long(v), encode_payload(TagModel::Long(v)).len() as int),
        ),
{
    lemma_read64(v as u64, rest);
    lemma_signed_casts(0, 0, 0, v);
}

proof fn lemma_float_payload(v: u32, rest: Seq<u8>)
    requires
        wf_tag(TagModel::Float(v)),
    ensures
        spec_payload(NbtTagId::Float, encode_payload(TagModel::Float(v)) + rest) == Ok::<(TagModel, int), ParseFault>(
            (TagModel::Float(v), encode_payload(TagModel::Float(v)).len() as int),
        ),
{
    lemma_read32(v, rest);
}

proof fn lemma_double_payload(v: u64, rest: Seq<u8>)
    requires
        wf_tag(TagModel::Double(v)),
    ensures
        spec_payload(NbtTagId::Double, encode_payload(TagModel::Double(v)) + rest) == Ok::<(TagModel, int), ParseFault>(
            (TagModel::Double(v), encode_payload(TagModel::Double(v)).len() as int),
        ),
{
    lemma_read64(v, rest);
}

#[verifier::spinoff_prover]
#[verifier::rlimit(40)]
proof fn lemma_bytearray_payload(v: Seq<i8>, rest: Seq<u8>)
    requires
        wf_tag(TagModel::ByteArray(v)),
    ensures
        spec_payload(NbtTagId::ByteArray, encode_payload(TagModel::ByteArray(v)) + rest) == Ok::<(TagModel, int), ParseFault>(
            (TagModel::ByteArray(v), encode_payload(TagModel::ByteArray(v)).len() as int),
        ),
{
    assert(encode_payload(TagModel::ByteArray(v)) == encode_len(v.len()) + encode_bytes(v));
    lemma_byte_array(v, rest);
    assert(encode_bytes(v).len() == v.len());
    let r = spec_byte_array(encode_len(v.len()) + encode_bytes(v) + rest);
    assert(spec_payload(NbtTagId::ByteArray, encode_payload(TagModel::ByteArray(v)) + rest) == after(
        0,
        r,
        |a: Seq<i8>| TagModel::ByteArray(a),
    ));
}

proof fn lemma_string_payload(v: Seq<char>, rest: Seq<u8>)
    requires
        wf_tag(TagModel::String(v)),
    ensures
        spec_payload(NbtTagId::String, encode_payload(TagModel::String(v)) + rest) == Ok::<(TagModel, int), ParseFault>(
            (TagModel::String(v), encode_payload(TagModel::String(v)).len() as int),
        ),
{
    lemma_string(v, rest);
}

proof fn lemma_intarray_payload(v: Seq<i32>, rest: Seq<u8>)
    requires
        wf_tag(TagModel::IntArray(v)),
    ensures
        spec_payload(NbtTagId::IntArray, encode_payload(TagModel::IntArray(v)) + rest) == Ok::<(TagModel, int), ParseFault>(
            (TagModel::IntArray(v), encode_payload(TagModel::IntArray(v)).len() as int),
        ),
{
    lemma_encode_ints(v);
    lemma_int_array(v, rest);
}

proof fn lemma_longarray_payload(v: Seq<i64>, rest: Seq<u8>)
    requires
        wf_tag(TagModel::LongArray(v)),
    ensures
        spec_payload(NbtTagId::LongArray, encode_payload(TagModel::LongArray(v)) + rest) == Ok::<(TagModel, int), ParseFault>(
            (TagModel::LongArray(v), encode_payload(TagModel::LongArray(v)).len() as int),
        ),
{
    lemma_encode_longs(v);
    lemma_long_array(v, rest);
}

/// The payload of a well-formed list, followed by anything, reads back as the list
/// and stops where the list ends.
#[verifier::spinoff_prover]
pub proof fn lemma_list_payload(id: NbtTagId, items: Seq<TagModel>, rest: Seq<u8>)
    requires
        wf_tag(TagModel::List(id, items)),
    ensures
        spec_list(encode_payload(TagModel::List(id, items)) + rest) == Ok::<(TagModel, int), ParseFault>(
            (TagModel::List(id, items), encode_payload(TagModel::List(id, items)).len() as int),
        ),
    decreases TagModel::List(id, items), 0nat,
{
    let x = encode_payload(TagModel::List(id, items)) + rest;
    let n = items.len();
    lemma_tag_byte(id);
    assert(x.skip(1) =~= encode_len(n) + encode_items(items) + rest);
    if id == NbtTagId::Byte {
        lemma_byte_items(items);
        let a = items.map_values(|t: TagModel| byte_of(t));
        lemma_byte_array(a, rest);
    } else if id == NbtTagId::Int {
        lemma_int_items(items);
        let a = items.map_values(|t: TagModel| int_of(t));
        lemma_encode_ints(a);
        lemma_int_array(a, rest);
    } else if id == NbtTagId::Long {
        lemma_long_items(items);
        let a = items.map_values(|t: TagModel| long_of(t));
        lemma_encode_longs(a);
        lemma_long_array(a, rest);
    } else {
        lemma_len(n, encode_items(items) + rest);
        assert(x.skip(1) =~= encode_len(n) + (encode_items(items) + rest));
        if id == NbtTagId::End {
            assert(items =~= Seq::<TagModel>::empty());
        } else {
            assert(x.skip(5) =~= encode_items(items) + rest);
            lemma_items(id, items, rest);
        }
    }
}

/// The payload of a well-formed compound reads back as the compound.
proof fn lemma_compound_payload(c: Entries, rest: Seq<u8>)
    requires
        wf_entries(c),
    ensures
        spec_entries(Seq::empty(), encode_payload(TagModel::Compound(c)) + rest) == Ok::<(Entries, int), ParseFault>(
            (c, encode_payload(TagModel::Compound(c)).len() as int),
        ),
    decreases TagModel::Compound(c), 0nat,
{
    let x = encode_payload(TagModel::Compound(c)) + rest;
    lemma_entries(Seq::empty(), c, seq![0u8] + rest);
    assert(x =~= encode_entries(c) + (seq![0u8] + rest));
    assert(Seq::<(Seq<char>, TagModel)>::empty() + c =~= c);
    let tail = seq![0u8] + rest;
    assert(tail[0] == 0);
}

/// Reading the payloads of well-formed items of one kind gives the items back.
proof fn lemma_items(id: NbtTagId, items: Seq<TagModel>, rest: Seq<u8>)
    requires
        wf_items(id, items),
    ensures
        spec_elems(id, items.len(), encode_items(items) + rest) == Ok::<
            (Seq<TagModel>, int),
            ParseFault,
        >((items, encode_items(items).len() as int)),
    decreases items, 0nat,
{
    if items.len() == 0 {
        assert(items =~= Seq::<TagModel>::empty());
    } else {
        let last = items.last();
        let init = items.drop_last();
        lemma_items(id, init, encode_payload(last) + rest);
        let s = encode_items(items) + rest;
        assert(s =~= encode_items(init) + (encode_payload(last) + rest));
        assert(s.skip(encode_items(init).len() as int) =~= encode_payload(last) + rest);
        lemma_payload(last, rest);
        assert(init.push(last) =~= items);
    }
}

/// Reading one well-formed entry whose name is new continues after it.
proof fn lemma_entry_step(acc: Entries, name: Seq<char>, t: TagModel, tail: Seq<u8>)
    requires
        wf_string(name),
        !(t is End),
        wf_tag(t),
        !has_name(acc, name),
    ensures
        spec_entries(acc, seq![tag_kind(t).spec_byte()] + encode_string(name) + encode_payload(t) + tail)
            == after(
            1 + encode_string(name).len() as int + encode_payload(t).len() as int,
            spec_entries(acc.push((name, t)), tail),
            |e: Entries| e,
        ),
    decreases t, 2nat,
{
    let s = seq![tag_kind(t).spec_byte()] + encode_string(name) + encode_payload(t) + tail;
    lemma_tag_byte(tag_kind(t));
    lemma_string(name, encode_payload(t) + tail);
    assert(s.skip(1) =~= encode_string(name) + (encode_payload(t) + tail));
    let k1 = encode_string(name).len() as int;
    lemma_payload(t, tail);
    assert(s.skip(1 + k1) =~= encode_payload(t) + tail);
    let k2 = encode_payload(t).len() as int;
    assert(s.skip(1 + k1 + k2) =~= tail);
    match spec_entries(acc.push((name, t)), tail) {
        Ok((v, n)) => {},
        Err(e) => {},
    }
}

/// Reading well-formed entries, followed by anything, continues from where they end,
/// with the entries read so far grown by them.
proof fn lemma_entries(acc: Entries, c: Entries, tail: Seq<u8>)
    requires
        wf_entries(c),
        forall|i: int| 0 <= i < c.len() ==> !has_name(acc, (#[trigger] c[i]).0),
    ensures
        spec_entries(acc, encode_entries(c) + tail) == after(
            encode_entries(c).len() as int,
            spec_entries(acc + c, tail),
            |e: Entries| e,
        ),
    decreases c, 0nat,
{
    if c.len() == 0 {
        assert(acc + c =~= acc);
        assert(encode_entries(c) + tail =~= tail);
        match spec_entries(acc, tail) {
            Ok((v, n)) => {},
            Err(e) => {},
        }
    } else {
        let init = c.drop_last();
        let name = c.last().0;
        let t = c.last().1;
        let e = seq![tag_kind(t).spec_byte()] + encode_string(name) + encode_payload(t);
        assert forall|i: int| 0 <= i < init.len() implies !has_name(acc, (#[trigger] init[i]).0) by {
            assert(init[i] == c[i]);
        }
        lemma_entries(acc, init, e + tail);
        assert(encode_entries(c) + tail =~= encode_entries(init) + (e + tail));
        assert(!has_name(acc, name)) by {
            assert(c[c.len() - 1] == c.last());
        }
        assert(!has_name(acc + init, name)) by {
            if has_name(acc + init, name) {
                let i = choose|i: int| 0 <= i < (acc + init).len() && (#[trigger] (acc + init)[i]).0 == name;
                if i < acc.len() {
                    assert(acc[i] == (acc + init)[i]);
                } else {
                    assert(init[i - acc.len()] == (acc + init)[i]);
                }
            }
        }
        lemma_entry_step(acc + init, name, t, tail);
        assert((acc + init).push((name, t)) =~= acc + c);
        match spec_entries(acc + c, tail) {
            Ok((v, n)) => {},
            Err(e) => {},
        }
    }
}

/// Writing a well-formed named compound and reading the bytes back gives the
/// same name and the same compound.
pub proof fn lemma_nbt_roundtrip(name: Seq<char>, c: Entries)
    requires
        wf_string(name),
        wf_entries(c),
    ensures
        spec_nbt(encode_nbt(name, c)) == Ok::<(Seq<char>, Entries), ParseFault>((name, c)),
{
    let x = encode_nbt(name, c);
    lemma_tag_byte(NbtTagId::Compound);
    lemma_string(name, encode_payload(TagModel::Compound(c)));
    assert(x.skip(1) =~= encode_string(name) + encode_payload(TagModel::Compound(c)));
    let k1 = encode_string(name).len() as int;
    lemma_entries(Seq::empty(), c, seq![0u8]);
    assert(x.skip(1 + k1) =~= encode_entries(c) + seq![0u8]);
    assert(Seq::<(Seq<char>, TagModel)>::empty() + c =~= c);
    let tail = seq![0u8];
    assert(tail[0] == 0);
}

/// What a string read from bytes holds fits in a string.
proof fn lemma_string_wf(s: Seq<u8>)
    ensures
        spec_string(s) matches Ok((c, k)) ==> wf_string(c) && 0 <= k <= s.len(),
{
    if spec_string(s) is Ok {
        let b = s.subrange(2, 2 + read16(s));
        vstd::utf8::decode_utf8_encode_utf8(b);
    }
}

/// A list of payloads read as an array holds items of one kind.
proof fn lemma_map_items_wf<A>(a: Seq<A>, id: NbtTagId, f: spec_fn(A) -> TagModel)
    requires
        forall|x: A| #[trigger] tag_kind(f(x)) == id && wf_tag(f(x)),
    ensures
        wf_items(id, a.map_values(f)),
    decreases a.len(),
{
    if a.len() > 0 {
        lemma_map_items_wf(a.drop_last(), id, f);
        assert(a.map_values(f).drop_last() =~= a.drop_last().map_values(f));
        assert(tag_kind(f(a.last())) == id && wf_tag(f(a.last())));
    }
}

/// What is read as the payload of a tag of some kind is a well-formed tag of that kind.
pub(crate) proof fn lemma_payload_wf(id: NbtTagId, s: Seq<u8>)
    ensures
        spec_payload(id, s) matches Ok((t, k)) ==> wf_tag(t) && tag_kind(t) == id && 0 <= k
            <= s.len(),
    decreases s.len(), 1nat, 0nat,
{
    match id {
        NbtTagId::List => {
            lemma_list_wf(s);
        },
        NbtTagId::Compound => {
            lemma_entries_wf(Seq::empty(), s);
        },
        _ => {
            lemma_leaf_wf(id, s);
        },
    }
}

/// What is read as the payload of a tag that holds no other tag is well-formed.
proof fn lemma_leaf_wf(id: NbtTagId, s: Seq<u8>)
    requires
        id != NbtTagId::List,
        id != NbtTagId::Compound,
    ensures
        spec_payload(id, s) matches Ok((t, k)) ==> wf_tag(t) && tag_kind(t) == id && 0 <= k
            <= s.len(),
{
    match id {
        NbtTagId::String => {
            lemma_string_wf(s);
        },
        NbtTagId::IntArray => {
            if spec_int_array(s) is Ok {
                let n = spec_len(s)->Ok_0.0;
                assert((4 * n) / 4 == n);
            }
        },
        NbtTagId::LongArray => {
            if spec_long_array(s) is Ok {
                let n = spec_len(s)->Ok_0.0;
                assert((8 * n) / 8 == n);
            }
        },
        _ => {},
    }
}

/// What is read as a list is a well-formed list.
proof fn lemma_list_wf(s: Seq<u8>)
    ensures
        spec_list(s) matches Ok((t, k)) ==> wf_tag(t) && t is List && 0 <= k <= s.len(),
    decreases s.len(), 0nat, 0nat,
{
    if spec_list(s) is Ok {
        let id = spec_tag_id(s)->Ok_0.0;
        if id == NbtTagId::Byte {
            let a = spec_byte_array(s.skip(1))->Ok_0.0;
            lemma_map_items_wf(a, id, |v: i8| TagModel::Byte(v));
        } else if id == NbtTagId::Int {
            let a = spec_int_array(s.skip(1))->Ok_0.0;
            let n = spec_len(s.skip(1))->Ok_0.0;
            assert((4 * n) / 4 == n);
            lemma_map_items_wf(a, id, |v: i32| TagModel::Int(v));
        } else if id == NbtTagId::Long {
            let a = spec_long_array(s.skip(1))->Ok_0.0;
            let n = spec_len(s.skip(1))->Ok_0.0;
            assert((8 * n) / 8 == n);
            lemma_map_items_wf(a, id, |v: i64| TagModel::Long(v));
        } else if id != NbtTagId::End {
            let n = spec_len(s.skip(1))->Ok_0.0;
            lemma_elems_wf(id, n, s.skip(5));
        }
    }
}

/// What is read as `n` payloads of one kind is `n` well-formed items of that kind.
proof fn lemma_elems_wf(id: NbtTagId, n: nat, s: Seq<u8>)
    ensures
        spec_elems(id, n, s) matches Ok((items, m)) ==> items.len() == n && wf_items(id, items)
            && 0 <= m <= s.len(),
    decreases s.len(), 2nat, n,
{
    if n > 0 {
        lemma_elems_wf(id, (n - 1) as nat, s);
        if let Ok((items, m)) = spec_elems(id, (n - 1) as nat, s) {
            lemma_payload_wf(id, s.skip(m));
            if let Ok((t, k)) = spec_payload(id, s.skip(m)) {
                assert(items.push(t).drop_last() =~= items);
            }
        }
    }
}

/// What is read as entries, after well-formed ones, are well-formed entries.
pub(crate) proof fn lemma_entries_wf(acc: Entries, s: Seq<u8>)
    requires
        wf_entries(acc),
    ensures
        spec_entries(acc, s) matches Ok((c, k)) ==> wf_entries(c) && 0 <= k <= s.len(),
    decreases s.len(), 0nat, 0nat,
{
    if let Ok((id, _)) = spec_tag_id(s) {
        if id != NbtTagId::End {
            lemma_string_wf(s.skip(1));
            if let Ok((name, k1)) = spec_string(s.skip(1)) {
                lemma_payload_wf(id, s.skip(1 + k1));
                if let Ok((t, k2)) = spec_payload(id, s.skip(1 + k1)) {
                    if !has_name(acc, name) {
                        let next = acc.push((name, t));
                        assert(next.drop_last() =~= acc);
                        lemma_entries_wf(next, s.skip(1 + k1 + k2));
                    }
                }
            }
        }
    }
}

/// Whatever the parser accepts as a document is a well-formed name and compound:
/// every value that reading gives can be written back.
pub proof fn lemma_parsed_wf(s: Seq<u8>)
    ensures
        spec_nbt(s) matches Ok((name, c)) ==> wf_string(name) && wf_entries(c),
{
    lemma_string_wf(s.skip(1));
    if let Ok((name, k1)) = spec_string(s.skip(1)) {
        lemma_entries_wf(Seq::empty(), s.skip(1 + k1));
    }
}

/// Writing what was read and reading it again gives what was read.
pub proof fn lemma_reparse(s: Seq<u8>)
    ensures
        spec_nbt(s) matches Ok((name, c)) ==> spec_nbt(encode_nbt(name, c)) == spec_nbt(s),
{
    lemma_parsed_wf(s);
    if let Ok((name, c)) = spec_nbt(s) {
        lemma_nbt_roundtrip(name, c);
    }
}

/// The byte of a kind of tag is read back as that kind: `NbtTagId::try_from` undoes
/// `NbtTagId::as_byte`.
pub proof fn lemma_tag_id_roundtrip(id: NbtTagId)
    ensures
        <NbtTagId as TryFromSpec<u8>>::try_from_spec(id.spec_byte()) == Ok::<NbtTagId, ()>(id),
{
}

/// An array is made of any vec of at most `i32::MAX` items, and only of those;
/// turning it back into a vec gives the same vec.
pub proof fn lemma_array_roundtrip<T>(v: Vec<T>)
    ensures
        (<NbtArray<T> as TryFromSpec<Vec<T>>>::try_from_spec(v) is Ok) == (v@.len() <= i32::MAX),
        <NbtArray<T> as TryFromSpec<Vec<T>>>::try_from_spec(v) matches Ok(a) ==> a@ == v@
            && <Vec<T> as FromSpec<NbtArray<T>>>::from_spec(a) == v,
        <NbtArray<T> as TryFromSpec<Vec<T>>>::try_from_spec(v) matches Err((e, back)) ==> back
            == v && e == ValidationError::ArrayTooLong(v@.len() as usize),
{
}

/// A string is made of any `String` whose UTF-8 takes at most `u16::MAX` bytes, and
/// holds its characters.
pub proof fn lemma_string_fits(s: String)
    ensures
        (<NbtString as TryFromSpec<String>>::try_from_spec(s) is Ok) == wf_string(s@),
        <NbtString as TryFromSpec<String>>::try_from_spec(s) matches Ok(n) ==> n@ == s@,
        <NbtString as TryFromSpec<String>>::try_from_spec(s) matches Err((_, back)) ==> back == s,
{
}

} // verus!
