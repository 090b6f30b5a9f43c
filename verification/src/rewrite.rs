//! Writing what was read gives back the bytes that were read.
//!
//! Reading drops one thing only: the number of items that a list of kind `End`
//! announces (such a list holds nothing, whatever the number). Writing gives zero
//! there, so the bytes come back exactly when every such number was zero.
use vstd::prelude::*;

use crate::format::{
    be16, be32, be64, decode_bytes, decode_ints, decode_longs, encode_bytes, encode_entries,
    encode_ints, encode_items, encode_len, encode_longs, encode_nbt, encode_payload, encode_string,
    read16, read32, read64, spec_byte_array, spec_elems, spec_entries, spec_int_array, spec_len,
    spec_list, spec_long_array, spec_nbt, spec_payload, spec_string, spec_tag_id, tag_kind,
};
use crate::laws::lemma_payload_wf;
use crate::types::{Entries, NbtTagId, TagModel};
use vstd::utf8::decode_utf8_encode_utf8;

verus! {

// ---------------------------------------------------------------------------
// Where reading drops a number
// ---------------------------------------------------------------------------

/// Whether every list of kind `End` met while reading the payload of a tag of kind
/// `id` from `s` announces zero items.
pub open spec fn end_lists_empty_payload(id: NbtTagId, s: Seq<u8>) -> bool
    decreases s.len(), 1nat, 0nat,
{
    match id {
        NbtTagId::List => end_lists_empty_list(s),
        NbtTagId::Compound => end_lists_empty_entries(s),
        _ => true,
    }
}

/// Whether every list of kind `End` met while reading a list from `s`, the list
/// itself included, announces zero items.
pub open spec fn end_lists_empty_list(s: Seq<u8>) -> bool
    decreases s.len(), 0nat, 0nat,
{
    match spec_tag_id(s) {
        Err(_) => true,
        Ok((id, _)) => if id == NbtTagId::Byte || id == NbtTagId::Int || id == NbtTagId::Long {
            true
        } else {
            match spec_len(s.skip(1)) {
                Err(_) => true,
                Ok((n, _)) => if id == NbtTagId::End {
                    n == 0
                } else {
                    end_lists_empty_elems(id, n, s.skip(5))
                },
            }
        },
    }
}

/// Whether every list of kind `End` met while reading `n` payloads of kind `id`
/// from `s` announces zero items.
pub open spec fn end_lists_empty_elems(id: NbtTagId, n: nat, s: Seq<u8>) -> bool
    decreases s.len(), 2nat, n,
{
    if n == 0 {
        true
    } else {
        &&& end_lists_empty_elems(id, (n - 1) as nat, s)
        &&& match spec_elems(id, (n - 1) as nat, s) {
            Err(_) => true,
            Ok((_, m)) => if 0 <= m <= s.len() {
                end_lists_empty_payload(id, s.skip(m))
            } else {
                true
            },
        }
    }
}

/// Whether every list of kind `End` met while reading the entries of a compound
/// from `s` announces zero items.
pub open spec fn end_lists_empty_entries(s: Seq<u8>) -> bool
    decreases s.len(), 0nat, 0nat,
{
    match spec_tag_id(s) {
        Err(_) => true,
        Ok((id, _)) => if id == NbtTagId::End {
            true
        } else {
            match spec_string(s.skip(1)) {
                Err(_) => true,
                Ok((_, k1)) => {
                    &&& end_lists_empty_payload(id, s.skip(1 + k1))
                    &&& match spec_payload(id, s.skip(1 + k1)) {
                        Err(_) => true,
                        Ok((_, k2)) => if 0 <= k2 <= s.len() - 1 - k1 {
                            end_lists_empty_entries(s.skip(1 + k1 + k2))
                        } else {
                            true
                        },
                    }
                },
            }
        },
    }
}

/// Whether every list of kind `End` in a document announces zero items.
pub open spec fn end_lists_empty(s: Seq<u8>) -> bool {
    match spec_string(s.skip(1)) {
        Err(_) => true,
        Ok((_, k1)) => end_lists_empty_entries(s.skip(1 + k1)),
    }
}

// ---------------------------------------------------------------------------
// Numbers
// ---------------------------------------------------------------------------

proof fn lemma_be16_of_read(s: Seq<u8>)
    requires
        s.len() >= 2,
    ensures
        be16(read16(s)) == s.take(2),
{
    let (a, b) = (s[0], s[1]);
    assert(((((a as u16) << 8u16) | (b as u16)) >> 8u16) as u8 == a) by (bit_vector);
    assert((((a as u16) << 8u16) | (b as u16)) as u8 == b) by (bit_vector);
    assert(be16(read16(s)) =~= s.take(2));
}

proof fn lemma_be32_of_read(s: Seq<u8>)
    requires
        s.len() >= 4,
    ensures
        be32(read32(s)) == s.take(4),
{
    let (a, b, c, d) = (s[0], s[1], s[2], s[3]);
    let v = ((a as u32) << 24u32) | ((b as u32) << 16u32) | ((c as u32) << 8u32) | (d as u32);
    assert(v == read32(s));
    assert((v >> 24u32) as u8 == a && (v >> 16u32) as u8 == b && (v >> 8u32) as u8 == c && v as u8
        == d) by (bit_vector)
        requires
            v == ((a as u32) << 24u32) | ((b as u32) << 16u32) | ((c as u32) << 8u32) | (d as u32),
    ;
    assert(be32(read32(s)) =~= s.take(4));
}

proof fn lemma_be64_of_read(s: Seq<u8>)
    requires
        s.len() >= 8,
    ensures
        be64(read64(s)) == s.take(8),
{
    let (a, b, c, d) = (s[0], s[1], s[2], s[3]);
    let (e, f, g, h) = (s[4], s[5], s[6], s[7]);
    let v = ((a as u64) << 56u64) | ((b as u64) << 48u64) | ((c as u64) << 40u64) | ((d as u64)
        << 32u64) | ((e as u64) << 24u64) | ((f as u64) << 16u64) | ((g as u64) << 8u64) | (h as u64);
    assert(v == read64(s));
    assert((v >> 56u64) as u8 == a && (v >> 48u64) as u8 == b && (v >> 40u64) as u8 == c && (v
        >> 32u64) as u8 == d && (v >> 24u64) as u8 == e && (v >> 16u64) as u8 == f && (v >> 8u64) as u8
        == g && v as u8 == h) by (bit_vector)
        requires
            v == ((a as u64) << 56u64) | ((b as u64) << 48u64) | ((c as u64) << 40u64) | ((d as u64)
                << 32u64) | ((e as u64) << 24u64) | ((f as u64) << 16u64) | ((g as u64) << 8u64) | (h
                as u64),
    ;
    assert(be64(read64(s)) =~= s.take(8));
}

proof fn lemma_unsigned_casts(a: u8, b: u16, c: u32, d: u64)
    ensures
        (a as i8) as u8 == a,
        (b as i16) as u16 == b,
        (c as i32) as u32 == c,
        (d as i64) as u64 == d,
{
    assert((a as i8) as u8 == a) by (bit_vector);
    assert((b as i16) as u16 == b) by (bit_vector);
    assert((c as i32) as u32 == c) by (bit_vector);
    assert((d as i64) as u64 == d) by (bit_vector);
}

/// The length that was read is written as the bytes it was read from.
proof fn lemma_len_bytes(s: Seq<u8>)
    ensures
        spec_len(s) matches Ok((n, k)) ==> k == 4 && encode_len(n) == s.take(4),
{
    if let Ok((n, k)) = spec_len(s) {
        let v = read32(s);
        lemma_unsigned_casts(0, 0, v, 0);
        assert((n as i32) == v as i32);
        lemma_be32_of_read(s);
    }
}

/// The string that was read is written as the bytes it was read from.
proof fn lemma_string_bytes(s: Seq<u8>)
    ensures
        spec_string(s) matches Ok((c, k)) ==> encode_string(c) == s.take(k),
{
    if let Ok((c, k)) = spec_string(s) {
        let b = s.subrange(2, 2 + read16(s));
        decode_utf8_encode_utf8(b);
        assert(b.len() == read16(s));
        lemma_be16_of_read(s);
        assert(s.take(k) =~= s.take(2) + b);
    }
}

/// Bytes read as signed bytes are written back as the same bytes.
proof fn lemma_bytes_back(b: Seq<u8>)
    ensures
        encode_bytes(decode_bytes(b)) == b,
{
    assert forall|i: int| 0 <= i < b.len() implies (b[i] as i8) as u8 == b[i] by {
        lemma_unsigned_casts(b[i], 0, 0, 0);
    }
    assert(encode_bytes(decode_bytes(b)) =~= b);
}

/// Bytes read as `i32`s are written back as the same bytes.
proof fn lemma_ints_back(b: Seq<u8>)
    requires
        b.len() % 4 == 0,
    ensures
        encode_ints(decode_ints(b)) == b,
    decreases b.len(),
{
    if b.len() > 0 {
        let init = b.take(b.len() - 4);
        let x = b.subrange(b.len() - 4, b.len() as int);
        lemma_ints_back(init);
        let a = decode_ints(b);
        assert(a.len() == decode_ints(init).len() + 1);
        assert forall|i: int| 0 <= i < a.len() - 1 implies a[i] == decode_ints(init)[i] by {
            assert(b.subrange(4 * i, 4 * i + 4) =~= init.subrange(4 * i, 4 * i + 4));
        }
        assert(a.drop_last() =~= decode_ints(init));
        assert(a.last() == read32(x) as i32);
        lemma_unsigned_casts(0, 0, read32(x), 0);
        lemma_be32_of_read(x);
        assert(x.take(4) =~= x);
        assert(b =~= init + x);
    }
}

/// Bytes read as `i64`s are written back as the same bytes.
proof fn lemma_longs_back(b: Seq<u8>)
    requires
        b.len() % 8 == 0,
    ensures
        encode_longs(decode_longs(b)) == b,
    decreases b.len(),
{
    if b.len() > 0 {
        let init = b.take(b.len() - 8);
        let x = b.subrange(b.len() - 8, b.len() as int);
        lemma_longs_back(init);
        let a = decode_longs(b);
        assert(a.len() == decode_longs(init).len() + 1);
        assert forall|i: int| 0 <= i < a.len() - 1 implies a[i] == decode_longs(init)[i] by {
            assert(b.subrange(8 * i, 8 * i + 8) =~= init.subrange(8 * i, 8 * i + 8));
        }
        assert(a.drop_last() =~= decode_longs(init));
        assert(a.last() == read64(x) as i64);
        lemma_unsigned_casts(0, 0, 0, read64(x));
        lemma_be64_of_read(x);
        assert(x.take(8) =~= x);
        assert(b =~= init + x);
    }
}

/// The payload that was read of a tag holding no other tag is written as the
/// bytes it was read from.
proof fn lemma_leaf_bytes(id: NbtTagId, s: Seq<u8>)
    requires
        id != NbtTagId::List,
        id != NbtTagId::Compound,
    ensures
        spec_payload(id, s) matches Ok((t, k)) ==> encode_payload(t) == s.take(k),
{
    if let Ok((t, k)) = spec_payload(id, s) {
        match id {
            NbtTagId::End => {
                assert(s.take(0) =~= Seq::<u8>::empty());
            },
            NbtTagId::Byte => {
                lemma_unsigned_casts(s[0], 0, 0, 0);
                assert(encode_payload(t) =~= s.take(1));
            },
            NbtTagId::Short => {
                lemma_unsigned_casts(0, read16(s), 0, 0);
                lemma_be16_of_read(s);
            },
            NbtTagId::Int => {
                lemma_unsigned_casts(0, 0, read32(s), 0);
                lemma_be32_of_read(s);
            },
            NbtTagId::Long => {
                lemma_unsigned_casts(0, 0, 0, read64(s));
                lemma_be64_of_read(s);
            },
            NbtTagId::Float => {
                lemma_be32_of_read(s);
            },
            NbtTagId::Double => {
                lemma_be64_of_read(s);
            },
            NbtTagId::ByteArray => {
                lemma_len_bytes(s);
                let n = spec_len(s)->Ok_0.0;
                let b = s.subrange(4, 4 + n as int);
                lemma_bytes_back(b);
                assert(s.take(k) =~= s.take(4) + b);
            },
            NbtTagId::String => {
                lemma_string_bytes(s);
            },
            NbtTagId::IntArray => {
                lemma_len_bytes(s);
                let n = spec_len(s)->Ok_0.0;
                let b = s.subrange(4, 4 + 4 * n as int);
                assert((4 * n) / 4 == n);
                assert((4 * n) % 4 == 0);
                lemma_ints_back(b);
                assert(s.take(k) =~= s.take(4) + b);
            },
            NbtTagId::LongArray => {
                lemma_len_bytes(s);
                let n = spec_len(s)->Ok_0.0;
                let b = s.subrange(4, 4 + 8 * n as int);
                assert((8 * n) / 8 == n);
                assert((8 * n) % 8 == 0);
                lemma_longs_back(b);
                assert(s.take(k) =~= s.take(4) + b);
            },
            _ => {},
        }
    }
}

/// The kind that was read is written as the byte it was read from.
proof fn lemma_tag_id_byte(s: Seq<u8>)
    ensures
        spec_tag_id(s) matches Ok((id, k)) ==> k == 1 && id.spec_byte() == s[0],
{
}

/// A list of bytes is written as the array of those bytes.
proof fn lemma_byte_list_bytes(a: Seq<i8>)
    ensures
        encode_items(a.map_values(|v: i8| TagModel::Byte(v))) == encode_bytes(a),
    decreases a.len(),
{
    if a.len() > 0 {
        lemma_byte_list_bytes(a.drop_last());
        assert(a.map_values(|v: i8| TagModel::Byte(v)).drop_last() =~= a.drop_last().map_values(
            |v: i8| TagModel::Byte(v),
        ));
        let items = a.map_values(|v: i8| TagModel::Byte(v));
        assert(items.last() == TagModel::Byte(a.last()));
        assert(encode_items(items) == encode_items(items.drop_last()) + encode_payload(items.last()));
        assert(encode_bytes(a) =~= encode_bytes(a.drop_last()) + encode_payload(items.last()));
    }
}

/// A list of ints is written as the array of those ints.
proof fn lemma_int_list_bytes(a: Seq<i32>)
    ensures
        encode_items(a.map_values(|v: i32| TagModel::Int(v))) == encode_ints(a),
    decreases a.len(),
{
    if a.len() > 0 {
        lemma_int_list_bytes(a.drop_last());
        assert(a.map_values(|v: i32| TagModel::Int(v)).drop_last() =~= a.drop_last().map_values(
            |v: i32| TagModel::Int(v),
        ));
        let items = a.map_values(|v: i32| TagModel::Int(v));
        assert(items.last() == TagModel::Int(a.last()));
        assert(encode_items(items) == encode_items(items.drop_last()) + encode_payload(items.last()));
    }
}

/// A list of longs is written as the array of those longs.
proof fn lemma_long_list_bytes(a: Seq<i64>)
    ensures
        encode_items(a.map_values(|v: i64| TagModel::Long(v))) == encode_longs(a),
    decreases a.len(),
{
    if a.len() > 0 {
        lemma_long_list_bytes(a.drop_last());
        assert(a.map_values(|v: i64| TagModel::Long(v)).drop_last() =~= a.drop_last().map_values(
            |v: i64| TagModel::Long(v),
        ));
        let items = a.map_values(|v: i64| TagModel::Long(v));
        assert(items.last() == TagModel::Long(a.last()));
        assert(encode_items(items) == encode_items(items.drop_last()) + encode_payload(items.last()));
    }
}

// ---------------------------------------------------------------------------
// Tags that hold tags
// ---------------------------------------------------------------------------

/// The payload that was read is written as the bytes it was read from, where
/// every list of kind `End` in it announced zero items.
proof fn lemma_payload_bytes(id: NbtTagId, s: Seq<u8>)
    ensures
        spec_payload(id, s) matches Ok((t, k)) ==> end_lists_empty_payload(id, s)
            ==> encode_payload(t) == s.take(k),
    decreases s.len(), 1nat, 0nat,
{
    match id {
        NbtTagId::List => {
            lemma_list_bytes(s);
        },
        NbtTagId::Compound => {
            lemma_entries_bytes(Seq::empty(), s);
            if let Ok((t, k)) = spec_payload(id, s) {
                assert(encode_entries(Seq::empty()) + s.take(k) =~= s.take(k));
            }
        },
        _ => {
            lemma_leaf_bytes(id, s);
        },
    }
}

/// The list that was read is written as the bytes it was read from, where every
/// list of kind `End` in it announced zero items.
proof fn lemma_list_bytes(s: Seq<u8>)
    ensures
        spec_list(s) matches Ok((t, k)) ==> end_lists_empty_list(s) ==> encode_payload(t)
            == s.take(k),
    decreases s.len(), 0nat, 0nat,
{
    if let Ok((t, k)) = spec_list(s) {
        if end_lists_empty_list(s) {
            let id = spec_tag_id(s)->Ok_0.0;
            lemma_tag_id_byte(s);
            let r = s.skip(1);
            if id == NbtTagId::Byte {
                let a = spec_byte_array(r)->Ok_0.0;
                lemma_leaf_bytes(NbtTagId::ByteArray, r);
                lemma_byte_list_bytes(a);
                assert(s.take(k) =~= seq![s[0]] + r.take(k - 1));
            } else if id == NbtTagId::Int {
                let a = spec_int_array(r)->Ok_0.0;
                lemma_leaf_bytes(NbtTagId::IntArray, r);
                lemma_int_list_bytes(a);
                assert(s.take(k) =~= seq![s[0]] + r.take(k - 1));
            } else if id == NbtTagId::Long {
                let a = spec_long_array(r)->Ok_0.0;
                lemma_leaf_bytes(NbtTagId::LongArray, r);
                lemma_long_list_bytes(a);
                assert(s.take(k) =~= seq![s[0]] + r.take(k - 1));
            } else {
                lemma_len_bytes(r);
                let n = spec_len(r)->Ok_0.0;
                if id == NbtTagId::End {
                    assert(encode_items(Seq::empty()) =~= Seq::<u8>::empty());
                    assert(s.take(k) =~= seq![s[0]] + r.take(4));
                } else {
                    lemma_elems_bytes(id, n, s.skip(5));
                    let m = spec_elems(id, n, s.skip(5))->Ok_0.1;
                    assert(s.take(k) =~= seq![s[0]] + r.take(4) + s.skip(5).take(m));
                }
            }
        }
    }
}

/// The `n` payloads that were read are written as the bytes they were read from,
/// where every list of kind `End` in them announced zero items.
proof fn lemma_elems_bytes(id: NbtTagId, n: nat, s: Seq<u8>)
    ensures
        spec_elems(id, n, s) matches Ok((items, m)) ==> end_lists_empty_elems(id, n, s) ==> items.len()
            == n && 0 <= m <= s.len() && encode_items(items) == s.take(m),
    decreases s.len(), 2nat, n,
{
    if n == 0 {
        assert(s.take(0) =~= Seq::<u8>::empty());
    } else {
        lemma_elems_bytes(id, (n - 1) as nat, s);
        if let Ok((init, m0)) = spec_elems(id, (n - 1) as nat, s) {
            if 0 <= m0 <= s.len() {
                lemma_payload_bytes(id, s.skip(m0));
                lemma_payload_wf(id, s.skip(m0));
                if let Ok((t, k)) = spec_payload(id, s.skip(m0)) {
                    assert(init.push(t).drop_last() =~= init);
                    assert(s.take(m0 + k) =~= s.take(m0) + s.skip(m0).take(k));
                }
            }
        }
    }
}

/// The entries that were read, after those in `acc`, are written as the bytes they
/// were read from, where every list of kind `End` in them announced zero items.
pub(crate) proof fn lemma_entries_bytes(acc: Entries, s: Seq<u8>)
    ensures
        spec_entries(acc, s) matches Ok((c, k)) ==> end_lists_empty_entries(s) ==> 0 <= k
            <= s.len() && encode_entries(c) + seq![0u8] == encode_entries(acc) + s.take(k),
    decreases s.len(), 0nat, 0nat,
{
    if let Ok((c, k)) = spec_entries(acc, s) {
        if end_lists_empty_entries(s) {
            let id = spec_tag_id(s)->Ok_0.0;
            lemma_tag_id_byte(s);
            if id == NbtTagId::End {
                assert(s.take(1) =~= seq![0u8]);
            } else {
                let (name, k1) = spec_string(s.skip(1))->Ok_0;
                lemma_string_bytes(s.skip(1));
                lemma_payload_bytes(id, s.skip(1 + k1));
                lemma_payload_wf(id, s.skip(1 + k1));
                let (t, k2) = spec_payload(id, s.skip(1 + k1))->Ok_0;
                let next = acc.push((name, t));
                let rest = s.skip(1 + k1 + k2);
                lemma_entries_bytes(next, rest);
                let k3 = spec_entries(next, rest)->Ok_0.1;
                assert(next.drop_last() =~= acc);
                assert(encode_entries(next) == encode_entries(acc) + seq![tag_kind(t).spec_byte()]
                    + encode_string(name) + encode_payload(t));
                assert(s.take(k) =~= seq![s[0]] + s.skip(1).take(k1) + s.skip(1 + k1).take(k2)
                    + rest.take(k3));
            }
        }
    }
}

/// Writing what was read from a document gives back the bytes that were read, for
/// every document whose lists of kind `End` all announce zero items: reading keeps
/// everything else that the bytes say.
pub proof fn lemma_bytes_roundtrip(s: Seq<u8>)
    requires
        end_lists_empty(s),
    ensures
        spec_nbt(s) matches Ok((name, c)) ==> encode_nbt(name, c) == s,
{
    if let Ok((name, c)) = spec_nbt(s) {
        lemma_tag_id_byte(s);
        let (_, k1) = spec_string(s.skip(1))->Ok_0;
        lemma_string_bytes(s.skip(1));
        lemma_entries_bytes(Seq::empty(), s.skip(1 + k1));
        let k2 = spec_entries(Seq::empty(), s.skip(1 + k1))->Ok_0.1;
        assert(encode_entries(Seq::empty()) + s.skip(1 + k1).take(k2) =~= s.skip(1 + k1).take(k2));
        assert(s =~= seq![s[0]] + s.skip(1).take(k1) + s.skip(1 + k1).take(k2));
    }
}

} // verus!
