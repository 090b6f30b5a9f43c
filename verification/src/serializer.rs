//! Functions for serializing NBT data into bytes.
use vstd::prelude::*;

use crate::error::ParseFault;
use crate::format::{
    be16, be32, be64, encode_entries, encode_items, encode_len, encode_nbt, encode_payload,
    spec_nbt, tag_kind, wf_entries, wf_items,
    wf_tag,
};
use crate::laws::lemma_nbt_roundtrip;
use crate::parser::lemma_entries_model;
use crate::traits::{concat_payloads, NbtSerialize};
use crate::types::{
    compounds_model, entries_model, lemma_compounds_model_len, lemma_lists_model_len, lists_model,
    Entries, F32Bits, F64Bits, NbtArray, NbtCompound, NbtList, NbtString, NbtTag, NbtTagId, TagModel,
};

verus! {

/// Appends the two bytes of `v`, most significant first.
pub(crate) fn push_be16(buf: &mut Vec<u8>, v: u16)
    ensures
        final(buf)@ == old(buf)@ + be16(v),
{
    buf.push((v >> 8u16) as u8);
    buf.push(v as u8);
    assert(buf@ =~= old(buf)@ + be16(v));
}

/// Appends the four bytes of `v`, most significant first.
pub(crate) fn push_be32(buf: &mut Vec<u8>, v: u32)
    ensures
        final(buf)@ == old(buf)@ + be32(v),
{
    buf.push((v >> 24u32) as u8);
    buf.push((v >> 16u32) as u8);
    buf.push((v >> 8u32) as u8);
    buf.push(v as u8);
    assert(buf@ =~= old(buf)@ + be32(v));
}

/// Appends the eight bytes of `v`, most significant first.
pub(crate) fn push_be64(buf: &mut Vec<u8>, v: u64)
    ensures
        final(buf)@ == old(buf)@ + be64(v),
{
    buf.push((v >> 56u64) as u8);
    buf.push((v >> 48u64) as u8);
    buf.push((v >> 40u64) as u8);
    buf.push((v >> 32u64) as u8);
    buf.push((v >> 24u64) as u8);
    buf.push((v >> 16u64) as u8);
    buf.push((v >> 8u64) as u8);
    buf.push(v as u8);
    assert(buf@ =~= old(buf)@ + be64(v));
}

/// Appends bytes.
pub(crate) fn extend_bytes(buf: &mut Vec<u8>, bytes: &[u8])
    ensures
        final(buf)@ == old(buf)@ + bytes@,
{
    buf.extend_from_slice(bytes);
    assert(buf@ =~= old(buf)@ + bytes@);
}

/// Appends the payload of each value, in order.
pub(crate) fn serialize_each<T: NbtSerialize>(items: &Vec<T>, buf: &mut Vec<u8>)
    ensures
        final(buf)@ == old(buf)@ + concat_payloads(items@),
        forall|i: int| 0 <= i < items@.len() ==> (#[trigger] items@[i]).payload_fits(),
{
    let ghost start = buf@;
    let mut i: usize = 0;
    assert(items@.take(0) =~= Seq::<T>::empty());
    assert(start + concat_payloads(items@.take(0)) =~= start);
    while i < items.len()
        invariant
            i <= items@.len(),
            buf@ == start + concat_payloads(items@.take(i as int)),
            forall|k: int| 0 <= k < i ==> (#[trigger] items@[k]).payload_fits(),
        decreases items@.len() - i,
    {
        items[i].serialize_nbt_payload(buf);
        assert(items@.take(i + 1).drop_last() =~= items@.take(i as int));
        i += 1;
    }
    assert(items@.take(items@.len() as int) =~= items@);
}

/// The payloads of values whose payloads are those of the tags that `f` gives.
proof fn lemma_items_as_payloads<T: NbtSerialize>(s: Seq<T>, f: spec_fn(T) -> TagModel)
    requires
        forall|x: T| #[trigger] encode_payload(f(x)) == x.spec_serialize_nbt_payload(),
    ensures
        encode_items(s.map_values(f)) == concat_payloads(s),
    decreases s.len(),
{
    if s.len() > 0 {
        lemma_items_as_payloads(s.drop_last(), f);
        assert(s.map_values(f).drop_last() =~= s.drop_last().map_values(f));
        assert(encode_payload(f(s.last())) == s.last().spec_serialize_nbt_payload());
    }
}

/// Items that each fit, turned by `f` into well-formed tags of one kind, are
/// well-formed items of that kind.
proof fn lemma_fitting_items<T: NbtSerialize>(s: Seq<T>, id: NbtTagId, f: spec_fn(T) -> TagModel)
    requires
        forall|i: int| 0 <= i < s.len() ==> (#[trigger] s[i]).payload_fits(),
        forall|x: T| x.payload_fits() ==> tag_kind(#[trigger] f(x)) == id && wf_tag(f(x)),
    ensures
        wf_items(id, s.map_values(f)),
    decreases s.len(),
{
    if s.len() > 0 {
        lemma_fitting_items(s.drop_last(), id, f);
        assert(s.map_values(f).drop_last() =~= s.drop_last().map_values(f));
        assert(s.last() == s[s.len() - 1]);
    }
}

/// A list holds items of its own kind, as a `TagModel::List`.
proof fn lemma_list_model_kind(l: NbtList)
    ensures
        l@ is List,
{
}

/// Serializes the payload of a tag.
pub(crate) fn serialize_tag(t: &NbtTag, buf: &mut Vec<u8>)
    ensures
        final(buf)@ == old(buf)@ + encode_payload(t@),
        wf_tag(t@),
    decreases t,
{
    match t {
        NbtTag::End => {
            assert(buf@ =~= old(buf)@ + encode_payload(t@));
        },
        NbtTag::Byte(data) => data.serialize_nbt_payload(buf),
        NbtTag::Short(data) => data.serialize_nbt_payload(buf),
        NbtTag::Int(data) => data.serialize_nbt_payload(buf),
        NbtTag::Long(data) => data.serialize_nbt_payload(buf),
        NbtTag::Float(data) => data.serialize_nbt_payload(buf),
        NbtTag::Double(data) => data.serialize_nbt_payload(buf),
        NbtTag::ByteArray(data) => data.serialize_nbt_payload(buf),
        NbtTag::String(data) => data.serialize_nbt_payload(buf),
        NbtTag::List(data) => serialize_list(data, buf),
        NbtTag::Compound(data) => serialize_compound(data, buf),
        NbtTag::IntArray(data) => data.serialize_nbt_payload(buf),
        NbtTag::LongArray(data) => data.serialize_nbt_payload(buf),
    }
}

/// Serializes the payload of a list: the kind of its items, their number and
/// their payloads.
pub(crate) fn serialize_list(l: &NbtList, buf: &mut Vec<u8>)
    ensures
        final(buf)@ == old(buf)@ + encode_payload(l@),
        wf_tag(l@),
    decreases l,
{
    match l {
        NbtList::End => {
            // type and length must be 0
            buf.push(0u8);
            buf.push(0u8);
            buf.push(0u8);
            buf.push(0u8);
            buf.push(0u8);
            assert(((0u32 >> 24u32) as u8) == 0 && ((0u32 >> 16u32) as u8) == 0 && ((0u32
                >> 8u32) as u8) == 0 && ((0u32) as u8) == 0) by (bit_vector);
            assert(encode_len(0) =~= seq![0u8, 0u8, 0u8, 0u8]);
            assert(l@ == TagModel::List(NbtTagId::End, Seq::empty()));
            assert(buf@ =~= old(buf)@ + encode_payload(l@));
        },
        NbtList::List(data) => {
            proof {
                use_type_invariant(data);
            }
            buf.push(NbtTagId::List.as_byte());
            (data.items.len() as i32).serialize_nbt_payload(buf);
            serialize_lists(&data.items, buf);
            proof {
                lemma_lists_model_len(data.items@);
            }
            assert(buf@ =~= old(buf)@ + encode_payload(l@));
        },
        NbtList::Compound(data) => {
            proof {
                use_type_invariant(data);
            }
            buf.push(NbtTagId::Compound.as_byte());
            (data.items.len() as i32).serialize_nbt_payload(buf);
            serialize_compounds(&data.items, buf);
            proof {
                lemma_compounds_model_len(data.items@);
            }
            assert(buf@ =~= old(buf)@ + encode_payload(l@));
        },
        _ => serialize_leaf_list(l, buf),
    }
}

/// Serializes a list whose items hold no other tag.
fn serialize_leaf_list(l: &NbtList, buf: &mut Vec<u8>)
    requires
        !(l is End),
        !(l is List),
        !(l is Compound),
    ensures
        final(buf)@ == old(buf)@ + encode_payload(l@),
        wf_tag(l@),
{
    match l {
        NbtList::Byte(data) => {
            buf.push(NbtTagId::Byte.as_byte());
            (data.items.len() as i32).serialize_nbt_payload(buf);
            serialize_each(&data.items, buf);
            proof {
                let f: spec_fn(i8) -> TagModel = |v: i8| TagModel::Byte(v);
                lemma_items_as_payloads(data.items@, f);
                use_type_invariant(data);
                lemma_fitting_items(data.items@, NbtTagId::Byte, f);
                assert(data.items@.map_values(f) =~= data.items@.map_values(|v: i8| TagModel::Byte(v)));
            }
        },
        NbtList::Short(data) => {
            buf.push(NbtTagId::Short.as_byte());
            (data.items.len() as i32).serialize_nbt_payload(buf);
            serialize_each(&data.items, buf);
            proof {
                let f: spec_fn(i16) -> TagModel = |v: i16| TagModel::Short(v);
                lemma_items_as_payloads(data.items@, f);
                use_type_invariant(data);
                lemma_fitting_items(data.items@, NbtTagId::Short, f);
                assert(data.items@.map_values(f) =~= data.items@.map_values(|v: i16| TagModel::Short(v)));
            }
        },
        NbtList::Int(data) => {
            buf.push(NbtTagId::Int.as_byte());
            (data.items.len() as i32).serialize_nbt_payload(buf);
            serialize_each(&data.items, buf);
            proof {
                let f: spec_fn(i32) -> TagModel = |v: i32| TagModel::Int(v);
                lemma_items_as_payloads(data.items@, f);
                use_type_invariant(data);
                lemma_fitting_items(data.items@, NbtTagId::Int, f);
                assert(data.items@.map_values(f) =~= data.items@.map_values(|v: i32| TagModel::Int(v)));
            }
        },
        NbtList::Long(data) => {
            buf.push(NbtTagId::Long.as_byte());
            (data.items.len() as i32).serialize_nbt_payload(buf);
            serialize_each(&data.items, buf);
            proof {
                let f: spec_fn(i64) -> TagModel = |v: i64| TagModel::Long(v);
                lemma_items_as_payloads(data.items@, f);
                use_type_invariant(data);
                lemma_fitting_items(data.items@, NbtTagId::Long, f);
                assert(data.items@.map_values(f) =~= data.items@.map_values(|v: i64| TagModel::Long(v)));
            }
        },
        NbtList::Float(data) => {
            buf.push(NbtTagId::Float.as_byte());
            (data.items.len() as i32).serialize_nbt_payload(buf);
            serialize_each(&data.items, buf);
            proof {
                let f: spec_fn(F32Bits) -> TagModel = |v: F32Bits| TagModel::Float(v.bits);
                lemma_items_as_payloads(data.items@, f);
                use_type_invariant(data);
                lemma_fitting_items(data.items@, NbtTagId::Float, f);
                assert(data.items@.map_values(f) =~= data.items@.map_values(|v: F32Bits| TagModel::Float(v.bits)));
            }
        },
        NbtList::Double(data) => {
            buf.push(NbtTagId::Double.as_byte());
            (data.items.len() as i32).serialize_nbt_payload(buf);
            serialize_each(&data.items, buf);
            proof {
                let f: spec_fn(F64Bits) -> TagModel = |v: F64Bits| TagModel::Double(v.bits);
                lemma_items_as_payloads(data.items@, f);
                use_type_invariant(data);
                lemma_fitting_items(data.items@, NbtTagId::Double, f);
                assert(data.items@.map_values(f) =~= data.items@.map_values(|v: F64Bits| TagModel::Double(v.bits)));
            }
        },
        NbtList::ByteArray(data) => {
            buf.push(NbtTagId::ByteArray.as_byte());
            (data.items.len() as i32).serialize_nbt_payload(buf);
            serialize_each(&data.items, buf);
            proof {
                let f: spec_fn(NbtArray<i8>) -> TagModel = |v: NbtArray<i8>| TagModel::ByteArray(v.items@);
                lemma_items_as_payloads(data.items@, f);
                use_type_invariant(data);
                lemma_fitting_items(data.items@, NbtTagId::ByteArray, f);
                assert(data.items@.map_values(f) =~= data.items@.map_values(|v: NbtArray<i8>| TagModel::ByteArray(v.items@)));
            }
        },
        NbtList::String(data) => {
            buf.push(NbtTagId::String.as_byte());
            (data.items.len() as i32).serialize_nbt_payload(buf);
            serialize_each(&data.items, buf);
            proof {
                let f: spec_fn(NbtString) -> TagModel = |v: NbtString| TagModel::String(v.str@);
                lemma_items_as_payloads(data.items@, f);
                use_type_invariant(data);
                lemma_fitting_items(data.items@, NbtTagId::String, f);
                assert(data.items@.map_values(f) =~= data.items@.map_values(|v: NbtString| TagModel::String(v.str@)));
            }
        },
        NbtList::IntArray(data) => {
            buf.push(NbtTagId::IntArray.as_byte());
            (data.items.len() as i32).serialize_nbt_payload(buf);
            serialize_each(&data.items, buf);
            proof {
                let f: spec_fn(NbtArray<i32>) -> TagModel = |v: NbtArray<i32>| TagModel::IntArray(v.items@);
                lemma_items_as_payloads(data.items@, f);
                use_type_invariant(data);
                lemma_fitting_items(data.items@, NbtTagId::IntArray, f);
                assert(data.items@.map_values(f) =~= data.items@.map_values(|v: NbtArray<i32>| TagModel::IntArray(v.items@)));
            }
        },
        NbtList::LongArray(data) => {
            buf.push(NbtTagId::LongArray.as_byte());
            (data.items.len() as i32).serialize_nbt_payload(buf);
            serialize_each(&data.items, buf);
            proof {
                let f: spec_fn(NbtArray<i64>) -> TagModel = |v: NbtArray<i64>| TagModel::LongArray(v.items@);
                lemma_items_as_payloads(data.items@, f);
                use_type_invariant(data);
                lemma_fitting_items(data.items@, NbtTagId::LongArray, f);
                assert(data.items@.map_values(f) =~= data.items@.map_values(|v: NbtArray<i64>| TagModel::LongArray(v.items@)));
            }
        },
        _ => {},
    }
}

/// Serializes the payloads of lists, one after the other.
fn serialize_lists(items: &Vec<NbtList>, buf: &mut Vec<u8>)
    ensures
        final(buf)@ == old(buf)@ + encode_items(lists_model(items@)),
        wf_items(NbtTagId::List, lists_model(items@)),
    decreases items,
{
    let ghost start = buf@;
    let mut i: usize = 0;
    assert(lists_model(items@.take(0)) =~= Seq::<TagModel>::empty());
    assert(start + encode_items(lists_model(items@.take(0))) =~= start);
    while i < items.len()
        invariant
            i <= items@.len(),
            buf@ == start + encode_items(lists_model(items@.take(i as int))),
            wf_items(NbtTagId::List, lists_model(items@.take(i as int))),
        decreases items@.len() - i,
    {
        proof {
            assert(decreases_to!(items => items[i as int]));
        }
        serialize_list(&items[i], buf);
        let ghost next = lists_model(items@.take(i + 1));
        assert(items@.take(i + 1).drop_last() =~= items@.take(i as int));
        assert(next.drop_last() =~= lists_model(items@.take(i as int)));
        assert(next.last() == items@[i as int]@);
        proof {
            lemma_list_model_kind(items@[i as int]);
        }
        i += 1;
    }
    assert(items@.take(items@.len() as int) =~= items@);
}

/// Serializes the payloads of compounds, one after the other.
fn serialize_compounds(items: &Vec<NbtCompound>, buf: &mut Vec<u8>)
    ensures
        final(buf)@ == old(buf)@ + encode_items(compounds_model(items@)),
        wf_items(NbtTagId::Compound, compounds_model(items@)),
    decreases items,
{
    let ghost start = buf@;
    let mut i: usize = 0;
    assert(compounds_model(items@.take(0)) =~= Seq::<TagModel>::empty());
    assert(start + encode_items(compounds_model(items@.take(0))) =~= start);
    while i < items.len()
        invariant
            i <= items@.len(),
            buf@ == start + encode_items(compounds_model(items@.take(i as int))),
            wf_items(NbtTagId::Compound, compounds_model(items@.take(i as int))),
        decreases items@.len() - i,
    {
        proof {
            assert(decreases_to!(items => items[i as int]));
        }
        serialize_compound(&items[i], buf);
        let ghost next = compounds_model(items@.take(i + 1));
        assert(items@.take(i + 1).drop_last() =~= items@.take(i as int));
        assert(next.drop_last() =~= compounds_model(items@.take(i as int)));
        proof {
            let c = items@[i as int]@;
            let last = next.last();
            assert(last == TagModel::Compound(c));
            assert(wf_items(NbtTagId::Compound, next) == (wf_items(
                NbtTagId::Compound,
                next.drop_last(),
            ) && tag_kind(last) == NbtTagId::Compound && wf_tag(last)));
            assert(wf_tag(last) == wf_entries(c));
        }
        i += 1;
    }
    assert(items@.take(items@.len() as int) =~= items@);
}

/// Serializes the payload of a compound: each entry as its kind, its name and its
/// payload, then an `End`.
#[verifier::spinoff_prover]
pub(crate) fn serialize_compound(c: &NbtCompound, buf: &mut Vec<u8>)
    ensures
        final(buf)@ == old(buf)@ + encode_payload(TagModel::Compound(c@)),
        wf_entries(c@),
    decreases c,
{
    proof {
        use_type_invariant(c);
    }
    let ghost start = buf@;
    let mut i: usize = 0;
    assert(entries_model(c.data@.take(0)) =~= Seq::<(Seq<char>, TagModel)>::empty());
    assert(start + encode_entries(entries_model(c.data@.take(0))) =~= start);
    while i < c.data.len()
        invariant
            i <= c.data@.len(),
            buf@ == start + encode_entries(entries_model(c.data@.take(i as int))),
            NbtCompound::distinct_names(c.data@),
            NbtCompound::no_end_values(c.data@),
            wf_entries(entries_model(c.data@.take(i as int))),
        decreases c.data@.len() - i,
    {
        let (key, tag) = &c.data[i];
        buf.push(tag.tag_id().as_byte());
        key.serialize_nbt_payload(buf);
        serialize_tag(tag, buf);
        proof {
            lemma_tag_kind(*tag);
        }
        let ghost next = entries_model(c.data@.take(i + 1));
        let ghost prev = entries_model(c.data@.take(i as int));
        assert(c.data@.take(i + 1).drop_last() =~= c.data@.take(i as int));
        assert(next.drop_last() =~= prev);
        assert(next.last() == (key@, tag@));
        proof {
            lemma_entries_model(c.data@.take(i as int));
            assert forall|k: int| 0 <= k < prev.len() implies (#[trigger] prev[k]).0 != key@ by {
                reveal(NbtCompound::distinct_names);
                assert(prev[k] == (c.data@[k].0@, c.data@[k].1@));
            }
            assert(!tag.is_end_spec()) by {
                reveal(NbtCompound::no_end_values);
                assert(!c.data@[i as int].1.is_end_spec());
            }
            assert(!(tag@ is End));
        }
        i += 1;
    }
    assert(c.data@.take(c.data@.len() as int) =~= c.data@);
    buf.push(0x00);
    assert(buf@ =~= start + encode_entries(c@) + seq![0u8]);
}

/// The kind of a tag is the kind of its content.
proof fn lemma_tag_kind(t: NbtTag)
    ensures
        tag_kind(t@) == t.spec_tag_id(),
{
}

/// Serializes a named `NbtCompound` into a `Vec` of bytes.
/// This function is guaranteed never to fail nor to generate any invalid nbt data:
/// reading the bytes back gives the same name and compound.
pub fn serialize_nbt(name: &NbtString, data: &NbtCompound) -> (r: Vec<u8>)
    ensures
        r@ == encode_nbt(name@, data@),
        spec_nbt(r@) == Ok::<(Seq<char>, Entries), ParseFault>((name@, data@)),
{
    // 4KiB is small enough not to matter compared to how much
    // does it speed thing up for an average nbt file.
    let mut buffer: Vec<u8> = Vec::with_capacity(4096);
    buffer.push(NbtTagId::Compound.as_byte());
    name.serialize_nbt_payload(&mut buffer);
    serialize_compound(data, &mut buffer);
    assert(buffer@ =~= encode_nbt(name@, data@));
    proof {
        lemma_nbt_roundtrip(name@, data@);
    }
    buffer
}

} // verus!
