//! The mathematical content of the NBT types, which the contracts speak of.
use vstd::prelude::*;

use crate::types::{F32Bits, F64Bits, NbtArray, NbtCompound, NbtList, NbtString, NbtTag, NbtTagId};

verus! {

/// The entries of a compound: each name with the tag it holds, in order.
pub type Entries = Seq<(Seq<char>, TagModel)>;

/// What an NBT tag holds. Strings are taken by their characters, floats by
/// their bits, and a list by the kind of its items and the items themselves.
pub enum TagModel {
    End,
    Byte(i8),
    Short(i16),
    Int(i32),
    Long(i64),
    Float(u32),
    Double(u64),
    ByteArray(Seq<i8>),
    String(Seq<char>),
    List(NbtTagId, Seq<TagModel>),
    Compound(Entries),
    IntArray(Seq<i32>),
    LongArray(Seq<i64>),
}

/// The content of a tag.
pub open(crate) spec fn tag_model(t: NbtTag) -> TagModel
    decreases t,
{
    match t {
        NbtTag::End => TagModel::End,
        NbtTag::Byte(v) => TagModel::Byte(v),
        NbtTag::Short(v) => TagModel::Short(v),
        NbtTag::Int(v) => TagModel::Int(v),
        NbtTag::Long(v) => TagModel::Long(v),
        NbtTag::Float(v) => TagModel::Float(v.bits),
        NbtTag::Double(v) => TagModel::Double(v.bits),
        NbtTag::ByteArray(a) => TagModel::ByteArray(a.items@),
        NbtTag::String(s) => TagModel::String(s.str@),
        NbtTag::List(l) => list_model(l),
        NbtTag::Compound(c) => TagModel::Compound(entries_model(c.data@)),
        NbtTag::IntArray(a) => TagModel::IntArray(a.items@),
        NbtTag::LongArray(a) => TagModel::LongArray(a.items@),
    }
}

/// The content of a list: the kind of its items and the items.
pub open(crate) spec fn list_model(l: NbtList) -> TagModel
    decreases l,
{
    match l {
        NbtList::End => TagModel::List(NbtTagId::End, Seq::empty()),
        NbtList::Byte(a) => TagModel::List(NbtTagId::Byte, a.items@.map_values(|v: i8| TagModel::Byte(v))),
        NbtList::Short(a) => TagModel::List(NbtTagId::Short, a.items@.map_values(|v: i16| TagModel::Short(v))),
        NbtList::Int(a) => TagModel::List(NbtTagId::Int, a.items@.map_values(|v: i32| TagModel::Int(v))),
        NbtList::Long(a) => TagModel::List(NbtTagId::Long, a.items@.map_values(|v: i64| TagModel::Long(v))),
        NbtList::Float(a) => TagModel::List(NbtTagId::Float, a.items@.map_values(|v: F32Bits| TagModel::Float(v.bits))),
        NbtList::Double(a) => TagModel::List(NbtTagId::Double, a.items@.map_values(|v: F64Bits| TagModel::Double(v.bits))),
        NbtList::ByteArray(a) => TagModel::List(
            NbtTagId::ByteArray,
            a.items@.map_values(|v: crate::types::NbtArray<i8>| TagModel::ByteArray(v.items@)),
        ),
        NbtList::String(a) => TagModel::List(
            NbtTagId::String,
            a.items@.map_values(|v: NbtString| TagModel::String(v.str@)),
        ),
        NbtList::List(a) => TagModel::List(NbtTagId::List, lists_model(a.items@)),
        NbtList::Compound(a) => TagModel::List(NbtTagId::Compound, compounds_model(a.items@)),
        NbtList::IntArray(a) => TagModel::List(
            NbtTagId::IntArray,
            a.items@.map_values(|v: crate::types::NbtArray<i32>| TagModel::IntArray(v.items@)),
        ),
        NbtList::LongArray(a) => TagModel::List(
            NbtTagId::LongArray,
            a.items@.map_values(|v: crate::types::NbtArray<i64>| TagModel::LongArray(v.items@)),
        ),
    }
}

/// The contents of a sequence of lists.
pub open(crate) spec fn lists_model(s: Seq<NbtList>) -> Seq<TagModel>
    decreases s,
{
    if s.len() == 0 {
        Seq::empty()
    } else {
        lists_model(s.drop_last()).push(list_model(s.last()))
    }
}

/// The contents of a sequence of compounds.
pub open(crate) spec fn compounds_model(s: Seq<NbtCompound>) -> Seq<TagModel>
    decreases s,
{
    if s.len() == 0 {
        Seq::empty()
    } else {
        compounds_model(s.drop_last()).push(TagModel::Compound(entries_model(s.last().data@)))
    }
}

/// The contents of the entries of a compound.
pub open(crate) spec fn entries_model(s: Seq<(NbtString, NbtTag)>) -> Entries
    decreases s,
{
    if s.len() == 0 {
        Seq::empty()
    } else {
        entries_model(s.drop_last()).push((s.last().0.str@, tag_model(s.last().1)))
    }
}

/// The contents of lists, one per list.
pub(crate) proof fn lemma_lists_model_len(s: Seq<NbtList>)
    ensures
        lists_model(s).len() == s.len(),
    decreases s.len(),
{
    if s.len() > 0 {
        lemma_lists_model_len(s.drop_last());
    }
}

/// The contents of compounds, one per compound.
pub(crate) proof fn lemma_compounds_model_len(s: Seq<NbtCompound>)
    ensures
        compounds_model(s).len() == s.len(),
    decreases s.len(),
{
    if s.len() > 0 {
        lemma_compounds_model_len(s.drop_last());
    }
}

impl View for NbtTag {
    type V = TagModel;

    open(crate) spec fn view(&self) -> TagModel {
        tag_model(*self)
    }
}

impl View for NbtList {
    type V = TagModel;

    open(crate) spec fn view(&self) -> TagModel {
        list_model(*self)
    }
}

impl View for NbtCompound {
    type V = Entries;

    open(crate) spec fn view(&self) -> Entries {
        entries_model(self.data@)
    }
}

/// What each kind of tag holds, by the views of what it is made of.
pub proof fn lemma_tag_view(t: NbtTag)
    ensures
        match t {
            NbtTag::End => t@ == TagModel::End,
            NbtTag::Byte(v) => t@ == TagModel::Byte(v),
            NbtTag::Short(v) => t@ == TagModel::Short(v),
            NbtTag::Int(v) => t@ == TagModel::Int(v),
            NbtTag::Long(v) => t@ == TagModel::Long(v),
            NbtTag::Float(v) => t@ == TagModel::Float(v@),
            NbtTag::Double(v) => t@ == TagModel::Double(v@),
            NbtTag::ByteArray(a) => t@ == TagModel::ByteArray(a@),
            NbtTag::String(s) => t@ == TagModel::String(s@),
            NbtTag::List(l) => t@ == l@,
            NbtTag::Compound(c) => t@ == TagModel::Compound(c@),
            NbtTag::IntArray(a) => t@ == TagModel::IntArray(a@),
            NbtTag::LongArray(a) => t@ == TagModel::LongArray(a@),
        },
{
}

/// What each kind of list holds: the kind of its items, and each item by the view of
/// what it is made of.
pub proof fn lemma_list_view(l: NbtList)
    ensures
        l@ is List,
        l is End ==> l@ == TagModel::List(NbtTagId::End, Seq::empty()),
        match l {
            NbtList::End => true,
            NbtList::Byte(a) => l@ == TagModel::List(NbtTagId::Byte, a@.map_values(|v: i8| TagModel::Byte(v))),
            NbtList::Short(a) => l@ == TagModel::List(NbtTagId::Short, a@.map_values(|v: i16| TagModel::Short(v))),
            NbtList::Int(a) => l@ == TagModel::List(NbtTagId::Int, a@.map_values(|v: i32| TagModel::Int(v))),
            NbtList::Long(a) => l@ == TagModel::List(NbtTagId::Long, a@.map_values(|v: i64| TagModel::Long(v))),
            NbtList::Float(a) => l@ == TagModel::List(NbtTagId::Float, a@.map_values(|v: F32Bits| TagModel::Float(v@))),
            NbtList::Double(a) => l@ == TagModel::List(NbtTagId::Double, a@.map_values(|v: F64Bits| TagModel::Double(v@))),
            NbtList::ByteArray(a) => l@ == TagModel::List(
                NbtTagId::ByteArray,
                a@.map_values(|v: NbtArray<i8>| TagModel::ByteArray(v@)),
            ),
            NbtList::String(a) => l@ == TagModel::List(
                NbtTagId::String,
                a@.map_values(|v: NbtString| TagModel::String(v@)),
            ),
            NbtList::List(a) => l@ == TagModel::List(NbtTagId::List, a@.map_values(|v: NbtList| v@)),
            NbtList::Compound(a) => l@ == TagModel::List(
                NbtTagId::Compound,
                a@.map_values(|v: NbtCompound| TagModel::Compound(v@)),
            ),
            NbtList::IntArray(a) => l@ == TagModel::List(
                NbtTagId::IntArray,
                a@.map_values(|v: NbtArray<i32>| TagModel::IntArray(v@)),
            ),
            NbtList::LongArray(a) => l@ == TagModel::List(
                NbtTagId::LongArray,
                a@.map_values(|v: NbtArray<i64>| TagModel::LongArray(v@)),
            ),
        },
{
    match l {
        NbtList::Byte(a) => {
            assert(a.items@.map_values(|v: i8| TagModel::Byte(v)) =~= a@.map_values(|v: i8| TagModel::Byte(v)));
        },
        NbtList::Float(a) => {
            assert(a.items@.map_values(|v: F32Bits| TagModel::Float(v.bits)) =~= a@.map_values(|v: F32Bits| TagModel::Float(v@)));
        },
        NbtList::Double(a) => {
            assert(a.items@.map_values(|v: F64Bits| TagModel::Double(v.bits)) =~= a@.map_values(|v: F64Bits| TagModel::Double(v@)));
        },
        NbtList::ByteArray(a) => {
            assert(a.items@.map_values(|v: NbtArray<i8>| TagModel::ByteArray(v.items@)) =~= a@.map_values(|v: NbtArray<i8>| TagModel::ByteArray(v@)));
        },
        NbtList::String(a) => {
            assert(a.items@.map_values(|v: NbtString| TagModel::String(v.str@)) =~= a@.map_values(|v: NbtString| TagModel::String(v@)));
        },
        NbtList::List(a) => {
            lemma_lists_model_map(a.items@);
        },
        NbtList::Compound(a) => {
            lemma_compounds_model_map(a.items@);
        },
        NbtList::IntArray(a) => {
            assert(a.items@.map_values(|v: NbtArray<i32>| TagModel::IntArray(v.items@)) =~= a@.map_values(|v: NbtArray<i32>| TagModel::IntArray(v@)));
        },
        NbtList::LongArray(a) => {
            assert(a.items@.map_values(|v: NbtArray<i64>| TagModel::LongArray(v.items@)) =~= a@.map_values(|v: NbtArray<i64>| TagModel::LongArray(v@)));
        },
        _ => {},
    }
}

/// The contents of lists are their views, one by one.
proof fn lemma_lists_model_map(s: Seq<NbtList>)
    ensures
        lists_model(s) == s.map_values(|v: NbtList| v@),
    decreases s.len(),
{
    if s.len() > 0 {
        lemma_lists_model_map(s.drop_last());
        assert(s.map_values(|v: NbtList| v@) =~= s.drop_last().map_values(|v: NbtList| v@).push(s.last()@));
    } else {
        assert(s.map_values(|v: NbtList| v@) =~= Seq::<TagModel>::empty());
    }
}

/// The contents of compounds are their views, one by one.
proof fn lemma_compounds_model_map(s: Seq<NbtCompound>)
    ensures
        compounds_model(s) == s.map_values(|v: NbtCompound| TagModel::Compound(v@)),
    decreases s.len(),
{
    if s.len() > 0 {
        lemma_compounds_model_map(s.drop_last());
        assert(s.map_values(|v: NbtCompound| TagModel::Compound(v@)) =~= s.drop_last().map_values(
            |v: NbtCompound| TagModel::Compound(v@),
        ).push(TagModel::Compound(s.last()@)));
    } else {
        assert(s.map_values(|v: NbtCompound| TagModel::Compound(v@)) =~= Seq::<TagModel>::empty());
    }
}

} // verus!
