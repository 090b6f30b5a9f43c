//! Copies of tags that hold the same content.
use vstd::prelude::*;

use crate::types::{
    lemma_compounds_model_len, lemma_lists_model_len, compounds_model, entries_model, lists_model, NbtArray, NbtCompound, NbtList, NbtString,
    NbtTag, TagModel,
};

verus! {

/// A copy of an array of plain values.
fn copy_array<T: Copy>(a: &NbtArray<T>) -> (r: NbtArray<T>)
    ensures
        r@ == a@,
{
    proof {
        use_type_invariant(a);
    }
    let mut items: Vec<T> = Vec::new();
    let mut i: usize = 0;
    while i < a.items.len()
        invariant
            i <= a.items@.len(),
            items@ == a.items@.take(i as int),
        decreases a.items@.len() - i,
    {
        items.push(a.items[i]);
        assert(items@ =~= a.items@.take(i + 1));
        i += 1;
    }
    assert(a.items@.take(a.items@.len() as int) =~= a.items@);
    NbtArray { items }
}

/// A copy of a string.
fn copy_string(s: &NbtString) -> (r: NbtString)
    ensures
        r@ == s@,
{
    proof {
        use_type_invariant(s);
    }
    NbtString { str: s.str.clone() }
}

/// A copy of an array of arrays of plain values.
fn copy_arrays<T: Copy>(a: &NbtArray<NbtArray<T>>) -> (r: NbtArray<NbtArray<T>>)
    ensures
        r@.len() == a@.len(),
        forall|i: int| 0 <= i < a@.len() ==> (#[trigger] r@[i])@ == a@[i]@,
{
    proof {
        use_type_invariant(a);
    }
    let mut items: Vec<NbtArray<T>> = Vec::new();
    let mut i: usize = 0;
    while i < a.items.len()
        invariant
            i <= a.items@.len(),
            items@.len() == i,
            forall|j: int| 0 <= j < i ==> (#[trigger] items@[j])@ == a.items@[j]@,
        decreases a.items@.len() - i,
    {
        items.push(copy_array(&a.items[i]));
        i += 1;
    }
    NbtArray { items }
}

/// A copy of an array of strings.
fn copy_strings(a: &NbtArray<NbtString>) -> (r: NbtArray<NbtString>)
    ensures
        r@.len() == a@.len(),
        forall|i: int| 0 <= i < a@.len() ==> (#[trigger] r@[i])@ == a@[i]@,
{
    proof {
        use_type_invariant(a);
    }
    let mut items: Vec<NbtString> = Vec::new();
    let mut i: usize = 0;
    while i < a.items.len()
        invariant
            i <= a.items@.len(),
            items@.len() == i,
            forall|j: int| 0 <= j < i ==> (#[trigger] items@[j])@ == a.items@[j]@,
        decreases a.items@.len() - i,
    {
        items.push(copy_string(&a.items[i]));
        i += 1;
    }
    NbtArray { items }
}

/// A copy of a tag.
pub(crate) fn copy_tag(t: &NbtTag) -> (r: NbtTag)
    ensures
        r@ == t@,
    decreases t,
{
    match t {
        NbtTag::End => NbtTag::End,
        NbtTag::Byte(v) => NbtTag::Byte(*v),
        NbtTag::Short(v) => NbtTag::Short(*v),
        NbtTag::Int(v) => NbtTag::Int(*v),
        NbtTag::Long(v) => NbtTag::Long(*v),
        NbtTag::Float(v) => NbtTag::Float(*v),
        NbtTag::Double(v) => NbtTag::Double(*v),
        NbtTag::ByteArray(a) => NbtTag::ByteArray(copy_array(a)),
        NbtTag::String(s) => NbtTag::String(copy_string(s)),
        NbtTag::List(l) => NbtTag::List(copy_list(l)),
        NbtTag::Compound(c) => NbtTag::Compound(copy_compound(c)),
        NbtTag::IntArray(a) => NbtTag::IntArray(copy_array(a)),
        NbtTag::LongArray(a) => NbtTag::LongArray(copy_array(a)),
    }
}

/// A copy of a list.
pub(crate) fn copy_list(l: &NbtList) -> (r: NbtList)
    ensures
        r@ == l@,
    decreases l,
{
    match l {
        NbtList::End => NbtList::End,
        NbtList::Byte(a) => NbtList::Byte(copy_array(a)),
        NbtList::Short(a) => NbtList::Short(copy_array(a)),
        NbtList::Int(a) => NbtList::Int(copy_array(a)),
        NbtList::Long(a) => NbtList::Long(copy_array(a)),
        NbtList::Float(a) => NbtList::Float(copy_array(a)),
        NbtList::Double(a) => NbtList::Double(copy_array(a)),
        NbtList::ByteArray(a) => {
            let r = copy_arrays(a);
            assert(r.items@.map_values(|v: NbtArray<i8>| TagModel::ByteArray(v.items@))
                =~= a.items@.map_values(|v: NbtArray<i8>| TagModel::ByteArray(v.items@)));
            NbtList::ByteArray(r)
        },
        NbtList::String(a) => {
            let r = copy_strings(a);
            assert(r.items@.map_values(|v: NbtString| TagModel::String(v.str@))
                =~= a.items@.map_values(|v: NbtString| TagModel::String(v.str@)));
            NbtList::String(r)
        },
        NbtList::List(a) => {
            let items = copy_lists(&a.items);
            proof {
                use_type_invariant(a);
                lemma_lists_model_len(items@);
                lemma_lists_model_len(a.items@);
            }
            NbtList::List(NbtArray { items })
        },
        NbtList::Compound(a) => {
            let items = copy_compounds(&a.items);
            proof {
                use_type_invariant(a);
                lemma_compounds_model_len(items@);
                lemma_compounds_model_len(a.items@);
            }
            NbtList::Compound(NbtArray { items })
        },
        NbtList::IntArray(a) => {
            let r = copy_arrays(a);
            assert(r.items@.map_values(|v: NbtArray<i32>| TagModel::IntArray(v.items@))
                =~= a.items@.map_values(|v: NbtArray<i32>| TagModel::IntArray(v.items@)));
            NbtList::IntArray(r)
        },
        NbtList::LongArray(a) => {
            let r = copy_arrays(a);
            assert(r.items@.map_values(|v: NbtArray<i64>| TagModel::LongArray(v.items@))
                =~= a.items@.map_values(|v: NbtArray<i64>| TagModel::LongArray(v.items@)));
            NbtList::LongArray(r)
        },
    }
}

/// Copies of lists.
fn copy_lists(v: &Vec<NbtList>) -> (r: Vec<NbtList>)
    ensures
        lists_model(r@) == lists_model(v@),
    decreases v,
{
    let mut items: Vec<NbtList> = Vec::new();
    let mut i: usize = 0;
    assert(lists_model(items@) =~= lists_model(v@.take(0)));
    while i < v.len()
        invariant
            i <= v@.len(),
            lists_model(items@) == lists_model(v@.take(i as int)),
        decreases v@.len() - i,
    {
        proof {
            assert(decreases_to!(v => v[i as int]));
        }
        let c = copy_list(&v[i]);
        let ghost old_items = items@;
        items.push(c);
        assert(items@.drop_last() =~= old_items);
        assert(v@.take(i + 1).drop_last() =~= v@.take(i as int));
        i += 1;
    }
    assert(v@.take(v@.len() as int) =~= v@);
    items
}

/// Copies of compounds.
fn copy_compounds(v: &Vec<NbtCompound>) -> (r: Vec<NbtCompound>)
    ensures
        compounds_model(r@) == compounds_model(v@),
    decreases v,
{
    let mut items: Vec<NbtCompound> = Vec::new();
    let mut i: usize = 0;
    assert(compounds_model(items@) =~= compounds_model(v@.take(0)));
    while i < v.len()
        invariant
            i <= v@.len(),
            compounds_model(items@) == compounds_model(v@.take(i as int)),
        decreases v@.len() - i,
    {
        proof {
            assert(decreases_to!(v => v[i as int]));
        }
        let c = copy_compound(&v[i]);
        let ghost old_items = items@;
        items.push(c);
        assert(items@.drop_last() =~= old_items);
        assert(v@.take(i + 1).drop_last() =~= v@.take(i as int));
        i += 1;
    }
    assert(v@.take(v@.len() as int) =~= v@);
    items
}

/// A copy of a compound.
pub(crate) fn copy_compound(c: &NbtCompound) -> (r: NbtCompound)
    ensures
        r@ == c@,
    decreases c,
{
    proof {
        use_type_invariant(c);
    }
    let mut data: Vec<(NbtString, NbtTag)> = Vec::new();
    let mut i: usize = 0;
    assert(entries_model(data@) =~= entries_model(c.data@.take(0)));
    while i < c.data.len()
        invariant
            i <= c.data@.len(),
            data@.len() == i,
            forall|k: int| 0 <= k < i ==> (#[trigger] data@[k]).0@ == c.data@[k].0@,
            NbtCompound::distinct_names(c.data@),
            NbtCompound::no_end_values(c.data@),
            forall|k: int| 0 <= k < i ==> !(#[trigger] data@[k]).1.is_end_spec(),
            entries_model(data@) == entries_model(c.data@.take(i as int)),
        decreases c.data@.len() - i,
    {
        proof {
            assert(decreases_to!(c.data => c.data[i as int]));
        }
        let (key, tag) = &c.data[i];
        let entry = (copy_string(key), copy_tag(tag));
        assert(!entry.1.is_end_spec()) by {
            reveal(NbtCompound::no_end_values);
            assert(!c.data@[i as int].1.is_end_spec());
        }
        let ghost old_data = data@;
        data.push(entry);
        assert(data@.drop_last() =~= old_data);
        assert(c.data@.take(i + 1).drop_last() =~= c.data@.take(i as int));
        i += 1;
    }
    assert(c.data@.take(c.data@.len() as int) =~= c.data@);
    assert(NbtCompound::distinct_names(data@)) by {
        reveal(NbtCompound::distinct_names);
    }
    assert(NbtCompound::no_end_values(data@)) by {
        reveal(NbtCompound::no_end_values);
    }
    NbtCompound { data }
}

impl Clone for NbtString {
    fn clone(&self) -> (r: Self)
        ensures
            r@ == self@,
    {
        copy_string(self)
    }
}

impl<T: Clone> Clone for NbtArray<T> {
    fn clone(&self) -> (r: Self)
        ensures
            r@.len() == self@.len(),
            forall|i: int| 0 <= i < self@.len() ==> cloned::<T>(self@[i], r@[i]),
    {
        proof {
            use_type_invariant(self);
        }
        NbtArray { items: self.items.clone() }
    }
}

impl Clone for NbtTag {
    fn clone(&self) -> (r: Self)
        ensures
            r@ == self@,
    {
        copy_tag(self)
    }
}

impl Clone for NbtList {
    fn clone(&self) -> (r: Self)
        ensures
            r@ == self@,
    {
        copy_list(self)
    }
}

impl Clone for NbtCompound {
    fn clone(&self) -> (r: Self)
        ensures
            r@ == self@,
    {
        copy_compound(self)
    }
}

} // verus!
