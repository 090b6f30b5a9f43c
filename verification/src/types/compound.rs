use vstd::prelude::*;

use std::collections::HashMap;
use vstd::std_specs::convert::FromSpecImpl;
use vstd::std_specs::hash::obeys_key_model;

use crate::error::ParseError;
use crate::foreign::{entries_of_map, map_of_entries};
use crate::format::{encode_payload, has_name, spec_entries, wf_entries, Read};
use crate::parser::parse_compound;
use crate::serializer::serialize_compound;
use crate::traits::{NbtParse, NbtSerialize};
use crate::types::string::same_text;
use crate::types::{entries_model, Entries, NbtString, NbtTag, TagModel};

verus! {

/// An NBT Compound.
///
/// Ensures no items have duplicate keys.
#[derive(Debug, PartialEq, PartialOrd)]
pub struct NbtCompound {
    pub(crate) data: Vec<(NbtString, NbtTag)>,
}

impl NbtParse for NbtCompound {
    open spec fn spec_parse_nbt_payload(data: Seq<u8>) -> Read<Entries> {
        spec_entries(Seq::empty(), data)
    }

    fn try_parse_nbt_payload(data: &[u8]) -> (r: Result<(Self, &[u8]), ParseError>) {
        parse_compound(data)
    }
}

impl NbtSerialize for NbtCompound {
    open spec fn payload_fits(&self) -> bool {
        wf_entries(self@)
    }

    open spec fn spec_serialize_nbt_payload(&self) -> Seq<u8> {
        encode_payload(TagModel::Compound(self@))
    }

    fn serialize_nbt_payload(&self, buf: &mut Vec<u8>) {
        serialize_compound(self, buf)
    }
}

impl NbtCompound {
    /// The entries, each name with its tag, in order.
    pub closed spec fn entries(&self) -> Seq<(NbtString, NbtTag)> {
        self.data@
    }

    /// Whether no name occurs twice among entries.
    #[verifier::opaque]
    pub open spec fn distinct_names(data: Seq<(NbtString, NbtTag)>) -> bool {
        forall|i: int, j: int| 0 <= i < j < data.len() ==> data[i].0@ != data[j].0@
    }

    /// Whether no entry holds a tag of kind `End`: such a tag would be written as
    /// the byte that ends a compound.
    #[verifier::opaque]
    pub open spec fn no_end_values(data: Seq<(NbtString, NbtTag)>) -> bool {
        forall|i: int| 0 <= i < data.len() ==> !(#[trigger] data[i]).1.is_end_spec()
    }

    /// Every `NbtCompound` holds each name once, and no tag of kind `End`.
    #[verifier::type_invariant]
    pub(crate) open spec fn holds_distinct_names(self) -> bool {
        &&& NbtCompound::distinct_names(self.data@)
        &&& NbtCompound::no_end_values(self.data@)
    }

    /// The tag under a name, if some entry has that name (the first such entry).
    pub fn get(&self, key: &str) -> (r: Option<&NbtTag>)
        ensures
            (r is Some) == has_name(self@, key@),
            r matches Some(t) ==> exists|i: int|
                0 <= i < self@.len() && (#[trigger] self@[i]) == (key@, t@) && forall|j: int|
                    0 <= j < i ==> self@[j].0 != key@,
    {
        proof {
            crate::parser::lemma_entries_model(self.data@);
        }
        let mut i: usize = 0;
        while i < self.data.len()
            invariant
                i <= self.data@.len(),
                self@.len() == self.data@.len(),
                forall|k: int|
                    0 <= k < self.data@.len() ==> #[trigger] self@[k] == (
                        self.data@[k].0@,
                        self.data@[k].1@,
                    ),
                forall|j: int| 0 <= j < i ==> (#[trigger] self@[j]).0 != key@,
            decreases self.data@.len() - i,
        {
            if same_text(self.data[i].0.str.as_str(), key) {
                assert(self@[i as int] == (key@, self.data@[i as int].1@));
                return Some(&self.data[i].1);
            }
            i += 1;
        }
        None
    }
}

impl From<NbtCompound> for Vec<(NbtString, NbtTag)> {
    fn from(val: NbtCompound) -> (r: Vec<(NbtString, NbtTag)>)
        ensures
            r@ == val.entries(),
            NbtCompound::distinct_names(r@),
    {
        proof {
            use_type_invariant(&val);
        }
        val.data
    }
}

impl FromSpecImpl<NbtCompound> for Vec<(NbtString, NbtTag)> {
    open spec fn obeys_from_spec() -> bool {
        true
    }

    open(crate) spec fn from_spec(val: NbtCompound) -> Vec<(NbtString, NbtTag)> {
        val.data
    }
}

impl From<NbtCompound> for HashMap<NbtString, NbtTag> {
    /// The map of the compound's entries; as its names are distinct, each entry is
    /// in it under its own name.
    fn from(val: NbtCompound) -> (r: HashMap<NbtString, NbtTag>)
        ensures
            obeys_key_model::<NbtString>() ==> r@ == entries_map(val.entries()),
    {
        proof {
            use_type_invariant(&val);
            reveal(NbtCompound::distinct_names);
        }
        map_of_entries(val.data)
    }
}

/// The map of entries inserted in order (where names are distinct, each entry
/// under its own name).
pub open spec fn entries_map(s: Seq<(NbtString, NbtTag)>) -> Map<NbtString, NbtTag>
    decreases s.len(),
{
    if s.len() == 0 {
        Map::empty()
    } else {
        entries_map(s.drop_last()).insert(s.last().0, s.last().1)
    }
}

impl FromSpecImpl<NbtCompound> for HashMap<NbtString, NbtTag> {
    /// No single value is the result: what the map holds is stated by `from`
    /// only in vstd's model of `HashMap` (see `map_of_entries`).
    open spec fn obeys_from_spec() -> bool {
        false
    }

    open spec fn from_spec(val: NbtCompound) -> HashMap<NbtString, NbtTag> {
        vstd::pervasive::arbitrary()
    }
}

impl From<HashMap<NbtString, NbtTag>> for NbtCompound {
    /// The entries of the map, in the map's order, leaving out those that hold a
    /// tag of kind `End` (a compound cannot hold one).
    fn from(map: HashMap<NbtString, NbtTag>) -> (r: Self)
        ensures
            forall|i: int, j: int| 0 <= i < j < r@.len() ==> r@[i].0 != r@[j].0,
            obeys_key_model::<NbtString>() ==> {
                &&& forall|i: int|
                    0 <= i < r.entries().len() ==> map@.contains_key((#[trigger] r.entries()[i]).0)
                        && map@[r.entries()[i].0] == r.entries()[i].1
                &&& forall|k: NbtString|
                    #[trigger] map@.contains_key(k) && !map@[k].is_end_spec() ==> exists|i: int|
                        0 <= i < r.entries().len() && (#[trigger] r.entries()[i]).0 == k
            },
    {
        let ghost m = map@;
        let all = entries_of_map(map);
        let ghost src = all@;
        let mut data: Vec<(NbtString, NbtTag)> = Vec::new();
        proof {
            assert(src.take(0) =~= Seq::<(NbtString, NbtTag)>::empty());
        }
        for e in it: all.into_iter()
            invariant
                it.seq() == src,
                data@ == without_end(src.take(it.index())),
        {
            proof {
                assert(src.take(it.index() + 1).drop_last() =~= src.take(it.index()));
            }
            if !e.1.is_end() {
                data.push(e);
            }
        }
        proof {
            assert(src.take(src.len() as int) =~= src);
            lemma_kept_entries(m, src);
        }
        let r = NbtCompound { data };
        assert(r.entries() == without_end(src));
        r
    }
}

/// What the entries of a map are once those holding `End` are left out: distinct
/// names, no `End`, and (in vstd's model of `HashMap`) the map's other entries.
proof fn lemma_kept_entries(m: Map<NbtString, NbtTag>, src: Seq<(NbtString, NbtTag)>)
    requires
        forall|i: int, j: int| 0 <= i < j < src.len() ==> src[i].0@ != src[j].0@,
        obeys_key_model::<NbtString>() ==> {
            &&& forall|i: int|
                0 <= i < src.len() ==> m.contains_key((#[trigger] src[i]).0) && m[src[i].0]
                    == src[i].1
            &&& forall|k: NbtString|
                #[trigger] m.contains_key(k) ==> exists|i: int|
                    0 <= i < src.len() && (#[trigger] src[i]).0 == k
        },
    ensures
        NbtCompound::distinct_names(without_end(src)),
        NbtCompound::no_end_values(without_end(src)),
        forall|i: int, j: int|
            0 <= i < j < entries_model(without_end(src)).len() ==> entries_model(
                without_end(src),
            )[i].0 != entries_model(without_end(src))[j].0,
        obeys_key_model::<NbtString>() ==> {
            &&& forall|i: int|
                0 <= i < without_end(src).len() ==> m.contains_key(
                    (#[trigger] without_end(src)[i]).0,
                ) && m[without_end(src)[i].0] == without_end(src)[i].1
            &&& forall|k: NbtString|
                #[trigger] m.contains_key(k) && !m[k].is_end_spec() ==> exists|i: int|
                    0 <= i < without_end(src).len() && (#[trigger] without_end(src)[i]).0 == k
        },
{
    let w = without_end(src);
    lemma_without_end(src);
    crate::parser::lemma_entries_model(w);
    assert(NbtCompound::distinct_names(w)) by {
        reveal(NbtCompound::distinct_names);
    }
    assert(NbtCompound::no_end_values(w)) by {
        reveal(NbtCompound::no_end_values);
    }
    if obeys_key_model::<NbtString>() {
        assert forall|i: int| 0 <= i < w.len() implies m.contains_key((#[trigger] w[i]).0)
            && m[w[i].0] == w[i].1 by {
            let j = choose|j: int| 0 <= j < src.len() && w[i] == src[j];
            assert(m.contains_key(src[j].0));
        }
        assert forall|k: NbtString| #[trigger] m.contains_key(k) && !m[k].is_end_spec() implies exists|
            i: int,
        | 0 <= i < w.len() && (#[trigger] w[i]).0 == k by {
            let j = choose|j: int| 0 <= j < src.len() && (#[trigger] src[j]).0 == k;
            assert(m.contains_key(src[j].0));
            assert(!src[j].1.is_end_spec());
            let i = choose|i: int| 0 <= i < w.len() && w[i] == src[j];
            assert(w[i].0 == k);
        }
    }
}

/// The map of entries with distinct names has each entry under its name, and
/// nothing else.
proof fn lemma_entries_map(s: Seq<(NbtString, NbtTag)>)
    requires
        forall|i: int, j: int| 0 <= i < j < s.len() ==> s[i].0@ != s[j].0@,
    ensures
        forall|k: NbtString|
            #[trigger] entries_map(s).contains_key(k) <==> exists|i: int|
                0 <= i < s.len() && s[i].0 == k,
        forall|i: int| 0 <= i < s.len() ==> entries_map(s)[(#[trigger] s[i]).0] == s[i].1,
    decreases s.len(),
{
    if s.len() > 0 {
        let p = s.drop_last();
        assert forall|i: int, j: int| 0 <= i < j < p.len() implies p[i].0@ != p[j].0@ by {
            assert(p[i] == s[i] && p[j] == s[j]);
        }
        lemma_entries_map(p);
        assert forall|k: NbtString| #[trigger] entries_map(s).contains_key(k) <==> exists|i: int|
            0 <= i < s.len() && s[i].0 == k by {
            assert(entries_map(s) == entries_map(p).insert(s.last().0, s.last().1));
            if entries_map(s).contains_key(k) {
                if k == s.last().0 {
                    assert(s[s.len() - 1].0 == k);
                } else {
                    assert(entries_map(p).contains_key(k));
                    let i = choose|i: int| 0 <= i < p.len() && p[i].0 == k;
                    assert(s[i] == p[i]);
                }
            }
            if exists|i: int| 0 <= i < s.len() && s[i].0 == k {
                let i = choose|i: int| 0 <= i < s.len() && s[i].0 == k;
                if i < p.len() {
                    assert(s[i] == p[i]);
                    assert(entries_map(p).contains_key(k));
                } else {
                    assert(s[i] == s.last());
                }
            }
        }
        assert forall|i: int| 0 <= i < s.len() implies entries_map(s)[(#[trigger] s[i]).0]
            == s[i].1 by {
            if i < p.len() {
                assert(s[i] == p[i]);
                assert(s[i].0@ != s.last().0@);
            }
        }
    }
}

/// Turning a map into a compound and the compound back into a map gives the map
/// without its entries that hold `End`, where `NbtString` behaves as a key in
/// vstd's model of `HashMap`. The requirements on `s` are what
/// `NbtCompound::from` promises of the entries of the compound it makes of `m`.
pub proof fn lemma_map_roundtrip(m: Map<NbtString, NbtTag>, s: Seq<(NbtString, NbtTag)>)
    requires
        obeys_key_model::<NbtString>(),
        NbtCompound::distinct_names(s),
        NbtCompound::no_end_values(s),
        forall|i: int| 0 <= i < s.len() ==> m.contains_key((#[trigger] s[i]).0) && m[s[i].0] == s[i].1,
        forall|k: NbtString|
            #[trigger] m.contains_key(k) && !m[k].is_end_spec() ==> exists|i: int|
                0 <= i < s.len() && (#[trigger] s[i]).0 == k,
    ensures
        entries_map(s) == Map::new(|k: NbtString| m.contains_key(k) && !m[k].is_end_spec(), |k: NbtString| m[k]),
{
    reveal(NbtCompound::distinct_names);
    reveal(NbtCompound::no_end_values);
    lemma_entries_map(s);
    let want = Map::new(|k: NbtString| m.contains_key(k) && !m[k].is_end_spec(), |k: NbtString| m[k]);
    assert forall|k: NbtString| #[trigger] entries_map(s).contains_key(k) <==> want.contains_key(k) by {
        if entries_map(s).contains_key(k) {
            let i = choose|i: int| 0 <= i < s.len() && s[i].0 == k;
            assert(m.contains_key(s[i].0));
        }
        if want.contains_key(k) {
            let i = choose|i: int| 0 <= i < s.len() && (#[trigger] s[i]).0 == k;
        }
    }
    assert forall|k: NbtString| #[trigger] entries_map(s).contains_key(k) implies entries_map(s)[k] == want[k] by {
        let i = choose|i: int| 0 <= i < s.len() && s[i].0 == k;
        assert(m.contains_key(s[i].0));
    }
    assert(entries_map(s) =~= want);
}

/// The entries that do not hold a tag of kind `End`, in order.
pub open spec fn without_end(s: Seq<(NbtString, NbtTag)>) -> Seq<(NbtString, NbtTag)>
    decreases s.len(),
{
    if s.len() == 0 {
        Seq::empty()
    } else if s.last().1.is_end_spec() {
        without_end(s.drop_last())
    } else {
        without_end(s.drop_last()).push(s.last())
    }
}

/// Leaving out the entries that hold `End` keeps distinct names distinct, keeps
/// each other entry, and adds none.
#[verifier::spinoff_prover]
proof fn lemma_without_end(s: Seq<(NbtString, NbtTag)>)
    ensures
        forall|i: int|
            0 <= i < without_end(s).len() ==> !(#[trigger] without_end(s)[i]).1.is_end_spec(),
        forall|i: int|
            0 <= i < without_end(s).len() ==> exists|j: int|
                0 <= j < s.len() && (#[trigger] without_end(s)[i]) == s[j],
        forall|j: int|
            0 <= j < s.len() && !(#[trigger] s[j]).1.is_end_spec() ==> exists|i: int|
                0 <= i < without_end(s).len() && without_end(s)[i] == s[j],
        (forall|i: int, j: int| 0 <= i < j < s.len() ==> s[i].0@ != s[j].0@) ==> (forall|
            i: int,
            j: int,
        | 0 <= i < j < without_end(s).len() ==> without_end(s)[i].0@ != without_end(s)[j].0@),
    decreases s.len(),
{
    if s.len() > 0 {
        let p = s.drop_last();
        lemma_without_end(p);
        let w = without_end(s);
        let wp = without_end(p);
        assert forall|i: int| 0 <= i < w.len() implies exists|j: int|
            0 <= j < s.len() && (#[trigger] w[i]) == s[j] by {
            if i < wp.len() {
                let j = choose|j: int| 0 <= j < p.len() && wp[i] == p[j];
                assert(w[i] == wp[i]);
                assert(s[j] == p[j]);
            } else {
                assert(w[i] == s[s.len() - 1]);
            }
        }
        assert forall|j: int| 0 <= j < s.len() && !(#[trigger] s[j]).1.is_end_spec() implies exists|
            i: int,
        | 0 <= i < w.len() && w[i] == s[j] by {
            if j < p.len() {
                assert(s[j] == p[j]);
                let i = choose|i: int| 0 <= i < wp.len() && wp[i] == p[j];
                assert(w[i] == wp[i]);
            } else {
                assert(w[wp.len() as int] == s[j]);
            }
        }
        if forall|i: int, j: int| 0 <= i < j < s.len() ==> s[i].0@ != s[j].0@ {
            assert forall|i: int, j: int| 0 <= i < j < p.len() implies p[i].0@ != p[j].0@ by {
                assert(p[i] == s[i] && p[j] == s[j]);
            }
            assert forall|i: int, j: int| 0 <= i < j < w.len() implies w[i].0@ != w[j].0@ by {
                if j < wp.len() {
                    assert(w[i] == wp[i] && w[j] == wp[j]);
                } else {
                    let k = choose|k: int| 0 <= k < p.len() && wp[i] == p[k];
                    assert(w[i] == wp[i]);
                    assert(p[k] == s[k]);
                    assert(w[j] == s[s.len() - 1]);
                }
            }
        }
    }
}

impl FromSpecImpl<HashMap<NbtString, NbtTag>> for NbtCompound {
    /// No single value is the result: the order of the entries is the map's own,
    /// and which entries come out is stated by `from` only in vstd's model of
    /// `HashMap` (see `entries_of_map`).
    open spec fn obeys_from_spec() -> bool {
        false
    }

    open spec fn from_spec(map: HashMap<NbtString, NbtTag>) -> NbtCompound {
        vstd::pervasive::arbitrary()
    }
}

/// What a compound holds: its entries, each name and tag by its view.
pub proof fn lemma_compound_view(c: NbtCompound)
    ensures
        c@.len() == c.entries().len(),
        forall|i: int| 0 <= i < c@.len() ==> #[trigger] c@[i] == (c.entries()[i].0@, c.entries()[i].1@),
{
    crate::parser::lemma_entries_model(c.data@);
}

} // verus!
