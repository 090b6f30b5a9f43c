//! What is read from bytes depends only on the bytes that were read: the same
//! bytes followed by anything else read the same way and stop at the same place.
//! Hence bytes after a whole document are refused as leftover data, counted.
use vstd::prelude::*;

use crate::error::ParseFault;
use crate::format::{
    encode_entries, read16, spec_byte_array, spec_elems, spec_entries, spec_int_array, spec_len,
    spec_list, spec_long_array, spec_nbt, spec_payload, spec_string, spec_tag_id, spec_u16,
    spec_u32, spec_u64, spec_u8, wf_entries,
};
use crate::laws::{lemma_entries_wf, lemma_payload_wf};
use crate::rewrite::{end_lists_empty_entries, lemma_entries_bytes};
use crate::types::{Entries, NbtTagId};

verus! {

/// What was read, followed by other bytes, seen from a point inside what was read.
proof fn lemma_cut(s: Seq<u8>, k: int, extra: Seq<u8>, j: int)
    requires
        0 <= j <= k <= s.len(),
    ensures
        (s.take(k) + extra).skip(j) == s.skip(j).take(k - j) + extra,
{
    assert((s.take(k) + extra).skip(j) =~= s.skip(j).take(k - j) + extra);
}

/// Numbers, kinds and lengths depend only on the bytes they take.
proof fn lemma_fixed_prefix(s: Seq<u8>, extra: Seq<u8>)
    ensures
        spec_u8(s) matches Ok((_, k)) ==> spec_u8(s.take(k) + extra) == spec_u8(s),
        spec_u16(s) matches Ok((_, k)) ==> spec_u16(s.take(k) + extra) == spec_u16(s),
        spec_u32(s) matches Ok((_, k)) ==> spec_u32(s.take(k) + extra) == spec_u32(s),
        spec_u64(s) matches Ok((_, k)) ==> spec_u64(s.take(k) + extra) == spec_u64(s),
        spec_tag_id(s) matches Ok((_, k)) ==> spec_tag_id(s.take(k) + extra) == spec_tag_id(s),
        spec_len(s) matches Ok((_, k)) ==> spec_len(s.take(k) + extra) == spec_len(s),
{
    let t1 = s.take(1) + extra;
    let t2 = s.take(2) + extra;
    let t4 = s.take(4) + extra;
    let t8 = s.take(8) + extra;
    if s.len() >= 1 {
        assert(t1[0] == s[0]);
    }
    if s.len() >= 2 {
        assert(t2[0] == s[0] && t2[1] == s[1]);
    }
    if s.len() >= 4 {
        assert(t4[0] == s[0] && t4[1] == s[1] && t4[2] == s[2] && t4[3] == s[3]);
    }
    if s.len() >= 8 {
        assert(t8[0] == s[0] && t8[1] == s[1] && t8[2] == s[2] && t8[3] == s[3]);
        assert(t8[4] == s[4] && t8[5] == s[5] && t8[6] == s[6] && t8[7] == s[7]);
    }
}

/// A string depends only on the bytes it takes.
proof fn lemma_string_prefix(s: Seq<u8>, extra: Seq<u8>)
    ensures
        spec_string(s) matches Ok((_, k)) ==> spec_string(s.take(k) + extra) == spec_string(s),
{
    if let Ok((_, k)) = spec_string(s) {
        let t = s.take(k) + extra;
        assert(t[0] == s[0] && t[1] == s[1]);
        assert(read16(t) == read16(s));
        assert(t.subrange(2, 2 + read16(s)) =~= s.subrange(2, 2 + read16(s)));
    }
}

/// Arrays depend only on the bytes they take.
proof fn lemma_array_prefix(s: Seq<u8>, extra: Seq<u8>)
    ensures
        spec_byte_array(s) matches Ok((_, k)) ==> spec_byte_array(s.take(k) + extra)
            == spec_byte_array(s),
        spec_int_array(s) matches Ok((_, k)) ==> spec_int_array(s.take(k) + extra)
            == spec_int_array(s),
        spec_long_array(s) matches Ok((_, k)) ==> spec_long_array(s.take(k) + extra)
            == spec_long_array(s),
{
    if let Ok((_, k)) = spec_byte_array(s) {
        let t = s.take(k) + extra;
        lemma_fixed_prefix(s, s.skip(4).take(k - 4) + extra);
        assert(s.take(4) + (s.skip(4).take(k - 4) + extra) =~= t);
        let n = spec_len(s)->Ok_0.0;
        assert(t.subrange(4, 4 + n as int) =~= s.subrange(4, 4 + n as int));
    }
    if let Ok((_, k)) = spec_int_array(s) {
        let t = s.take(k) + extra;
        lemma_fixed_prefix(s, s.skip(4).take(k - 4) + extra);
        assert(s.take(4) + (s.skip(4).take(k - 4) + extra) =~= t);
        let n = spec_len(s)->Ok_0.0;
        assert(t.subrange(4, 4 + 4 * n as int) =~= s.subrange(4, 4 + 4 * n as int));
    }
    if let Ok((_, k)) = spec_long_array(s) {
        let t = s.take(k) + extra;
        lemma_fixed_prefix(s, s.skip(4).take(k - 4) + extra);
        assert(s.take(4) + (s.skip(4).take(k - 4) + extra) =~= t);
        let n = spec_len(s)->Ok_0.0;
        assert(t.subrange(4, 4 + 8 * n as int) =~= s.subrange(4, 4 + 8 * n as int));
    }
}

/// The payload read of a tag of kind `id` depends only on the bytes it takes.
pub proof fn lemma_payload_prefix(id: NbtTagId, s: Seq<u8>, extra: Seq<u8>)
    ensures
        spec_payload(id, s) matches Ok((_, k)) ==> spec_payload(id, s.take(k) + extra)
            == spec_payload(id, s),
    decreases s.len(), 1nat, 0nat,
{
    match id {
        NbtTagId::List => {
            lemma_list_prefix(s, extra);
        },
        NbtTagId::Compound => {
            lemma_entries_prefix(Seq::empty(), s, extra);
        },
        _ => {
            lemma_fixed_prefix(s, extra);
            lemma_string_prefix(s, extra);
            lemma_array_prefix(s, extra);
        },
    }
}

/// A list depends only on the bytes it takes.
pub proof fn lemma_list_prefix(s: Seq<u8>, extra: Seq<u8>)
    ensures
        spec_list(s) matches Ok((_, k)) ==> spec_list(s.take(k) + extra) == spec_list(s),
    decreases s.len(), 0nat, 0nat,
{
    if let Ok((_, k)) = spec_list(s) {
        let t = s.take(k) + extra;
        let id = spec_tag_id(s)->Ok_0.0;
        let r = s.skip(1);
        lemma_payload_wf(NbtTagId::List, s);
        if id == NbtTagId::Byte || id == NbtTagId::Int || id == NbtTagId::Long {
            if id == NbtTagId::Byte {
                assert(spec_byte_array(r)->Ok_0.1 == k - 1);
            } else if id == NbtTagId::Int {
                assert(spec_int_array(r)->Ok_0.1 == k - 1);
            } else {
                assert(spec_long_array(r)->Ok_0.1 == k - 1);
            }
            assert(t[0] == s[0]);
            lemma_cut(s, k, extra, 1);
            lemma_array_prefix(r, extra);
        } else {
            let n = spec_len(r)->Ok_0.0;
            if id == NbtTagId::End {
                assert(k == 5);
            } else {
                let m = spec_elems(id, n, s.skip(5))->Ok_0.1;
                assert(k == 5 + m);
                lemma_elems_wf_len(id, n, s.skip(5));
            }
            assert(t[0] == s[0]);
            lemma_cut(s, k, extra, 1);
            lemma_fixed_prefix(r, r.skip(4).take(k - 5) + extra);
            assert(r.take(4) + (r.skip(4).take(k - 5) + extra) =~= t.skip(1));
            if id != NbtTagId::End {
                lemma_cut(s, k, extra, 5);
                lemma_elems_prefix(id, n, s.skip(5), extra);
            }
        }
    }
}

/// What is read as payloads takes no more bytes than there are, and none less than 0.
proof fn lemma_elems_wf_len(id: NbtTagId, n: nat, s: Seq<u8>)
    ensures
        spec_elems(id, n, s) matches Ok((_, m)) ==> 0 <= m <= s.len(),
    decreases n,
{
    if n > 0 {
        lemma_elems_wf_len(id, (n - 1) as nat, s);
        if let Ok((_, m0)) = spec_elems(id, (n - 1) as nat, s) {
            lemma_payload_wf(id, s.skip(m0));
        }
    }
}

/// The first `n` payloads of a kind depend only on the bytes they take.
pub proof fn lemma_elems_prefix(id: NbtTagId, n: nat, s: Seq<u8>, extra: Seq<u8>)
    ensures
        spec_elems(id, n, s) matches Ok((_, m)) ==> spec_elems(id, n, s.take(m) + extra)
            == spec_elems(id, n, s),
    decreases s.len(), 2nat, n,
{
    if n == 0 {
    } else if let Ok((_, m)) = spec_elems(id, n, s) {
        let (init, m0) = spec_elems(id, (n - 1) as nat, s)->Ok_0;
        lemma_payload_wf(id, s.skip(m0));
        let k = spec_payload(id, s.skip(m0))->Ok_0.1;
        assert(m == m0 + k);
        let extra2 = s.skip(m0).take(k) + extra;
        lemma_elems_prefix(id, (n - 1) as nat, s, extra2);
        assert(s.take(m0) + extra2 =~= s.take(m) + extra);
        lemma_cut(s, m, extra, m0);
        lemma_payload_prefix(id, s.skip(m0), extra);
    }
}

/// Entries read after `acc` end where the last byte read is 0, within the bytes.
pub proof fn lemma_entries_end(acc: Entries, s: Seq<u8>)
    ensures
        spec_entries(acc, s) matches Ok((_, k)) ==> 1 <= k <= s.len() && s[k - 1] == 0,
    decreases s.len(),
{
    if let Ok((c, k)) = spec_entries(acc, s) {
        let id = spec_tag_id(s)->Ok_0.0;
        if id != NbtTagId::End {
            let (name, k1) = spec_string(s.skip(1))->Ok_0;
            let (t, k2) = spec_payload(id, s.skip(1 + k1))->Ok_0;
            let rest = s.skip(1 + k1 + k2);
            lemma_entries_end(acc.push((name, t)), rest);
            let k3 = spec_entries(acc.push((name, t)), rest)->Ok_0.1;
            assert(s[k - 1] == rest[k3 - 1]);
        }
    }
}

/// Entries depend only on the bytes they take.
pub proof fn lemma_entries_prefix(acc: Entries, s: Seq<u8>, extra: Seq<u8>)
    ensures
        spec_entries(acc, s) matches Ok((_, k)) ==> spec_entries(acc, s.take(k) + extra)
            == spec_entries(acc, s),
    decreases s.len(), 0nat, 0nat,
{
    if let Ok((c, k)) = spec_entries(acc, s) {
        lemma_entries_end(acc, s);
        let t = s.take(k) + extra;
        assert(t[0] == s[0]);
        let id = spec_tag_id(s)->Ok_0.0;
        if id != NbtTagId::End {
            let (name, k1) = spec_string(s.skip(1))->Ok_0;
            let (tag, k2) = spec_payload(id, s.skip(1 + k1))->Ok_0;
            let rest = s.skip(1 + k1 + k2);
            let next = acc.push((name, tag));
            let k3 = spec_entries(next, rest)->Ok_0.1;
            lemma_entries_end(next, rest);
            assert(k == 1 + k1 + k2 + k3);
            lemma_cut(s, k, extra, 1);
            lemma_string_prefix(s.skip(1), s.skip(1 + k1).take(k2 + k3) + extra);
            assert(s.skip(1).take(k1) + (s.skip(1 + k1).take(k2 + k3) + extra) =~= t.skip(1));
            lemma_cut(s, k, extra, 1 + k1);
            lemma_payload_prefix(id, s.skip(1 + k1), rest.take(k3) + extra);
            assert(s.skip(1 + k1).take(k2) + (rest.take(k3) + extra) =~= t.skip(1 + k1));
            lemma_cut(s, k, extra, 1 + k1 + k2);
            lemma_entries_prefix(next, rest, extra);
        }
    }
}

/// A compound read from bytes ends with the byte 0 of its `End`; its names are
/// distinct and it holds no `End`; and where every list of kind `End` in it
/// announced zero items, its entries written in order are exactly the bytes
/// before that 0.
pub proof fn lemma_compound_bytes(s: Seq<u8>)
    ensures
        spec_entries(Seq::empty(), s) matches Ok((c, k)) ==> {
            &&& 1 <= k <= s.len()
            &&& s[k - 1] == 0
            &&& wf_entries(c)
            &&& end_lists_empty_entries(s) ==> encode_entries(c) == s.take(k - 1)
        },
{
    lemma_entries_end(Seq::empty(), s);
    lemma_entries_wf(Seq::empty(), s);
    lemma_entries_bytes(Seq::empty(), s);
    if let Ok((c, k)) = spec_entries(Seq::empty(), s) {
        assert(encode_entries(Seq::empty()) =~= Seq::<u8>::empty());
        if end_lists_empty_entries(s) {
            assert(encode_entries(c) + seq![0u8] == s.take(k));
            assert(encode_entries(c) =~= (encode_entries(c) + seq![0u8]).take(k - 1));
            assert(s.take(k).take(k - 1) =~= s.take(k - 1));
        }
    }
}

/// Bytes after a whole document are refused as leftover data, by their count.
pub proof fn lemma_leftover(d: Seq<u8>, extra: Seq<u8>)
    requires
        extra.len() > 0,
    ensures
        spec_nbt(d) is Ok ==> spec_nbt(d + extra) == Err::<(Seq<char>, Entries), ParseFault>(
            ParseFault::LeftoverData(extra.len() as usize),
        ),
{
    if spec_nbt(d) is Ok {
        let t = d + extra;
        assert(t[0] == d[0]);
        let k1 = spec_string(d.skip(1))->Ok_0.1;
        let k2 = spec_entries(Seq::empty(), d.skip(1 + k1))->Ok_0.1;
        lemma_entries_end(Seq::empty(), d.skip(1 + k1));
        assert(1 + k1 + k2 == d.len());
        lemma_string_prefix(d.skip(1), d.skip(1 + k1) + extra);
        assert(d.skip(1).take(k1) + (d.skip(1 + k1) + extra) =~= t.skip(1));
        lemma_entries_prefix(Seq::empty(), d.skip(1 + k1), extra);
        assert(d.skip(1 + k1).take(k2) + extra =~= t.skip(1 + k1));
    }
}

} // verus!
