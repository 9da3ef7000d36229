//! The laws the codec obeys, stated and proved over the model.

use vstd::prelude::*;

use crate::model::be2;
use crate::model::be4;
use crate::model::be8;
use crate::model::build_map;
use crate::model::find_key;
use crate::model::insert_entry;
use crate::model::i16_of_u16;
use crate::model::i32_of_u32;
use crate::model::i64_of_u64;
use crate::model::i8_of_u8;
use crate::model::keys_unique;
use crate::model::kind_of;
use crate::model::lemma_de2_be2;
use crate::model::lemma_de2_front;
use crate::model::lemma_de4_be4;
use crate::model::lemma_de4_front;
use crate::model::lemma_de8_be8;
use crate::model::lemma_de8_front;
use crate::model::lemma_find_key_props;
use crate::model::lemma_parse_text_frame;
use crate::model::list_kind;
use crate::model::parse_elems;
use crate::model::parse_fields;
use crate::model::parse_root;
use crate::model::parse_tag;
use crate::model::payload;
use crate::model::payload_elems;
use crate::model::payload_fields;
use crate::model::root_bytes;
use crate::model::seq_i8;
use crate::model::seq_u8;
use crate::model::text_frame;
use crate::model::u16_of_i16;
use crate::model::u32_of_i32;
use crate::model::u64_of_i64;
use crate::model::u8_of_i8;
use crate::model::wf;
use crate::model::wf_elems;
use crate::model::wf_fields;
use crate::model::wf_root;
use crate::model::ParseResult;
use crate::model::TagV;

verus! {

/// Compound insertion is idempotent in its key: inserting two entries
/// with the same key, in either state of the mapping, leaves only the
/// later value present.
pub proof fn lemma_insert_overwrite(m: Seq<(Seq<u8>, TagV)>, key: Seq<u8>, v1: TagV, v2: TagV)
    ensures
        insert_entry(insert_entry(m, key, v1), key, v2) == insert_entry(m, key, v2),
{
    lemma_find_key_props(m, key);
    let i = find_key(m, key);
    if i < 0 {
        let m1 = m.push((key, v1));
        lemma_find_key_props(m1, key);
        let j = find_key(m1, key);
        assert(m1[m.len() as int].0 == key);
        assert(j >= 0);
        assert(forall|x: int| 0 <= x < m.len() ==> #[trigger] m1[x] == m[x]);
        if j < m.len() {
            assert(m1[j] == m[j]);
            assert(false);
        }
        assert(j == m.len());
        assert(m1.update(j, (key, v2)) =~= m.push((key, v2)));
    } else {
        let m1 = m.update(i, (key, v1));
        lemma_find_key_props(m1, key);
        let j = find_key(m1, key);
        assert(m1[i].0 == key);
        assert(j >= 0);
        assert(forall|x: int| 0 <= x < m.len() && x != i ==> #[trigger] m1[x] == m[x]);
        if j < i {
            assert(m1[j] == m[j]);
            assert(false);
        }
        if j > i {
            assert(m1[i].0 != key);
            assert(false);
        }
        assert(m1.update(j, (key, v2)) =~= m.update(i, (key, v2)));
    }
}

/// Folding entries whose keys are already unique changes nothing: each
/// insert lands on a fresh key and appends.
pub proof fn lemma_build_map_id(m: Seq<(Seq<u8>, TagV)>)
    requires
        keys_unique(m),
    ensures
        build_map(m) == m,
    decreases m.len(),
{
    if m.len() == 0 {
        assert(build_map(m) =~= m);
    } else {
        let dm = m.drop_last();
        assert forall|i: int, j: int| 0 <= i < j < dm.len() implies (#[trigger] dm[i]).0 != (
        #[trigger] dm[j]).0 by {
            assert(dm[i] == m[i]);
            assert(dm[j] == m[j]);
        }
        lemma_build_map_id(dm);
        lemma_find_key_props(dm, m.last().0);
        let fk = find_key(dm, m.last().0);
        if fk >= 0 {
            assert(dm[fk] == m[fk]);
            assert(m[fk].0 != m[m.len() - 1].0);
            assert(false);
        }
        assert(dm.push(m.last()) =~= m);
    }
}

/// Round trip: decoding a well-formed tree's encoding, whatever bytes
/// follow it in the stream, yields exactly that tree and consumes
/// exactly its encoding.
#[verifier::rlimit(100)]
pub proof fn lemma_round_trip(t: TagV, rest: Seq<u8>)
    requires
        wf(t),
    ensures
        parse_tag(kind_of(t), payload(t) + rest) == ParseResult::Parsed(
            t,
            payload(t).len() as int,
        ),
    decreases t, 0int,
{
    let s = payload(t) + rest;
    match t {
        TagV::End => {
            assert(payload(t).len() == 0);
        },
        TagV::Byte(x) => {
            assert(s[0] == u8_of_i8(x));
            assert(i8_of_u8(u8_of_i8(x)) == x);
        },
        TagV::Short(x) => {
            lemma_de2_front(be2(u16_of_i16(x)), rest);
            lemma_de2_be2(u16_of_i16(x));
            assert(i16_of_u16(u16_of_i16(x)) == x);
        },
        TagV::Int(x) => {
            lemma_de4_front(be4(u32_of_i32(x)), rest);
            lemma_de4_be4(u32_of_i32(x));
            assert(i32_of_u32(u32_of_i32(x)) == x);
        },
        TagV::Long(x) => {
            lemma_de8_front(be8(u64_of_i64(x)), rest);
            lemma_de8_be8(u64_of_i64(x));
            assert(i64_of_u64(u64_of_i64(x)) == x);
        },
        TagV::Float(b) => {
            lemma_de4_front(be4(b), rest);
            lemma_de4_be4(b);
        },
        TagV::Double(b) => {
            lemma_de8_front(be8(b), rest);
            lemma_de8_be8(b);
        },
        TagV::ByteArray(bs) => {
            let n32 = (bs.len() % 0x8000_0000) as u32;
            assert(n32 == bs.len());
            lemma_de4_be4(n32);
            assert(s =~= be4(n32) + (seq_u8(bs) + rest));
            lemma_de4_front(be4(n32), seq_u8(bs) + rest);
            assert(i32_of_u32(n32) == bs.len());
            assert(s.subrange(4, 4 + bs.len() as int) =~= seq_u8(bs));
            assert(seq_i8(seq_u8(bs)) =~= bs);
            assert(payload(t).len() == 4 + bs.len());
        },
        TagV::String(bs) => {
            lemma_parse_text_frame(bs, rest);
        },
        TagV::List(l) => {
            let n32 = (l.len() % 0x8000_0000) as u32;
            assert(n32 == l.len());
            let lk = list_kind(l);
            let pe = payload_elems(l);
            assert(s =~= seq![lk] + ((be4(n32) + pe) + rest));
            assert(s[0] == lk);
            assert(s.skip(1) =~= be4(n32) + (pe + rest));
            lemma_de4_front(be4(n32), pe + rest);
            lemma_de4_be4(n32);
            assert(i32_of_u32(n32) == l.len());
            assert(s.skip(5) =~= pe + rest);
            lemma_round_trip_elems(lk, l, rest);
            assert(payload(t).len() == 5 + pe.len());
        },
        TagV::Compound(m) => {
            lemma_round_trip_fields(m, rest);
            lemma_build_map_id(m);
            assert(payload(t).len() == payload_fields(m).len() + 1);
        },
    }
}

/// Round trip for a run of list elements of one kind.
proof fn lemma_round_trip_elems(k: u8, l: Seq<TagV>, rest: Seq<u8>)
    requires
        wf_elems(l),
        forall|i: int| 0 <= i < l.len() ==> kind_of(#[trigger] l[i]) == k,
    ensures
        parse_elems(k, l.len() as int, payload_elems(l) + rest) == ParseResult::Parsed(
            l,
            payload_elems(l).len() as int,
        ),
    decreases l, 1int,
{
    if l.len() == 0 {
        assert(payload_elems(l) + rest =~= rest);
        assert(l =~= Seq::<TagV>::empty());
    } else {
        let dl = l.drop_first();
        let s = payload_elems(l) + rest;
        assert(s =~= payload(l[0]) + (payload_elems(dl) + rest));
        lemma_round_trip(l[0], payload_elems(dl) + rest);
        let c = payload(l[0]).len() as int;
        assert(s.skip(c) =~= payload_elems(dl) + rest);
        assert(forall|i: int| 0 <= i < dl.len() ==> #[trigger] dl[i] == l[i + 1]);
        lemma_round_trip_elems(k, dl, rest);
        assert(seq![l[0]] + dl =~= l);
        assert(payload_elems(l).len() == c + payload_elems(dl).len());
    }
}

/// Round trip for compound entries up to their End byte.
#[verifier::rlimit(100)]
proof fn lemma_round_trip_fields(m: Seq<(Seq<u8>, TagV)>, rest: Seq<u8>)
    requires
        wf_fields(m),
    ensures
        parse_fields((payload_fields(m) + seq![0u8]) + rest) == ParseResult::Parsed(
            m,
            payload_fields(m).len() as int + 1,
        ),
    decreases m, 1int,
{
    let s = (payload_fields(m) + seq![0u8]) + rest;
    if m.len() == 0 {
        assert(s[0] == 0);
        assert(m =~= Seq::<(Seq<u8>, TagV)>::empty());
        assert(payload_fields(m).len() == 0);
    } else {
        let k0 = m[0].0;
        let v0 = m[0].1;
        let dm = m.drop_first();
        let tail = (payload_fields(dm) + seq![0u8]) + rest;
        assert(s =~= seq![kind_of(v0)] + (text_frame(k0) + (payload(v0) + tail)));
        assert(s[0] == kind_of(v0));
        assert(s[0] != 0);
        assert(s.skip(1) =~= text_frame(k0) + (payload(v0) + tail));
        lemma_parse_text_frame(k0, payload(v0) + tail);
        let c1 = 2 + k0.len() as int;
        assert(s.skip(1 + c1) =~= payload(v0) + tail);
        lemma_round_trip(v0, tail);
        let c2 = payload(v0).len() as int;
        assert(s.skip(1 + c1 + c2) =~= tail);
        lemma_round_trip_fields(dm, rest);
        assert(seq![(k0, v0)] + dm =~= m);
        assert(payload_fields(m).len() == 1 + c1 + c2 + payload_fields(dm).len());
    }
}

/// Round trip at the document level: decoding a well-formed named
/// root's encoding, whatever bytes follow it, yields exactly that root
/// and consumes exactly its encoding.  The empty root is the single End
/// byte and carries an empty key.
pub proof fn lemma_root_round_trip(key: Seq<u8>, t: TagV, rest: Seq<u8>)
    requires
        wf_root(key, t),
    ensures
        parse_root(root_bytes(key, t) + rest) == ParseResult::Parsed(
            (key, t),
            root_bytes(key, t).len() as int,
        ),
{
    let s = root_bytes(key, t) + rest;
    if t is End {
        assert(s[0] == 0);
        assert(key =~= Seq::<u8>::empty());
        assert(root_bytes(key, t).len() == 1);
    } else {
        assert(kind_of(t) != 0);
        assert(s =~= seq![kind_of(t)] + (text_frame(key) + (payload(t) + rest)));
        assert(s[0] == kind_of(t));
        assert(s.skip(1) =~= text_frame(key) + (payload(t) + rest));
        lemma_parse_text_frame(key, payload(t) + rest);
        let c1 = 2 + key.len() as int;
        assert(s.skip(1 + c1) =~= payload(t) + rest);
        lemma_round_trip(t, rest);
        assert(root_bytes(key, t).len() == 1 + c1 + payload(t).len());
    }
}

} // verus!
