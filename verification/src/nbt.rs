//! The tag value tree and its codec.
//!
//! A [`Tag`] is one node of the tree; an [`NBT`] ties a key string to a
//! tag and is the unit of one encoded document.  [`Tag::read_from`] and
//! [`Tag::write_to`] are specified exactly against the spec-level
//! `parse_tag` and `payload` functions of [`crate::model`].

use vstd::prelude::*;

use crate::datainput::DataInput;
use crate::dataoutput::DataOutput;
use crate::error::NbtError;
use crate::model::be4;
use crate::model::build_map;
use crate::model::de4;
use crate::model::de8;
use crate::model::find_key;
use crate::model::insert_entry;
use crate::model::kind_of;
use crate::model::lemma_find_key_props;
use crate::model::lemma_payload_elems_snoc;
use crate::model::lemma_payload_fields_snoc;
use crate::model::lemma_prefix_trans;
use crate::model::lemma_texts_fit_elems_index;
use crate::model::lemma_texts_fit_fields_index;
use crate::model::list_kind;
use crate::model::parse_elems;
use crate::model::parse_fields;
use crate::model::parse_root;
use crate::model::parse_tag;
use crate::model::payload;
use crate::model::payload_elems;
use crate::model::payload_fields;
use crate::model::root_bytes;
use crate::model::texts_fit;
use crate::model::texts_fit_elems;
use crate::model::texts_fit_fields;
use crate::model::i32_from_u32;
use crate::model::i64_from_u64;
use crate::model::u32_from_i32;
use crate::model::u64_from_i64;
use crate::model::u8_from_i8;
use crate::model::u8_of_i8;
use crate::model::u32_of_i32;
use crate::model::u64_of_i64;
use crate::model::i32_of_u32;
use crate::model::i64_of_u64;
use crate::model::ParseResult;
use crate::model::TagV;

verus! {

broadcast use vstd::std_specs::vec::group_vec_axioms;

/// One key-value pair of a compound tag.
#[derive(Debug, PartialEq)]
pub struct Entry {
    pub key: Vec<u8>,
    pub value: Tag,
}

/// One tag value: a node of the decoded tree.
///
/// `Float` and `Double` carry the raw bits of the IEEE-754 value; the
/// codec only ever moves those bits.  `String` carries the raw bytes of
/// the length-prefixed text.  `Compound` keeps its entries in insertion
/// order; decoding never leaves two entries with the same key.
#[derive(Debug, PartialEq)]
pub enum Tag {
    End,
    Byte(i8),
    Short(i16),
    Int(i32),
    Long(i64),
    Float(u32),
    Double(u64),
    ByteArray(Vec<i8>),
    String(Vec<u8>),
    List(Vec<Tag>),
    Compound(Vec<Entry>),
}

/// The views of a run of list elements.  The bound guard keeps the
/// recursion through the sequence well-founded; `Seq::new` only ever
/// applies the function in range.
pub open spec fn elems_view(l: Seq<Tag>) -> Seq<TagV>
    decreases l,
{
    Seq::new(l.len(), |i: int| if 0 <= i < l.len() { tag_view(l[i]) } else { TagV::End })
}

/// The views of a run of compound entries.
pub open spec fn fields_view(m: Seq<Entry>) -> Seq<(Seq<u8>, TagV)>
    decreases m,
{
    Seq::new(
        m.len(),
        |i: int|
            if 0 <= i < m.len() {
                (m[i].key@, tag_view(m[i].value))
            } else {
                (Seq::empty(), TagV::End)
            },
    )
}

/// The mathematical value of one tag.
pub open spec fn tag_view(t: Tag) -> TagV
    decreases t,
{
    match t {
        Tag::End => TagV::End,
        Tag::Byte(x) => TagV::Byte(x),
        Tag::Short(x) => TagV::Short(x),
        Tag::Int(x) => TagV::Int(x),
        Tag::Long(x) => TagV::Long(x),
        Tag::Float(b) => TagV::Float(b),
        Tag::Double(b) => TagV::Double(b),
        Tag::ByteArray(s) => TagV::ByteArray(s@),
        Tag::String(s) => TagV::String(s@),
        Tag::List(l) => TagV::List(elems_view(l@)),
        Tag::Compound(m) => TagV::Compound(fields_view(m@)),
    }
}

impl View for Tag {
    type V = TagV;

    open spec fn view(&self) -> TagV {
        tag_view(*self)
    }
}

impl Tag {
    /// The kind byte that announces this tag on the wire.
    pub fn kind(&self) -> (r: i8)
        ensures
            r == kind_of(self@) as i8,
    {
        match self {
            Tag::End => 0x00,
            Tag::Byte(_) => 0x01,
            Tag::Short(_) => 0x02,
            Tag::Int(_) => 0x03,
            Tag::Long(_) => 0x04,
            Tag::Float(_) => 0x05,
            Tag::Double(_) => 0x06,
            Tag::ByteArray(_) => 0x07,
            Tag::String(_) => 0x08,
            Tag::List(_) => 0x09,
            Tag::Compound(_) => 0x0a,
        }
    }
}

/// Byte-string equality, by contents.
fn bytes_eq(a: &Vec<u8>, b: &Vec<u8>) -> (r: bool)
    ensures
        r <==> a@ == b@,
{
    if a.len() != b.len() {
        return false;
    }
    let mut i: usize = 0;
    while i < a.len()
        invariant
            a@.len() == b@.len(),
            i <= a.len(),
            forall|j: int| 0 <= j < i ==> a@[j] == b@[j],
        decreases a.len() - i,
    {
        if a[i] != b[i] {
            return false;
        }
        i = i + 1;
    }
    proof {
        assert(a@ =~= b@);
    }
    true
}

/// Insert one decoded entry into a compound under construction: a key
/// already present has its value overwritten in place, a new key is
/// appended.
#[verifier::loop_isolation(false)]
fn insert_field(m: &mut Vec<Entry>, key: Vec<u8>, value: Tag)
    ensures
        fields_view(final(m)@) == insert_entry(fields_view(old(m)@), key@, value@),
{
    let ghost fv = fields_view(m@);
    proof {
        lemma_find_key_props(fv, key@);
    }
    let mut i: usize = 0;
    while i < m.len()
        invariant
            fv == fields_view(m@),
            i <= m@.len(),
            fv.len() == m@.len(),
            forall|j: int| 0 <= j < i ==> (#[trigger] fv[j]).0 != key@,
        decreases m.len() - i,
    {
        if bytes_eq(&m[i].key, &key) {
            assert(fv[i as int].0 == key@);
            assert(find_key(fv, key@) == i);
            m.remove(i);
            m.insert(i, Entry { key, value });
            proof {
                assert(fields_view(m@) =~= fv.update(i as int, (key@, value@)));
            }
            return;
        }
        assert(fv[i as int].0 != key@);
        i = i + 1;
    }
    assert(find_key(fv, key@) < 0);
    m.push(Entry { key, value });
    proof {
        assert(fields_view(m@) =~= fv.push((key@, value@)));
    }
}

// Writing a tag tree.
impl Tag {
    /// Serialize this tag's payload, without its kind byte, to `output`.
    ///
    /// Succeeds exactly when every text in the tree, keys included, fits
    /// the signed 16-bit length prefix; a failure leaves whatever was
    /// already written in place and appends nothing more than a partial
    /// payload.
    #[verifier::loop_isolation(false)]
    #[verifier::rlimit(100)]
    pub fn write_to(&self, output: &mut DataOutput) -> (r: Result<(), NbtError>)
        ensures
            old(output).data().is_prefix_of(final(output).data()),
            match r {
                Ok(_) => texts_fit(self@) && final(output).data() == old(output).data() + payload(
                    self@,
                ),
                Err(e) => e == NbtError::TextTooLong && !texts_fit(self@),
            },
        decreases *self,
    {
        match self {
            Tag::End => {
                proof {
                    assert(old(output).data() + payload(self@) =~= old(output).data());
                    assert(old(output).data().is_prefix_of(output.data()));
                }
                Ok(())
            },
            Tag::Byte(x) => {
                output.write_byte(*x);
                proof {
                    assert(old(output).data().is_prefix_of(output.data()));
                }
                Ok(())
            },
            Tag::Short(x) => {
                output.write_short(*x);
                proof {
                    assert(old(output).data().is_prefix_of(output.data()));
                }
                Ok(())
            },
            Tag::Int(x) => {
                output.write_int(*x);
                proof {
                    assert(old(output).data().is_prefix_of(output.data()));
                }
                Ok(())
            },
            Tag::Long(x) => {
                output.write_long(*x);
                proof {
                    assert(old(output).data().is_prefix_of(output.data()));
                }
                Ok(())
            },
            Tag::Float(b) => {
                output.write_int(u32_to_i32_bits(*b));
                proof {
                    assert(old(output).data().is_prefix_of(output.data()));
                }
                Ok(())
            },
            Tag::Double(b) => {
                output.write_long(u64_to_i64_bits(*b));
                proof {
                    assert(old(output).data().is_prefix_of(output.data()));
                }
                Ok(())
            },
            Tag::ByteArray(xs) => {
                let n: usize = xs.len() % 0x8000_0000;
                output.write_int(u32_to_i32_bits(n as u32));
                output.write_bytes(xs);
                proof {
                    assert(output.data() =~= old(output).data() + payload(self@));
                    assert(old(output).data().is_prefix_of(output.data()));
                }
                Ok(())
            },
            Tag::String(s) => {
                match output.write_utf(s) {
                    Ok(()) => {
                        proof {
                            assert(old(output).data().is_prefix_of(output.data()));
                        }
                        Ok(())
                    },
                    Err(e) => {
                        proof {
                            assert(old(output).data().is_prefix_of(output.data()));
                        }
                        Err(e)
                    },
                }
            },
            Tag::List(xs) => {
                let ek: i8 = if xs.len() == 0 {
                    0x01
                } else {
                    xs[0].kind()
                };
                let ghost vs = elems_view(xs@);
                proof {
                    assert(u8_of_i8(ek) == list_kind(vs));
                }
                output.write_byte(ek);
                let n: usize = xs.len() % 0x8000_0000;
                output.write_int(u32_to_i32_bits(n as u32));
                let ghost start = output.data();
                proof {
                    assert(start =~= old(output).data() + seq![list_kind(vs)] + be4(
                        (vs.len() % 0x8000_0000) as u32,
                    ));
                    assert(payload_elems(vs.take(0)) =~= Seq::<u8>::empty());
                    assert(output.data() =~= start + payload_elems(vs.take(0)));
                    lemma_texts_fit_elems_index(vs);
                }
                let mut i: usize = 0;
                while i < xs.len()
                    invariant
                        i <= xs@.len(),
                        output.data() == start + payload_elems(vs.take(i as int)),
                        forall|j: int| 0 <= j < i ==> texts_fit(#[trigger] vs[j]),
                    decreases xs@.len() - i,
                {
                    let e = &xs[i];
                    match e.write_to(output) {
                        Ok(()) => {
                            proof {
                                assert(vs.take(i + 1) =~= vs.take(i as int).push(vs[i as int]));
                                lemma_payload_elems_snoc(vs.take(i as int), vs[i as int]);
                                assert(output.data() =~= start + payload_elems(vs.take(i + 1)));
                            }
                        },
                        Err(err) => {
                            proof {
                                assert(!texts_fit(vs[i as int]));
                                assert(!texts_fit_elems(vs));
                                lemma_prefix_trans(
                                    old(output).data(),
                                    start,
                                    output.data(),
                                );
                            }
                            return Err(err);
                        },
                    }
                    i = i + 1;
                }
                proof {
                    assert(vs.take(vs.len() as int) =~= vs);
                    assert(texts_fit_elems(vs));
                    assert(output.data() =~= old(output).data() + payload(self@));
                    assert(old(output).data().is_prefix_of(output.data()));
                }
                Ok(())
            },
            Tag::Compound(m) => {
                let ghost fv = fields_view(m@);
                let ghost start = output.data();
                proof {
                    assert(payload_fields(fv.take(0)) =~= Seq::<u8>::empty());
                    assert(output.data() =~= start + payload_fields(fv.take(0)));
                    lemma_texts_fit_fields_index(fv);
                }
                let mut i: usize = 0;
                while i < m.len()
                    invariant
                        i <= m@.len(),
                        output.data() == start + payload_fields(fv.take(i as int)),
                        forall|j: int|
                            0 <= j < i ==> (#[trigger] fv[j]).0.len() <= 0x7fff && texts_fit(
                                fv[j].1,
                            ),
                    decreases m@.len() - i,
                {
                    let e = &m[i];
                    let k = e.value.kind();
                    output.write_byte(k);
                    proof {
                        assert(u8_of_i8(k) == kind_of(fv[i as int].1));
                    }
                    match output.write_utf(&e.key) {
                        Ok(()) => {},
                        Err(err) => {
                            proof {
                                assert(fv[i as int].0.len() > 0x7fff);
                                assert(!texts_fit_fields(fv));
                                lemma_prefix_trans(old(output).data(), start, output.data());
                            }
                            return Err(err);
                        },
                    }
                    match e.value.write_to(output) {
                        Ok(()) => {},
                        Err(err) => {
                            proof {
                                assert(!texts_fit(fv[i as int].1));
                                assert(!texts_fit_fields(fv));
                                lemma_prefix_trans(old(output).data(), start, output.data());
                            }
                            return Err(err);
                        },
                    }
                    proof {
                        assert(fv.take(i + 1) =~= fv.take(i as int).push(fv[i as int]));
                        lemma_payload_fields_snoc(fv.take(i as int), fv[i as int]);
                        assert(output.data() =~= start + payload_fields(fv.take(i + 1)));
                    }
                    i = i + 1;
                }
                output.write_byte(0x00);
                proof {
                    assert(fv.take(fv.len() as int) =~= fv);
                    assert(texts_fit_fields(fv));
                    assert(u8_of_i8(0x00) == 0u8);
                    assert(output.data() =~= old(output).data() + payload(self@));
                    assert(old(output).data().is_prefix_of(output.data()));
                }
                Ok(())
            },
        }
    }
}

// Reading a tag tree.
impl Tag {
    /// Decode one value of kind `tag_kind` from `input`.
    ///
    /// The outcome is exactly what the spec-level `parse_tag` says of the
    /// unread bytes: the parsed value and how far the reader moves on
    /// success, a short-read error when the stream runs out (a negative
    /// array, list or text count included), and an unknown-discriminant
    /// error for a kind byte outside the valid range, at any depth.
    #[verifier::loop_isolation(false)]
    #[verifier::rlimit(100)]
    pub fn read_from(input: &mut DataInput, tag_kind: i8) -> (r: Result<Tag, NbtError>)
        requires
            old(input).wf(),
        ensures
            final(input).wf(),
            final(input).data() == old(input).data(),
            old(input).position() <= final(input).position(),
            match parse_tag(u8_of_i8(tag_kind), old(input).rest()) {
                ParseResult::Parsed(v, c) => (r matches Ok(t) && t@ == v && final(input).position()
                    == old(input).position() + c),
                ParseResult::Short => (r matches Err(e) && e == NbtError::ShortRead),
                ParseResult::BadKind => (r matches Err(e) && e == NbtError::UnknownKind),
            },
        decreases input.data().len() - input.position(), 1int,
    {
        let k = u8_from_i8(tag_kind);
        let ghost s0 = input.rest();
        if k == 0x00 {
            Ok(Tag::End)
        } else if k == 0x01 {
            match input.read_byte() {
                Ok(b) => Ok(Tag::Byte(b)),
                Err(e) => Err(e),
            }
        } else if k == 0x02 {
            match input.read_short() {
                Ok(x) => Ok(Tag::Short(x)),
                Err(e) => Err(e),
            }
        } else if k == 0x03 {
            match input.read_int() {
                Ok(x) => Ok(Tag::Int(x)),
                Err(e) => Err(e),
            }
        } else if k == 0x04 {
            match input.read_long() {
                Ok(x) => Ok(Tag::Long(x)),
                Err(e) => Err(e),
            }
        } else if k == 0x05 {
            match input.read_int() {
                Ok(x) => {
                    proof {
                        assert(u32_of_i32(i32_of_u32(de4(s0)))
                            == de4(s0));
                    }
                    Ok(Tag::Float(i32_to_u32_bits(x)))
                },
                Err(e) => Err(e),
            }
        } else if k == 0x06 {
            match input.read_long() {
                Ok(x) => {
                    proof {
                        assert(u64_of_i64(i64_of_u64(de8(s0)))
                            == de8(s0));
                    }
                    Ok(Tag::Double(i64_to_u64_bits(x)))
                },
                Err(e) => Err(e),
            }
        } else if k == 0x07 {
            let n = match input.read_int() {
                Ok(x) => x,
                Err(e) => {
                    return Err(e);
                },
            };
            if n < 0 {
                return Err(NbtError::ShortRead);
            }
            proof {
                assert(input.rest() =~= s0.skip(4));
            }
            match input.read_bytes(n as usize) {
                Ok(v) => {
                    proof {
                        assert(s0.skip(4).take(n as int) =~= s0.subrange(4, 4 + n as int));
                    }
                    Ok(Tag::ByteArray(v))
                },
                Err(e) => Err(e),
            }
        } else if k == 0x08 {
            match input.read_utf() {
                Ok(v) => Ok(Tag::String(v)),
                Err(e) => Err(e),
            }
        } else if k == 0x09 {
            let ek = match input.read_byte() {
                Ok(b) => b,
                Err(e) => {
                    return Err(e);
                },
            };
            proof {
                assert(u8_of_i8(ek) == s0[0]);
                assert(input.rest() =~= s0.skip(1));
            }
            let n = match input.read_int() {
                Ok(x) => x,
                Err(e) => {
                    return Err(e);
                },
            };
            if n < 0 {
                return Err(NbtError::ShortRead);
            }
            proof {
                assert(input.rest() =~= s0.skip(5));
            }
            match read_list_elems(input, ek, n as usize) {
                Ok(v) => Ok(Tag::List(v)),
                Err(e) => Err(e),
            }
        } else if k == 0x0a {
            match read_compound_fields(input) {
                Ok(v) => Ok(Tag::Compound(v)),
                Err(e) => Err(e),
            }
        } else {
            Err(NbtError::UnknownKind)
        }
    }
}

/// Decode `count` list elements, all of kind `ek`, back to back.
#[verifier::loop_isolation(false)]
#[verifier::rlimit(100)]
fn read_list_elems(input: &mut DataInput, ek: i8, count: usize) -> (r: Result<Vec<Tag>, NbtError>)
    requires
        old(input).wf(),
    ensures
        final(input).wf(),
        final(input).data() == old(input).data(),
        old(input).position() <= final(input).position(),
        match parse_elems(u8_of_i8(ek), count as int, old(input).rest()) {
            ParseResult::Parsed(l, c) => (r matches Ok(v) && elems_view(v@) == l
                && final(input).position() == old(input).position() + c),
            ParseResult::Short => (r matches Err(e) && e == NbtError::ShortRead),
            ParseResult::BadKind => (r matches Err(e) && e == NbtError::UnknownKind),
        },
    decreases input.data().len() - input.position(), 2int,
{
    let ghost eku = u8_of_i8(ek);
    let ghost n0 = count as int;
    let ghost p5 = input.position();
    let ghost s5 = input.rest();
    let mut list: Vec<Tag> = Vec::new();
    let mut i: usize = 0;
    proof {
        assert(elems_view(list@) =~= Seq::<TagV>::empty());
        match parse_elems(eku, n0, s5) {
            ParseResult::Parsed(l2, c2) => {
                assert(elems_view(list@) + l2 =~= l2);
            },
            _ => {},
        }
    }
    while i < count
        invariant
            input.wf(),
            input.data() == old(input).data(),
            i <= count,
            p5 <= input.position() <= input.data().len(),
            elems_view(list@).len() == i,
            (match parse_elems(eku, n0 - i, input.rest()) {
                ParseResult::Parsed(l2, c2) => parse_elems(eku, n0, s5) == ParseResult::Parsed(
                    elems_view(list@) + l2,
                    (input.position() - p5) + c2,
                ),
                ParseResult::Short => parse_elems(eku, n0, s5) is Short,
                ParseResult::BadKind => parse_elems(eku, n0, s5) is BadKind,
            }),
        decreases count - i,
    {
        let ghost rest_i = input.rest();
        let ghost pos_i = input.position();
        let ghost ev0 = elems_view(list@);
        match Tag::read_from(input, ek) {
            Ok(t) => {
                list.push(t);
                proof {
                    let c = input.position() - pos_i;
                    assert(elems_view(list@) =~= ev0.push(t@));
                    assert(input.rest() =~= rest_i.skip(c));
                    match parse_elems(eku, n0 - (i + 1), input.rest()) {
                        ParseResult::Parsed(l3, c3) => {
                            assert(ev0 + (seq![t@] + l3) =~= ev0.push(t@) + l3);
                        },
                        _ => {},
                    }
                }
            },
            Err(e) => {
                return Err(e);
            },
        }
        i = i + 1;
    }
    proof {
        match parse_elems(eku, n0, s5) {
            ParseResult::Parsed(l2, c2) => {
                assert(elems_view(list@) + Seq::<TagV>::empty() =~= elems_view(list@));
            },
            _ => {},
        }
    }
    Ok(list)
}

/// Decode compound entries up to and including the End byte, folding
/// duplicate keys by overwrite as they arrive.
#[verifier::loop_isolation(false)]
#[verifier::rlimit(100)]
fn read_compound_fields(input: &mut DataInput) -> (r: Result<Vec<Entry>, NbtError>)
    requires
        old(input).wf(),
    ensures
        final(input).wf(),
        final(input).data() == old(input).data(),
        old(input).position() <= final(input).position(),
        match parse_fields(old(input).rest()) {
            ParseResult::Parsed(es, c) => (r matches Ok(v) && fields_view(v@) == build_map(es)
                && final(input).position() == old(input).position() + c),
            ParseResult::Short => (r matches Err(e) && e == NbtError::ShortRead),
            ParseResult::BadKind => (r matches Err(e) && e == NbtError::UnknownKind),
        },
    decreases input.data().len() - input.position(), 0int,
{
    let ghost p0 = input.position();
    let ghost sc = input.rest();
    let mut fieldsvec: Vec<Entry> = Vec::new();
    let ghost mut entries: Seq<(Seq<u8>, TagV)> = Seq::empty();
    proof {
        assert(fields_view(fieldsvec@) =~= Seq::<(Seq<u8>, TagV)>::empty());
        match parse_fields(sc) {
            ParseResult::Parsed(es, c) => {
                assert(entries + es =~= es);
            },
            _ => {},
        }
    }
    let mut done = false;
    while !done
        invariant
            input.wf(),
            input.data() == old(input).data(),
            p0 <= input.position() <= input.data().len(),
            fields_view(fieldsvec@) == build_map(entries),
            !done ==> (match parse_fields(input.rest()) {
                ParseResult::Parsed(es, c) => parse_fields(sc) == ParseResult::Parsed(
                    entries + es,
                    (input.position() - p0) + c,
                ),
                ParseResult::Short => parse_fields(sc) is Short,
                ParseResult::BadKind => parse_fields(sc) is BadKind,
            }),
            done ==> parse_fields(sc) == ParseResult::Parsed(entries, input.position() - p0),
        decreases input.data().len() - input.position(),
    {
        let ghost rest_h = input.rest();
        let ghost pos_h = input.position();
        let k2 = match input.read_byte() {
            Ok(b) => b,
            Err(e) => {
                return Err(e);
            },
        };
        proof {
            assert(u8_of_i8(k2) == rest_h[0]);
        }
        if k2 == 0x00 {
            proof {
                assert(rest_h[0] == 0);
                assert(entries + Seq::<(Seq<u8>, TagV)>::empty() =~= entries);
            }
            done = true;
        } else {
            proof {
                assert(rest_h[0] != 0);
                assert(input.rest() =~= rest_h.skip(1));
            }
            let ghost pos_b = input.position();
            let key = match input.read_utf() {
                Ok(v) => v,
                Err(e) => {
                    return Err(e);
                },
            };
            let ghost keyv = key@;
            let ghost c1 = input.position() - pos_b;
            let ghost rest_k = input.rest();
            let ghost pos_k = input.position();
            proof {
                assert(rest_k =~= rest_h.skip(1 + c1));
            }
            let value = match Tag::read_from(input, k2) {
                Ok(t) => t,
                Err(e) => {
                    return Err(e);
                },
            };
            let ghost valuev = value@;
            let ghost c2 = input.position() - pos_k;
            let ghost rest_v = input.rest();
            let ghost ent0 = entries;
            proof {
                assert(rest_v =~= rest_h.skip(1 + c1 + c2));
            }
            insert_field(&mut fieldsvec, key, value);
            proof {
                entries = entries.push((keyv, valuev));
                assert(entries.drop_last() =~= ent0);
                assert(entries.last() == (keyv, valuev));
                match parse_fields(rest_v) {
                    ParseResult::Parsed(es3, c4) => {
                        assert(ent0 + (seq![(keyv, valuev)] + es3) =~= entries + es3);
                    },
                    _ => {},
                }
            }
        }
    }
    Ok(fieldsvec)
}

/// Reinterpret 32 raw bits as the signed value with those bits.
fn u32_to_i32_bits(b: u32) -> (r: i32)
    ensures
        u32_of_i32(r) == b,
{
    i32_from_u32(b)
}

/// Reinterpret 64 raw bits as the signed value with those bits.
fn u64_to_i64_bits(b: u64) -> (r: i64)
    ensures
        u64_of_i64(r) == b,
{
    i64_from_u64(b)
}

/// The outermost named root: a key string tied to a tag value, the unit
/// of one encoded document.  A document whose root kind byte is End
/// denotes an empty document and carries an empty key.
#[derive(Debug, PartialEq)]
pub struct NBT {
    key: Vec<u8>,
    tag: Tag,
}

impl View for NBT {
    type V = (Seq<u8>, TagV);

    closed spec fn view(&self) -> (Seq<u8>, TagV) {
        (self.key@, tag_view(self.tag))
    }
}

impl NBT {
    /// Ties a key to a tag value.
    pub fn new(key: Vec<u8>, tag: Tag) -> (r: NBT)
        ensures
            r@ == (key@, tag_view(tag)),
    {
        NBT { key, tag }
    }

    /// The key of the root.
    pub fn key(&self) -> (r: &Vec<u8>)
        ensures
            r@ == self@.0,
    {
        &self.key
    }

    /// The tag of the root.
    pub fn tag(&self) -> (r: &Tag)
        ensures
            r@ == self@.1,
    {
        &self.tag
    }

    /// Decode one document: the root kind byte, then for any kind but End
    /// the framed key and the value of that kind.  A lone End byte
    /// decodes to the empty root without reading further.
    pub fn read_from(input: &mut DataInput) -> (r: Result<NBT, NbtError>)
        requires
            old(input).wf(),
        ensures
            final(input).wf(),
            final(input).data() == old(input).data(),
            old(input).position() <= final(input).position(),
            match parse_root(old(input).rest()) {
                ParseResult::Parsed(kv, c) => (r matches Ok(n) && n@ == kv
                    && final(input).position() == old(input).position() + c),
                ParseResult::Short => (r matches Err(e) && e == NbtError::ShortRead),
                ParseResult::BadKind => (r matches Err(e) && e == NbtError::UnknownKind),
            },
    {
        let ghost s0 = input.rest();
        let kindb = match input.read_byte() {
            Ok(b) => b,
            Err(e) => {
                return Err(e);
            },
        };
        proof {
            assert(u8_of_i8(kindb) == s0[0]);
        }
        if kindb == 0x00 {
            proof {
                assert(s0[0] == 0);
            }
            let empty_key: Vec<u8> = Vec::new();
            proof {
                assert(empty_key@ =~= Seq::<u8>::empty());
            }
            return Ok(NBT { key: empty_key, tag: Tag::End });
        }
        proof {
            assert(s0[0] != 0);
            assert(input.rest() =~= s0.skip(1));
        }
        let ghost pos_b = input.position();
        let key = match input.read_utf() {
            Ok(v) => v,
            Err(e) => {
                return Err(e);
            },
        };
        let ghost c1 = input.position() - pos_b;
        proof {
            assert(input.rest() =~= s0.skip(1 + c1));
        }
        let tag = match Tag::read_from(input, kindb) {
            Ok(t) => t,
            Err(e) => {
                return Err(e);
            },
        };
        Ok(NBT { key, tag })
    }

    /// Encode one document: the root kind byte, the framed key, then the
    /// value, with no trailing End byte at this outer level.  The empty
    /// root writes the single End byte and nothing else.
    ///
    /// Succeeds exactly when the key and every text under the root fit
    /// the signed 16-bit length prefix (the empty root always succeeds);
    /// a failure appends nothing more than a partial document.
    pub fn write_to(&self, output: &mut DataOutput) -> (r: Result<(), NbtError>)
        ensures
            old(output).data().is_prefix_of(final(output).data()),
            match r {
                Ok(_) => (self@.1 is End || (self@.0.len() <= 0x7fff && texts_fit(self@.1)))
                    && final(output).data() == old(output).data() + root_bytes(self@.0, self@.1),
                Err(e) => e == NbtError::TextTooLong && !(self@.1 is End) && (self@.0.len() > 0x7fff
                    || !texts_fit(self@.1)),
            },
    {
        let kindb = self.tag.kind();
        if kindb == 0x00 {
            proof {
                assert(kind_of(self@.1) == 0);
                assert(self@.1 is End);
            }
            output.write_byte(0x00);
            proof {
                assert(u8_of_i8(0x00) == 0u8);
                assert(output.data() =~= old(output).data() + root_bytes(self@.0, self@.1));
                assert(old(output).data().is_prefix_of(output.data()));
            }
            return Ok(());
        }
        proof {
            assert(!(self@.1 is End));
        }
        output.write_byte(kindb);
        let ghost mid1 = output.data();
        match output.write_utf(&self.key) {
            Ok(()) => {},
            Err(e) => {
                proof {
                    assert(old(output).data().is_prefix_of(mid1));
                    assert(mid1.is_prefix_of(output.data()));
                    lemma_prefix_trans(old(output).data(), mid1, output.data());
                }
                return Err(e);
            },
        }
        let ghost mid2 = output.data();
        match self.tag.write_to(output) {
            Ok(()) => {
                proof {
                    assert(u8_of_i8(kindb) == kind_of(self@.1));
                    assert(output.data() =~= old(output).data() + root_bytes(self@.0, self@.1));
                    assert(old(output).data().is_prefix_of(output.data()));
                }
                Ok(())
            },
            Err(e) => {
                proof {
                    assert(old(output).data().is_prefix_of(mid2));
                    lemma_prefix_trans(old(output).data(), mid2, output.data());
                }
                Err(e)
            },
        }
    }
}

/// Reinterpret a signed 32-bit value as its raw bits.
fn i32_to_u32_bits(x: i32) -> (r: u32)
    ensures
        r == u32_of_i32(x),
{
    u32_from_i32(x)
}

/// Reinterpret a signed 64-bit value as its raw bits.
fn i64_to_u64_bits(x: i64) -> (r: u64)
    ensures
        r == u64_of_i64(x),
{
    u64_from_i64(x)
}

} // verus!
