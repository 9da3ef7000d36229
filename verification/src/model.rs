//! Mathematical model of the wire format.
//!
//! Everything here is specification-level: the value trees that the codec
//! exchanges are modelled by [`TagV`], and the byte stream they travel in
//! is modelled by `Seq<u8>`.  [`payload`] gives the exact bytes a value
//! serializes to, and `parse_tag` gives the exact outcome of reading one
//! value back, so the executable codec can be specified against both.

use vstd::prelude::*;
use vstd::arithmetic::div_mod::lemma_fundamental_div_mod;

verus! {

// ---------------------------------------------------------------------------
// Two's-complement reinterpretation between signed and unsigned integers.
// ---------------------------------------------------------------------------

pub open spec fn u8_of_i8(x: i8) -> u8 {
    if x >= 0 { x as u8 } else { (x + 0x100) as u8 }
}

pub open spec fn i8_of_u8(b: u8) -> i8 {
    if b < 0x80 { b as i8 } else { (b - 0x100) as i8 }
}

pub open spec fn u16_of_i16(x: i16) -> u16 {
    if x >= 0 { x as u16 } else { (x + 0x1_0000) as u16 }
}

pub open spec fn i16_of_u16(u: u16) -> i16 {
    if u < 0x8000 { u as i16 } else { (u - 0x1_0000) as i16 }
}

pub open spec fn u32_of_i32(x: i32) -> u32 {
    if x >= 0 { x as u32 } else { (x + 0x1_0000_0000) as u32 }
}

pub open spec fn i32_of_u32(u: u32) -> i32 {
    if u < 0x8000_0000 { u as i32 } else { (u - 0x1_0000_0000) as i32 }
}

pub open spec fn u64_of_i64(x: i64) -> u64 {
    if x >= 0 { x as u64 } else { (x + 0x1_0000_0000_0000_0000) as u64 }
}

pub open spec fn i64_of_u64(u: u64) -> i64 {
    if u < 0x8000_0000_0000_0000 { u as i64 } else { (u - 0x1_0000_0000_0000_0000) as i64 }
}

/// Reinterpret a byte sequence as signed bytes.
pub open spec fn seq_i8(s: Seq<u8>) -> Seq<i8> {
    s.map_values(|b: u8| i8_of_u8(b))
}

/// Reinterpret a signed byte sequence as raw bytes.
pub open spec fn seq_u8(s: Seq<i8>) -> Seq<u8> {
    s.map_values(|x: i8| u8_of_i8(x))
}

// ---------------------------------------------------------------------------
// Big-endian framing of the fixed-width scalars.
// ---------------------------------------------------------------------------

/// The two big-endian bytes of a 16-bit value.
pub open spec fn be2(x: u16) -> Seq<u8> {
    seq![(x / 0x100) as u8, (x % 0x100) as u8]
}

/// The four big-endian bytes of a 32-bit value.
pub open spec fn be4(x: u32) -> Seq<u8> {
    be2((x / 0x1_0000) as u16) + be2((x % 0x1_0000) as u16)
}

/// The eight big-endian bytes of a 64-bit value.
pub open spec fn be8(x: u64) -> Seq<u8> {
    be4((x / 0x1_0000_0000) as u32) + be4((x % 0x1_0000_0000) as u32)
}

/// The 16-bit value read big-endian from the first two bytes of `s`.
pub open spec fn de2(s: Seq<u8>) -> u16
    recommends
        s.len() >= 2,
{
    (s[0] * 0x100 + s[1]) as u16
}

/// The 32-bit value read big-endian from the first four bytes of `s`.
pub open spec fn de4(s: Seq<u8>) -> u32
    recommends
        s.len() >= 4,
{
    (de2(s.take(2)) * 0x1_0000 + de2(s.subrange(2, 4))) as u32
}

/// The 64-bit value read big-endian from the first eight bytes of `s`.
pub open spec fn de8(s: Seq<u8>) -> u64
    recommends
        s.len() >= 8,
{
    (de4(s.take(4)) * 0x1_0000_0000 + de4(s.subrange(4, 8))) as u64
}

pub proof fn lemma_de2_be2(x: u16)
    ensures
        be2(x).len() == 2,
        de2(be2(x)) == x,
{
    lemma_fundamental_div_mod(x as int, 0x100);
}

pub proof fn lemma_de4_be4(x: u32)
    ensures
        be4(x).len() == 4,
        de4(be4(x)) == x,
{
    let hi = (x / 0x1_0000) as u16;
    let lo = (x % 0x1_0000) as u16;
    lemma_de2_be2(hi);
    lemma_de2_be2(lo);
    assert(be4(x).take(2) =~= be2(hi));
    assert(be4(x).subrange(2, 4) =~= be2(lo));
    lemma_fundamental_div_mod(x as int, 0x1_0000);
}

pub proof fn lemma_de8_be8(x: u64)
    ensures
        be8(x).len() == 8,
        de8(be8(x)) == x,
{
    let hi = (x / 0x1_0000_0000) as u32;
    let lo = (x % 0x1_0000_0000) as u32;
    lemma_de4_be4(hi);
    lemma_de4_be4(lo);
    assert(be8(x).take(4) =~= be4(hi));
    assert(be8(x).subrange(4, 8) =~= be4(lo));
    lemma_fundamental_div_mod(x as int, 0x1_0000_0000);
}

/// `de2` reads only the first two bytes, so a suffix does not change it.
pub proof fn lemma_de2_front(a: Seq<u8>, b: Seq<u8>)
    requires
        a.len() >= 2,
    ensures
        de2(a + b) == de2(a),
{
    assert((a + b)[0] == a[0]);
    assert((a + b)[1] == a[1]);
}

/// `de4` reads only the first four bytes, so a suffix does not change it.
pub proof fn lemma_de4_front(a: Seq<u8>, b: Seq<u8>)
    requires
        a.len() >= 4,
    ensures
        de4(a + b) == de4(a),
{
    assert((a + b).take(2) =~= a.take(2));
    assert((a + b).subrange(2, 4) =~= a.subrange(2, 4));
}

/// `de8` reads only the first eight bytes, so a suffix does not change it.
pub proof fn lemma_de8_front(a: Seq<u8>, b: Seq<u8>)
    requires
        a.len() >= 8,
    ensures
        de8(a + b) == de8(a),
{
    assert((a + b).take(4) =~= a.take(4));
    assert((a + b).subrange(4, 8) =~= a.subrange(4, 8));
}

// ---------------------------------------------------------------------------
// Length-prefixed text: a signed 16-bit byte count, then that many bytes.
// ---------------------------------------------------------------------------

/// The framed bytes of a text value.  Meaningful when the text fits the
/// signed 16-bit prefix, which the writer checks before framing.
pub open spec fn text_frame(t: Seq<u8>) -> Seq<u8> {
    be2((t.len() % 0x1_0000) as u16) + t
}

/// Reading one framed text from the front of `s`: the payload and the
/// number of bytes consumed.  A negative count is treated like a stream
/// that is too short, since it promises more bytes than any stream holds.
pub open spec fn parse_text(s: Seq<u8>) -> Option<(Seq<u8>, int)> {
    if s.len() < 2 {
        None
    } else {
        let n = i16_of_u16(de2(s));
        if n < 0 {
            None
        } else if s.len() < 2 + n {
            None
        } else {
            Some((s.subrange(2, 2 + n), 2 + n))
        }
    }
}

// ---------------------------------------------------------------------------
// Executable two's-complement reinterpretations, verified against the
// spec functions above.
// ---------------------------------------------------------------------------

pub fn i8_from_u8(b: u8) -> (r: i8)
    ensures
        r == i8_of_u8(b),
{
    if b < 0x80 { b as i8 } else { ((b as i16) - 0x100) as i8 }
}

pub fn u8_from_i8(x: i8) -> (r: u8)
    ensures
        r == u8_of_i8(x),
{
    if x >= 0 { x as u8 } else { ((x as i16) + 0x100) as u8 }
}

pub fn i16_from_u16(u: u16) -> (r: i16)
    ensures
        r == i16_of_u16(u),
{
    if u < 0x8000 { u as i16 } else { ((u as i32) - 0x1_0000) as i16 }
}

pub fn u16_from_i16(x: i16) -> (r: u16)
    ensures
        r == u16_of_i16(x),
{
    if x >= 0 { x as u16 } else { ((x as i32) + 0x1_0000) as u16 }
}

pub fn i32_from_u32(u: u32) -> (r: i32)
    ensures
        r == i32_of_u32(u),
{
    if u < 0x8000_0000 { u as i32 } else { ((u as i64) - 0x1_0000_0000) as i32 }
}

pub fn u32_from_i32(x: i32) -> (r: u32)
    ensures
        r == u32_of_i32(x),
{
    if x >= 0 { x as u32 } else { ((x as i64) + 0x1_0000_0000) as u32 }
}

pub fn i64_from_u64(u: u64) -> (r: i64)
    ensures
        r == i64_of_u64(u),
{
    if u < 0x8000_0000_0000_0000 {
        u as i64
    } else {
        let d: u64 = u - 0x8000_0000_0000_0000;
        i64::MIN + (d as i64)
    }
}

pub fn u64_from_i64(x: i64) -> (r: u64)
    ensures
        r == u64_of_i64(x),
{
    if x >= 0 {
        x as u64
    } else {
        let d: i64 = x - i64::MIN;
        (d as u64) + 0x8000_0000_0000_0000
    }
}

pub proof fn lemma_parse_text_frame(t: Seq<u8>, rest: Seq<u8>)
    requires
        t.len() <= 0x7fff,
    ensures
        text_frame(t).len() == 2 + t.len(),
        parse_text(text_frame(t) + rest) == Some((t, 2 + t.len() as int)),
{
    let n16 = (t.len() % 0x1_0000) as u16;
    assert(n16 == t.len());
    lemma_de2_be2(n16);
    let s = text_frame(t) + rest;
    assert(s.take(2) =~= be2(n16));
    assert(de2(s) == de2(s.take(2))) by {
        assert(s.take(2)[0] == s[0]);
        assert(s.take(2)[1] == s[1]);
    }
    assert(i16_of_u16(de2(s)) == t.len());
    assert(s.subrange(2, 2 + t.len() as int) =~= t);
}

// ---------------------------------------------------------------------------
// The value trees the codec exchanges.
// ---------------------------------------------------------------------------

/// Mathematical model of one tag value.
///
/// `Float` and `Double` carry the raw bits of the IEEE-754 value, which
/// is all the codec ever moves; `String` carries the raw bytes of the
/// length-prefixed text; `Compound` carries its entries as a sequence of
/// key-value pairs whose keys are unique when the value is well-formed.
#[verifier::ext_equal]
pub enum TagV {
    End,
    Byte(i8),
    Short(i16),
    Int(i32),
    Long(i64),
    Float(u32),
    Double(u64),
    ByteArray(Seq<i8>),
    String(Seq<u8>),
    List(Seq<TagV>),
    Compound(Seq<(Seq<u8>, TagV)>),
}

/// The kind byte that announces a value of this variant on the wire.
pub open spec fn kind_of(t: TagV) -> u8 {
    match t {
        TagV::End => 0x00,
        TagV::Byte(_) => 0x01,
        TagV::Short(_) => 0x02,
        TagV::Int(_) => 0x03,
        TagV::Long(_) => 0x04,
        TagV::Float(_) => 0x05,
        TagV::Double(_) => 0x06,
        TagV::ByteArray(_) => 0x07,
        TagV::String(_) => 0x08,
        TagV::List(_) => 0x09,
        TagV::Compound(_) => 0x0a,
    }
}

/// The element kind a list declares on the wire: the kind of its first
/// element, or Byte for an empty list (a format convention).
pub open spec fn list_kind(l: Seq<TagV>) -> u8 {
    if l.len() == 0 { 0x01 } else { kind_of(l[0]) }
}

/// All elements of a list carry the kind the list declares.
pub open spec fn homogeneous(l: Seq<TagV>) -> bool {
    forall|i: int| 0 <= i < l.len() ==> kind_of(#[trigger] l[i]) == list_kind(l)
}

/// No two entries of a compound share a key.
pub open spec fn keys_unique(m: Seq<(Seq<u8>, TagV)>) -> bool {
    forall|i: int, j: int| 0 <= i < j < m.len() ==> (#[trigger] m[i]).0 != (#[trigger] m[j]).0
}

/// Well-formedness: every length fits its wire prefix, every list is
/// homogeneous, and every compound has unique keys and no End values.
/// Exactly the trees that serialize faithfully.
pub open spec fn wf(t: TagV) -> bool
    decreases t, 0int,
{
    match t {
        TagV::ByteArray(s) => s.len() <= 0x7fff_ffff,
        TagV::String(s) => s.len() <= 0x7fff,
        TagV::List(l) => l.len() <= 0x7fff_ffff && homogeneous(l) && wf_elems(l),
        TagV::Compound(m) => keys_unique(m) && wf_fields(m),
        _ => true,
    }
}

pub open spec fn wf_elems(l: Seq<TagV>) -> bool
    decreases l, 1int,
{
    if l.len() == 0 {
        true
    } else {
        wf(l[0]) && wf_elems(l.drop_first())
    }
}

pub open spec fn wf_fields(m: Seq<(Seq<u8>, TagV)>) -> bool
    decreases m, 1int,
{
    if m.len() == 0 {
        true
    } else {
        m[0].0.len() <= 0x7fff && kind_of(m[0].1) != 0x00 && wf(m[0].1) && wf_fields(m.drop_first())
    }
}

/// Every text in the tree, keys included, fits the signed 16-bit length
/// prefix.  This is exactly when serializing the tree succeeds.
pub open spec fn texts_fit(t: TagV) -> bool
    decreases t, 0int,
{
    match t {
        TagV::String(s) => s.len() <= 0x7fff,
        TagV::List(l) => texts_fit_elems(l),
        TagV::Compound(m) => texts_fit_fields(m),
        _ => true,
    }
}

pub open spec fn texts_fit_elems(l: Seq<TagV>) -> bool
    decreases l, 1int,
{
    if l.len() == 0 {
        true
    } else {
        texts_fit(l[0]) && texts_fit_elems(l.drop_first())
    }
}

pub open spec fn texts_fit_fields(m: Seq<(Seq<u8>, TagV)>) -> bool
    decreases m, 1int,
{
    if m.len() == 0 {
        true
    } else {
        m[0].0.len() <= 0x7fff && texts_fit(m[0].1) && texts_fit_fields(m.drop_first())
    }
}

// ---------------------------------------------------------------------------
// Serialization: the exact bytes a value writes.
// ---------------------------------------------------------------------------

/// The payload bytes of one value, without its leading kind byte (the
/// container, or the document root, frames the kind).  Array and list
/// length prefixes are reduced to the low 31 bits, mirroring the writer's
/// known precision limit on lengths beyond the signed 32-bit range.
pub open spec fn payload(t: TagV) -> Seq<u8>
    decreases t, 0int,
{
    match t {
        TagV::End => Seq::empty(),
        TagV::Byte(x) => seq![u8_of_i8(x)],
        TagV::Short(x) => be2(u16_of_i16(x)),
        TagV::Int(x) => be4(u32_of_i32(x)),
        TagV::Long(x) => be8(u64_of_i64(x)),
        TagV::Float(b) => be4(b),
        TagV::Double(b) => be8(b),
        TagV::ByteArray(s) => be4((s.len() % 0x8000_0000) as u32) + seq_u8(s),
        TagV::String(s) => text_frame(s),
        TagV::List(l) => seq![list_kind(l)] + be4((l.len() % 0x8000_0000) as u32) + payload_elems(l),
        TagV::Compound(m) => payload_fields(m) + seq![0u8],
    }
}

/// The elements of a list, back to back, with no per-element framing.
pub open spec fn payload_elems(l: Seq<TagV>) -> Seq<u8>
    decreases l, 1int,
{
    if l.len() == 0 {
        Seq::empty()
    } else {
        payload(l[0]) + payload_elems(l.drop_first())
    }
}

/// The entries of a compound: (kind byte, framed key, payload) triples
/// back to back, without the terminating End byte.
pub open spec fn payload_fields(m: Seq<(Seq<u8>, TagV)>) -> Seq<u8>
    decreases m, 1int,
{
    if m.len() == 0 {
        Seq::empty()
    } else {
        seq![kind_of(m[0].1)] + text_frame(m[0].0) + payload(m[0].1) + payload_fields(m.drop_first())
    }
}

/// The bytes of a whole document: the root kind byte, then for any root
/// but an empty one the framed key and the payload.  An empty document is
/// the single End byte.
pub open spec fn root_bytes(key: Seq<u8>, t: TagV) -> Seq<u8> {
    if t is End {
        seq![0u8]
    } else {
        seq![kind_of(t)] + text_frame(key) + payload(t)
    }
}

/// A document that serializes faithfully: a well-formed value, a key that
/// fits its prefix, and the empty document carries an empty key.
pub open spec fn wf_root(key: Seq<u8>, t: TagV) -> bool {
    wf(t) && key.len() <= 0x7fff && (t is End ==> key.len() == 0)
}

// ---------------------------------------------------------------------------
// Parsing: the exact outcome of reading a value back.
// ---------------------------------------------------------------------------

/// The outcome of reading one item from the front of a stream: the item
/// and the bytes consumed, or the error the stream forces.
pub enum ParseResult<T> {
    Parsed(T, int),
    Short,
    BadKind,
}

/// How a compound accumulates its entries: an entry whose key is already
/// present overwrites that entry's value in place, a new key is appended.
pub open spec fn find_key(m: Seq<(Seq<u8>, TagV)>, key: Seq<u8>) -> int
    decreases m,
{
    if m.len() == 0 {
        -1
    } else if m[0].0 == key {
        0
    } else {
        let r = find_key(m.drop_first(), key);
        if r < 0 { -1 } else { r + 1 }
    }
}

pub open spec fn insert_entry(m: Seq<(Seq<u8>, TagV)>, key: Seq<u8>, v: TagV) -> Seq<
    (Seq<u8>, TagV),
> {
    let i = find_key(m, key);
    if i < 0 {
        m.push((key, v))
    } else {
        m.update(i, (key, v))
    }
}

/// The mapping left after inserting a run of entries in stream order.
pub open spec fn build_map(entries: Seq<(Seq<u8>, TagV)>) -> Seq<(Seq<u8>, TagV)>
    decreases entries,
{
    if entries.len() == 0 {
        Seq::empty()
    } else {
        insert_entry(build_map(entries.drop_last()), entries.last().0, entries.last().1)
    }
}

/// Reading one value of kind `k` from the front of `s`.
///
/// Negative array, list and text counts promise more bytes than any
/// stream holds and are treated as short reads.  The bound guards around
/// the recursive calls keep the recursion well-founded; a parse never
/// consumes more bytes than the stream has, so they always hold.
pub open spec fn parse_tag(k: u8, s: Seq<u8>) -> ParseResult<TagV>
    decreases s.len(), 1int, 0int,
{
    if k == 0x00 {
        ParseResult::Parsed(TagV::End, 0)
    } else if k == 0x01 {
        if s.len() < 1 {
            ParseResult::Short
        } else {
            ParseResult::Parsed(TagV::Byte(i8_of_u8(s[0])), 1)
        }
    } else if k == 0x02 {
        if s.len() < 2 {
            ParseResult::Short
        } else {
            ParseResult::Parsed(TagV::Short(i16_of_u16(de2(s))), 2)
        }
    } else if k == 0x03 {
        if s.len() < 4 {
            ParseResult::Short
        } else {
            ParseResult::Parsed(TagV::Int(i32_of_u32(de4(s))), 4)
        }
    } else if k == 0x04 {
        if s.len() < 8 {
            ParseResult::Short
        } else {
            ParseResult::Parsed(TagV::Long(i64_of_u64(de8(s))), 8)
        }
    } else if k == 0x05 {
        if s.len() < 4 {
            ParseResult::Short
        } else {
            ParseResult::Parsed(TagV::Float(de4(s)), 4)
        }
    } else if k == 0x06 {
        if s.len() < 8 {
            ParseResult::Short
        } else {
            ParseResult::Parsed(TagV::Double(de8(s)), 8)
        }
    } else if k == 0x07 {
        if s.len() < 4 {
            ParseResult::Short
        } else {
            let n = i32_of_u32(de4(s));
            if n < 0 {
                ParseResult::Short
            } else if s.len() < 4 + n {
                ParseResult::Short
            } else {
                ParseResult::Parsed(TagV::ByteArray(seq_i8(s.subrange(4, 4 + n))), 4 + n)
            }
        }
    } else if k == 0x08 {
        match parse_text(s) {
            Option::None => ParseResult::Short,
            Option::Some((t, c)) => ParseResult::Parsed(TagV::String(t), c),
        }
    } else if k == 0x09 {
        if s.len() < 5 {
            ParseResult::Short
        } else {
            let ek = s[0];
            let n = i32_of_u32(de4(s.skip(1)));
            if n < 0 {
                ParseResult::Short
            } else {
                match parse_elems(ek, n as int, s.skip(5)) {
                    ParseResult::Parsed(l, c) => ParseResult::Parsed(TagV::List(l), 5 + c),
                    ParseResult::Short => ParseResult::Short,
                    ParseResult::BadKind => ParseResult::BadKind,
                }
            }
        }
    } else if k == 0x0a {
        match parse_fields(s) {
            ParseResult::Parsed(es, c) => ParseResult::Parsed(TagV::Compound(build_map(es)), c),
            ParseResult::Short => ParseResult::Short,
            ParseResult::BadKind => ParseResult::BadKind,
        }
    } else {
        ParseResult::BadKind
    }
}

/// Reading `n` list elements, all of kind `k`, back to back.
pub open spec fn parse_elems(k: u8, n: int, s: Seq<u8>) -> ParseResult<Seq<TagV>>
    decreases s.len(), 2int, n,
{
    if n <= 0 {
        ParseResult::Parsed(Seq::empty(), 0)
    } else {
        match parse_tag(k, s) {
            ParseResult::Parsed(t, c) => {
                if 0 <= c <= s.len() {
                    match parse_elems(k, n - 1, s.skip(c)) {
                        ParseResult::Parsed(l, c2) => ParseResult::Parsed(seq![t] + l, c + c2),
                        ParseResult::Short => ParseResult::Short,
                        ParseResult::BadKind => ParseResult::BadKind,
                    }
                } else {
                    ParseResult::Short
                }
            },
            ParseResult::Short => ParseResult::Short,
            ParseResult::BadKind => ParseResult::BadKind,
        }
    }
}

/// Reading compound entries up to and including the End byte, in stream
/// order, duplicates and all; `parse_tag` folds them into a mapping.
pub open spec fn parse_fields(s: Seq<u8>) -> ParseResult<Seq<(Seq<u8>, TagV)>>
    decreases s.len(), 0int, 0int,
{
    if s.len() < 1 {
        ParseResult::Short
    } else if s[0] == 0x00 {
        ParseResult::Parsed(Seq::empty(), 1)
    } else {
        let k = s[0];
        match parse_text(s.skip(1)) {
            Option::None => ParseResult::Short,
            Option::Some((key, c1)) => {
                if 0 <= c1 <= s.len() - 1 {
                    match parse_tag(k, s.skip(1 + c1)) {
                        ParseResult::Parsed(t, c2) => {
                            if 0 <= c2 <= s.len() - 1 - c1 {
                                match parse_fields(s.skip(1 + c1 + c2)) {
                                    ParseResult::Parsed(es, c3) => ParseResult::Parsed(
                                        seq![(key, t)] + es,
                                        1 + c1 + c2 + c3,
                                    ),
                                    ParseResult::Short => ParseResult::Short,
                                    ParseResult::BadKind => ParseResult::BadKind,
                                }
                            } else {
                                ParseResult::Short
                            }
                        },
                        ParseResult::Short => ParseResult::Short,
                        ParseResult::BadKind => ParseResult::BadKind,
                    }
                } else {
                    ParseResult::Short
                }
            },
        }
    }
}

/// Reading a whole document: the root kind byte; for the End kind an
/// empty root with nothing further read, otherwise the framed key and
/// then the value of that kind.
pub open spec fn parse_root(s: Seq<u8>) -> ParseResult<(Seq<u8>, TagV)> {
    if s.len() < 1 {
        ParseResult::Short
    } else if s[0] == 0x00 {
        ParseResult::Parsed((Seq::empty(), TagV::End), 1)
    } else {
        match parse_text(s.skip(1)) {
            Option::None => ParseResult::Short,
            Option::Some((key, c1)) => {
                if 0 <= c1 <= s.len() - 1 {
                    match parse_tag(s[0], s.skip(1 + c1)) {
                        ParseResult::Parsed(t, c2) => ParseResult::Parsed((key, t), 1 + c1 + c2),
                        ParseResult::Short => ParseResult::Short,
                        ParseResult::BadKind => ParseResult::BadKind,
                    }
                } else {
                    ParseResult::Short
                }
            },
        }
    }
}

// ---------------------------------------------------------------------------
// Structural lemmas about the model, used to verify the codec.
// ---------------------------------------------------------------------------

pub proof fn lemma_prefix_trans(a: Seq<u8>, b: Seq<u8>, c: Seq<u8>)
    requires
        a.is_prefix_of(b),
        b.is_prefix_of(c),
    ensures
        a.is_prefix_of(c),
{
    assert(a =~= c.subrange(0, a.len() as int)) by {
        assert(forall|i: int| 0 <= i < a.len() ==> a[i] == b.subrange(0, a.len() as int)[i]);
        assert(forall|i: int|
            0 <= i < b.len() ==> b[i] == c.subrange(0, b.len() as int)[i]);
    }
}

/// Appending one element appends its payload.
pub proof fn lemma_payload_elems_snoc(l: Seq<TagV>, x: TagV)
    ensures
        payload_elems(l.push(x)) == payload_elems(l) + payload(x),
    decreases l.len(),
{
    if l.len() == 0 {
        reveal_with_fuel(payload_elems, 2);
        assert(l.push(x)[0] == x);
        assert(l.push(x).drop_first() =~= Seq::<TagV>::empty());
        assert(payload_elems(l.push(x)) =~= payload_elems(l) + payload(x));
    } else {
        assert(l.push(x).drop_first() =~= l.drop_first().push(x));
        lemma_payload_elems_snoc(l.drop_first(), x);
        assert(payload(l[0]) + (payload_elems(l.drop_first()) + payload(x)) =~= (payload(l[0])
            + payload_elems(l.drop_first())) + payload(x));
    }
}

/// Appending one entry appends its framed bytes.
pub proof fn lemma_payload_fields_snoc(m: Seq<(Seq<u8>, TagV)>, e: (Seq<u8>, TagV))
    ensures
        payload_fields(m.push(e)) == payload_fields(m) + seq![kind_of(e.1)] + text_frame(e.0)
            + payload(e.1),
    decreases m.len(),
{
    if m.len() == 0 {
        reveal_with_fuel(payload_fields, 2);
        assert(m.push(e)[0] == e);
        assert(m.push(e).drop_first() =~= Seq::<(Seq<u8>, TagV)>::empty());
        assert(payload_fields(m.push(e)) =~= payload_fields(m) + seq![kind_of(e.1)] + text_frame(
            e.0,
        ) + payload(e.1));
    } else {
        assert(m.push(e)[0] == m[0]);
        assert(m.push(e).drop_first() =~= m.drop_first().push(e));
        lemma_payload_fields_snoc(m.drop_first(), e);
        assert(payload_fields(m.push(e)) =~= payload_fields(m) + seq![kind_of(e.1)] + text_frame(
            e.0,
        ) + payload(e.1));
    }
}

/// The recursive conjunction over a list is the pointwise one.
pub proof fn lemma_texts_fit_elems_index(l: Seq<TagV>)
    ensures
        texts_fit_elems(l) <==> (forall|i: int| 0 <= i < l.len() ==> texts_fit(#[trigger] l[i])),
    decreases l.len(),
{
    if l.len() > 0 {
        let d = l.drop_first();
        lemma_texts_fit_elems_index(d);
        assert(forall|i: int| 1 <= i < l.len() ==> #[trigger] l[i] == d[i - 1]);
    }
}

/// The recursive conjunction over compound entries is the pointwise one.
pub proof fn lemma_texts_fit_fields_index(m: Seq<(Seq<u8>, TagV)>)
    ensures
        texts_fit_fields(m) <==> (forall|i: int|
            0 <= i < m.len() ==> (#[trigger] m[i]).0.len() <= 0x7fff && texts_fit(m[i].1)),
    decreases m.len(),
{
    if m.len() > 0 {
        let d = m.drop_first();
        lemma_texts_fit_fields_index(d);
        assert(forall|i: int| 1 <= i < m.len() ==> #[trigger] m[i] == d[i - 1]);
    }
}

/// Where `find_key` points: at the first entry with the key, or nowhere.
pub proof fn lemma_find_key_props(m: Seq<(Seq<u8>, TagV)>, key: Seq<u8>)
    ensures
        find_key(m, key) < 0 ==> (forall|i: int| 0 <= i < m.len() ==> (#[trigger] m[i]).0 != key),
        find_key(m, key) >= 0 ==> {
            &&& 0 <= find_key(m, key) < m.len()
            &&& m[find_key(m, key)].0 == key
            &&& (forall|i: int| 0 <= i < find_key(m, key) ==> (#[trigger] m[i]).0 != key)
        },
    decreases m.len(),
{
    if m.len() > 0 && m[0].0 != key {
        let d = m.drop_first();
        lemma_find_key_props(d, key);
        assert(forall|i: int| 1 <= i < m.len() ==> #[trigger] m[i] == d[i - 1]);
    }
}

} // verus!
