use nbt::datainput::DataInput;
use nbt::dataoutput::DataOutput;
use nbt::error::NbtError;
use nbt::nbt::Entry;
use nbt::nbt::Tag;
use nbt::nbt::NBT;

fn encode_root(root: &NBT) -> Vec<u8> {
    let mut out = DataOutput::new(Vec::new());
    root.write_to(&mut out).unwrap();
    out.into_inner()
}

fn encode_tag(tag: &Tag) -> Vec<u8> {
    let mut out = DataOutput::new(Vec::new());
    tag.write_to(&mut out).unwrap();
    out.into_inner()
}

fn decode_tag(bytes: Vec<u8>, kind: i8) -> Result<Tag, NbtError> {
    let mut input = DataInput::new(bytes);
    Tag::read_from(&mut input, kind)
}

#[test]
fn compound_round_trip() {
    let tag = Tag::Compound(vec![
        Entry { key: b"a".to_vec(), value: Tag::Int(1) },
        Entry { key: b"b".to_vec(), value: Tag::String(b"x".to_vec()) },
    ]);
    let root = NBT::new(b"root".to_vec(), tag);

    let bytes = encode_root(&root);
    let mut input = DataInput::new(bytes);
    let back = NBT::read_from(&mut input).unwrap();

    assert_eq!(back.key(), &b"root".to_vec());
    match back.tag() {
        Tag::Compound(entries) => {
            assert_eq!(entries.len(), 2);
            assert_eq!(entries[0], Entry { key: b"a".to_vec(), value: Tag::Int(1) });
            assert_eq!(entries[1], Entry { key: b"b".to_vec(), value: Tag::String(b"x".to_vec()) });
        },
        _ => panic!("expected a compound tag"),
    }
    assert_eq!(back, root);
    assert_eq!(input.remaining(), 0);
}

#[test]
fn list_of_ints_exact_bytes() {
    let tag = Tag::List(vec![Tag::Int(1), Tag::Int(2), Tag::Int(3)]);

    let bytes = encode_tag(&tag);
    assert_eq!(
        bytes,
        vec![
            0x03, 0x00, 0x00, 0x00, 0x03, 0x00, 0x00, 0x00, 0x01, 0x00, 0x00, 0x00, 0x02, 0x00,
            0x00, 0x00, 0x03,
        ],
    );

    let back = decode_tag(bytes, 0x09).unwrap();
    assert_eq!(back, tag);
}

#[test]
fn end_byte_decodes_to_empty_root() {
    let mut input = DataInput::new(vec![0x00]);
    let root = NBT::read_from(&mut input).unwrap();

    assert!(root.key().is_empty());
    assert!(matches!(root.tag(), Tag::End));
    assert_eq!(input.remaining(), 0);
}

#[test]
fn end_byte_consumes_exactly_one_byte() {
    let mut input = DataInput::new(vec![0x00, 0xaa, 0xbb]);
    let root = NBT::read_from(&mut input).unwrap();

    assert!(matches!(root.tag(), Tag::End));
    assert_eq!(input.remaining(), 2);
}

#[test]
fn empty_root_encodes_to_single_end_byte() {
    let root = NBT::new(Vec::new(), Tag::End);
    assert_eq!(encode_root(&root), vec![0x00]);
}

#[test]
fn unknown_kind_at_top_level() {
    // Root kind 0x0b with an empty key: the key is read, then the kind
    // is rejected as an unknown discriminant, not a silent default.
    let mut input = DataInput::new(vec![0x0b, 0x00, 0x00]);
    assert_eq!(NBT::read_from(&mut input).unwrap_err(), NbtError::UnknownKind);
}

#[test]
fn unknown_kind_nested_in_compound() {
    // Compound root, empty key; first entry kind 0x0b under key "k".
    let bytes = vec![0x0a, 0x00, 0x00, 0x0b, 0x00, 0x01, b'k', 0x00];
    let mut input = DataInput::new(bytes);
    assert_eq!(NBT::read_from(&mut input).unwrap_err(), NbtError::UnknownKind);
}

#[test]
fn unknown_kind_as_list_element() {
    // List of one element with declared element kind 0x10.
    let bytes = vec![0x10, 0x00, 0x00, 0x00, 0x01, 0x07];
    assert_eq!(decode_tag(bytes, 0x09).unwrap_err(), NbtError::UnknownKind);
}

#[test]
fn truncated_int_is_short_read() {
    // An Int needs four bytes; only two remain.
    assert_eq!(decode_tag(vec![0x00, 0x01], 0x03).unwrap_err(), NbtError::ShortRead);
}

#[test]
fn truncated_string_payload_is_short_read() {
    // The prefix claims three bytes but only one follows.
    assert_eq!(decode_tag(vec![0x00, 0x03, b'a'], 0x08).unwrap_err(), NbtError::ShortRead);
}

#[test]
fn negative_string_length_is_short_read() {
    assert_eq!(decode_tag(vec![0xff, 0xff], 0x08).unwrap_err(), NbtError::ShortRead);
}

#[test]
fn negative_byte_array_length_is_short_read() {
    assert_eq!(
        decode_tag(vec![0xff, 0xff, 0xff, 0xff], 0x07).unwrap_err(),
        NbtError::ShortRead,
    );
}

#[test]
fn empty_string_round_trips_without_payload() {
    let tag = Tag::String(Vec::new());
    let bytes = encode_tag(&tag);
    assert_eq!(bytes, vec![0x00, 0x00]);

    // With trailing bytes present, exactly the two header bytes are read.
    let mut input = DataInput::new(vec![0x00, 0x00, 0xde, 0xad]);
    let back = Tag::read_from(&mut input, 0x08).unwrap();
    assert_eq!(back, tag);
    assert_eq!(input.remaining(), 2);
}

#[test]
fn empty_list_consumes_exactly_five_bytes() {
    let tag = Tag::List(Vec::new());
    let bytes = encode_tag(&tag);
    // An empty list defaults its declared element kind to Byte (0x01).
    assert_eq!(bytes, vec![0x01, 0x00, 0x00, 0x00, 0x00]);

    let mut input = DataInput::new(vec![0x01, 0x00, 0x00, 0x00, 0x00, 0x77]);
    let back = Tag::read_from(&mut input, 0x09).unwrap();
    assert_eq!(back, Tag::List(Vec::new()));
    assert_eq!(input.remaining(), 1);
}

#[test]
fn duplicate_keys_keep_later_value() {
    // Two entries under key "k": Int(1), then Int(2); only the later
    // value survives decoding.
    let bytes = vec![
        0x03, 0x00, 0x01, b'k', 0x00, 0x00, 0x00, 0x01, 0x03, 0x00, 0x01, b'k', 0x00, 0x00, 0x00,
        0x02, 0x00,
    ];
    let back = decode_tag(bytes, 0x0a).unwrap();
    match back {
        Tag::Compound(entries) => {
            assert_eq!(entries.len(), 1);
            assert_eq!(entries[0], Entry { key: b"k".to_vec(), value: Tag::Int(2) });
        },
        _ => panic!("expected a compound tag"),
    }
}

#[test]
fn oversized_text_is_rejected_on_write() {
    let tag = Tag::String(vec![b'y'; 0x8000]);
    let mut out = DataOutput::new(Vec::new());
    assert_eq!(tag.write_to(&mut out).unwrap_err(), NbtError::TextTooLong);
}

#[test]
fn oversized_key_is_rejected_on_write() {
    let root = NBT::new(vec![b'k'; 0x8000], Tag::Int(5));
    let mut out = DataOutput::new(Vec::new());
    assert_eq!(root.write_to(&mut out).unwrap_err(), NbtError::TextTooLong);
}

#[test]
fn longest_text_still_writes() {
    let tag = Tag::String(vec![b'y'; 0x7fff]);
    let bytes = encode_tag(&tag);
    assert_eq!(bytes.len(), 2 + 0x7fff);
    assert_eq!(&bytes[..2], &[0x7f, 0xff]);
}

#[test]
fn scalars_round_trip_with_exact_bytes() {
    assert_eq!(encode_tag(&Tag::Byte(-1)), vec![0xff]);
    assert_eq!(encode_tag(&Tag::Short(-2)), vec![0xff, 0xfe]);
    assert_eq!(encode_tag(&Tag::Int(-2)), vec![0xff, 0xff, 0xff, 0xfe]);
    assert_eq!(
        encode_tag(&Tag::Long(i64::MIN)),
        vec![0x80, 0x00, 0x00, 0x00, 0x00, 0x00, 0x00, 0x00],
    );

    assert_eq!(decode_tag(vec![0x80], 0x01).unwrap(), Tag::Byte(-128));
    assert_eq!(decode_tag(vec![0x80, 0x00], 0x02).unwrap(), Tag::Short(-32768));
    assert_eq!(
        decode_tag(vec![0x7f, 0xff, 0xff, 0xff], 0x03).unwrap(),
        Tag::Int(i32::MAX),
    );
    assert_eq!(
        decode_tag(vec![0xff, 0xff, 0xff, 0xff, 0xff, 0xff, 0xff, 0xff], 0x04).unwrap(),
        Tag::Long(-1),
    );
}

#[test]
fn float_bits_cross_the_wire_unchanged() {
    let one = 1.0f32.to_bits();
    let tag = Tag::Float(one);
    let bytes = encode_tag(&tag);
    assert_eq!(bytes, vec![0x3f, 0x80, 0x00, 0x00]);
    let back = decode_tag(bytes, 0x05).unwrap();
    match back {
        Tag::Float(bits) => assert_eq!(f32::from_bits(bits), 1.0f32),
        _ => panic!("expected a float tag"),
    }

    let pi = std::f64::consts::PI.to_bits();
    let back = decode_tag(encode_tag(&Tag::Double(pi)), 0x06).unwrap();
    match back {
        Tag::Double(bits) => assert_eq!(f64::from_bits(bits), std::f64::consts::PI),
        _ => panic!("expected a double tag"),
    }
}

#[test]
fn byte_array_round_trips() {
    let tag = Tag::ByteArray(vec![-1, 0, 1, 127, -128]);
    let bytes = encode_tag(&tag);
    assert_eq!(bytes, vec![0x00, 0x00, 0x00, 0x05, 0xff, 0x00, 0x01, 0x7f, 0x80]);
    assert_eq!(decode_tag(bytes, 0x07).unwrap(), tag);
}

#[test]
fn nested_document_round_trips() {
    let tag = Tag::Compound(vec![
        Entry { key: b"byte".to_vec(), value: Tag::Byte(3) },
        Entry { key: b"data".to_vec(), value: Tag::ByteArray(vec![1, -2, 3]) },
        Entry {
            key: b"list".to_vec(),
            value: Tag::List(vec![
                Tag::Compound(vec![Entry { key: b"n".to_vec(), value: Tag::Int(1) }]),
                Tag::Compound(Vec::new()),
            ]),
        },
        Entry {
            key: b"player".to_vec(),
            value: Tag::Compound(vec![
                Entry { key: b"name".to_vec(), value: Tag::String(b"alpha".to_vec()) },
                Entry { key: b"score".to_vec(), value: Tag::Long(-7) },
            ]),
        },
    ]);
    let root = NBT::new(b"doc".to_vec(), tag);

    let bytes = encode_root(&root);
    let mut input = DataInput::new(bytes);
    let back = NBT::read_from(&mut input).unwrap();
    assert_eq!(back, root);
    assert_eq!(input.remaining(), 0);
}

#[test]
fn non_compound_root_round_trips() {
    let root = NBT::new(b"answer".to_vec(), Tag::Int(42));
    let bytes = encode_root(&root);
    assert_eq!(
        bytes,
        vec![0x03, 0x00, 0x06, b'a', b'n', b's', b'w', b'e', b'r', 0x00, 0x00, 0x00, 0x2a],
    );

    let mut input = DataInput::new(bytes);
    let back = NBT::read_from(&mut input).unwrap();
    assert_eq!(back, root);
}

#[test]
fn test_nbt_write() {
    // write nbt document
    let ints = (0..=100)
        .map(|x| match x {
            _ if x % 3 == 0 => ("Fizz", x),
            _ if x % 5 == 0 => ("Buzz", x),
            _ => ("None", x),
        })
        .map(|(key, x)| {
            Tag::Compound(vec![Entry { key: key.as_bytes().to_vec(), value: Tag::Int(x) }])
        })
        .collect();

    let tag = Tag::List(ints);
    let nbt = NBT::new(b"FizzBuzz".to_vec(), tag);

    let mut output = DataOutput::new(Vec::new());
    nbt.write_to(&mut output).unwrap();

    // read the written document back
    let mut input = DataInput::new(output.into_inner());
    let nbt = NBT::read_from(&mut input).unwrap();

    match nbt.tag() {
        Tag::List(_) => (),
        _ => panic!("not a coumpound tag"),
    }
}

#[test]
fn list_of_ends_round_trips() {
    // End elements carry no payload: the list is its five header bytes.
    let tag = Tag::List(vec![Tag::End, Tag::End]);
    let bytes = encode_tag(&tag);
    assert_eq!(bytes, vec![0x00, 0x00, 0x00, 0x00, 0x02]);
    assert_eq!(decode_tag(bytes, 0x09).unwrap(), tag);
}
