use rpxlib::binary_reader::BinaryReader;
use rpxlib::errors::DecodeErrorKind;
use rpxlib::tags::{Tag, TagPayload};

#[test]
fn test_end() {
    let data = vec![];
    let mut reader = BinaryReader::new(data);

    assert_eq!(TagPayload::parse_payload(&mut reader, 0).unwrap(), TagPayload::End);
}

#[test]
fn test_byte() {
    let data = vec![0x12];
    let mut reader = BinaryReader::new(data);

    assert_eq!(TagPayload::parse_payload(&mut reader, 1).unwrap(), TagPayload::Byte(0x12));
}

#[test]
fn test_short() {
    let data = vec![0x12, 0x34];
    let mut reader = BinaryReader::new(data);

    assert_eq!(TagPayload::parse_payload(&mut reader, 2).unwrap(), TagPayload::Short(0x1234));
}

#[test]
fn test_int() {
    let data = vec![0x12, 0x34, 0x56, 0x78];
    let mut reader = BinaryReader::new(data);

    assert_eq!(TagPayload::parse_payload(&mut reader, 3).unwrap(), TagPayload::Int(0x12345678));
}

#[test]
fn test_long() {
    let data = vec![0x12, 0x34, 0x56, 0x78, 0xaa, 0xbb, 0xcc, 0xdd];
    let mut reader = BinaryReader::new(data);

    assert_eq!(
        TagPayload::parse_payload(&mut reader, 4).unwrap(),
        TagPayload::Long(0x12345678aabbccddu64 as i64)
    );
}

#[test]
fn test_float() {
    let data = vec![0x3f, 0x80, 0x00, 0x00];
    let mut reader = BinaryReader::new(data);

    assert_eq!(
        TagPayload::parse_payload(&mut reader, 5).unwrap(),
        TagPayload::Float(1.0_f32.to_bits())
    );
}

#[test]
fn test_double() {
    let data = vec![0x3f, 0xf0, 0x00, 0x00, 0x00, 0x00, 0x00, 0x00];
    let mut reader = BinaryReader::new(data);

    assert_eq!(
        TagPayload::parse_payload(&mut reader, 6).unwrap(),
        TagPayload::Double(1.0_f64.to_bits())
    );
}

#[test]
fn test_bytearray() {
    let data = vec![0x00, 0x00, 0x00, 0x04, 0x01, 0x02, 0x03, 0x04];
    let mut reader = BinaryReader::new(data);

    assert_eq!(
        TagPayload::parse_payload(&mut reader, 7).unwrap(),
        TagPayload::ByteArray(vec![0x01, 0x02, 0x03, 0x04])
    );
}

#[test]
fn test_string() {
    let data = vec![0x00, 0x02, 0x61, 0x62];
    let mut reader = BinaryReader::new(data);

    assert_eq!(
        TagPayload::parse_payload(&mut reader, 8).unwrap(),
        TagPayload::String("ab".to_string())
    );
}

#[test]
fn test_list_of_ints_has_no_per_element_prefixes() {
    // element kind Int, count 2, then two 4-byte big-endian values
    let data = vec![3, 0x00, 0x00, 0x00, 0x02, 0x00, 0x00, 0x00, 0x01, 0x00, 0x00, 0x00, 0x02];
    let mut reader = BinaryReader::new(data);

    assert_eq!(
        TagPayload::parse_payload(&mut reader, 9).unwrap(),
        TagPayload::List(vec![TagPayload::Int(1), TagPayload::Int(2)])
    );
    assert_eq!(reader.offset, 13);
}

#[test]
fn test_int_array() {
    let data = vec![0x00, 0x00, 0x00, 0x02, 0x00, 0x00, 0x00, 0x05, 0xff, 0xff, 0xff, 0xff];
    let mut reader = BinaryReader::new(data);

    assert_eq!(
        TagPayload::parse_payload(&mut reader, 11).unwrap(),
        TagPayload::IntArray(vec![5, -1])
    );
}

#[test]
fn test_unknown_tag_kind_is_reported() {
    let data = vec![0x01, 0x02, 0x03];
    let mut reader = BinaryReader::new(data);

    let err = TagPayload::parse_payload(&mut reader, 99).unwrap_err();
    assert_eq!(err.kind, DecodeErrorKind::UnknownTagKind { kind: 99 });
}

#[test]
fn test_truncated_scalar_is_out_of_range() {
    let data = vec![0x01, 0x02];
    let mut reader = BinaryReader::new(data);

    let err = TagPayload::parse_payload(&mut reader, 3).unwrap_err();
    assert_eq!(err.kind, DecodeErrorKind::OutOfRange);
}

#[test]
fn test_compound_round_trip() {
    // a compound tree with mixed scalar, array, list and nested-compound
    // children and an empty nested compound, serialized by hand and decoded
    // back. Compounds stop at the first zero byte they peek, so a child
    // whose first encoded byte is zero would end its parent early: under
    // little-endian order every nonempty short name is safe, which is why
    // this tree is little-endian.
    let mut data: Vec<u8> = Vec::new();
    // root tag: name "root", kind Compound
    data.extend_from_slice(&[0x04, 0x00]);
    data.extend_from_slice(b"root");
    data.push(10);
    {
        // child 1: name "n", kind Byte, value 7
        data.extend_from_slice(&[0x01, 0x00]);
        data.extend_from_slice(b"n");
        data.push(1);
        data.push(7);
        // child 2: name "arr", kind ByteArray, bytes [9, 8]
        data.extend_from_slice(&[0x03, 0x00]);
        data.extend_from_slice(b"arr");
        data.push(7);
        data.extend_from_slice(&[0x02, 0x00, 0x00, 0x00, 9, 8]);
        // child 3: name "ls", kind List of Short, count 2
        data.extend_from_slice(&[0x02, 0x00]);
        data.extend_from_slice(b"ls");
        data.push(9);
        data.push(2);
        data.extend_from_slice(&[0x02, 0x00, 0x00, 0x00]);
        data.extend_from_slice(&[0x00, 0x01, 0x00, 0x02]);
        // child 4: name "sub", an empty nested compound
        data.extend_from_slice(&[0x03, 0x00]);
        data.extend_from_slice(b"sub");
        data.push(10);
        data.push(0);
        // sentinel ends the root compound
        data.push(0);
    }
    let mut reader = BinaryReader::new(data);
    reader.endian = rpxlib::endian::Endian::Little;
    let tag = Tag::parse(&mut reader).unwrap();
    assert_eq!(tag.name, "root");
    assert_eq!(
        tag.value,
        TagPayload::Compound(vec![
            Tag { name: "n".to_string(), value: TagPayload::Byte(7) },
            Tag { name: "arr".to_string(), value: TagPayload::ByteArray(vec![9, 8]) },
            Tag {
                name: "ls".to_string(),
                value: TagPayload::List(vec![TagPayload::Short(0x0100), TagPayload::Short(0x0200)]),
            },
            Tag { name: "sub".to_string(), value: TagPayload::Compound(vec![]) },
        ])
    );
}

#[test]
fn test_empty_name_tag_round_trip() {
    // a tag with an empty name and an Int payload
    let data = vec![0x00, 0x00, 3, 0x00, 0x00, 0x00, 0x2a];
    let mut reader = BinaryReader::new(data);
    let tag = Tag::parse(&mut reader).unwrap();
    assert_eq!(tag.name, "");
    assert_eq!(tag.value, TagPayload::Int(42));
}

#[test]
fn test_little_endian_tag() {
    let data = vec![0x01, 0x00, 0x78, 3, 0x01, 0x00, 0x00, 0x00];
    let mut reader = BinaryReader::new(data);
    reader.endian = rpxlib::endian::Endian::Little;
    let tag = Tag::parse(&mut reader).unwrap();
    assert_eq!(tag.name, "x");
    assert_eq!(tag.value, TagPayload::Int(1));
}
