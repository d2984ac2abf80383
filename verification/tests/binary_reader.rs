use rpxlib::binary_reader::BinaryReader;
use rpxlib::endian::Endian;

#[test]
fn binary_reader_test_big_endian_read() {
    let data = vec![0x01, 0x02, 0x03, 0x04, 0x05, 0x06, 0x07, 0x08];
    let mut reader = BinaryReader::new(data);
    reader.endian = Endian::Big;
    assert_eq!(reader.read_u64().unwrap(), 0x0102030405060708);
}

#[test]
fn binary_reader_test_little_endian_read() {
    let data = vec![0x01, 0x02, 0x03, 0x04, 0x05, 0x06, 0x07, 0x08];
    let mut reader = BinaryReader::new(data);
    reader.endian = Endian::Little;
    assert_eq!(reader.read_u64().unwrap(), 0x0807060504030201);
}

#[test]
fn binary_reader_test_u128() {
    let data = vec![
        0x00, 0x01, 0x02, 0x03, 0x04, 0x05, 0x06, 0x07, 0x08, 0x0a, 0x0b, 0x0c, 0x0d, 0x0e, 0x0f,
        0x10,
    ];
    let mut reader = BinaryReader::new(data);
    assert_eq!(reader.read_u128().unwrap(), 0x0001020304050607080a0b0c0d0e0f10);
}

#[test]
fn binary_reader_test_u64() {
    let data = vec![0x01, 0x02, 0x03, 0x04, 0x05, 0x06, 0x07, 0x08];
    let mut reader = BinaryReader::new(data);
    assert_eq!(reader.read_u64().unwrap(), 0x0102030405060708);
}

#[test]
fn binary_reader_test_u32() {
    let data = vec![0x01, 0x02, 0x03, 0x04];
    let mut reader = BinaryReader::new(data);
    assert_eq!(reader.read_u32().unwrap(), 0x01020304);
}

#[test]
fn binary_reader_test_u16() {
    let data = vec![0x01, 0x02];
    let mut reader = BinaryReader::new(data);
    assert_eq!(reader.read_u16().unwrap(), 0x0102);
}

#[test]
fn binary_reader_test_u8() {
    let data = vec![0x01];
    let mut reader = BinaryReader::new(data);
    assert_eq!(reader.read_u8().unwrap(), 0x01);
}

#[test]
fn binary_reader_test_half_64bit() {
    let data = vec![0x01, 0x02, 0x03, 0x04];
    let mut reader = BinaryReader::new(data);
    reader.is_64bit = true;
    assert_eq!(reader.read_half().unwrap(), 0x01020304);
}

#[test]
fn binary_reader_test_half_32bit() {
    let data = vec![0x01, 0x02];
    let mut reader = BinaryReader::new(data);
    reader.is_64bit = false;
    assert_eq!(reader.read_half().unwrap(), 0x0102);
}

#[test]
fn binary_reader_test_word_64bit() {
    let data = vec![0x01, 0x02, 0x03, 0x04, 0x05, 0x06, 0x07, 0x08];
    let mut reader = BinaryReader::new(data);
    reader.is_64bit = true;
    assert_eq!(reader.read_word().unwrap(), 0x0102030405060708);
}

#[test]
fn binary_reader_test_word_32bit() {
    let data = vec![0x01, 0x02, 0x03, 0x04];
    let mut reader = BinaryReader::new(data);
    reader.is_64bit = false;
    assert_eq!(reader.read_word().unwrap(), 0x01020304);
}

#[test]
fn binary_reader_test_dword_64bit() {
    let data = vec![
        0x01, 0x02, 0x03, 0x04, 0x05, 0x06, 0x07, 0x08, 0x09, 0x0a, 0x0b, 0x0c, 0x0d, 0x0e, 0x0f,
        0x10,
    ];
    let mut reader = BinaryReader::new(data);
    reader.is_64bit = true;
    assert_eq!(reader.read_dword().unwrap(), 0x0102030405060708090a0b0c0d0e0f10);
}

#[test]
fn binary_reader_test_dword_32bit() {
    let data = vec![0x01, 0x02, 0x03, 0x04, 0x05, 0x06, 0x07, 0x08];
    let mut reader = BinaryReader::new(data);
    reader.is_64bit = false;
    assert_eq!(reader.read_dword().unwrap(), 0x0102030405060708);
}

#[test]
fn binary_reader_test_read_n_bytes() {
    let data = vec![0x01, 0x02, 0x03, 0x04, 0x05, 0x06, 0x07, 0x08];
    let mut reader = BinaryReader::new(data);
    assert_eq!(reader.read_n_bytes(4).unwrap(), vec![0x01, 0x02, 0x03, 0x04]);
}

#[test]
fn binary_reader_test_read() {
    let data = vec![0x01, 0x02, 0x03, 0x04, 0x05, 0x06, 0x07, 0x08];
    let mut reader = BinaryReader::new(data);
    assert_eq!(reader.read(4, 2).unwrap(), vec![0x05, 0x06]);
}

#[test]
fn test_read_all() {
    let data = vec![0x01, 0x02, 0x03, 0x04, 0x05, 0x06, 0x07, 0x08];
    let mut reader = BinaryReader::new(data);
    assert_eq!(
        reader.read(0, 8).unwrap(),
        vec![0x01, 0x02, 0x03, 0x04, 0x05, 0x06, 0x07, 0x08]
    );
}

#[test]
fn test_peek_u8() {
    let data = vec![0x01, 0x02];
    let mut reader = BinaryReader::new(data);
    assert_eq!(reader.peek_u8().unwrap(), 0x01);
    assert_eq!(reader.read_u8().unwrap(), 0x01);
    assert_eq!(reader.peek_u8().unwrap(), 0x02);
    assert_eq!(reader.read_u8().unwrap(), 0x02);
}

#[test]
fn test_read_past_end_is_out_of_range() {
    let data = vec![0x01, 0x02];
    let mut reader = BinaryReader::new(data);
    let err = reader.read_u32().unwrap_err();
    assert_eq!(err.offset, 0);
    // the failed read leaves the cursor where it stood
    assert_eq!(reader.offset, 0);
    assert_eq!(reader.read_u16().unwrap(), 0x0102);
}

#[test]
fn test_seek_poisons_next_read_only() {
    let data = vec![0x01, 0x02];
    let mut reader = BinaryReader::new(data);
    reader.seek(100);
    assert!(reader.read_u8().is_err());
    reader.seek(1);
    assert_eq!(reader.read_u8().unwrap(), 0x02);
}

#[test]
fn test_mode_reads_equal_plain_reads() {
    // under 32-bit width: half/word/dword are the plain 16/32/64-bit reads
    let bytes = vec![
        0x11, 0x22, 0x33, 0x44, 0x55, 0x66, 0x77, 0x88, 0x99, 0xaa, 0xbb, 0xcc, 0xdd, 0xee,
    ];
    let mut narrow = BinaryReader::new(bytes.clone());
    narrow.is_64bit = false;
    assert_eq!(narrow.read_half().unwrap(), 0x1122);
    let mut plain = BinaryReader::new(bytes.clone());
    assert_eq!(narrow.read_word().unwrap() as u128, {
        plain.seek(2);
        plain.read_u32().unwrap() as u128
    });
    // under 64-bit width: half/word are the plain 32/64-bit reads
    let mut wide = BinaryReader::new(bytes.clone());
    wide.is_64bit = true;
    let mut plain2 = BinaryReader::new(bytes);
    assert_eq!(wide.read_half().unwrap(), plain2.read_u32().unwrap());
}

#[test]
fn test_u16_string_reads_length_prefixed_text() {
    let data = vec![0x00, 0x02, 0x68, 0x69];
    let mut reader = BinaryReader::new(data);
    assert_eq!(reader.read_u16_string().unwrap(), "hi");
}
