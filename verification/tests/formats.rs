use rpxlib::binary_reader::BinaryReader;
use rpxlib::elf_header::ELFHeader;
use rpxlib::elf_identifier::ELFIdentifier;
use rpxlib::endian::Endian;
use rpxlib::errors::DecodeErrorKind;
use rpxlib::program_header::ProgramHeader;
use rpxlib::rpx::resolve_name;
use rpxlib::section_header::{SectionHeader, SectionName};
use std::io::Write;

fn auto_test(is_64bit: bool, is_big_endian: bool) {
    let mut reader = BinaryReader::new(vec![
        0x7f,
        0x45,
        0x4c,
        0x46,
        if is_64bit { 2 } else { 1 },
        if is_big_endian { 2 } else { 1 },
        0x01,
        0xca,
        0xfe,
        0x00,
        0x00,
        0x00,
        0x00,
        0x00,
        0x00,
        0x00,
    ]);

    let id = ELFIdentifier::parse(&mut reader).unwrap();

    assert_eq!(id.os_abi, 0xca);
    assert_eq!(id.abi_version, 0xfe);

    assert_eq!(reader.is_64bit, is_64bit);
    assert_eq!(
        reader.endian,
        if is_big_endian { Endian::Big } else { Endian::Little }
    );
    // exactly the 16-byte identifier block is consumed
    assert_eq!(reader.offset, 16);
}

#[test]
fn test_32bit_little() {
    auto_test(false, false);
}
#[test]
fn test_32bit_big() {
    auto_test(false, true);
}

#[test]
fn test_64bit_little() {
    auto_test(true, false);
}
#[test]
fn test_64bit_big() {
    auto_test(true, true);
}

#[test]
fn test_malformed_identifier_is_fatal() {
    let mut reader = BinaryReader::new(vec![
        0x7f, 0x45, 0x4c, 0x47, 0x01, 0x01, 0x01, 0x00, 0x00, 0x00, 0x00, 0x00, 0x00, 0x00, 0x00,
        0x00,
    ]);
    let err = ELFIdentifier::parse(&mut reader).unwrap_err();
    assert_eq!(err.kind, DecodeErrorKind::MalformedIdentifier);
    assert_eq!(reader.offset, 0);
}

#[test]
fn elf_header_test_parse() {
    let data = vec![
        0x7f, 0x45, 0x4c, 0x46, 0x01, 0x02, 0x01, 0xca, 0xfe, 0x00, 0x00, 0x00, 0x00, 0x00, 0x00,
        0x00, 0xfe, 0x01, 0x00, 0x14, 0x00, 0x00, 0x00, 0x01, 0x02, 0x00, 0x00, 0x00, 0x00, 0x00,
        0x00, 0x00, 0x00, 0x00, 0x00, 0x40, 0x00, 0x00, 0x00, 0x00, 0x00, 0x34, 0x00, 0x00, 0x00,
        0x00, 0x00, 0x28, 0x00, 0x12, 0x00, 0x0f, 0x00, 0x00, 0x00, 0x00, 0x00, 0x00, 0x00, 0x00,
    ];
    let mut reader = BinaryReader::new(data);
    let elf_header = ELFHeader::parse(&mut reader).unwrap();

    assert_eq!(elf_header.e_type, 0xfe01);
    assert_eq!(elf_header.e_machine, 0x0014);
    assert_eq!(elf_header.e_version, 0x00000001);
    assert_eq!(elf_header.e_entry, 0x02000000);
    assert_eq!(elf_header.program_header_offset, 0x00000000);
    assert_eq!(elf_header.section_header_offset, 0x00000040);
    assert_eq!(elf_header.e_flags, 0x00000000);
    assert_eq!(elf_header.elf_header_size, 0x0034);
    assert_eq!(elf_header.program_header_size, 0x0000);
    assert_eq!(elf_header.program_headers_count, 0x0000);
    assert_eq!(elf_header.section_header_size, 0x0028);
    assert_eq!(elf_header.section_header_count, 0x0012);
    assert_eq!(elf_header.str_table_index, 0x000f);
}

#[test]
fn program_header_test_parse() {
    let mut reader = BinaryReader::new(vec![
        0x00, 0x01, 0x02, 0x03, 0x04, 0x05, 0x06, 0x07, 0x08, 0x09, 0x0a, 0x0b, 0x0c, 0x0d, 0x0e,
        0x0f, 0x10, 0x11, 0x12, 0x13, 0x14, 0x15, 0x16, 0x17, 0x18, 0x19, 0x1a, 0x1b, 0x1c, 0x1d,
        0x1e, 0x1f,
    ]);

    let header = ProgramHeader::parse(&mut reader).unwrap();

    assert_eq!(header.ph_type, 0x00010203);
    assert_eq!(header.offset, 0x04050607);
    assert_eq!(header.virtual_address, 0x08090a0b);
    assert_eq!(header.physical_address, 0x0c0d0e0f);
    assert_eq!(header.file_size, 0x10111213);
    assert_eq!(header.mem_size, 0x14151617);
    assert_eq!(header.ph_flags, 0x18191a1b);
    assert_eq!(header.ph_align, 0x1c1d1e1f);
}

#[test]
fn test_program_header_64bit_field_order() {
    // under 64-bit width the flags word follows the type word
    let mut reader = BinaryReader::new(vec![
        0x00, 0x00, 0x00, 0x00, 0x00, 0x00, 0x00, 0x01, 0x00, 0x00, 0x00, 0x00, 0x00, 0x00, 0x00,
        0x02, 0x00, 0x00, 0x00, 0x00, 0x00, 0x00, 0x00, 0x03, 0x00, 0x00, 0x00, 0x00, 0x00, 0x00,
        0x00, 0x04, 0x00, 0x00, 0x00, 0x00, 0x00, 0x00, 0x00, 0x05, 0x00, 0x00, 0x00, 0x00, 0x00,
        0x00, 0x00, 0x06, 0x00, 0x00, 0x00, 0x00, 0x00, 0x00, 0x00, 0x07, 0x00, 0x00, 0x00, 0x00,
        0x00, 0x00, 0x00, 0x08,
    ]);
    reader.is_64bit = true;

    let header = ProgramHeader::parse(&mut reader).unwrap();
    assert_eq!(header.ph_type, 1);
    assert_eq!(header.ph_flags, 2);
    assert_eq!(header.offset, 3);
    assert_eq!(header.virtual_address, 4);
    assert_eq!(header.physical_address, 5);
    assert_eq!(header.file_size, 6);
    assert_eq!(header.mem_size, 7);
    assert_eq!(header.ph_align, 8);
}

#[test]
fn section_header_test_parse() {
    let data = vec![
        0x00, 0x00, 0x00, 0x00, 0x11, 0x11, 0x11, 0x11, 0x22, 0x22, 0x22, 0x22, 0x33, 0x33, 0x33,
        0x33, 0x00, 0x00, 0x00, 0x00, 0x00, 0x00, 0x00, 0x28, 0x66, 0x66, 0x66, 0x66, 0x77, 0x77,
        0x77, 0x77, 0x88, 0x88, 0x88, 0x88, 0x99, 0x99, 0x99, 0x99,
    ];

    let mut reader = BinaryReader::new(data.clone());

    let header = SectionHeader::parse(&mut reader).unwrap();

    assert_eq!(header.name, SectionName::Offset(0x00000000), "[sh_name]");
    assert_eq!(header.sh_type, 0x11111111, "[sh_type]");
    assert_eq!(header.sh_flags, 0x22222222, "[sh_flags]");
    assert_eq!(header.address, 0x33333333, "[sh_addr]");
    assert_eq!(header.offset, 0, "[sh_offset]");
    assert_eq!(header.size, 40, "[sh_size]");
    assert_eq!(header.sh_link, 0x66666666, "[sh_link]");
    assert_eq!(header.sh_info, 0x77777777, "[sh_info]");
    assert_eq!(header.alignment, 0x88888888, "[sh_addr_align]");
    assert_eq!(header.sh_ent_size, 0x99999999, "[sh_ent_size]");

    assert_eq!(header.data, data.clone(), "[data]");
}

#[test]
fn section_header_test_zlib() {
    let data = vec![
        0x00, 0x00, 0x00, 0x00, 0x00, 0x00, 0x00, 0x00, 0x08, 0x00, 0x00, 0x00, 0x00, 0x00, 0x00,
        0x00, 0x00, 0x00, 0x00, 0x24, 0x00, 0x00, 0x00, 0x0e, 0x00, 0x00, 0x00, 0x00, 0x00, 0x00,
        0x00, 0x00, 0x00, 0x00, 0x00, 0x00, 0x00, 0x00, 0x00, 0x00, 0x78, 0x9c, 0xcb, 0xc8, 0x04,
        0x00, 0x01, 0x3b, 0x00, 0xd2,
    ];

    let mut reader = BinaryReader::new(data.clone());

    let header = SectionHeader::parse(&mut reader).unwrap();
    assert_eq!(header.data, vec![0x68, 0x69], "[data]");
}

#[test]
fn test_compression_round_trip() {
    // compress a payload, wrap it in a flagged section, and check that the
    // exact bytes come back and the retained flags drop the compression bit
    let original: Vec<u8> = (0u8..100).chain(0u8..100).collect();
    let mut encoder = flate2::write::ZlibEncoder::new(Vec::new(), flate2::Compression::default());
    encoder.write_all(&original).unwrap();
    let compressed = encoder.finish().unwrap();

    let mut raw = vec![0x00, 0x00, 0x00, 0xc8];
    raw.extend_from_slice(&compressed);

    let header = SectionHeader::new(
        SectionName::Offset(0),
        1,
        0x0800_0000,
        0,
        0,
        raw.len() as u64,
        0,
        0,
        0,
        0,
        Some(raw),
    )
    .unwrap();
    assert_eq!(header.data, original);
    assert_eq!(header.remained_flags & 0x0800_0000, 0);
    assert_eq!(header.sh_flags, 0x0800_0000);
}

#[test]
fn test_corrupt_stream_is_decompression_failure() {
    let raw = vec![0x00, 0x00, 0x00, 0x08, 0xff, 0xfe, 0x00, 0x01];
    let err = SectionHeader::new(
        SectionName::Offset(0),
        1,
        0x0800_0000,
        0,
        0,
        8,
        0,
        0,
        0,
        0,
        Some(raw),
    )
    .unwrap_err();
    assert_eq!(err.kind, DecodeErrorKind::DecompressionFailure);
}

#[test]
fn test_no_bits_section_keeps_no_payload() {
    let header =
        SectionHeader::new(SectionName::Offset(0), 8, 0x0800_0000, 0, 0, 4, 0, 0, 0, 0, None)
            .unwrap();
    assert_eq!(header.data, Vec::<u8>::new());
    assert_eq!(header.remained_flags, 0x0800_0000);
}

#[test]
fn test_name_resolution() {
    // a string table "\0foo\0bar\0" resolves offsets 0, 1 and 5 to "",
    // "foo" and "bar"
    let strtab: Vec<u8> = b"\0foo\0bar\0".to_vec();
    assert_eq!(resolve_name(&strtab, 0).unwrap(), "");
    assert_eq!(resolve_name(&strtab, 1).unwrap(), "foo");
    assert_eq!(resolve_name(&strtab, 5).unwrap(), "bar");
}

#[test]
fn test_name_resolution_out_of_range() {
    let strtab: Vec<u8> = b"\0foo".to_vec();
    // offset past the table
    assert_eq!(resolve_name(&strtab, 9).unwrap_err().kind, DecodeErrorKind::OutOfRange);
    // no terminator after the offset
    assert_eq!(resolve_name(&strtab, 1).unwrap_err().kind, DecodeErrorKind::OutOfRange);
    // an empty table resolves everything to the empty name
    assert_eq!(resolve_name(&Vec::new(), 7).unwrap(), "");
}

#[test]
fn test_whole_image_parse() {
    // a minimal 32-bit big-endian image: identifier, header, no program
    // table, two sections — a one-byte payload section named "A" and the
    // string table itself — with names resolved in the second pass
    let mut data = vec![
        0x7f, 0x45, 0x4c, 0x46, 0x01, 0x02, 0x01, 0x00, 0x00, 0x00, 0x00, 0x00, 0x00, 0x00, 0x00,
        0x00,
    ];
    // header: type, machine, version, entry, ph_off, sh_off=52, flags,
    // header size, ph entry size, ph count=0, sh entry size, sh count=2,
    // strtab index=1
    data.extend_from_slice(&[0x00, 0x02]); // e_type
    data.extend_from_slice(&[0x00, 0x14]); // e_machine
    data.extend_from_slice(&[0x00, 0x00, 0x00, 0x01]); // e_version
    data.extend_from_slice(&[0x00, 0x00, 0x00, 0x00]); // e_entry
    data.extend_from_slice(&[0x00, 0x00, 0x00, 0x00]); // program_header_offset
    data.extend_from_slice(&[0x00, 0x00, 0x00, 0x34]); // section_header_offset = 52
    data.extend_from_slice(&[0x00, 0x00, 0x00, 0x00]); // e_flags
    data.extend_from_slice(&[0x00, 0x34]); // elf_header_size
    data.extend_from_slice(&[0x00, 0x00]); // program_header_size
    data.extend_from_slice(&[0x00, 0x00]); // program_headers_count
    data.extend_from_slice(&[0x00, 0x28]); // section_header_size
    data.extend_from_slice(&[0x00, 0x02]); // section_header_count
    data.extend_from_slice(&[0x00, 0x01]); // str_table_index
    assert_eq!(data.len(), 52);
    // section 0: name offset 1 ("A"), type 1, payload = byte at 132
    data.extend_from_slice(&[0x00, 0x00, 0x00, 0x01]); // name offset
    data.extend_from_slice(&[0x00, 0x00, 0x00, 0x01]); // type
    data.extend_from_slice(&[0x00, 0x00, 0x00, 0x00]); // flags
    data.extend_from_slice(&[0x00, 0x00, 0x00, 0x00]); // address
    data.extend_from_slice(&[0x00, 0x00, 0x00, 0x84]); // offset = 132
    data.extend_from_slice(&[0x00, 0x00, 0x00, 0x01]); // size = 1
    data.extend_from_slice(&[0x00, 0x00, 0x00, 0x00]); // link
    data.extend_from_slice(&[0x00, 0x00, 0x00, 0x00]); // info
    data.extend_from_slice(&[0x00, 0x00, 0x00, 0x00]); // align
    data.extend_from_slice(&[0x00, 0x00, 0x00, 0x00]); // ent size
    // section 1: the string table "\0A\0", name offset 0, at 133
    data.extend_from_slice(&[0x00, 0x00, 0x00, 0x00]); // name offset
    data.extend_from_slice(&[0x00, 0x00, 0x00, 0x03]); // type
    data.extend_from_slice(&[0x00, 0x00, 0x00, 0x00]); // flags
    data.extend_from_slice(&[0x00, 0x00, 0x00, 0x00]); // address
    data.extend_from_slice(&[0x00, 0x00, 0x00, 0x85]); // offset = 133
    data.extend_from_slice(&[0x00, 0x00, 0x00, 0x03]); // size = 3
    data.extend_from_slice(&[0x00, 0x00, 0x00, 0x00]); // link
    data.extend_from_slice(&[0x00, 0x00, 0x00, 0x00]); // info
    data.extend_from_slice(&[0x00, 0x00, 0x00, 0x00]); // align
    data.extend_from_slice(&[0x00, 0x00, 0x00, 0x00]); // ent size
    assert_eq!(data.len(), 132);
    data.push(0xAB); // section 0's payload
    data.extend_from_slice(b"\0A\0"); // the string table's payload

    let reader = BinaryReader::new(data);
    let rpx = rpxlib::rpx::Rpx::parse(reader).unwrap();

    assert_eq!(rpx.elf_header.section_header_count, 2);
    assert_eq!(rpx.program_headers.len(), 0);
    assert_eq!(rpx.section_headers.len(), 2);
    assert_eq!(rpx.section_headers[0].name, SectionName::String("A".to_string()));
    assert_eq!(rpx.section_headers[0].data, vec![0xAB]);
    assert_eq!(rpx.section_headers[1].name, SectionName::String("".to_string()));
    assert_eq!(rpx.section_headers[1].data, b"\0A\0".to_vec());
}

#[test]
fn test_arc_index_parse() {
    // two records: ("ab", 1, 2) and ("c", 3, 4)
    let data = vec![
        0x00, 0x00, 0x00, 0x02, // count
        0x00, 0x02, 0x61, 0x62, // "ab"
        0x00, 0x00, 0x00, 0x01, // ptr
        0x00, 0x00, 0x00, 0x02, // size
        0x00, 0x01, 0x63, // "c"
        0x00, 0x00, 0x00, 0x03, // ptr
        0x00, 0x00, 0x00, 0x04, // size
    ];
    let mut reader = BinaryReader::new(data);
    let arc = rpxlib::arc::ARC::parse(&mut reader).unwrap();
    assert_eq!(arc.entries.len(), 2);
    assert_eq!(arc.entries[0].path, "ab");
    assert_eq!(arc.entries[0].ptr, 1);
    assert_eq!(arc.entries[0].size, 2);
    assert_eq!(arc.entries[1].path, "c");
    assert_eq!(arc.entries[1].ptr, 3);
    assert_eq!(arc.entries[1].size, 4);
}

fn push_u32(v: &mut Vec<u8>, x: u32) {
    v.extend_from_slice(&x.to_be_bytes());
}

fn push_u64(v: &mut Vec<u8>, x: u64) {
    v.extend_from_slice(&x.to_be_bytes());
}

#[test]
fn test_whole_image_parse_64bit() {
    // a 64-bit big-endian image: halves are 32 bits and words 64 bits, the
    // header spans 88 bytes, and one program entry follows in the 64-bit
    // field order
    let mut data = vec![
        0x7f, 0x45, 0x4c, 0x46, 0x02, 0x02, 0x01, 0x00, 0x00, 0x00, 0x00, 0x00, 0x00, 0x00, 0x00,
        0x00,
    ];
    push_u32(&mut data, 2); // e_type
    push_u32(&mut data, 0x14); // e_machine
    push_u64(&mut data, 1); // e_version
    push_u64(&mut data, 0); // e_entry
    push_u64(&mut data, 88); // program_header_offset
    push_u64(&mut data, 0); // section_header_offset
    push_u64(&mut data, 0); // e_flags
    push_u32(&mut data, 88); // elf_header_size
    push_u32(&mut data, 64); // program_header_size
    push_u32(&mut data, 1); // program_headers_count
    push_u32(&mut data, 64); // section_header_size
    push_u32(&mut data, 0); // section_header_count
    push_u32(&mut data, 0); // str_table_index
    assert_eq!(data.len(), 88);
    for f in 1u64..=8 {
        push_u64(&mut data, f);
    }

    let reader = BinaryReader::new(data);
    let rpx = rpxlib::rpx::Rpx::parse(reader).unwrap();
    assert!(rpx.reader.is_64bit);
    assert_eq!(rpx.program_headers.len(), 1);
    let ph = &rpx.program_headers[0];
    assert_eq!(ph.ph_type, 1);
    assert_eq!(ph.ph_flags, 2);
    assert_eq!(ph.offset, 3);
    assert_eq!(ph.virtual_address, 4);
    assert_eq!(ph.physical_address, 5);
    assert_eq!(ph.file_size, 6);
    assert_eq!(ph.mem_size, 7);
    assert_eq!(ph.ph_align, 8);
    assert_eq!(rpx.section_headers.len(), 0);
}

#[test]
fn test_truncated_image_is_fatal() {
    let data = vec![
        0x7f, 0x45, 0x4c, 0x46, 0x01, 0x02, 0x01, 0x00, 0x00, 0x00, 0x00, 0x00, 0x00, 0x00, 0x00,
        0x00, 0x00, 0x01,
    ];
    let reader = BinaryReader::new(data);
    let err = rpxlib::rpx::Rpx::parse(reader).unwrap_err();
    assert_eq!(err.kind, DecodeErrorKind::OutOfRange);
}
