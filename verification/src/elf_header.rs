//! The image header. Every field after the identifier is read with
//! mode-dependent sizes: halves are 16 or 32 bits and words 32 or 64 bits,
//! according to the address width the identifier selected.

use vstd::prelude::*;
use crate::binary_reader::BinaryReader;
use crate::elf_identifier::{id_endian, id_is_64bit, id_valid, ELFIdentifier};
use crate::errors::{DecodeError, DecodeErrorKind, DecodeStage};
use crate::fields::{half_field, word_field};
use crate::values::{field_at, half_sz, word_sz};

verus! {

/// The byte length of the whole header: the 16-byte identifier, two halves,
/// five words, then six halves.
pub open spec fn header_len(is64: bool) -> int {
    16 + 8 * half_sz(is64) + 5 * word_sz(is64)
}

/// The header `v` holds exactly the fields encoded at `base` in `d`: the
/// identifier's retained bytes, then each mode-sized field at its wire
/// position.
pub open spec fn header_matches(v: ELFHeader, d: Seq<u8>, base: int) -> bool {
    let id = d.subrange(base, base + 16);
    let en = id_endian(id);
    let is64 = id_is_64bit(id);
    let h = half_sz(is64);
    let w = word_sz(is64);
    &&& v.e_ident.os_abi == id[7]
    &&& v.e_ident.abi_version == id[8]
    &&& v.e_type == field_at(d, base + 16, h, en)
    &&& v.e_machine == field_at(d, base + 16 + h, h, en)
    &&& v.e_version == field_at(d, base + 16 + 2 * h, w, en)
    &&& v.e_entry == field_at(d, base + 16 + 2 * h + w, w, en)
    &&& v.program_header_offset == field_at(d, base + 16 + 2 * h + 2 * w, w, en)
    &&& v.section_header_offset == field_at(d, base + 16 + 2 * h + 3 * w, w, en)
    &&& v.e_flags == field_at(d, base + 16 + 2 * h + 4 * w, w, en)
    &&& v.elf_header_size == field_at(d, base + 16 + 2 * h + 5 * w, h, en)
    &&& v.program_header_size == field_at(d, base + 16 + 3 * h + 5 * w, h, en)
    &&& v.program_headers_count == field_at(d, base + 16 + 4 * h + 5 * w, h, en)
    &&& v.section_header_size == field_at(d, base + 16 + 5 * h + 5 * w, h, en)
    &&& v.section_header_count == field_at(d, base + 16 + 6 * h + 5 * w, h, en)
    &&& v.str_table_index == field_at(d, base + 16 + 7 * h + 5 * w, h, en)
}

/// The image header: type and machine, entry address, where the program and
/// section tables lie and how many entries each has, and which section is
/// the string table.
#[derive(PartialEq, Eq, Structural, Debug, Clone, Copy)]
pub struct ELFHeader {
    pub e_ident: ELFIdentifier,
    pub e_type: u32,
    pub e_machine: u32,
    pub e_version: u64,
    pub e_entry: u64,
    pub program_header_offset: u64,
    pub section_header_offset: u64,
    pub e_flags: u64,
    pub elf_header_size: u32,
    pub program_header_size: u32,
    pub program_headers_count: u32,
    pub section_header_size: u32,
    pub section_header_count: u32,
    pub str_table_index: u32,
}

impl ELFHeader {
    pub fn default() -> (r: ELFHeader)
        ensures
            r.e_ident.os_abi == 0 && r.e_ident.abi_version == 0,
            r.e_type == 0 && r.e_machine == 0 && r.e_version == 0 && r.e_entry == 0,
            r.program_header_offset == 0 && r.section_header_offset == 0 && r.e_flags == 0,
            r.elf_header_size == 0 && r.program_header_size == 0 && r.program_headers_count == 0,
            r.section_header_size == 0 && r.section_header_count == 0 && r.str_table_index == 0,
    {
        ELFHeader {
            e_ident: ELFIdentifier::default(),
            e_type: 0,
            e_machine: 0,
            e_version: 0,
            e_entry: 0,
            program_header_offset: 0,
            section_header_offset: 0,
            e_flags: 0,
            elf_header_size: 0,
            program_header_size: 0,
            program_headers_count: 0,
            section_header_size: 0,
            section_header_count: 0,
            str_table_index: 0,
        }
    }

    /// Parses the identifier — which sets the cursor's modes — and then the
    /// header fields with mode-dependent sizes. Succeeds exactly when the
    /// identifier is well-formed and the buffer holds the whole header.
    pub fn parse(reader: &mut BinaryReader) -> (r: Result<ELFHeader, DecodeError>)
        ensures
            final(reader).data@ == old(reader).data@,
            ({
                let d = old(reader).data@;
                let base = old(reader).offset as int;
                let id = old(reader).window(16);
                let en = id_endian(id);
                let is64 = id_is_64bit(id);
                let h = half_sz(is64);
                let w = word_sz(is64);
                &&& (old(reader).can_read(16) && id_valid(id) && old(reader).can_read(
                    header_len(is64) as nat,
                )) ==> (r matches Ok(v)
                    && header_matches(v, d, base)
                    && final(reader).offset == base + header_len(is64)
                    && final(reader).endian == en
                    && final(reader).is_64bit == is64)
                &&& !old(reader).can_read(16) ==> r == Err::<ELFHeader, DecodeError>(
                    DecodeError {
                        kind: DecodeErrorKind::OutOfRange,
                        stage: DecodeStage::Identifier,
                        offset: old(reader).offset,
                    },
                )
                &&& (old(reader).can_read(16) && !id_valid(id)) ==> r == Err::<
                    ELFHeader,
                    DecodeError,
                >(
                    DecodeError {
                        kind: DecodeErrorKind::MalformedIdentifier,
                        stage: DecodeStage::Identifier,
                        offset: old(reader).offset,
                    },
                )
                &&& (old(reader).can_read(16) && id_valid(id) && !old(reader).can_read(
                    header_len(is64) as nat,
                )) ==> (r matches Err(e) && e.kind == DecodeErrorKind::OutOfRange && e.stage
                    == DecodeStage::Header)
            }),
    {
        let ghost base = reader.offset as int;
        let e_ident = match ELFIdentifier::parse(reader) {
            Ok(v) => v,
            Err(e) => {
                return Err(e);
            },
        };
        let e_type = match half_field(reader, DecodeStage::Header) {
            Ok(v) => v,
            Err(e) => {
                return Err(e);
            },
        };
        let e_machine = match half_field(reader, DecodeStage::Header) {
            Ok(v) => v,
            Err(e) => {
                return Err(e);
            },
        };
        let e_version = match word_field(reader, DecodeStage::Header) {
            Ok(v) => v,
            Err(e) => {
                return Err(e);
            },
        };
        let e_entry = match word_field(reader, DecodeStage::Header) {
            Ok(v) => v,
            Err(e) => {
                return Err(e);
            },
        };
        let program_header_offset = match word_field(reader, DecodeStage::Header) {
            Ok(v) => v,
            Err(e) => {
                return Err(e);
            },
        };
        let section_header_offset = match word_field(reader, DecodeStage::Header) {
            Ok(v) => v,
            Err(e) => {
                return Err(e);
            },
        };
        let e_flags = match word_field(reader, DecodeStage::Header) {
            Ok(v) => v,
            Err(e) => {
                return Err(e);
            },
        };
        let elf_header_size = match half_field(reader, DecodeStage::Header) {
            Ok(v) => v,
            Err(e) => {
                return Err(e);
            },
        };
        let program_header_size = match half_field(reader, DecodeStage::Header) {
            Ok(v) => v,
            Err(e) => {
                return Err(e);
            },
        };
        let program_headers_count = match half_field(reader, DecodeStage::Header) {
            Ok(v) => v,
            Err(e) => {
                return Err(e);
            },
        };
        let section_header_size = match half_field(reader, DecodeStage::Header) {
            Ok(v) => v,
            Err(e) => {
                return Err(e);
            },
        };
        let section_header_count = match half_field(reader, DecodeStage::Header) {
            Ok(v) => v,
            Err(e) => {
                return Err(e);
            },
        };
        let str_table_index = match half_field(reader, DecodeStage::Header) {
            Ok(v) => v,
            Err(e) => {
                return Err(e);
            },
        };
        Ok(
            ELFHeader {
                e_ident,
                e_type,
                e_machine,
                e_version,
                e_entry,
                program_header_offset,
                section_header_offset,
                e_flags,
                elf_header_size,
                program_header_size,
                program_headers_count,
                section_header_size,
                section_header_count,
                str_table_index,
            },
        )
    }
}

} // verus!
