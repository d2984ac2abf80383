//! A section table entry. Its name starts as an offset into the string
//! table and is resolved to text in a second pass; its payload is copied
//! eagerly from the image and inflated on the spot when the compression
//! flag (bit 27) is set.

use vstd::prelude::*;
use vstd::slice::slice_subrange;
use crate::binary_reader::BinaryReader;
use crate::compress::{inflate, zlib_inflate};
use crate::errors::{DecodeError, DecodeErrorKind, DecodeStage};
use crate::fields::{u32_field, word_field};
use crate::endian::Endian;
use crate::values::{field_at, word_sz};

verus! {

/// A section's name: the raw string-table offset until resolution, the
/// resolved text afterwards.
#[derive(PartialEq, Debug)]
pub enum SectionName {
    Offset(usize),
    String(String),
}

/// The flags bit that marks a zlib-compressed payload.
pub open spec fn compressed_flag(flags: u64) -> bool {
    flags & 0x0800_0000u64 != 0
}

/// The section type whose payload never lies in the file.
pub const SHT_NOBITS: u32 = 8;

/// The byte length of one section table entry: four 32-bit fields and six
/// words.
pub open spec fn sh_entry_len(is64: bool) -> int {
    16 + 6 * word_sz(is64)
}

/// The name offset stored in the entry at `base`.
pub open spec fn sh_name_off(d: Seq<u8>, base: int, en: Endian) -> nat {
    field_at(d, base, 4, en)
}

/// The raw byte range the entry at `base` declares as its payload.
pub open spec fn sh_raw(d: Seq<u8>, base: int, en: Endian, is64: bool) -> Seq<u8> {
    let w = word_sz(is64);
    let off = field_at(d, base + 8 + 2 * w, w, en);
    let size = field_at(d, base + 8 + 3 * w, w, en);
    d.subrange(off as int, off + size as int)
}

/// Everything decoding the entry at `base` needs of the buffer: the entry
/// itself in range and, unless the section carries no payload, its declared
/// byte range in range and — when the compression flag is set — a stream
/// long enough to hold its size header and inflatable to completion.
pub open spec fn sh_parse_ok(d: Seq<u8>, base: int, en: Endian, is64: bool) -> bool {
    let w = word_sz(is64);
    let sh_type = field_at(d, base + 4, 4, en);
    let flags = field_at(d, base + 8, w, en);
    let off = field_at(d, base + 8 + 2 * w, w, en);
    let size = field_at(d, base + 8 + 3 * w, w, en);
    &&& base + sh_entry_len(is64) <= d.len()
    &&& sh_type != SHT_NOBITS ==> {
        &&& off + size <= d.len()
        &&& compressed_flag(flags as u64) ==> {
            let raw = sh_raw(d, base, en, is64);
            &&& raw.len() >= 4
            &&& zlib_inflate(raw.skip(4)) is Some
        }
    }
}

/// The payload the entry at `base` ends up holding: nothing for a
/// no-payload section, the raw range when uncompressed, the inflated
/// stream when the compression flag is set.
pub open spec fn sh_data_of(d: Seq<u8>, base: int, en: Endian, is64: bool) -> Seq<u8> {
    let sh_type = field_at(d, base + 4, 4, en);
    let flags = field_at(d, base + 8, word_sz(is64), en);
    if sh_type == SHT_NOBITS {
        Seq::empty()
    } else if !compressed_flag(flags as u64) {
        sh_raw(d, base, en, is64)
    } else {
        zlib_inflate(sh_raw(d, base, en, is64).skip(4)).unwrap()
    }
}

/// The entry `v` holds exactly the fields encoded at `base` in `d` (the
/// name, still in offset form, is stated separately), with the payload and
/// retained-flags rules applied.
pub open spec fn sh_matches(v: SectionHeader, d: Seq<u8>, base: int, en: Endian, is64: bool) -> bool {
    let w = word_sz(is64);
    let flags = field_at(d, base + 8, w, en);
    &&& v.sh_type == field_at(d, base + 4, 4, en)
    &&& v.sh_flags == flags
    &&& v.address == field_at(d, base + 8 + w, w, en)
    &&& v.offset == field_at(d, base + 8 + 2 * w, w, en)
    &&& v.size == field_at(d, base + 8 + 3 * w, w, en)
    &&& v.sh_link == field_at(d, base + 8 + 4 * w, 4, en)
    &&& v.sh_info == field_at(d, base + 12 + 4 * w, 4, en)
    &&& v.alignment == field_at(d, base + 16 + 4 * w, w, en)
    &&& v.sh_ent_size == field_at(d, base + 16 + 5 * w, w, en)
    &&& v.data@ == sh_data_of(d, base, en, is64)
    &&& v.remained_flags == (if v.sh_type != SHT_NOBITS && compressed_flag(flags as u64) {
        (flags as u64) & !0x0800_0000u64
    } else {
        flags as u64
    })
}

/// A section table entry together with its (possibly inflated) payload.
#[derive(PartialEq, Debug)]
pub struct SectionHeader {
    pub name: SectionName,
    pub sh_type: u32,
    pub sh_flags: u64,
    pub address: u64,
    pub offset: u64,
    pub size: u64,
    pub sh_link: u64,
    pub sh_info: u64,
    pub alignment: u64,
    pub sh_ent_size: u64,
    /// `sh_flags` with the compression bit cleared once inflation has run.
    pub remained_flags: u64,
    pub data: Vec<u8>,
}

impl SectionHeader {
    /// Builds an entry from its ten fields and its raw payload, inflating
    /// the payload when the compression flag is set. A no-payload section
    /// keeps no bytes whatever was handed in; a compressed payload shorter
    /// than its 4-byte size header, or with a corrupt stream, is a
    /// decompression failure.
    pub fn new(
        name: SectionName,
        sh_type: u32,
        sh_flags: u64,
        sh_addr: u64,
        sh_offset: u64,
        sh_size: u64,
        sh_link: u64,
        sh_info: u64,
        sh_addr_align: u64,
        sh_ent_size: u64,
        raw: Option<Vec<u8>>,
    ) -> (r: Result<SectionHeader, DecodeError>)
        ensures
            ({
                let raw_bytes = match raw {
                    Option::Some(v) => v@,
                    Option::None => Seq::<u8>::empty(),
                };
                &&& (r matches Ok(v) ==> v.name == name && v.sh_type == sh_type && v.sh_flags
                    == sh_flags && v.address == sh_addr && v.offset == sh_offset && v.size
                    == sh_size && v.sh_link == sh_link && v.sh_info == sh_info && v.alignment
                    == sh_addr_align && v.sh_ent_size == sh_ent_size)
                &&& sh_type == SHT_NOBITS ==> (r matches Ok(v) && v.remained_flags == sh_flags
                    && v.data@ == Seq::<u8>::empty())
                &&& (sh_type != SHT_NOBITS && !compressed_flag(sh_flags)) ==> (r matches Ok(v)
                    && v.remained_flags == sh_flags && v.data@ == raw_bytes)
                &&& (sh_type != SHT_NOBITS && compressed_flag(sh_flags)) ==> ({
                    &&& raw_bytes.len() >= 4 ==> (zlib_inflate(raw_bytes.skip(4)) matches Some(out)
                        ==> (r matches Ok(v) && v.data@ == out && v.remained_flags == (sh_flags
                        & !0x0800_0000u64) && !compressed_flag(v.remained_flags)))
                    &&& (raw_bytes.len() < 4 || zlib_inflate(raw_bytes.skip(4)) is None) ==> (
                    r matches Err(e) && e.kind == DecodeErrorKind::DecompressionFailure && e.stage
                        == DecodeStage::SectionTable)
                })
            }),
    {
        if sh_type == SHT_NOBITS {
            return Ok(
                SectionHeader {
                    name,
                    sh_type,
                    sh_flags,
                    address: sh_addr,
                    offset: sh_offset,
                    size: sh_size,
                    sh_link,
                    sh_info,
                    alignment: sh_addr_align,
                    sh_ent_size,
                    remained_flags: sh_flags,
                    data: Vec::new(),
                },
            );
        }
        let data = match raw {
            Option::Some(v) => v,
            Option::None => Vec::new(),
        };
        if sh_flags & 0x0800_0000u64 != 0 {
            if data.len() < 4 {
                return Err(
                    DecodeError {
                        kind: DecodeErrorKind::DecompressionFailure,
                        stage: DecodeStage::SectionTable,
                        offset: 0,
                    },
                );
            }
            let stream = slice_subrange(data.as_slice(), 4, data.len());
            match inflate(stream) {
                Option::Some(buf) => {
                    let remained_flags = sh_flags & !0x0800_0000u64;
                    proof {
                        assert((sh_flags & !0x0800_0000u64) & 0x0800_0000u64 == 0) by (bit_vector);
                    }
                    Ok(
                        SectionHeader {
                            name,
                            sh_type,
                            sh_flags,
                            address: sh_addr,
                            offset: sh_offset,
                            size: sh_size,
                            sh_link,
                            sh_info,
                            alignment: sh_addr_align,
                            sh_ent_size,
                            remained_flags,
                            data: buf,
                        },
                    )
                },
                Option::None => Err(
                    DecodeError {
                        kind: DecodeErrorKind::DecompressionFailure,
                        stage: DecodeStage::SectionTable,
                        offset: 0,
                    },
                ),
            }
        } else {
            Ok(
                SectionHeader {
                    name,
                    sh_type,
                    sh_flags,
                    address: sh_addr,
                    offset: sh_offset,
                    size: sh_size,
                    sh_link,
                    sh_info,
                    alignment: sh_addr_align,
                    sh_ent_size,
                    remained_flags: sh_flags,
                    data,
                },
            )
        }
    }

    /// An empty entry.
    pub fn default() -> (r: SectionHeader)
        ensures
            r.name == SectionName::Offset(0usize),
            r.sh_type == 0 && r.sh_flags == 0 && r.address == 0 && r.offset == 0 && r.size == 0,
            r.sh_link == 0 && r.sh_info == 0 && r.alignment == 0 && r.sh_ent_size == 0,
            r.remained_flags == 0,
            r.data@ == Seq::<u8>::empty(),
    {
        SectionHeader {
            name: SectionName::Offset(0),
            sh_type: 0,
            sh_flags: 0,
            address: 0,
            offset: 0,
            size: 0,
            sh_link: 0,
            sh_info: 0,
            alignment: 0,
            sh_ent_size: 0,
            remained_flags: 0,
            data: Vec::new(),
        }
    }

    /// Reads one entry at the cursor, then eagerly copies its payload from
    /// the image (unless it is a no-payload section) and inflates it if the
    /// compression flag is set.
    pub fn parse(reader: &mut BinaryReader) -> (r: Result<SectionHeader, DecodeError>)
        ensures
            final(reader).same_buffer_and_modes(old(reader)),
            ({
                let d = old(reader).data@;
                let base = old(reader).offset as int;
                let en = old(reader).endian;
                let is64 = old(reader).is_64bit;
                let w = word_sz(is64);
                let sh_type = field_at(d, base + 4, 4, en);
                let flags = field_at(d, base + 8, w, en);
                let off = field_at(d, base + 8 + 2 * w, w, en);
                let size = field_at(d, base + 8 + 3 * w, w, en);
                let raw = sh_raw(d, base, en, is64);
                &&& sh_parse_ok(d, base, en, is64) ==> (r matches Ok(v) && sh_matches(
                    v,
                    d,
                    base,
                    en,
                    is64,
                ) && v.name == SectionName::Offset(sh_name_off(d, base, en) as usize)
                    && final(reader).offset == base + sh_entry_len(is64))
                &&& !old(reader).can_read(sh_entry_len(is64) as nat) ==> (r matches Err(e)
                    && e.kind == DecodeErrorKind::OutOfRange && e.stage == DecodeStage::SectionTable
                    )
                &&& (old(reader).can_read(sh_entry_len(is64) as nat) && sh_type != SHT_NOBITS && off
                    + size > d.len()) ==> (r matches Err(e) && e.kind
                    == DecodeErrorKind::OutOfRange && e.stage == DecodeStage::SectionTable)
                &&& (old(reader).can_read(sh_entry_len(is64) as nat) && sh_type != SHT_NOBITS && off
                    + size <= d.len() && compressed_flag(flags as u64) && (raw.len() < 4
                    || zlib_inflate(raw.skip(4)) is None)) ==> (r matches Err(e) && e.kind
                    == DecodeErrorKind::DecompressionFailure && e.stage
                    == DecodeStage::SectionTable)
            }),
    {
        let name_off = match u32_field(reader, DecodeStage::SectionTable) {
            Ok(v) => v,
            Err(e) => {
                return Err(e);
            },
        };
        let sh_type = match u32_field(reader, DecodeStage::SectionTable) {
            Ok(v) => v,
            Err(e) => {
                return Err(e);
            },
        };
        let sh_flags = match word_field(reader, DecodeStage::SectionTable) {
            Ok(v) => v,
            Err(e) => {
                return Err(e);
            },
        };
        let sh_addr = match word_field(reader, DecodeStage::SectionTable) {
            Ok(v) => v,
            Err(e) => {
                return Err(e);
            },
        };
        let sh_offset = match word_field(reader, DecodeStage::SectionTable) {
            Ok(v) => v,
            Err(e) => {
                return Err(e);
            },
        };
        let sh_size = match word_field(reader, DecodeStage::SectionTable) {
            Ok(v) => v,
            Err(e) => {
                return Err(e);
            },
        };
        let sh_link = match u32_field(reader, DecodeStage::SectionTable) {
            Ok(v) => v as u64,
            Err(e) => {
                return Err(e);
            },
        };
        let sh_info = match u32_field(reader, DecodeStage::SectionTable) {
            Ok(v) => v as u64,
            Err(e) => {
                return Err(e);
            },
        };
        let sh_addr_align = match word_field(reader, DecodeStage::SectionTable) {
            Ok(v) => v,
            Err(e) => {
                return Err(e);
            },
        };
        let sh_ent_size = match word_field(reader, DecodeStage::SectionTable) {
            Ok(v) => v,
            Err(e) => {
                return Err(e);
            },
        };
        let raw: Option<Vec<u8>> = if sh_type == SHT_NOBITS {
            Option::None
        } else {
            if sh_offset > usize::MAX as u64 || sh_size > usize::MAX as u64 {
                return Err(
                    DecodeError {
                        kind: DecodeErrorKind::OutOfRange,
                        stage: DecodeStage::SectionTable,
                        offset: reader.offset,
                    },
                );
            }
            match reader.read(sh_offset as usize, sh_size as usize) {
                Ok(v) => Option::Some(v),
                Err(e) => {
                    return Err(DecodeError::from_read(DecodeStage::SectionTable, e));
                },
            }
        };
        SectionHeader::new(
            SectionName::Offset(name_off as usize),
            sh_type,
            sh_flags,
            sh_addr,
            sh_offset,
            sh_size,
            sh_link,
            sh_info,
            sh_addr_align,
            sh_ent_size,
            raw,
        )
    }
}

} // verus!
