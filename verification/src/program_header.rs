//! A program table entry: eight word-sized fields. The wire order differs
//! between the two address widths — the 64-bit layout puts `flags` right
//! after `type`, the 32-bit layout puts it second to last, before `align`.

use vstd::prelude::*;
use crate::binary_reader::BinaryReader;
use crate::endian::Endian;
use crate::errors::{DecodeError, DecodeErrorKind, DecodeStage};
use crate::fields::word_field;
use crate::values::{field_at, word_sz};

verus! {

/// A program table entry.
#[derive(PartialEq, Eq, Structural, Debug, Clone, Copy)]
pub struct ProgramHeader {
    pub ph_type: u64,
    pub offset: u64,
    pub virtual_address: u64,
    pub physical_address: u64,
    pub file_size: u64,
    pub mem_size: u64,
    pub ph_flags: u64,
    pub ph_align: u64,
}

/// The byte length of one program table entry.
pub open spec fn ph_entry_len(is64: bool) -> int {
    8 * word_sz(is64)
}

/// The entry `v` holds exactly the eight words encoded at `base` in `d`, in
/// the order the address width dictates.
pub open spec fn ph_matches(v: ProgramHeader, d: Seq<u8>, base: int, en: Endian, is64: bool) -> bool {
    let w = word_sz(is64);
    &&& v.ph_type == field_at(d, base, w, en)
    &&& (is64 ==> {
        &&& v.ph_flags == field_at(d, base + w, w, en)
        &&& v.offset == field_at(d, base + 2 * w, w, en)
        &&& v.virtual_address == field_at(d, base + 3 * w, w, en)
        &&& v.physical_address == field_at(d, base + 4 * w, w, en)
        &&& v.file_size == field_at(d, base + 5 * w, w, en)
        &&& v.mem_size == field_at(d, base + 6 * w, w, en)
    })
    &&& (!is64 ==> {
        &&& v.offset == field_at(d, base + w, w, en)
        &&& v.virtual_address == field_at(d, base + 2 * w, w, en)
        &&& v.physical_address == field_at(d, base + 3 * w, w, en)
        &&& v.file_size == field_at(d, base + 4 * w, w, en)
        &&& v.mem_size == field_at(d, base + 5 * w, w, en)
        &&& v.ph_flags == field_at(d, base + 6 * w, w, en)
    })
    &&& v.ph_align == field_at(d, base + 7 * w, w, en)
}

impl ProgramHeader {
    pub fn new() -> (r: ProgramHeader)
        ensures
            r.ph_type == 0 && r.offset == 0 && r.virtual_address == 0 && r.physical_address == 0,
            r.file_size == 0 && r.mem_size == 0 && r.ph_flags == 0 && r.ph_align == 0,
    {
        ProgramHeader {
            ph_type: 0,
            offset: 0,
            virtual_address: 0,
            physical_address: 0,
            file_size: 0,
            mem_size: 0,
            ph_flags: 0,
            ph_align: 0,
        }
    }

    /// Reads one entry at the cursor: eight words in the order the current
    /// address width dictates.
    pub fn parse(reader: &mut BinaryReader) -> (r: Result<ProgramHeader, DecodeError>)
        ensures
            final(reader).same_buffer_and_modes(old(reader)),
            ({
                let d = old(reader).data@;
                let base = old(reader).offset as int;
                let en = old(reader).endian;
                let is64 = old(reader).is_64bit;
                let w = word_sz(is64);
                &&& old(reader).can_read(ph_entry_len(is64) as nat) ==> (r matches Ok(v)
                    && ph_matches(v, d, base, en, is64)
                    && final(reader).offset == base + 8 * w)
                &&& !old(reader).can_read(ph_entry_len(is64) as nat) ==> (r matches Err(e)
                    && e.kind == DecodeErrorKind::OutOfRange && e.stage == DecodeStage::ProgramTable
                    )
            }),
    {
        if reader.is_64bit {
            let ph_type = match word_field(reader, DecodeStage::ProgramTable) {
                Ok(v) => v,
                Err(e) => {
                    return Err(e);
                },
            };
            let ph_flags = match word_field(reader, DecodeStage::ProgramTable) {
                Ok(v) => v,
                Err(e) => {
                    return Err(e);
                },
            };
            let offset = match word_field(reader, DecodeStage::ProgramTable) {
                Ok(v) => v,
                Err(e) => {
                    return Err(e);
                },
            };
            let virtual_address = match word_field(reader, DecodeStage::ProgramTable) {
                Ok(v) => v,
                Err(e) => {
                    return Err(e);
                },
            };
            let physical_address = match word_field(reader, DecodeStage::ProgramTable) {
                Ok(v) => v,
                Err(e) => {
                    return Err(e);
                },
            };
            let file_size = match word_field(reader, DecodeStage::ProgramTable) {
                Ok(v) => v,
                Err(e) => {
                    return Err(e);
                },
            };
            let mem_size = match word_field(reader, DecodeStage::ProgramTable) {
                Ok(v) => v,
                Err(e) => {
                    return Err(e);
                },
            };
            let ph_align = match word_field(reader, DecodeStage::ProgramTable) {
                Ok(v) => v,
                Err(e) => {
                    return Err(e);
                },
            };
            Ok(
                ProgramHeader {
                    ph_type,
                    ph_flags,
                    offset,
                    virtual_address,
                    physical_address,
                    file_size,
                    mem_size,
                    ph_align,
                },
            )
        } else {
            let ph_type = match word_field(reader, DecodeStage::ProgramTable) {
                Ok(v) => v,
                Err(e) => {
                    return Err(e);
                },
            };
            let offset = match word_field(reader, DecodeStage::ProgramTable) {
                Ok(v) => v,
                Err(e) => {
                    return Err(e);
                },
            };
            let virtual_address = match word_field(reader, DecodeStage::ProgramTable) {
                Ok(v) => v,
                Err(e) => {
                    return Err(e);
                },
            };
            let physical_address = match word_field(reader, DecodeStage::ProgramTable) {
                Ok(v) => v,
                Err(e) => {
                    return Err(e);
                },
            };
            let file_size = match word_field(reader, DecodeStage::ProgramTable) {
                Ok(v) => v,
                Err(e) => {
                    return Err(e);
                },
            };
            let mem_size = match word_field(reader, DecodeStage::ProgramTable) {
                Ok(v) => v,
                Err(e) => {
                    return Err(e);
                },
            };
            let ph_flags = match word_field(reader, DecodeStage::ProgramTable) {
                Ok(v) => v,
                Err(e) => {
                    return Err(e);
                },
            };
            let ph_align = match word_field(reader, DecodeStage::ProgramTable) {
                Ok(v) => v,
                Err(e) => {
                    return Err(e);
                },
            };
            Ok(
                ProgramHeader {
                    ph_type,
                    offset,
                    virtual_address,
                    physical_address,
                    file_size,
                    mem_size,
                    ph_flags,
                    ph_align,
                },
            )
        }
    }
}

} // verus!
