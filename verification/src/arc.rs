//! The flat archive index: a 32-bit entry count, then that many records of
//! a length-prefixed name, a pointer and a size. The simplest consumer of
//! the cursor contract — no cross-references, no compression.

use vstd::prelude::*;
use crate::binary_reader::BinaryReader;
use crate::errors::{DecodeError, DecodeErrorKind, DecodeStage};
use crate::fields::u32_field;
use crate::strings::lossy_of;
use crate::values::{field_at, value_of};

verus! {

/// One archive record.
#[derive(PartialEq, Debug)]
pub struct Entry {
    pub path: String,
    pub ptr: u32,
    pub size: u32,
}

/// The byte length of the record at `base`: the 16-bit name length, the
/// name, and two 32-bit fields.
pub open spec fn entry_len(d: Seq<u8>, base: int, en: crate::endian::Endian) -> int {
    2 + value_of(d.subrange(base, base + 2), en) as int + 8
}

/// The record at `base` fits the buffer.
pub open spec fn entry_ok(d: Seq<u8>, base: int, en: crate::endian::Endian) -> bool {
    base + 2 <= d.len() && base + entry_len(d, base, en) <= d.len()
}

/// `v` holds exactly the record encoded at `base`.
pub open spec fn entry_matches(v: Entry, d: Seq<u8>, base: int, en: crate::endian::Endian) -> bool {
    let l = value_of(d.subrange(base, base + 2), en) as int;
    &&& v.path@ == lossy_of(d.subrange(base + 2, base + 2 + l))
    &&& v.ptr == field_at(d, base + 2 + l, 4, en)
    &&& v.size == field_at(d, base + 2 + l + 4, 4, en)
}

/// The position of record `i`, walking over the variable-length records
/// before it.
pub open spec fn entry_pos(d: Seq<u8>, base: int, i: nat, en: crate::endian::Endian) -> int
    decreases i,
{
    if i == 0 {
        base
    } else {
        let prev = entry_pos(d, base, (i - 1) as nat, en);
        prev + entry_len(d, prev, en)
    }
}

impl Entry {
    /// Reads one record at the cursor. Succeeds exactly when the whole
    /// record fits the buffer.
    pub fn parse(reader: &mut BinaryReader) -> (r: Result<Entry, DecodeError>)
        ensures
            final(reader).same_buffer_and_modes(old(reader)),
            ({
                let d = old(reader).data@;
                let base = old(reader).offset as int;
                let en = old(reader).endian;
                &&& entry_ok(d, base, en) ==> (r matches Ok(v) && entry_matches(v, d, base, en)
                    && final(reader).offset == base + entry_len(d, base, en))
                &&& !entry_ok(d, base, en) ==> (r matches Err(e) && e.kind
                    == DecodeErrorKind::OutOfRange && e.stage == DecodeStage::ArchiveIndex)
            }),
    {
        let path = match reader.read_u16_string() {
            Ok(s) => s,
            Err(e) => {
                return Err(DecodeError::from_read(DecodeStage::ArchiveIndex, e));
            },
        };
        let ptr = match u32_field(reader, DecodeStage::ArchiveIndex) {
            Ok(v) => v,
            Err(e) => {
                return Err(e);
            },
        };
        let size = match u32_field(reader, DecodeStage::ArchiveIndex) {
            Ok(v) => v,
            Err(e) => {
                return Err(e);
            },
        };
        Ok(Entry { path, ptr, size })
    }
}

/// A flat archive index.
#[derive(PartialEq, Debug)]
pub struct ARC {
    pub entries: Vec<Entry>,
}

impl ARC {
    /// Reads the entry count and then that many records. Succeeds exactly
    /// when the count and every record fit the buffer.
    #[verifier::loop_isolation(false)]
    pub fn parse(reader: &mut BinaryReader) -> (r: Result<ARC, DecodeError>)
        ensures
            final(reader).same_buffer_and_modes(old(reader)),
            ({
                let d = old(reader).data@;
                let base = old(reader).offset as int;
                let en = old(reader).endian;
                let count = value_of(old(reader).window(4), en);
                &&& (r is Ok) <==> (old(reader).can_read(4) && (forall|i: nat|
                    i < count ==> entry_ok(d, #[trigger] entry_pos(d, base + 4, i, en), en)))
                &&& r matches Ok(v) ==> (v.entries@.len() == count && (forall|i: int|
                    0 <= i < count ==> entry_matches(
                        #[trigger] v.entries@[i],
                        d,
                        entry_pos(d, base + 4, i as nat, en),
                        en,
                    )))
            }),
    {
        let ghost d = reader.data@;
        let ghost base = reader.offset as int;
        let ghost en = reader.endian;
        let entries_count = match u32_field(reader, DecodeStage::ArchiveIndex) {
            Ok(v) => v,
            Err(e) => {
                return Err(e);
            },
        };
        let mut entries: Vec<Entry> = Vec::new();
        let mut i: u32 = 0;
        while i < entries_count
            invariant
                i <= entries_count,
                reader.data@ == d,
                reader.endian == en,
                reader.is_64bit == old(reader).is_64bit,
                reader.offset == entry_pos(d, base + 4, i as nat, en),
                entries@.len() == i,
                forall|j: int|
                    0 <= j < i ==> entry_matches(
                        #[trigger] entries@[j],
                        d,
                        entry_pos(d, base + 4, j as nat, en),
                        en,
                    ),
                forall|j: nat| j < i ==> entry_ok(d, #[trigger] entry_pos(d, base + 4, j, en), en),
            decreases entries_count - i,
        {
            let entry = match Entry::parse(reader) {
                Ok(v) => v,
                Err(e) => {
                    proof {
                        if forall|q: nat|
                            q < entries_count ==> entry_ok(
                                d,
                                #[trigger] entry_pos(d, base + 4, q, en),
                                en,
                            ) {
                            assert(entry_ok(d, entry_pos(d, base + 4, i as nat, en), en));
                            assert(false);
                        }
                    }
                    return Err(e);
                },
            };
            entries.push(entry);
            i = i + 1;
        }
        Ok(ARC { entries })
    }
}

} // verus!
