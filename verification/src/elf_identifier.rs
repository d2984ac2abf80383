//! The 16-byte image identifier. Parsing it is the only step allowed to flip
//! the cursor's byte order and address width; everything downstream depends
//! on the modes it sets. A bad magic, class, data or version byte is fatal
//! here (the decoder does not fall back to default modes).

use vstd::prelude::*;
use crate::binary_reader::BinaryReader;
use crate::endian::Endian;
use crate::errors::{DecodeError, DecodeErrorKind, DecodeStage};

verus! {

/// True when the 16 bytes at the start of `id` form a well-formed
/// identifier: the magic `7F 45 4C 46`, a class byte of 1 (32-bit) or 2
/// (64-bit), a data byte of 1 (little-endian) or 2 (big-endian), and
/// version 1.
pub open spec fn id_valid(id: Seq<u8>) -> bool {
    &&& id.len() >= 16
    &&& id[0] == 0x7f
    &&& id[1] == 0x45
    &&& id[2] == 0x4c
    &&& id[3] == 0x46
    &&& (id[4] == 1 || id[4] == 2)
    &&& (id[5] == 1 || id[5] == 2)
    &&& id[6] == 1
}

/// The byte order a well-formed identifier selects.
pub open spec fn id_endian(id: Seq<u8>) -> Endian {
    if id[5] == 2 {
        Endian::Big
    } else {
        Endian::Little
    }
}

/// The address width a well-formed identifier selects.
pub open spec fn id_is_64bit(id: Seq<u8>) -> bool {
    id[4] == 2
}

/// What an image identifier keeps once parsed: the fields that no other
/// structure carries. Class and data bytes live on in the cursor's modes.
#[derive(PartialEq, Eq, Structural, Debug, Clone, Copy)]
pub struct ELFIdentifier {
    pub os_abi: u8,
    pub abi_version: u8,
}

impl ELFIdentifier {
    pub fn new(os_abi: u8, abi_version: u8) -> (r: ELFIdentifier)
        ensures
            r.os_abi == os_abi,
            r.abi_version == abi_version,
    {
        ELFIdentifier { os_abi, abi_version }
    }

    pub fn default() -> (r: ELFIdentifier)
        ensures
            r.os_abi == 0,
            r.abi_version == 0,
    {
        ELFIdentifier::new(0, 0)
    }

    /// Reads the 16-byte identifier block at the cursor. On success the
    /// cursor's byte order and address width are set from the data and
    /// class bytes and exactly 16 bytes are consumed; on failure the cursor
    /// is left untouched.
    pub fn parse(reader: &mut BinaryReader) -> (r: Result<ELFIdentifier, DecodeError>)
        ensures
            final(reader).data@ == old(reader).data@,
            ({
                let id = old(reader).window(16);
                &&& (old(reader).can_read(16) && id_valid(id)) ==> (r matches Ok(v) && v.os_abi
                    == id[7] && v.abi_version == id[8]
                    && final(reader).offset == old(reader).offset + 16
                    && final(reader).endian == id_endian(id)
                    && final(reader).is_64bit == id_is_64bit(id))
                &&& !old(reader).can_read(16) ==> r == Err::<ELFIdentifier, DecodeError>(
                    DecodeError {
                        kind: DecodeErrorKind::OutOfRange,
                        stage: DecodeStage::Identifier,
                        offset: old(reader).offset,
                    },
                )
                &&& (old(reader).can_read(16) && !id_valid(id)) ==> r == Err::<
                    ELFIdentifier,
                    DecodeError,
                >(
                    DecodeError {
                        kind: DecodeErrorKind::MalformedIdentifier,
                        stage: DecodeStage::Identifier,
                        offset: old(reader).offset,
                    },
                )
                &&& (r is Err) ==> (final(reader).offset == old(reader).offset
                    && final(reader).endian == old(reader).endian
                    && final(reader).is_64bit == old(reader).is_64bit)
            }),
    {
        let start = reader.offset;
        let id = match reader.read(start, 16) {
            Ok(v) => v,
            Err(_) => {
                return Err(
                    DecodeError {
                        kind: DecodeErrorKind::OutOfRange,
                        stage: DecodeStage::Identifier,
                        offset: start,
                    },
                );
            },
        };
        if !(id[0] == 0x7f && id[1] == 0x45 && id[2] == 0x4c && id[3] == 0x46 && (id[4] == 1 || id[4]
            == 2) && (id[5] == 1 || id[5] == 2) && id[6] == 1) {
            return Err(
                DecodeError {
                    kind: DecodeErrorKind::MalformedIdentifier,
                    stage: DecodeStage::Identifier,
                    offset: start,
                },
            );
        }
        let ret = ELFIdentifier::new(id[7], id[8]);
        reader.is_64bit = id[4] == 2;
        reader.endian = if id[5] == 2 {
            Endian::Big
        } else {
            Endian::Little
        };
        proof {
            assert(start + 16 <= reader.data.len());
        }
        reader.offset = start + 16;
        Ok(ret)
    }
}

} // verus!
