//! The shared decode entry point: anything parsable from a cursor, with
//! ready-made impls for the primitive field shapes both formats use. The
//! trait itself carries no contract; the inherent and field-level functions
//! it delegates to carry the exact ones.

use vstd::prelude::*;
use crate::arc::{Entry, ARC};
use crate::binary_reader::BinaryReader;
use crate::errors::{DecodeError, DecodeStage};
use crate::fields::{u16_field, u32_field, u64_field, u8_field};
use crate::tags::Tag;

verus! {

/// A length-prefixed run of raw bytes.
pub type U8String = Vec<u8>;

/// A length-prefixed run of 16-bit units.
pub type U16String = Vec<u16>;

/// Anything that can be decoded from the cursor.
pub trait Parsable: Sized {
    fn parse(reader: &mut BinaryReader) -> Result<Self, DecodeError>;
}

impl Parsable for u8 {
    fn parse(reader: &mut BinaryReader) -> Result<Self, DecodeError> {
        u8_field(reader, DecodeStage::Field)
    }
}

impl Parsable for u16 {
    fn parse(reader: &mut BinaryReader) -> Result<Self, DecodeError> {
        u16_field(reader, DecodeStage::Field)
    }
}

impl Parsable for u32 {
    fn parse(reader: &mut BinaryReader) -> Result<Self, DecodeError> {
        u32_field(reader, DecodeStage::Field)
    }
}

impl Parsable for u64 {
    fn parse(reader: &mut BinaryReader) -> Result<Self, DecodeError> {
        u64_field(reader, DecodeStage::Field)
    }
}

impl Parsable for usize {
    fn parse(reader: &mut BinaryReader) -> Result<Self, DecodeError> {
        match reader.read_size() {
            Ok(v) => Ok(v),
            Err(e) => Err(DecodeError::from_read(DecodeStage::Field, e)),
        }
    }
}

impl Parsable for U8String {
    fn parse(reader: &mut BinaryReader) -> Result<Self, DecodeError> {
        let length = match reader.read_u16() {
            Ok(v) => v,
            Err(e) => {
                return Err(DecodeError::from_read(DecodeStage::Field, e));
            },
        };
        match reader.read_n_bytes(length as usize) {
            Ok(v) => Ok(v),
            Err(e) => Err(DecodeError::from_read(DecodeStage::Field, e)),
        }
    }
}

impl Parsable for U16String {
    fn parse(reader: &mut BinaryReader) -> Result<Self, DecodeError> {
        let length = match reader.read_u16() {
            Ok(v) => v,
            Err(e) => {
                return Err(DecodeError::from_read(DecodeStage::Field, e));
            },
        };
        let mut ret: Vec<u16> = Vec::new();
        let mut i: u16 = 0;
        while i < length
            invariant
                i <= length,
            decreases length - i,
        {
            let unit = match reader.read_u16() {
                Ok(v) => v,
                Err(e) => {
                    return Err(DecodeError::from_read(DecodeStage::Field, e));
                },
            };
            ret.push(unit);
            i = i + 1;
        }
        Ok(ret)
    }
}

impl Parsable for Entry {
    fn parse(reader: &mut BinaryReader) -> Result<Self, DecodeError> {
        Entry::parse(reader)
    }
}

impl Parsable for ARC {
    fn parse(reader: &mut BinaryReader) -> Result<Self, DecodeError> {
        ARC::parse(reader)
    }
}

impl Parsable for Tag {
    fn parse(reader: &mut BinaryReader) -> Result<Self, DecodeError> {
        Tag::parse(reader)
    }
}

} // verus!
