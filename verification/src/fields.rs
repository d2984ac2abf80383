//! Field reads for structural decoders: each wraps one cursor read and turns
//! a failed read into a staged decode error.

use vstd::prelude::*;
use crate::binary_reader::BinaryReader;
use crate::errors::{DecodeError, DecodeErrorKind, DecodeStage};
use crate::values::value_of;

verus! {

/// Reads one byte for the given stage.
pub(crate) fn u8_field(r: &mut BinaryReader, stage: DecodeStage) -> (res: Result<
    u8,
    DecodeError,
>)
    ensures
        final(r).same_buffer_and_modes(old(r)),
        old(r).can_read(1) ==> (res matches Ok(v) && v == old(r).data@[old(r).offset as int]
            && final(r).offset == old(r).offset + 1),
        !old(r).can_read(1) ==> (res == Err::<u8, DecodeError>(
            DecodeError { kind: DecodeErrorKind::OutOfRange, stage, offset: old(r).offset },
        ) && final(r).offset == old(r).offset),
{
    match r.read_u8() {
        Ok(v) => Ok(v),
        Err(e) => Err(DecodeError::from_read(stage, e)),
    }
}

/// Reads a 16-bit field for the given stage.
pub(crate) fn u16_field(r: &mut BinaryReader, stage: DecodeStage) -> (res: Result<
    u16,
    DecodeError,
>)
    ensures
        final(r).same_buffer_and_modes(old(r)),
        old(r).can_read(2) ==> (res matches Ok(v) && v == value_of(old(r).window(2), old(r).endian)
            && final(r).offset == old(r).offset + 2),
        !old(r).can_read(2) ==> (res == Err::<u16, DecodeError>(
            DecodeError { kind: DecodeErrorKind::OutOfRange, stage, offset: old(r).offset },
        ) && final(r).offset == old(r).offset),
{
    match r.read_u16() {
        Ok(v) => Ok(v),
        Err(e) => Err(DecodeError::from_read(stage, e)),
    }
}

/// Reads a 32-bit field for the given stage.
pub(crate) fn u32_field(r: &mut BinaryReader, stage: DecodeStage) -> (res: Result<
    u32,
    DecodeError,
>)
    ensures
        final(r).same_buffer_and_modes(old(r)),
        old(r).can_read(4) ==> (res matches Ok(v) && v == value_of(old(r).window(4), old(r).endian)
            && final(r).offset == old(r).offset + 4),
        !old(r).can_read(4) ==> (res == Err::<u32, DecodeError>(
            DecodeError { kind: DecodeErrorKind::OutOfRange, stage, offset: old(r).offset },
        ) && final(r).offset == old(r).offset),
{
    match r.read_u32() {
        Ok(v) => Ok(v),
        Err(e) => Err(DecodeError::from_read(stage, e)),
    }
}

/// Reads a 64-bit field for the given stage.
pub(crate) fn u64_field(r: &mut BinaryReader, stage: DecodeStage) -> (res: Result<
    u64,
    DecodeError,
>)
    ensures
        final(r).same_buffer_and_modes(old(r)),
        old(r).can_read(8) ==> (res matches Ok(v) && v == value_of(old(r).window(8), old(r).endian)
            && final(r).offset == old(r).offset + 8),
        !old(r).can_read(8) ==> (res == Err::<u64, DecodeError>(
            DecodeError { kind: DecodeErrorKind::OutOfRange, stage, offset: old(r).offset },
        ) && final(r).offset == old(r).offset),
{
    match r.read_u64() {
        Ok(v) => Ok(v),
        Err(e) => Err(DecodeError::from_read(stage, e)),
    }
}

/// Reads a mode-dependent half field for the given stage.
pub(crate) fn half_field(r: &mut BinaryReader, stage: DecodeStage) -> (res: Result<
    u32,
    DecodeError,
>)
    ensures
        final(r).same_buffer_and_modes(old(r)),
        old(r).can_read(old(r).half_size()) ==> (res matches Ok(v) && v == value_of(
            old(r).window(old(r).half_size()),
            old(r).endian,
        ) && final(r).offset == old(r).offset + old(r).half_size()),
        !old(r).can_read(old(r).half_size()) ==> (res == Err::<u32, DecodeError>(
            DecodeError { kind: DecodeErrorKind::OutOfRange, stage, offset: old(r).offset },
        ) && final(r).offset == old(r).offset),
{
    match r.read_half() {
        Ok(v) => Ok(v),
        Err(e) => Err(DecodeError::from_read(stage, e)),
    }
}

/// Reads a mode-dependent word field for the given stage.
pub(crate) fn word_field(r: &mut BinaryReader, stage: DecodeStage) -> (res: Result<
    u64,
    DecodeError,
>)
    ensures
        final(r).same_buffer_and_modes(old(r)),
        old(r).can_read(old(r).word_size()) ==> (res matches Ok(v) && v == value_of(
            old(r).window(old(r).word_size()),
            old(r).endian,
        ) && final(r).offset == old(r).offset + old(r).word_size()),
        !old(r).can_read(old(r).word_size()) ==> (res == Err::<u64, DecodeError>(
            DecodeError { kind: DecodeErrorKind::OutOfRange, stage, offset: old(r).offset },
        ) && final(r).offset == old(r).offset),
{
    match r.read_word() {
        Ok(v) => Ok(v),
        Err(e) => Err(DecodeError::from_read(stage, e)),
    }
}

/// Reads `n` raw bytes for the given stage.
pub(crate) fn bytes_field(r: &mut BinaryReader, n: usize, stage: DecodeStage) -> (res: Result<
    Vec<u8>,
    DecodeError,
>)
    ensures
        final(r).same_buffer_and_modes(old(r)),
        old(r).can_read(n as nat) ==> (res matches Ok(v) && v@ == old(r).window(n as nat)
            && final(r).offset == old(r).offset + n),
        !old(r).can_read(n as nat) ==> (res == Err::<Vec<u8>, DecodeError>(
            DecodeError { kind: DecodeErrorKind::OutOfRange, stage, offset: old(r).offset },
        ) && final(r).offset == old(r).offset),
{
    match r.read_n_bytes(n) {
        Ok(v) => Ok(v),
        Err(e) => Err(DecodeError::from_read(stage, e)),
    }
}

} // verus!
