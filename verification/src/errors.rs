//! Decode failures. Every failure names the structural stage that was being
//! decoded and the byte offset at which it stopped, since debugging a
//! reverse-engineered format depends on failure locality.

use vstd::prelude::*;

verus! {

/// A cursor read fails when the requested bytes run past the end of the
/// buffer; the error records where the cursor stood.
#[derive(PartialEq, Eq, Structural, Debug, Clone, Copy)]
pub struct ReadError {
    pub offset: usize,
}

/// The structural stage a decoder was in when it failed.
#[derive(PartialEq, Eq, Structural, Debug, Clone, Copy)]
pub enum DecodeStage {
    Identifier,
    Header,
    ProgramTable,
    SectionTable,
    NameResolution,
    TagDecode,
    ArchiveIndex,
    /// A bare field read outside any structural stage.
    Field,
}

/// What went wrong.
#[derive(PartialEq, Eq, Structural, Debug, Clone, Copy)]
pub enum DecodeErrorKind {
    /// A read ran past the end of a buffer, or an index pointed outside the
    /// structure it refers to.
    OutOfRange,
    /// The image identifier had a bad magic, version, class or data byte.
    MalformedIdentifier,
    /// A tag kind byte outside the closed set of kinds.
    UnknownTagKind { kind: u8 },
    /// A compressed section payload was truncated or corrupt.
    DecompressionFailure,
}

/// A decode failure: the kind of fault, the stage it struck in, and the byte
/// offset at which the decoder stopped.
#[derive(PartialEq, Eq, Structural, Debug, Clone, Copy)]
pub struct DecodeError {
    pub kind: DecodeErrorKind,
    pub stage: DecodeStage,
    pub offset: usize,
}

impl DecodeError {
    /// A decode error wrapping a failed cursor read.
    pub fn from_read(stage: DecodeStage, e: ReadError) -> (r: DecodeError)
        ensures
            r == (DecodeError { kind: DecodeErrorKind::OutOfRange, stage, offset: e.offset }),
    {
        DecodeError { kind: DecodeErrorKind::OutOfRange, stage, offset: e.offset }
    }
}

} // verus!
