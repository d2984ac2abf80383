//! Byte-order selector for multi-byte reads.

use vstd::prelude::*;

verus! {

/// Which half of a width-doubled read is most significant.
#[derive(PartialEq, Eq, Structural, Debug, Clone, Copy)]
pub enum Endian {
    Big,
    Little,
}

} // verus!
