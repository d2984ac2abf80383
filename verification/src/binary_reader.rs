//! The byte cursor. It owns a buffer and a read offset, together with two
//! decode modes — byte order and address width — that may be flipped at any
//! point; every later read observes the new modes.
//!
//! Only `read_u8` and the half-joining step know about byte order: every
//! wider read is two half-width reads joined by `concat_number`, so the
//! 16-, 32-, 64- and 128-bit readers can never disagree on ordering.

use vstd::prelude::*;
use vstd::arithmetic::power2::*;
use vstd::slice::{slice_subrange, slice_to_vec};
use crate::endian::Endian;
use crate::errors::ReadError;
use crate::strings::{lossy_of, lossy_string};
use crate::utils::{concat_number, first_zero_from};
use crate::values::{lemma_value_of_bound, lemma_value_of_split, value_of};

verus! {

/// A byte buffer, a cursor into it, and the two run-time decode modes.
#[derive(PartialEq, Debug, Clone)]
pub struct BinaryReader {
    pub data: Vec<u8>,
    pub offset: usize,
    pub endian: Endian,
    pub is_64bit: bool,
}

impl Default for BinaryReader {
    /// An empty little-endian 32-bit reader.
    fn default() -> (r: Self)
        ensures
            r.data@.len() == 0,
            r.offset == 0,
            r.endian == Endian::Little,
            !r.is_64bit,
    {
        Self { data: Vec::new(), offset: 0, endian: Endian::Little, is_64bit: false }
    }
}

impl BinaryReader {
    /// True when `n` more bytes lie between the cursor and the end.
    pub open spec fn can_read(&self, n: nat) -> bool {
        self.offset + n <= self.data.len()
    }

    /// The `n` bytes at the cursor.
    pub open spec fn window(&self, n: nat) -> Seq<u8> {
        self.data@.subrange(self.offset as int, self.offset + n)
    }

    /// The other reader holds the same buffer and modes; only the offset may
    /// differ.
    pub open spec fn same_buffer_and_modes(&self, other: &BinaryReader) -> bool {
        self.data@ == other.data@ && self.endian == other.endian && self.is_64bit == other.is_64bit
    }

    /// Bytes in a mode-dependent half field: 16 bits under 32-bit width, 32
    /// bits under 64-bit width.
    pub open spec fn half_size(&self) -> nat {
        if self.is_64bit {
            4
        } else {
            2
        }
    }

    /// Bytes in a mode-dependent word field: 32 or 64 bits.
    pub open spec fn word_size(&self) -> nat {
        if self.is_64bit {
            8
        } else {
            4
        }
    }

    /// Bytes in a mode-dependent double-word field: 64 or 128 bits.
    pub open spec fn dword_size(&self) -> nat {
        if self.is_64bit {
            16
        } else {
            8
        }
    }
}

impl BinaryReader {
    /// Wraps a buffer; reads start at offset 0, big-endian, 32-bit.
    pub fn new(data: Vec<u8>) -> (r: BinaryReader)
        ensures
            r.data@ == data@,
            r.offset == 0,
            r.endian == Endian::Big,
            !r.is_64bit,
    {
        BinaryReader { data, offset: 0, endian: Endian::Big, is_64bit: false }
    }

    /// Moves the cursor to an absolute offset. No bounds check: an
    /// out-of-range target only makes the next read fail.
    pub fn seek(&mut self, offset: usize)
        ensures
            final(self).same_buffer_and_modes(old(self)),
            final(self).offset == offset,
    {
        self.offset = offset;
    }

    /// True when `n` more bytes can be read.
    fn has(&self, n: usize) -> (r: bool)
        ensures
            r == self.can_read(n as nat),
    {
        self.offset <= self.data.len() && n <= self.data.len() - self.offset
    }

    /// The byte at the cursor, without advancing.
    pub fn peek_u8(&self) -> (r: Result<u8, ReadError>)
        ensures
            self.can_read(1) ==> r == Ok::<u8, ReadError>(self.data@[self.offset as int]),
            !self.can_read(1) ==> r == Err::<u8, ReadError>(ReadError { offset: self.offset }),
    {
        if self.offset < self.data.len() {
            Ok(self.data[self.offset])
        } else {
            Err(ReadError { offset: self.offset })
        }
    }

    /// Reads one byte. This is the only place a byte leaves the buffer.
    pub fn read_u8(&mut self) -> (r: Result<u8, ReadError>)
        ensures
            final(self).same_buffer_and_modes(old(self)),
            old(self).can_read(1) ==> r == Ok::<u8, ReadError>(
                old(self).data@[old(self).offset as int],
            ) && final(self).offset == old(self).offset + 1,
            !old(self).can_read(1) ==> r == Err::<u8, ReadError>(
                ReadError { offset: old(self).offset },
            ) && final(self).offset == old(self).offset,
    {
        if self.offset < self.data.len() {
            let b = self.data[self.offset];
            self.offset = self.offset + 1;
            Ok(b)
        } else {
            Err(ReadError { offset: self.offset })
        }
    }

    /// Joins the two halves of a width-doubled read according to the byte
    /// order: the first half read is the most significant under big-endian,
    /// the least significant under little-endian.
    fn join(&self, first: u128, second: u128, shift: u32) -> (r: u128)
        requires
            shift == 8 || shift == 16 || shift == 32 || shift == 64,
            first < pow2(shift as nat),
            second < pow2(shift as nat),
        ensures
            self.endian == Endian::Big ==> r == first * pow2(shift as nat) + second,
            self.endian == Endian::Little ==> r == second * pow2(shift as nat) + first,
    {
        if self.endian == Endian::Big {
            concat_number(first, second, shift)
        } else {
            concat_number(second, first, shift)
        }
    }

    /// Reads a 16-bit value as two byte reads joined under the byte order.
    pub fn read_u16(&mut self) -> (r: Result<u16, ReadError>)
        ensures
            final(self).same_buffer_and_modes(old(self)),
            old(self).can_read(2) ==> (r matches Ok(v) && v == value_of(
                old(self).window(2),
                old(self).endian,
            ) && final(self).offset == old(self).offset + 2),
            !old(self).can_read(2) ==> (r == Err::<u16, ReadError>(
                ReadError { offset: old(self).offset },
            ) && final(self).offset == old(self).offset),
    {
        if !self.has(2) {
            return Err(ReadError { offset: self.offset });
        }
        let ghost pre = *self;
        let first = match self.read_u8() {
            Ok(b) => b,
            Err(e) => {
                return Err(e);
            },
        };
        let second = match self.read_u8() {
            Ok(b) => b,
            Err(e) => {
                return Err(e);
            },
        };
        proof {
            lemma2_to64();
            lemma_value_of_split(pre.window(2), 1, pre.endian);
            assert(pre.window(2).take(1) =~= seq![pre.data@[pre.offset as int]]);
            assert(pre.window(2).skip(1) =~= seq![pre.data@[pre.offset + 1]]);
            lemma_value_of_singleton(pre.data@[pre.offset as int], pre.endian);
            lemma_value_of_singleton(pre.data@[pre.offset + 1], pre.endian);
        }
        let joined = self.join(first as u128, second as u128, 8);
        Ok(joined as u16)
    }

    /// Reads a 32-bit value as two 16-bit reads joined under the byte order.
    pub fn read_u32(&mut self) -> (r: Result<u32, ReadError>)
        ensures
            final(self).same_buffer_and_modes(old(self)),
            old(self).can_read(4) ==> (r matches Ok(v) && v == value_of(
                old(self).window(4),
                old(self).endian,
            ) && final(self).offset == old(self).offset + 4),
            !old(self).can_read(4) ==> (r == Err::<u32, ReadError>(
                ReadError { offset: old(self).offset },
            ) && final(self).offset == old(self).offset),
    {
        if !self.has(4) {
            return Err(ReadError { offset: self.offset });
        }
        let ghost pre = *self;
        let first = match self.read_u16() {
            Ok(v) => v,
            Err(e) => {
                return Err(e);
            },
        };
        let ghost mid = *self;
        let second = match self.read_u16() {
            Ok(v) => v,
            Err(e) => {
                return Err(e);
            },
        };
        proof {
            lemma2_to64();
            lemma_value_of_split(pre.window(4), 2, pre.endian);
            assert(pre.window(4).take(2) =~= pre.window(2));
            assert(pre.window(4).skip(2) =~= mid.window(2));
        }
        let joined = self.join(first as u128, second as u128, 16);
        proof {
            lemma_value_of_bound(pre.window(4), pre.endian);
            assert(pre.window(4).len() == 4);
            assert(first == value_of(pre.window(2), pre.endian));
            assert(mid.offset == pre.offset + 2);
            assert(mid.endian == pre.endian);
            assert(second == value_of(mid.window(2), pre.endian));
            if pre.endian == Endian::Big {
                assert(value_of(pre.window(4), pre.endian) == value_of(pre.window(2), pre.endian)
                    * pow2(16) + value_of(mid.window(2), pre.endian));
                assert(joined == first * pow2(16) + second);
            } else {
                assert(value_of(pre.window(4), pre.endian) == value_of(pre.window(2), pre.endian)
                    + pow2(16) * value_of(mid.window(2), pre.endian));
                assert(joined == second * pow2(16) + first);
            }
            assert(joined == value_of(pre.window(4), pre.endian));
        }
        Ok(joined as u32)
    }

    /// Reads a 64-bit value as two 32-bit reads joined under the byte order.
    pub fn read_u64(&mut self) -> (r: Result<u64, ReadError>)
        ensures
            final(self).same_buffer_and_modes(old(self)),
            old(self).can_read(8) ==> (r matches Ok(v) && v == value_of(
                old(self).window(8),
                old(self).endian,
            ) && final(self).offset == old(self).offset + 8),
            !old(self).can_read(8) ==> (r == Err::<u64, ReadError>(
                ReadError { offset: old(self).offset },
            ) && final(self).offset == old(self).offset),
    {
        if !self.has(8) {
            return Err(ReadError { offset: self.offset });
        }
        let ghost pre = *self;
        let first = match self.read_u32() {
            Ok(v) => v,
            Err(e) => {
                return Err(e);
            },
        };
        let ghost mid = *self;
        let second = match self.read_u32() {
            Ok(v) => v,
            Err(e) => {
                return Err(e);
            },
        };
        proof {
            lemma2_to64();
            lemma_value_of_split(pre.window(8), 4, pre.endian);
            assert(pre.window(8).take(4) =~= pre.window(4));
            assert(pre.window(8).skip(4) =~= mid.window(4));
        }
        let joined = self.join(first as u128, second as u128, 32);
        proof {
            lemma_value_of_bound(pre.window(8), pre.endian);
            assert(pre.window(8).len() == 8);
            assert(first == value_of(pre.window(4), pre.endian));
            assert(mid.offset == pre.offset + 4);
            assert(mid.endian == pre.endian);
            assert(second == value_of(mid.window(4), pre.endian));
            if pre.endian == Endian::Big {
                assert(value_of(pre.window(8), pre.endian) == value_of(pre.window(4), pre.endian)
                    * pow2(32) + value_of(mid.window(4), pre.endian));
                assert(joined == first * pow2(32) + second);
            } else {
                assert(value_of(pre.window(8), pre.endian) == value_of(pre.window(4), pre.endian)
                    + pow2(32) * value_of(mid.window(4), pre.endian));
                assert(joined == second * pow2(32) + first);
            }
            assert(joined == value_of(pre.window(8), pre.endian));
        }
        Ok(joined as u64)
    }

    /// Reads a 128-bit value as two 64-bit reads joined under the byte
    /// order.
    pub fn read_u128(&mut self) -> (r: Result<u128, ReadError>)
        ensures
            final(self).same_buffer_and_modes(old(self)),
            old(self).can_read(16) ==> (r matches Ok(v) && v == value_of(
                old(self).window(16),
                old(self).endian,
            ) && final(self).offset == old(self).offset + 16),
            !old(self).can_read(16) ==> (r == Err::<u128, ReadError>(
                ReadError { offset: old(self).offset },
            ) && final(self).offset == old(self).offset),
    {
        if !self.has(16) {
            return Err(ReadError { offset: self.offset });
        }
        let ghost pre = *self;
        let first = match self.read_u64() {
            Ok(v) => v,
            Err(e) => {
                return Err(e);
            },
        };
        let ghost mid = *self;
        let second = match self.read_u64() {
            Ok(v) => v,
            Err(e) => {
                return Err(e);
            },
        };
        proof {
            lemma2_to64();
            lemma_value_of_split(pre.window(16), 8, pre.endian);
            assert(pre.window(16).take(8) =~= pre.window(8));
            assert(pre.window(16).skip(8) =~= mid.window(8));
            lemma_value_of_bound(pre.window(8), pre.endian);
            lemma_value_of_bound(mid.window(8), pre.endian);
        }
        let joined = self.join(first as u128, second as u128, 64);
        proof {
            assert(pre.window(16).len() == 16);
            assert(first == value_of(pre.window(8), pre.endian));
            assert(mid.offset == pre.offset + 8);
            assert(mid.endian == pre.endian);
            assert(second == value_of(mid.window(8), pre.endian));
            if pre.endian == Endian::Big {
                assert(value_of(pre.window(16), pre.endian) == value_of(pre.window(8), pre.endian)
                    * pow2(64) + value_of(mid.window(8), pre.endian));
                assert(joined == first * pow2(64) + second);
            } else {
                assert(value_of(pre.window(16), pre.endian) == value_of(pre.window(8), pre.endian)
                    + pow2(64) * value_of(mid.window(8), pre.endian));
                assert(joined == second * pow2(64) + first);
            }
            assert(joined == value_of(pre.window(16), pre.endian));
        }
        Ok(joined)
    }
}

impl BinaryReader {
    /// Reads a mode-dependent half field: a plain 16-bit read under 32-bit
    /// width, a plain 32-bit read under 64-bit width.
    pub fn read_half(&mut self) -> (r: Result<u32, ReadError>)
        ensures
            final(self).same_buffer_and_modes(old(self)),
            old(self).can_read(old(self).half_size()) ==> (r matches Ok(v) && v == value_of(
                old(self).window(old(self).half_size()),
                old(self).endian,
            ) && final(self).offset == old(self).offset + old(self).half_size()),
            !old(self).can_read(old(self).half_size()) ==> (r == Err::<u32, ReadError>(
                ReadError { offset: old(self).offset },
            ) && final(self).offset == old(self).offset),
    {
        if self.is_64bit {
            self.read_u32()
        } else {
            match self.read_u16() {
                Ok(v) => Ok(v as u32),
                Err(e) => Err(e),
            }
        }
    }

    /// Reads a mode-dependent word field: a plain 32-bit read under 32-bit
    /// width, a plain 64-bit read under 64-bit width.
    pub fn read_word(&mut self) -> (r: Result<u64, ReadError>)
        ensures
            final(self).same_buffer_and_modes(old(self)),
            old(self).can_read(old(self).word_size()) ==> (r matches Ok(v) && v == value_of(
                old(self).window(old(self).word_size()),
                old(self).endian,
            ) && final(self).offset == old(self).offset + old(self).word_size()),
            !old(self).can_read(old(self).word_size()) ==> (r == Err::<u64, ReadError>(
                ReadError { offset: old(self).offset },
            ) && final(self).offset == old(self).offset),
    {
        if self.is_64bit {
            self.read_u64()
        } else {
            match self.read_u32() {
                Ok(v) => Ok(v as u64),
                Err(e) => Err(e),
            }
        }
    }

    /// Reads a mode-dependent double-word field: a plain 64-bit read under
    /// 32-bit width, a plain 128-bit read under 64-bit width.
    pub fn read_dword(&mut self) -> (r: Result<u128, ReadError>)
        ensures
            final(self).same_buffer_and_modes(old(self)),
            old(self).can_read(old(self).dword_size()) ==> (r matches Ok(v) && v == value_of(
                old(self).window(old(self).dword_size()),
                old(self).endian,
            ) && final(self).offset == old(self).offset + old(self).dword_size()),
            !old(self).can_read(old(self).dword_size()) ==> (r == Err::<u128, ReadError>(
                ReadError { offset: old(self).offset },
            ) && final(self).offset == old(self).offset),
    {
        if self.is_64bit {
            self.read_u128()
        } else {
            match self.read_u64() {
                Ok(v) => Ok(v as u128),
                Err(e) => Err(e),
            }
        }
    }

    /// Reads a word-sized field that is semantically an address.
    pub fn read_addr(&mut self) -> (r: Result<u64, ReadError>)
        ensures
            final(self).same_buffer_and_modes(old(self)),
            old(self).can_read(old(self).word_size()) ==> (r matches Ok(v) && v == value_of(
                old(self).window(old(self).word_size()),
                old(self).endian,
            ) && final(self).offset == old(self).offset + old(self).word_size()),
            !old(self).can_read(old(self).word_size()) ==> (r == Err::<u64, ReadError>(
                ReadError { offset: old(self).offset },
            ) && final(self).offset == old(self).offset),
    {
        self.read_word()
    }

    /// Reads a word-sized field that is semantically a byte count. Fails
    /// when the value does not fit the machine's `usize`.
    pub fn read_size(&mut self) -> (r: Result<usize, ReadError>)
        ensures
            final(self).same_buffer_and_modes(old(self)),
            old(self).can_read(old(self).word_size()) && value_of(
                old(self).window(old(self).word_size()),
                old(self).endian,
            ) <= usize::MAX ==> (r matches Ok(v) && v == value_of(
                old(self).window(old(self).word_size()),
                old(self).endian,
            ) && final(self).offset == old(self).offset + old(self).word_size()),
            !(old(self).can_read(old(self).word_size()) && value_of(
                old(self).window(old(self).word_size()),
                old(self).endian,
            ) <= usize::MAX) ==> (r == Err::<usize, ReadError>(
                ReadError { offset: old(self).offset },
            ) && final(self).offset == old(self).offset),
    {
        let start = self.offset;
        match self.read_word() {
            Ok(v) => {
                if v <= usize::MAX as u64 {
                    Ok(v as usize)
                } else {
                    self.offset = start;
                    Err(ReadError { offset: start })
                }
            },
            Err(e) => Err(e),
        }
    }
}

impl BinaryReader {
    /// Copies `size` bytes starting at the absolute position `pos`, without
    /// moving the cursor.
    pub fn read(&mut self, pos: usize, size: usize) -> (r: Result<Vec<u8>, ReadError>)
        ensures
            final(self).same_buffer_and_modes(old(self)),
            final(self).offset == old(self).offset,
            pos + size <= old(self).data@.len() ==> (r matches Ok(v) && v@ == old(
                self,
            ).data@.subrange(pos as int, pos + size)),
            pos + size > old(self).data@.len() ==> r == Err::<Vec<u8>, ReadError>(
                ReadError { offset: pos },
            ),
    {
        if pos <= self.data.len() && size <= self.data.len() - pos {
            Ok(slice_to_vec(slice_subrange(self.data.as_slice(), pos, pos + size)))
        } else {
            Err(ReadError { offset: pos })
        }
    }

    /// Reads `size` bytes at the cursor and advances past them.
    pub fn read_n_bytes(&mut self, size: usize) -> (r: Result<Vec<u8>, ReadError>)
        ensures
            final(self).same_buffer_and_modes(old(self)),
            old(self).can_read(size as nat) ==> (r matches Ok(v) && v@ == old(self).window(
                size as nat,
            ) && final(self).offset == old(self).offset + size),
            !old(self).can_read(size as nat) ==> (r == Err::<Vec<u8>, ReadError>(
                ReadError { offset: old(self).offset },
            ) && final(self).offset == old(self).offset),
    {
        if !self.has(size) {
            return Err(ReadError { offset: self.offset });
        }
        let v = slice_to_vec(slice_subrange(self.data.as_slice(), self.offset, self.offset + size));
        self.offset = self.offset + size;
        Ok(v)
    }

    /// Reads a 16-bit length prefix, then that many bytes, decoded
    /// permissively as text.
    pub fn read_u16_string(&mut self) -> (r: Result<String, ReadError>)
        ensures
            final(self).same_buffer_and_modes(old(self)),
            ({
                let l = value_of(old(self).window(2), old(self).endian);
                &&& old(self).can_read(2 + l) ==> (r matches Ok(s) && s@ == lossy_of(
                    old(self).data@.subrange(
                        old(self).offset + 2,
                        old(self).offset + 2 + l,
                    ),
                ) && final(self).offset == old(self).offset + 2 + l)
                &&& !old(self).can_read(2) ==> (r matches Err(e) && e.offset == old(self).offset
                    && final(self).offset == old(self).offset)
                &&& old(self).can_read(2) && !old(self).can_read(2 + l) ==> (r matches Err(e)
                    && e.offset == old(self).offset + 2 && final(self).offset == old(self).offset
                    + 2)
            }),
    {
        let length = match self.read_u16() {
            Ok(v) => v,
            Err(e) => {
                return Err(e);
            },
        };
        proof {
            lemma_value_of_bound(old(self).window(2), old(self).endian);
            lemma2_to64();
        }
        let bytes = match self.read_n_bytes(length as usize) {
            Ok(v) => v,
            Err(e) => {
                return Err(e);
            },
        };
        Ok(lossy_string(bytes.as_slice()))
    }

    /// Counts the bytes from the cursor to the next zero byte, and consumes
    /// them together with the zero.
    pub fn find_zero(&mut self) -> (r: usize)
        requires
            old(self).offset < old(self).data@.len(),
            first_zero_from(old(self).data@, old(self).offset as int) matches Some(_),
        ensures
            final(self).same_buffer_and_modes(old(self)),
            first_zero_from(old(self).data@, old(self).offset as int) == Some(
                old(self).offset + r as int,
            ),
            final(self).offset == old(self).offset + r + 1,
    {
        let ghost start = self.offset as int;
        let mut result: usize = 0;
        while self.data[self.offset] != 0
            invariant
                start == old(self).offset as int,
                self.offset < self.data.len(),
                self.offset == start + result,
                first_zero_from(self.data@, self.offset as int) matches Some(_),
                first_zero_from(self.data@, self.offset as int) == first_zero_from(
                    self.data@,
                    start,
                ),
                self.same_buffer_and_modes(&old(self)),
            decreases self.data@.len() - self.offset,
        {
            self.offset = self.offset + 1;
            result = result + 1;
            proof {
                if self.offset >= self.data.len() {
                    assert(first_zero_from(self.data@, self.offset as int) is None);
                }
            }
        }
        self.offset = self.offset + 1;
        result
    }
}

/// A single byte reads as its own value under either byte order.
pub proof fn lemma_value_of_singleton(b: u8, en: Endian)
    ensures
        value_of(seq![b], en) == b,
{
    let s = seq![b];
    assert(s.len() == 1);
    assert(s.last() == b);
    assert(s.first() == b);
    assert(s.drop_last() =~= Seq::<u8>::empty());
    assert(s.drop_first() =~= Seq::<u8>::empty());
    assert(crate::values::be_value(Seq::<u8>::empty()) == 0);
    assert(crate::values::le_value(Seq::<u8>::empty()) == 0);
}

} // verus!
