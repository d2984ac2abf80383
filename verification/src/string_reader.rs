//! A plain byte reader for text scanning: absolute and sequential reads,
//! prefix tests and substring search, each failure a recoverable error.

use vstd::prelude::*;
use vstd::slice::{slice_subrange, slice_to_vec};
use vstd::string::StringSliceAdditionalSpecFns;

verus! {

/// The length of the longest prefix of `needle` that matches `d` starting
/// at `off` (bounded by the end of `d`).
pub open spec fn match_len(d: Seq<u8>, off: int, needle: Seq<u8>) -> int
    decreases needle.len(),
{
    if needle.len() == 0 || off < 0 || off >= d.len() || d[off] != needle[0] {
        0
    } else {
        1 + match_len(d, off + 1, needle.drop_first())
    }
}

/// The needle occurs in `d` at position `j`.
pub open spec fn occurs_at(d: Seq<u8>, needle: Seq<u8>, j: int) -> bool {
    0 <= j && j + needle.len() <= d.len() && d.subrange(j, j + needle.len()) == needle
}

/// A byte buffer and a read position.
#[derive(PartialEq, Debug, Clone)]
pub struct StringReader {
    pub data: Vec<u8>,
    pub offset: usize,
}

impl StringReader {
    pub fn new(data: Vec<u8>) -> (r: StringReader)
        ensures
            r.data@ == data@,
            r.offset == 0,
    {
        StringReader { data, offset: 0 }
    }

    /// True while the position has not passed the end.
    pub fn has_data(&self) -> (r: bool)
        ensures
            r == (self.offset < self.data@.len()),
    {
        self.offset < self.data.len()
    }

    /// The byte at an absolute position; past the end is an error.
    pub fn read_char_abs(&mut self, pos: usize) -> (r: Result<u8, String>)
        ensures
            *final(self) == *old(self),
            pos < old(self).data@.len() ==> r == Ok::<u8, String>(old(self).data@[pos as int]),
            pos >= old(self).data@.len() ==> (r matches Err(e) && e@ == "EOF"@),
    {
        if pos >= self.data.len() {
            return Err("EOF".to_owned());
        }
        Ok(self.data[pos])
    }

    /// The byte at the position, which advances past it.
    pub fn read_char(&mut self) -> (r: Result<u8, String>)
        ensures
            final(self).data@ == old(self).data@,
            old(self).offset < old(self).data@.len() ==> (r == Ok::<u8, String>(
                old(self).data@[old(self).offset as int],
            ) && final(self).offset == old(self).offset + 1),
            old(self).offset >= old(self).data@.len() ==> ((r matches Err(e) && e@ == "EOF"@)
                && final(self).offset == old(self).offset),
    {
        let c = match self.read_char_abs(self.offset) {
            Ok(c) => c,
            Err(e) => {
                return Err(e);
            },
        };
        proof {
            assert(self.offset < self.data.len());
        }
        self.offset = self.offset + 1;
        Ok(c)
    }

    /// `size` bytes from an absolute position; running past the end is an
    /// error.
    pub fn read(&mut self, pos: usize, size: usize) -> (r: Result<Vec<u8>, String>)
        ensures
            *final(self) == *old(self),
            pos + size <= old(self).data@.len() ==> (r matches Ok(v)
                && v@ == old(self).data@.subrange(pos as int, pos + size)),
            pos + size > old(self).data@.len() ==> (r matches Err(e) && e@ == "EOF"@),
    {
        if pos <= self.data.len() && size <= self.data.len() - pos {
            Ok(slice_to_vec(slice_subrange(self.data.as_slice(), pos, pos + size)))
        } else {
            Err("EOF".to_owned())
        }
    }

    /// `size` bytes at the position, which advances past them.
    pub fn read_n_bytes(&mut self, size: usize) -> (r: Result<Vec<u8>, String>)
        ensures
            final(self).data@ == old(self).data@,
            old(self).offset + size <= old(self).data@.len() ==> (r matches Ok(v)
                && v@ == old(self).data@.subrange(old(self).offset as int, old(self).offset + size)
                && final(self).offset == old(self).offset + size),
            old(self).offset + size > old(self).data@.len() ==> ((r matches Err(e) && e@ == "EOF"@)
                && final(self).offset == old(self).offset),
    {
        let result = match self.read(self.offset, size) {
            Ok(v) => v,
            Err(e) => {
                return Err(e);
            },
        };
        proof {
            assert(self.offset + size <= self.data.len());
        }
        self.offset = self.offset + size;
        Ok(result)
    }

    /// Skips `size` bytes without reading them.
    pub fn consume(&mut self, size: usize)
        requires
            old(self).offset + size <= usize::MAX,
        ensures
            final(self).data@ == old(self).data@,
            final(self).offset == old(self).offset + size,
    {
        self.offset = self.offset + size;
    }

    /// Tests whether the bytes at the position start with `needle`, and
    /// consumes the needle when they do. Running off the end before a
    /// mismatch is found is an error.
    #[verifier::loop_isolation(false)]
    pub fn if_startswith(&mut self, needle: &[u8]) -> (r: Result<bool, String>)
        ensures
            final(self).data@ == old(self).data@,
            ({
                let ml = match_len(old(self).data@, old(self).offset as int, needle@);
                &&& ml == needle@.len() ==> (r == Ok::<bool, String>(true) && final(self).offset
                    == old(self).offset + needle@.len())
                &&& (ml < needle@.len() && old(self).offset + ml < old(self).data@.len()) ==> (r
                    == Ok::<bool, String>(false) && final(self).offset == old(self).offset)
                &&& (ml < needle@.len() && old(self).offset + ml >= old(self).data@.len()) ==> ((
                r matches Err(e) && e@ == "EOF"@) && final(self).offset == old(self).offset)
            }),
    {
        let ghost d = self.data@;
        let ghost off = self.offset as int;
        proof {
            lemma_match_len_bounds(d, off, needle@);
        }
        let mut i: usize = 0;
        while i < needle.len()
            invariant
                self.data@ == d,
                self.offset == old(self).offset,
                i <= needle@.len(),
                off == old(self).offset as int,
                off + i <= usize::MAX,
                match_len(d, off, needle@) >= i,
                forall|j: int| 0 <= j < i ==> #[trigger] byte_matches(d, off, needle@, j),
            decreases needle@.len() - i,
        {
            let c = match self.read_char_abs(self.offset + i) {
                Ok(c) => c,
                Err(e) => {
                    proof {
                        assert(!byte_matches(d, off, needle@, i as int));
                        lemma_match_len_stops(d, off, needle@, i as int);
                    }
                    return Err(e);
                },
            };
            if c != needle[i] {
                proof {
                    assert(!byte_matches(d, off, needle@, i as int));
                    lemma_match_len_stops(d, off, needle@, i as int);
                }
                return Ok(false);
            }
            proof {
                assert(self.offset + i < self.data.len());
                assert(byte_matches(d, off, needle@, i as int));
                lemma_match_len_step(d, off, needle@, i as int);
            }
            i = i + 1;
        }
        proof {
            lemma_match_len_full(d, off, needle@);
            if needle@.len() > 0 {
                assert(byte_matches(d, off, needle@, needle@.len() - 1));
            }
        }
        self.offset = self.offset + needle.len();
        Ok(true)
    }

    /// Tests that the bytes at the position start with `s` and consumes
    /// them; anything else is an error.
    pub fn except(&mut self, s: &str) -> (r: Result<(), String>)
        ensures
            final(self).data@ == old(self).data@,
            ({
                let ml = match_len(old(self).data@, old(self).offset as int, s.spec_bytes());
                &&& ml == s.spec_bytes().len() ==> (r matches Ok(_)
                    && final(self).offset == old(self).offset + s.spec_bytes().len())
                &&& ml < s.spec_bytes().len() ==> (r matches Err(_)
                    && final(self).offset == old(self).offset)
            }),
    {
        let matched = match self.if_startswith(s.as_bytes()) {
            Ok(b) => b,
            Err(e) => {
                return Err(e);
            },
        };
        if matched {
            Ok(())
        } else {
            let mut msg = "except: ".to_owned();
            msg.push_str(s);
            Err(msg)
        }
    }

    /// The distance from the position to the first occurrence of `s` in
    /// the remaining bytes; no occurrence is an error. The position does
    /// not move.
    #[verifier::loop_isolation(false)]
    pub fn find(&mut self, s: &str) -> (r: Result<usize, String>)
        ensures
            *final(self) == *old(self),
            ({
                let d = old(self).data@;
                let off = old(self).offset as int;
                let needle = s.spec_bytes();
                &&& (exists|j: int| off <= j && occurs_at(d, needle, j)) ==> (r matches Ok(p)
                    && occurs_at(d, needle, off + p) && (forall|j: int|
                    off <= j < off + p ==> !occurs_at(d, needle, j)))
                &&& !(exists|j: int| off <= j && occurs_at(d, needle, j)) ==> (r matches Err(_))
            }),
    {
        let needle = s.as_bytes();
        let mut p: usize = 0;
        loop
            invariant
                self.data@ == old(self).data@,
                self.offset == old(self).offset,
                self.offset + p <= usize::MAX,
                forall|j: int|
                    self.offset <= j < self.offset + p ==> !occurs_at(
                        self.data@,
                        needle@,
                        j,
                    ),
            decreases self.data@.len() + needle@.len() - p,
        {
            if self.offset > self.data.len() || p > self.data.len() - self.offset
                || self.data.len() - self.offset - p < needle.len() {
                proof {
                    assert forall|j: int|
                        self.offset <= j && occurs_at(self.data@, needle@, j) implies false by {
                        if j < self.offset + p {
                        } else {
                            assert(j + needle@.len() > self.data@.len());
                        }
                    }
                }
                return Err("find: no match".to_owned());
            }
            let ghost cand = self.offset + p;
            let window = slice_subrange(
                self.data.as_slice(),
                self.offset + p,
                self.offset + p + needle.len(),
            );
            if slices_equal(window, needle) {
                proof {
                    assert(occurs_at(self.data@, needle@, cand as int));
                }
                return Ok(p);
            }
            proof {
                assert(!occurs_at(self.data@, needle@, cand as int));
                if needle@.len() == 0 {
                    assert(window@ =~= needle@);
                }
                assert(self.offset + p + needle@.len() <= self.data.len());
            }
            p = p + 1;
        }
    }
}

/// Byte-for-byte equality of two slices.
fn slices_equal(a: &[u8], b: &[u8]) -> (r: bool)
    ensures
        r == (a@ == b@),
{
    if a.len() != b.len() {
        proof {
            assert(a@.len() != b@.len());
        }
        return false;
    }
    let mut i: usize = 0;
    while i < a.len()
        invariant
            i <= a@.len(),
            a@.len() == b@.len(),
            forall|j: int| 0 <= j < i ==> a@[j] == b@[j],
        decreases a@.len() - i,
    {
        if *vstd::slice::slice_index_get(a, i) != *vstd::slice::slice_index_get(b, i) {
            proof {
                assert(a@[i as int] != b@[i as int]);
            }
            return false;
        }
        i = i + 1;
    }
    proof {
        assert(a@ =~= b@);
    }
    true
}

/// The match length lies between zero and the needle's length.
proof fn lemma_match_len_bounds(d: Seq<u8>, off: int, needle: Seq<u8>)
    ensures
        0 <= match_len(d, off, needle) <= needle.len(),
    decreases needle.len(),
{
    if !(needle.len() == 0 || off < 0 || off >= d.len() || d[off] != needle[0]) {
        lemma_match_len_bounds(d, off + 1, needle.drop_first());
    }
}

/// The byte at distance `j` from `off` exists and matches the needle's.
pub open spec fn byte_matches(d: Seq<u8>, off: int, needle: Seq<u8>, j: int) -> bool {
    off + j < d.len() && d[off + j] == needle[j]
}

/// Shifts a run of matching bytes one position: matching `needle` from
/// `off` beyond the first byte is matching its tail from `off + 1`.
proof fn lemma_shift_matches(d: Seq<u8>, off: int, needle: Seq<u8>, k: int)
    requires
        0 <= k <= needle.len() - 1,
        forall|j: int| 0 <= j < k + 1 ==> #[trigger] byte_matches(d, off, needle, j),
    ensures
        forall|j: int| 0 <= j < k ==> #[trigger] byte_matches(d, off + 1, needle.drop_first(), j),
{
    assert forall|j: int| 0 <= j < k implies #[trigger] byte_matches(
        d,
        off + 1,
        needle.drop_first(),
        j,
    ) by {
        assert(byte_matches(d, off, needle, j + 1));
        assert(needle.drop_first()[j] == needle[j + 1]);
    }
}

/// While the first `i` bytes match, the match length is at least `i`; a
/// match at `i` itself pushes it to at least `i + 1`.
proof fn lemma_match_len_step(d: Seq<u8>, off: int, needle: Seq<u8>, i: int)
    requires
        0 <= i < needle.len(),
        0 <= off,
        forall|j: int| 0 <= j < i ==> #[trigger] byte_matches(d, off, needle, j),
        byte_matches(d, off, needle, i),
    ensures
        match_len(d, off, needle) >= i + 1,
    decreases i,
{
    assert(byte_matches(d, off, needle, 0));
    assert(d[off] == needle[0]);
    lemma_match_len_bounds(d, off + 1, needle.drop_first());
    if i > 0 {
        lemma_shift_matches(d, off, needle, i - 1);
        assert(byte_matches(d, off, needle, i));
        assert(needle.drop_first()[i - 1] == needle[i]);
        assert(byte_matches(d, off + 1, needle.drop_first(), i - 1));
        lemma_match_len_step(d, off + 1, needle.drop_first(), i - 1);
    }
}

/// A divergence at index `i` — a mismatch or the end of the buffer — pins
/// the match length at exactly `i`.
proof fn lemma_match_len_stops(d: Seq<u8>, off: int, needle: Seq<u8>, i: int)
    requires
        0 <= i < needle.len(),
        0 <= off,
        forall|j: int| 0 <= j < i ==> #[trigger] byte_matches(d, off, needle, j),
        !byte_matches(d, off, needle, i),
    ensures
        match_len(d, off, needle) == i,
    decreases i,
{
    if i == 0 {
        if off < d.len() && d[off] == needle[0] {
            assert(byte_matches(d, off, needle, 0));
        }
    } else {
        assert(byte_matches(d, off, needle, 0));
        assert(d[off] == needle[0]);
        lemma_shift_matches(d, off, needle, i - 1);
        assert(needle.drop_first()[i - 1] == needle[i]);
        assert(!byte_matches(d, off + 1, needle.drop_first(), i - 1));
        lemma_match_len_stops(d, off + 1, needle.drop_first(), i - 1);
    }
}

/// Matching every byte pins the match length at the needle's length.
proof fn lemma_match_len_full(d: Seq<u8>, off: int, needle: Seq<u8>)
    requires
        0 <= off,
        forall|j: int| 0 <= j < needle.len() ==> #[trigger] byte_matches(d, off, needle, j),
    ensures
        match_len(d, off, needle) == needle.len(),
    decreases needle.len(),
{
    if needle.len() > 0 {
        assert(byte_matches(d, off, needle, 0));
        assert(d[off] == needle[0]);
        lemma_shift_matches(d, off, needle, needle.len() - 1);
        lemma_match_len_full(d, off + 1, needle.drop_first());
    }
}

} // verus!
