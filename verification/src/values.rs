//! The meaning of a byte sequence as an unsigned integer, under either byte
//! order, together with the inverse direction (an integer laid out as bytes)
//! and the lemmas that connect reads of halves to reads of the whole.

use vstd::prelude::*;
use vstd::arithmetic::power2::*;
use vstd::arithmetic::mul::*;
use vstd::arithmetic::div_mod::*;
use crate::endian::Endian;

verus! {

/// The big-endian reading of `s`: the first byte is the most significant.
pub open spec fn be_value(s: Seq<u8>) -> nat
    decreases s.len(),
{
    if s.len() == 0 {
        0
    } else {
        (s.last() + 256 * be_value(s.drop_last())) as nat
    }
}

/// The little-endian reading of `s`: the first byte is the least significant.
pub open spec fn le_value(s: Seq<u8>) -> nat
    decreases s.len(),
{
    if s.len() == 0 {
        0
    } else {
        (s.first() + 256 * le_value(s.drop_first())) as nat
    }
}

/// The reading of `s` under the byte order `en`.
pub open spec fn value_of(s: Seq<u8>, en: Endian) -> nat {
    if en == Endian::Big {
        be_value(s)
    } else {
        le_value(s)
    }
}

/// The `n` little-endian bytes of `v`.
pub open spec fn le_bytes(v: nat, n: nat) -> Seq<u8>
    decreases n,
{
    if n == 0 {
        Seq::empty()
    } else {
        seq![(v % 256) as u8] + le_bytes(v / 256, (n - 1) as nat)
    }
}

/// The `n` big-endian bytes of `v`.
pub open spec fn be_bytes(v: nat, n: nat) -> Seq<u8>
    decreases n,
{
    if n == 0 {
        Seq::empty()
    } else {
        be_bytes(v / 256, (n - 1) as nat).push((v % 256) as u8)
    }
}

/// The `n` bytes of `v` under the byte order `en`.
pub open spec fn bytes_of(v: nat, n: nat, en: Endian) -> Seq<u8> {
    if en == Endian::Big {
        be_bytes(v, n)
    } else {
        le_bytes(v, n)
    }
}

/// Bytes in a mode-dependent half field: 16 bits under 32-bit address
/// width, 32 bits under 64-bit.
pub open spec fn half_sz(is64: bool) -> int {
    if is64 {
        4
    } else {
        2
    }
}

/// Bytes in a mode-dependent word field: 32 bits under 32-bit address
/// width, 64 bits under 64-bit.
pub open spec fn word_sz(is64: bool) -> int {
    if is64 {
        8
    } else {
        4
    }
}

/// The reading of the `size`-byte field of `d` that starts at `pos`.
pub open spec fn field_at(d: Seq<u8>, pos: int, size: int, en: Endian) -> nat {
    value_of(d.subrange(pos, pos + size), en)
}

/// A sequence of `n` bytes reads as a value below `2^(8n)`.
pub proof fn lemma_value_of_bound(s: Seq<u8>, en: Endian)
    ensures
        value_of(s, en) < pow2(8 * s.len()),
    decreases s.len(),
{
    lemma_pow2_pos(8 * s.len());
    if s.len() > 0 {
        lemma_pow2_adds(8 * (s.len() - 1) as nat, 8);
        lemma2_to64();
        if en == Endian::Big {
            lemma_value_of_bound(s.drop_last(), en);
            assert(be_value(s) < 256 + 256 * be_value(s.drop_last()));
            lemma_mul_inequality(
                be_value(s.drop_last()) as int + 1,
                pow2(8 * (s.len() - 1) as nat) as int,
                256,
            );
        } else {
            lemma_value_of_bound(s.drop_first(), en);
            assert(le_value(s) < 256 + 256 * le_value(s.drop_first()));
            lemma_mul_inequality(
                le_value(s.drop_first()) as int + 1,
                pow2(8 * (s.len() - 1) as nat) as int,
                256,
            );
        }
    }
}

/// Splitting a big-endian reading at `k`: the first `k` bytes carry the high
/// part, shifted past the remaining bytes.
pub proof fn lemma_be_value_split(s: Seq<u8>, k: int)
    requires
        0 <= k <= s.len(),
    ensures
        be_value(s) == be_value(s.take(k)) * pow2(8 * (s.len() - k) as nat) + be_value(s.skip(k)),
    decreases s.len() - k,
{
    if k == s.len() {
        assert(s.take(k) =~= s);
        assert(s.skip(k) =~= Seq::<u8>::empty());
        lemma2_to64();
    } else {
        let dl = s.drop_last();
        lemma_be_value_split(dl, k);
        assert(dl.take(k) =~= s.take(k));
        assert(s.skip(k).drop_last() =~= dl.skip(k));
        assert(s.skip(k).last() == s.last());
        assert(s.skip(k).len() > 0);
        // be_value(s) == s.last() + 256 * be_value(dl)
        // be_value(dl) == be_value(s.take(k)) * pow2(8*(len-1-k)) + be_value(dl.skip(k))
        let t = be_value(s.take(k)) as int;
        let p = pow2(8 * (s.len() - 1 - k) as nat) as int;
        let r = be_value(dl.skip(k)) as int;
        assert(256 * (t * p + r) == t * (p * 256) + 256 * r) by (nonlinear_arith);
        lemma_pow2_adds(8 * (s.len() - 1 - k) as nat, 8);
        lemma2_to64();
        assert(pow2(8) == 256);
        assert(p * 256 == pow2(8 * (s.len() - k) as nat));
        assert(be_value(s.skip(k)) == s.last() + 256 * r);
    }
}

/// Splitting a little-endian reading at `k`: the first `k` bytes carry the
/// low part; the remaining bytes are shifted past them.
pub proof fn lemma_le_value_split(s: Seq<u8>, k: int)
    requires
        0 <= k <= s.len(),
    ensures
        le_value(s) == le_value(s.take(k)) + pow2(8 * k as nat) * le_value(s.skip(k)),
    decreases k,
{
    if k == 0 {
        assert(s.take(0) =~= Seq::<u8>::empty());
        assert(s.skip(0) =~= s);
        lemma2_to64();
    } else {
        let rest = s.drop_first();
        lemma_le_value_split(rest, k - 1);
        assert(rest.skip(k - 1) =~= s.skip(k));
        assert(s.take(k).drop_first() =~= rest.take(k - 1));
        assert(s.take(k).first() == s.first());
        assert(s.take(k).len() > 0);
        // le_value(s) == s.first() + 256 * le_value(rest)
        // le_value(rest) == le_value(rest.take(k-1)) + pow2(8*(k-1)) * le_value(s.skip(k))
        let t = le_value(rest.take(k - 1)) as int;
        let p = pow2(8 * (k - 1) as nat) as int;
        let r = le_value(s.skip(k)) as int;
        assert(256 * (t + p * r) == 256 * t + (256 * p) * r) by (nonlinear_arith);
        lemma_pow2_adds(8, 8 * (k - 1) as nat);
        lemma2_to64();
        assert(pow2(8) == 256);
        assert(256 * p == pow2(8 * k as nat));
        assert(le_value(s.take(k)) == s.first() + 256 * t);
    }
}

/// Splitting a reading at `k` under either byte order: the reading of the
/// whole is determined by the readings of the two halves. This is the fact
/// that lets every fixed-width read be composed from two half-width reads.
pub proof fn lemma_value_of_split(s: Seq<u8>, k: int, en: Endian)
    requires
        0 <= k <= s.len(),
    ensures
        en == Endian::Big ==> value_of(s, en) == value_of(s.take(k), en) * pow2(
            8 * (s.len() - k) as nat,
        ) + value_of(s.skip(k), en),
        en == Endian::Little ==> value_of(s, en) == value_of(s.take(k), en) + pow2(8 * k as nat)
            * value_of(s.skip(k), en),
{
    if en == Endian::Big {
        lemma_be_value_split(s, k);
    } else {
        lemma_le_value_split(s, k);
    }
}

/// `bytes_of` lays out exactly `n` bytes.
pub proof fn lemma_bytes_of_len(v: nat, n: nat, en: Endian)
    ensures
        bytes_of(v, n, en).len() == n,
    decreases n,
{
    if n > 0 {
        lemma_bytes_of_len(v / 256, (n - 1) as nat, en);
    }
}

/// Reading back the laid-out bytes of a value below `2^(8n)` returns the
/// value.
pub proof fn lemma_value_of_bytes_of(v: nat, n: nat, en: Endian)
    requires
        v < pow2(8 * n),
    ensures
        value_of(bytes_of(v, n, en), en) == v,
    decreases n,
{
    if n == 0 {
        lemma2_to64();
    } else {
        lemma_pow2_adds(8 * (n - 1) as nat, 8);
        lemma2_to64();
        lemma_pow2_pos(8 * (n - 1) as nat);
        assert(v / 256 < pow2(8 * (n - 1) as nat)) by {
            lemma_multiply_divide_lt(v as int, 256, pow2(8 * (n - 1) as nat) as int);
        }
        lemma_value_of_bytes_of(v / 256, (n - 1) as nat, en);
        lemma_bytes_of_len(v / 256, (n - 1) as nat, en);
        lemma_fundamental_div_mod(v as int, 256);
        if en == Endian::Big {
            let b = be_bytes(v, n);
            assert(b.drop_last() =~= be_bytes(v / 256, (n - 1) as nat));
            assert(b.last() == (v % 256) as u8);
        } else {
            let b = le_bytes(v, n);
            assert(b.drop_first() =~= le_bytes(v / 256, (n - 1) as nat));
            assert(b.first() == (v % 256) as u8);
        }
    }
}

/// Laying out the reading of a byte sequence returns the sequence itself.
pub proof fn lemma_bytes_of_value_of(s: Seq<u8>, en: Endian)
    ensures
        bytes_of(value_of(s, en), s.len(), en) == s,
    decreases s.len(),
{
    if s.len() > 0 {
        if en == Endian::Big {
            let v = be_value(s);
            let low = s.last() as int;
            let hi = be_value(s.drop_last()) as int;
            lemma_fundamental_div_mod_converse(v as int, 256, hi, low);
            assert(v % 256 == low && v / 256 == hi);
            lemma_bytes_of_value_of(s.drop_last(), en);
            assert(be_bytes(v, s.len()) =~= s);
        } else {
            let v = le_value(s);
            let low = s.first() as int;
            let hi = le_value(s.drop_first()) as int;
            lemma_fundamental_div_mod_converse(v as int, 256, hi, low);
            assert(v % 256 == low && v / 256 == hi);
            lemma_bytes_of_value_of(s.drop_first(), en);
            assert(le_bytes(v, s.len()) =~= s);
        }
    }
}

} // verus!
