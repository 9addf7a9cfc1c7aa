//! The bit-level model of a byte buffer, and `BitCursor`, a sequential
//! sub-byte reader over one.
//!
//! Bits are numbered in document order: bit `i` of a buffer is bit
//! `7 - (i % 8)` of byte `i / 8`, so the most significant bit of each byte
//! comes first. `bits_value` gives the unsigned integer read from a run of
//! such bits, most significant bit first; every contract in this crate is
//! stated over it.

use vstd::prelude::*;
use vstd::arithmetic::power2::{
    pow2, lemma_pow2_unfold, lemma_pow2_pos, lemma_pow2_strictly_increases, lemma2_to64,
};
use vstd::arithmetic::div_mod::{
    lemma_fundamental_div_mod, lemma_fundamental_div_mod_converse_div,
    lemma_fundamental_div_mod_converse_mod,
};
use crate::error::FlacError;

verus! {

/// The value (0 or 1) of bit `i` of `data`, counting bits most significant
/// first within each byte, in document order across byte boundaries.
pub open spec fn bit_of(data: Seq<u8>, i: int) -> nat {
    ((data[i / 8] >> ((7 - (i % 8)) as u8)) & 1) as nat
}

/// The unsigned integer value of the `n` bits of `data` starting at bit
/// offset `off`, most significant bit first.
pub open spec fn bits_value(data: Seq<u8>, off: int, n: nat) -> nat
    decreases n,
{
    if n == 0 {
        0
    } else {
        2 * bits_value(data, off, (n - 1) as nat) + bit_of(data, off + n - 1)
    }
}

/// A single bit is zero or one.
pub proof fn lemma_bit_of_le_one(data: Seq<u8>, i: int)
    ensures
        bit_of(data, i) <= 1,
{
    let x = data[i / 8];
    let k = (7 - (i % 8)) as u8;
    assert((x >> k) & 1 <= 1) by (bit_vector);
}

/// A run of `n` bits reads as a value below `pow2(n)`.
pub proof fn lemma_bits_value_bound(data: Seq<u8>, off: int, n: nat)
    ensures
        bits_value(data, off, n) < pow2(n),
    decreases n,
{
    if n == 0 {
        lemma2_to64();
    } else {
        lemma_bits_value_bound(data, off, (n - 1) as nat);
        lemma_bit_of_le_one(data, off + n - 1);
        lemma_pow2_unfold(n);
    }
}

/// Splitting a run of bits: the first `a` bits are the high part of the
/// value and the following `b` bits the low part.
pub proof fn lemma_bits_value_concat(data: Seq<u8>, off: int, a: nat, b: nat)
    ensures
        bits_value(data, off, a + b) == bits_value(data, off, a) * pow2(b) + bits_value(
            data,
            off + a,
            b,
        ),
    decreases b,
{
    let va = bits_value(data, off, a);
    if b == 0 {
        lemma2_to64();
    } else {
        lemma_bits_value_concat(data, off, a, (b - 1) as nat);
        lemma_pow2_unfold(b);
        assert(bits_value(data, off, a + b) == 2 * bits_value(data, off, (a + b - 1) as nat)
            + bit_of(data, off + a + b - 1));
        assert(2 * (va * pow2((b - 1) as nat)) == va * (2 * pow2((b - 1) as nat)))
            by (nonlinear_arith);
    }
}

/// The first `m` bits of a longer run are its value shifted down.
pub proof fn lemma_bits_value_prefix(data: Seq<u8>, off: int, m: nat, n: nat)
    requires
        m <= n,
    ensures
        bits_value(data, off, m) == bits_value(data, off, n) / pow2((n - m) as nat),
{
    let b = (n - m) as nat;
    lemma_bits_value_concat(data, off, m, b);
    lemma_bits_value_bound(data, off + m, b);
    lemma_pow2_pos(b);
    lemma_fundamental_div_mod_converse_div(
        bits_value(data, off, n) as int,
        pow2(b) as int,
        bits_value(data, off, m) as int,
        bits_value(data, off + m, b) as int,
    );
}

/// The last `n - m` bits of a run are its value reduced modulo `pow2(n - m)`.
pub proof fn lemma_bits_value_suffix(data: Seq<u8>, off: int, m: nat, n: nat)
    requires
        m <= n,
    ensures
        bits_value(data, off + m, (n - m) as nat) == bits_value(data, off, n) % pow2(
            (n - m) as nat,
        ),
{
    let b = (n - m) as nat;
    lemma_bits_value_concat(data, off, m, b);
    lemma_bits_value_bound(data, off + m, b);
    lemma_pow2_pos(b);
    lemma_fundamental_div_mod_converse_mod(
        bits_value(data, off, n) as int,
        pow2(b) as int,
        bits_value(data, off, m) as int,
        bits_value(data, off + m, b) as int,
    );
}

/// Bit `j` of byte `k` of the buffer, read through the flat bit numbering.
proof fn lemma_bit_of_in_byte(data: Seq<u8>, k: int, j: int)
    requires
        0 <= j < 8,
    ensures
        bit_of(data, 8 * k + j) == ((data[k] >> ((7 - j) as u8)) & 1) as nat,
{
    lemma_fundamental_div_mod_converse_div(8 * k + j, 8, k, j);
    lemma_fundamental_div_mod_converse_mod(8 * k + j, 8, k, j);
}

/// A byte-aligned run of eight bits is exactly that byte.
pub proof fn lemma_bits_value_byte(data: Seq<u8>, k: int)
    requires
        0 <= k < data.len(),
    ensures
        bits_value(data, 8 * k, 8) == data[k],
{
    let x = data[k];
    lemma_bit_of_in_byte(data, k, 0);
    lemma_bit_of_in_byte(data, k, 1);
    lemma_bit_of_in_byte(data, k, 2);
    lemma_bit_of_in_byte(data, k, 3);
    lemma_bit_of_in_byte(data, k, 4);
    lemma_bit_of_in_byte(data, k, 5);
    lemma_bit_of_in_byte(data, k, 6);
    lemma_bit_of_in_byte(data, k, 7);
    assert(bits_value(data, 8 * k, 0) == 0);
    assert(bits_value(data, 8 * k, 1) == 2 * bits_value(data, 8 * k, 0) + bit_of(data, 8 * k));
    assert(bits_value(data, 8 * k, 2) == 2 * bits_value(data, 8 * k, 1) + bit_of(data, 8 * k + 1));
    assert(bits_value(data, 8 * k, 3) == 2 * bits_value(data, 8 * k, 2) + bit_of(data, 8 * k + 2));
    assert(bits_value(data, 8 * k, 4) == 2 * bits_value(data, 8 * k, 3) + bit_of(data, 8 * k + 3));
    assert(bits_value(data, 8 * k, 5) == 2 * bits_value(data, 8 * k, 4) + bit_of(data, 8 * k + 4));
    assert(bits_value(data, 8 * k, 6) == 2 * bits_value(data, 8 * k, 5) + bit_of(data, 8 * k + 5));
    assert(bits_value(data, 8 * k, 7) == 2 * bits_value(data, 8 * k, 6) + bit_of(data, 8 * k + 6));
    assert(bits_value(data, 8 * k, 8) == 2 * bits_value(data, 8 * k, 7) + bit_of(data, 8 * k + 7));
    assert(x == 128 * ((x >> 7) & 1) + 64 * ((x >> 6) & 1) + 32 * ((x >> 5) & 1) + 16 * ((x >> 4)
        & 1) + 8 * ((x >> 3) & 1) + 4 * ((x >> 2) & 1) + 2 * ((x >> 1) & 1) + ((x >> 0) & 1))
        by (bit_vector);
}

/// Reading bits out of `data.subrange(s, e)` is reading the same bits out of
/// `data` at the shifted offset.
pub proof fn lemma_bits_value_subrange(data: Seq<u8>, s: int, e: int, off: int, n: nat)
    requires
        0 <= s <= e <= data.len(),
        0 <= off,
        off + n <= 8 * (e - s),
    ensures
        bits_value(data.subrange(s, e), off, n) == bits_value(data, 8 * s + off, n),
    decreases n,
{
    if n > 0 {
        lemma_bits_value_subrange(data, s, e, off, (n - 1) as nat);
        let m = off + n - 1;
        lemma_fundamental_div_mod(m, 8);
        lemma_fundamental_div_mod_converse_div(8 * s + m, 8, s + m / 8, m % 8);
        lemma_fundamental_div_mod_converse_mod(8 * s + m, 8, s + m / 8, m % 8);
        assert(data.subrange(s, e)[m / 8] == data[s + m / 8]);
        assert(bit_of(data.subrange(s, e), m) == bit_of(data, 8 * s + m));
    }
}

/// A sequential sub-byte reader over a fixed byte buffer.
///
/// The cursor starts at bit offset 0 and only moves forward: bits already
/// consumed are never re-read, and the buffer is never written.
pub struct BitCursor<'a> {
    data: &'a [u8],
    pos: usize,
}

impl<'a> BitCursor<'a> {
    /// The bytes the cursor reads from.
    pub closed spec fn buf(self) -> Seq<u8> {
        self.data@
    }

    /// The current bit offset: bits before it have been consumed.
    pub closed spec fn offset(self) -> nat {
        self.pos as nat
    }

    /// The offset never passes the end of the buffer, and every bit offset
    /// of the buffer is representable.
    pub closed spec fn wf(self) -> bool {
        &&& 8 * self.buf().len() <= usize::MAX
        &&& self.offset() <= 8 * self.buf().len()
    }

    /// A cursor over `data`, positioned at its first bit.
    pub fn new(data: &'a [u8]) -> (c: Self)
        requires
            8 * data@.len() <= usize::MAX,
        ensures
            c.wf(),
            c.buf() == data@,
            c.offset() == 0,
    {
        BitCursor { data, pos: 0 }
    }

    /// The next `n` bits as an unsigned integer, most significant bit first,
    /// advancing the offset by `n`; `OutOfBits` if and only if fewer than `n`
    /// bits remain, in which case the cursor does not move.
    pub fn read_bits(&mut self, n: usize) -> (r: Result<u64, FlacError>)
        requires
            old(self).wf(),
            n <= 64,
        ensures
            final(self).wf(),
            final(self).buf() == old(self).buf(),
            match r {
                Ok(v) => {
                    &&& old(self).offset() + n <= 8 * old(self).buf().len()
                    &&& final(self).offset() == old(self).offset() + n
                    &&& v == bits_value(old(self).buf(), old(self).offset() as int, n as nat)
                    &&& v < pow2(n as nat)
                },
                Err(e) => {
                    &&& e == FlacError::OutOfBits
                    &&& old(self).offset() + n > 8 * old(self).buf().len()
                    &&& final(self).offset() == old(self).offset()
                },
            },
    {
        let len = self.data.len();
        if n > 8 * len - self.pos {
            return Err(FlacError::OutOfBits);
        }
        let ghost buf = self.data@;
        let ghost start = self.pos as int;
        let mut acc: u64 = 0;
        let mut i: usize = 0;
        proof {
            lemma2_to64();
        }
        while i < n
            invariant
                i <= n,
                n <= 64,
                self.data@ == buf,
                8 * buf.len() <= usize::MAX,
                self.pos + n <= 8 * buf.len(),
                start == self.pos as int,
                acc == bits_value(buf, start, i as nat),
                acc < pow2(i as nat),
                pow2(64) == 0x10000000000000000,
            decreases n - i,
        {
            let idx = (self.pos + i) / 8;
            let sh = (7 - ((self.pos + i) % 8)) as u8;
            let bit = (self.data[idx] >> sh) & 1;
            proof {
                lemma_bit_of_le_one(buf, start + i);
                assert(bit == bit_of(buf, start + i));
                assert(bits_value(buf, start, (i + 1) as nat) == 2 * bits_value(
                    buf,
                    start,
                    i as nat,
                ) + bit_of(buf, start + i));
                if ((i + 1) as nat) < 64 {
                    lemma_pow2_strictly_increases((i + 1) as nat, 64);
                }
                lemma_pow2_unfold((i + 1) as nat);
            }
            acc = 2 * acc + bit as u64;
            i = i + 1;
        }
        self.pos = self.pos + n;
        Ok(acc)
    }
}

} // verus!
