//! 128-bit vectors held in a `u128`, and the few vector operations that folding needs.
//!
//! Byte `i` of a vector is bits `8 * i .. 8 * i + 8` of the word; the low quadword
//! is the low 64 bits.

use vstd::prelude::*;
use crate::specialized::residue::{byte, le_bytes};

verus! {

/// The low quadword of a vector.
pub open spec fn lo64(v: u128) -> u64 {
    (v & 0xffff_ffff_ffff_ffff) as u64
}

/// The high quadword of a vector.
pub open spec fn hi64(v: u128) -> u64 {
    (v >> 64) as u64
}

/// One quadword of a vector: the high one or the low one.
pub open spec fn quadword(v: u128, high: bool) -> u64 {
    if high {
        hi64(v)
    } else {
        lo64(v)
    }
}

/// What bit `i` of `a` adds to the carry-less product of `a` and `b`.
pub open spec fn clmul_term(a: u64, b: u64, i: nat) -> u128 {
    if (a >> (i as u64)) & 1 == 1 {
        (b as u128) << (i as u128)
    } else {
        0
    }
}

/// The carry-less product of the `n` lowest bits of `a` with `b`.
pub open spec fn clmul_low(a: u64, b: u64, n: nat) -> u128
    decreases n,
{
    if n == 0 {
        0
    } else {
        clmul_low(a, b, (n - 1) as nat) ^ clmul_term(a, b, (n - 1) as nat)
    }
}

/// The carry-less product of two quadwords: the product of two polynomials over
/// GF(2), bit `i` holding the coefficient of the `i`-th power.
pub open spec fn clmul(a: u64, b: u64) -> u128 {
    clmul_low(a, b, 64)
}

/// What the selector byte `c` of a shuffle puts into byte `j`.
pub open spec fn shuffle_term(a: u128, c: u128, j: nat) -> u128 {
    if c & 0x80 != 0 {
        0
    } else {
        ((a >> (8 * (c & 0xf))) & 0xff) << ((8 * j) as u128)
    }
}

/// The `n` lowest bytes of a shuffle of `a` by the selectors `m`.
pub open spec fn shuffle_low(a: u128, m: u128, n: nat) -> u128
    decreases n,
{
    if n == 0 {
        0
    } else {
        let j = (n - 1) as nat;
        shuffle_low(a, m, j) | shuffle_term(a, (m >> ((8 * j) as u128)) & 0xff, j)
    }
}

/// The bytes of `a` shuffled by the selectors `m`: byte `j` of the result is zero
/// where the selector has its high bit set, and else the byte of `a` that the low four
/// bits of the selector name.
pub open spec fn shuffle(a: u128, m: u128) -> u128 {
    shuffle_low(a, m, 16)
}

/// The vector of four doublewords, `e0` lowest.
pub open spec fn pack32(e3: u32, e2: u32, e1: u32, e0: u32) -> u128 {
    ((e3 as u128) << 96) | ((e2 as u128) << 64) | ((e1 as u128) << 32) | (e0 as u128)
}

/// The parts of a vector fit their types, and the bits of a selector.
proof fn lemma_vector_bits(a: u128, y: u64, x: u64, i: u32, r: u128, c: u128, e: u8)
    by (bit_vector)
    requires
        i < 64,
    ensures
        (e & 0x01 != 0) == (e % 2 == 1),
        (e & 0x10 != 0) == ((e / 16) % 2 == 1),
        a & 0xffff_ffff_ffff_ffff <= 0xffff_ffff_ffff_ffff,
        a >> 64 <= 0xffff_ffff_ffff_ffff,
        ((x >> i) & 1 != 0) == ((x >> i) & 1 == 1),
        r ^ 0 == r,
        r | 0 == r,
        c & 0xff <= 0xff,
        c & 0xf <= 0xf,
        (a >> 32) & 0xffff_ffff <= 0xffff_ffff,
        (a >> 64) & 0xffff_ffff <= 0xffff_ffff,
        (a >> 96) & 0xffff_ffff <= 0xffff_ffff,
        a & 0xffff_ffff <= 0xffff_ffff,
        (a >> 0) == a,
{
}

/// The carry-less product of one quadword of `a` and one of `b`. Bit 0 of `imm8`
/// picks the high quadword of `a`, bit 4 that of `b`.
pub fn clmulepi64_si128(a: u128, b: u128, imm8: u8) -> (r: u128)
    ensures
        r == clmul(quadword(a, imm8 % 2 == 1), quadword(b, (imm8 / 16) % 2 == 1)),
{
    proof {
        lemma_vector_bits(a, 0, 0, 0, 0, 0, imm8);
        lemma_vector_bits(b, 0, 0, 0, 0, 0, imm8);
    }
    let x: u64 = if imm8 & 0x01 != 0 {
        (a >> 64) as u64
    } else {
        (a & 0xffff_ffff_ffff_ffff) as u64
    };
    let y: u64 = if imm8 & 0x10 != 0 {
        (b >> 64) as u64
    } else {
        (b & 0xffff_ffff_ffff_ffff) as u64
    };
    let mut r: u128 = 0;
    let mut i: u32 = 0;
    while i < 64
        invariant
            i <= 64,
            r == clmul_low(x, y, i as nat),
        decreases 64 - i,
    {
        proof {
            lemma_vector_bits(0, y, x, i, r, 0, 0);
        }
        if (x >> i) & 1 != 0 {
            r ^= (y as u128) << i;
        }
        i += 1;
    }
    r
}

/// The bytes of `a` shuffled by the selectors `mask`.
pub fn shuffle_epi8(a: u128, mask: u128) -> (r: u128)
    ensures
        r == shuffle(a, mask),
{
    let mut r: u128 = 0;
    let mut j: u32 = 0;
    while j < 16
        invariant
            j <= 16,
            r == shuffle_low(a, mask, j as nat),
        decreases 16 - j,
    {
        let c: u128 = (mask >> (8 * j)) & 0xff;
        proof {
            lemma_vector_bits(0, 0, 0, 0, r, c, 0);
        }
        if c & 0x80 == 0 {
            r |= ((a >> (8 * (c & 0xf))) & 0xff) << (8 * j);
        }
        j += 1;
    }
    r
}

/// `a` moved up by `n` bytes, zeros coming in.
pub fn slli_si128(a: u128, n: u32) -> (r: u128)
    ensures
        r == (if n < 16 { a << ((8 * n) as u128) } else { 0 }),
{
    if n < 16 {
        a << (8 * n)
    } else {
        0
    }
}

/// `a` moved down by `n` bytes, zeros coming in.
pub fn srli_si128(a: u128, n: u32) -> (r: u128)
    ensures
        r == (if n < 16 { a >> ((8 * n) as u128) } else { 0 }),
{
    if n < 16 {
        a >> (8 * n)
    } else {
        0
    }
}

/// The vector of four doublewords, `e0` lowest.
pub fn set_epi32(e3: u32, e2: u32, e1: u32, e0: u32) -> (r: u128)
    ensures
        r == pack32(e3, e2, e1, e0),
{
    ((e3 as u128) << 96) | ((e2 as u128) << 64) | ((e1 as u128) << 32) | (e0 as u128)
}

/// Doubleword `index` of `a`.
pub fn extract_epi32(a: u128, index: u32) -> (r: u32)
    requires
        index < 4,
    ensures
        r == ((a >> ((32 * index) as u128)) & 0xffff_ffff) as u32,
{
    proof {
        lemma_vector_bits(a, 0, 0, 0, 0, 0, 0);
    }
    if index == 0 {
        (a & 0xffff_ffff) as u32
    } else if index == 1 {
        ((a >> 32) & 0xffff_ffff) as u32
    } else if index == 2 {
        ((a >> 64) & 0xffff_ffff) as u32
    } else {
        ((a >> 96) & 0xffff_ffff) as u32
    }
}

/// One more byte put above the bytes of a vector.
proof fn lemma_load_bits(v: u128, b: u8, k: u32, j: u32)
    by (bit_vector)
    requires
        k < 16,
        j <= k,
        v >> ((8 * k) as u128) == 0,
    ensures
        j < k ==> (((v | ((b as u128) << ((8 * k) as u128))) >> ((8 * j) as u128)) & 0xff) == (v
            >> ((8 * j) as u128)) & 0xff,
        (((v | ((b as u128) << ((8 * k) as u128))) >> ((8 * k) as u128)) & 0xff) == b as u128,
        k < 15 ==> (v | ((b as u128) << ((8 * k) as u128))) >> ((8 * (k + 1)) as u128) == 0,
        ((v >> ((8 * j) as u128)) & 0xff) <= 0xff,
{
}

/// The vector of the `n` bytes of `buf` from `pos` on, the first one lowest; its other
/// bytes are zero.
pub fn load_bytes(buf: &[u8], pos: usize, n: usize) -> (r: u128)
    requires
        n <= 16,
        pos + n <= buf.len(),
    ensures
        le_bytes(r, n as nat) == buf@.subrange(pos as int, pos + n),
        n < 16 ==> r >> ((8 * n) as u128) == 0,
{
    let mut r: u128 = 0;
    let mut k: usize = 0;
    proof {
        lemma_vector_bits(0, 0, 0, 0, 0, 0, 0);
    }
    while k < n
        invariant
            k <= n <= 16,
            pos + n <= buf.len(),
            k < 16 ==> r >> ((8 * k) as u128) == 0,
            forall|j: int| 0 <= j < k ==> #[trigger] byte(r, j) == buf@[pos + j],
        decreases n - k,
    {
        let b = buf[pos + k];
        let ghost old_r = r;
        r |= (b as u128) << (8 * k);
        proof {
            assert forall|j: int| 0 <= j < k + 1 implies #[trigger] byte(r, j) == buf@[pos + j] by {
                lemma_load_bits(old_r, b, k as u32, j as u32);
                assert(r == old_r | ((b as u128) << ((8 * (k as u32)) as u128)));
                if j < k {
                    assert(byte(old_r, j) == buf@[pos + j]);
                }
            }
            lemma_load_bits(old_r, b, k as u32, 0);
        }
        k += 1;
    }
    proof {
        assert(le_bytes(r, n as nat) =~= buf@.subrange(pos as int, pos + n));
    }
    r
}

/// The vector of the sixteen bytes of `buf` from `pos` on, the first one lowest.
pub fn loadu_si128(buf: &[u8], pos: usize) -> (r: u128)
    requires
        pos + 16 <= buf.len(),
    ensures
        le_bytes(r, 16) == buf@.subrange(pos as int, pos + 16),
{
    load_bytes(buf, pos, 16)
}

} // verus!
