//! The last reduction: from four lanes to one, from 128 bits to 96 and to 64, and
//! from 64 bits to the 32 bits of the register.

use vstd::prelude::*;
use crate::gf2::{mul_xn, xpow, lemma_xor_laws, lemma_mul_xn_xor, lemma_mul_xn_add};
use crate::specialized::residue::{
    bit, absorb, lane, window, low_mask, lemma_bits, lemma_absorb_split, lemma_absorb_same_bits,
    lemma_absorb_zero, lemma_absorb_xor, lemma_absorb_concat, lemma_absorb_word,
};
use crate::specialized::vector::{lo64, hi64, clmul_term, clmul_low, clmul};
use crate::specialized::pclmulqdq::{CRC_MASK, CRC_MASK2};
use crate::specialized::folding::{
    residue64, fold_by, lemma_wide_xor, lemma_clmul_residue, lemma_clmul_multiple,
    lemma_lane_halves, lemma_fold_residue, lemma_window_nested,
};

verus! {

/// Folds a lane over 512 bits: low quadword.
pub const FOLD4_LO: u64 = 0x1_c6e4_1596;

/// Folds a lane over 512 bits: high quadword.
pub const FOLD4_HI: u64 = 0x1_5444_2bd4;

/// Folds a lane over 128 bits: low quadword.
pub const RK1: u64 = 0xccaa_009e;

/// Folds a lane over 128 bits: high quadword.
pub const RK2: u64 = 0x1_7519_97d0;

/// Folds the first quadword of a lane into the rest.
pub const RK5: u64 = 0xccaa_009e;

/// Folds the first doubleword of 96 bits into the rest.
pub const RK6: u64 = 0x1_63cd_6124;

/// The quotient of `x^64` by the generator, without its lowest bit.
pub const RK7: u64 = 0x1_f701_1640;

/// The generator, without its lowest bit.
pub const RK8: u64 = 0x1_db71_0640;

/// The `n` lowest bits of a quadword.
pub open spec fn low_mask64(n: nat) -> u64 {
    if n >= 64 {
        0xffff_ffff_ffff_ffffu64
    } else {
        ((1u64 << (n as u64)) - 1) as u64
    }
}

/// A lane taken into the next: `acc` plus `v` folded over 128 bits.
pub open spec fn fold_into(acc: u128, v: u128) -> u128 {
    acc ^ fold_by(v, RK1, RK2)
}

/// Four lanes taken into one, each into the next.
pub open spec fn fold_row(c0: u128, c1: u128, c2: u128, c3: u128) -> u128 {
    fold_into(c3, fold_into(c2, fold_into(c1, c0)))
}

/// A lane reduced to its first 96 bits: the first quadword, folded, goes into the
/// second.
pub open spec fn reduce_128(v: u128) -> u128 {
    clmul(lo64(v), RK5) ^ (v >> 64)
}

/// A lane reduced to 64 bits that stand in its two middle doublewords.
pub open spec fn reduce_96(v: u128) -> u128 {
    let w = reduce_128(v);
    (clmul(lo64(w << 32), RK6) ^ w) & CRC_MASK2
}

/// The quotient of the Barrett reduction of the quadword `a`.
pub open spec fn barrett_quotient(a: u64) -> u64 {
    lo64(clmul(a, RK7)) ^ a
}

/// The low quadword of what the Barrett reduction leaves of the quadword `a`.
pub open spec fn barrett_low(a: u64) -> u64 {
    (lo64(clmul(barrett_quotient(a), RK8)) ^ barrett_quotient(a)) ^ a
}

/// The quotient of the Barrett reduction of the 64 bits that stand in the two middle
/// doublewords of `u`, in the second doubleword.
pub open spec fn barrett_step(u: u128) -> u128 {
    (clmul(lo64(u), RK7) ^ u) & CRC_MASK
}

/// The Barrett reduction of 64 bits that stand in the two middle doublewords of `u`:
/// the remainder is left in the third doubleword.
pub open spec fn barrett(u: u128) -> u128 {
    let q = barrett_step(u);
    (clmul(lo64(q), RK8) ^ q) ^ u
}

/// What the constants of folding are: powers of `x` modulo the generator, and the
/// generator itself.
pub proof fn lemma_constants()
    by (bit_vector)
    ensures
        absorb(0, 0x1_c6e4_1596u128, 65) == xpow(544),
        absorb(0, 0x1_5444_2bd4u128, 65) == xpow(608),
        absorb(0, 0xccaa_009eu128, 65) == xpow(160),
        absorb(0, 0x1_7519_97d0u128, 65) == xpow(224),
        absorb(0, 0xccaa_009eu128, 33) == xpow(128),
        absorb(0, 0x1_63cd_6124u128, 33) == xpow(96),
        absorb(0, 0x1_db71_0641u128, 33) == 0,
        0xccaa_009eu128 >> 33 == 0,
        0x1_63cd_6124u128 >> 33 == 0,
        0x1_db71_0641u128 >> 33 == 0,
        0x1_db71_0640u64 ^ 1 == 0x1_db71_0641u64,
        window(0x9db4_2487u128, 0, 0, 0) == 0xffff_ffffu32,
{
}

/// Folding a lane over 512 bits multiplies its residue by `x^512`.
pub proof fn lemma_fold4_residue(v: u128)
    ensures
        lane(fold_by(v, FOLD4_LO, FOLD4_HI)) == mul_xn(lane(v), 512),
{
    lemma_constants();
    lemma_fold_residue(v, FOLD4_LO, FOLD4_HI, 512);
}

/// Taking four lanes into one, each into the next, leaves a lane with the residue of
/// the four.
pub proof fn lemma_fold_into(c0: u128, c1: u128, c2: u128, c3: u128)
    ensures
        lane(fold_row(c0, c1, c2, c3)) == window(c0, c1, c2, c3),
{
    lemma_constants();
    let x1 = fold_into(c1, c0);
    let x2 = fold_into(c2, x1);
    lemma_fold_residue(c0, RK1, RK2, 128);
    lemma_fold_residue(x1, RK1, RK2, 128);
    lemma_fold_residue(x2, RK1, RK2, 128);
    lemma_absorb_xor(c1, fold_by(c0, RK1, RK2), 128);
    lemma_absorb_xor(c2, fold_by(x1, RK1, RK2), 128);
    lemma_absorb_xor(c3, fold_by(x2, RK1, RK2), 128);
    lemma_absorb_split(lane(c0), c1, 128);
    lemma_absorb_split(lane(x1), c2, 128);
    lemma_absorb_split(lane(x2), c3, 128);
    lemma_xor_laws(lane(c1), mul_xn(lane(c0), 128), 0);
    lemma_xor_laws(lane(c2), mul_xn(lane(x1), 128), 0);
    lemma_xor_laws(lane(c3), mul_xn(lane(x2), 128), 0);
    lemma_window_nested(c0, c1, c2, c3);
}

/// What one bit of a factor adds to a carry-less product.
proof fn lemma_term_facts(a: u64, b: u64, k: u64, j: u64, p: u128, t: u128)
    by (bit_vector)
    requires
        j < 64,
    ensures
        (if ((a ^ b) >> j) & 1 == 1 {
            (k as u128) << (j as u128)
        } else {
            0
        }) == (if (a >> j) & 1 == 1 {
            (k as u128) << (j as u128)
        } else {
            0
        }) ^ (if (b >> j) & 1 == 1 {
            (k as u128) << (j as u128)
        } else {
            0
        }),
        (if (a >> j) & 1 == 1 {
            ((k ^ 1) as u128) << (j as u128)
        } else {
            0
        }) == (if (a >> j) & 1 == 1 {
            (k as u128) << (j as u128)
        } else {
            0
        }) ^ ((a as u128) & (1u128 << (j as u128))),
        (a as u128) & (((1u128 << ((j + 1) as u128)) - 1) as u128) == ((a as u128) & (((1u128 << (
        j as u128)) - 1) as u128)) ^ ((a as u128) & (1u128 << (j as u128))),
        (a as u128) & (((1u128 << 0) - 1) as u128) == 0,
        (a as u128) & (((1u128 << 64) - 1) as u128) == a as u128,
        a & 0xffff_ffff == 0 ==> ((if (a >> j) & 1 == 1 {
            (k as u128) << (j as u128)
        } else {
            0
        }) & 0xffff_ffff) == 0,
        (p & 0xffff_ffff == 0 && t & 0xffff_ffff == 0) ==> (p ^ t) & 0xffff_ffff == 0,
        0u128 & 0xffff_ffff == 0,
{
}

/// A carry-less product is linear in its first factor.
pub proof fn lemma_clmul_low_xor(a: u64, b: u64, k: u64, n: nat)
    requires
        n <= 64,
    ensures
        clmul_low(a ^ b, k, n) == clmul_low(a, k, n) ^ clmul_low(b, k, n),
    decreases n,
{
    if n == 0 {
        lemma_wide_xor(0, 0, 0, 0);
    } else {
        let j = (n - 1) as nat;
        lemma_clmul_low_xor(a, b, k, j);
        lemma_term_facts(a, b, k, j as u64, 0, 0);
        lemma_wide_xor(
            clmul_low(a, k, j),
            clmul_term(a, k, j),
            clmul_low(b, k, j),
            clmul_term(b, k, j),
        );
    }
}

/// A carry-less product with `k ^ 1`, bit by bit of the other factor.
proof fn lemma_clmul_low_odd(a: u64, k: u64, n: nat)
    requires
        n <= 64,
    ensures
        clmul_low(a, k ^ 1, n) == clmul_low(a, k, n) ^ ((a as u128) & low_mask(n)),
    decreases n,
{
    if n == 0 {
        lemma_term_facts(a, 0, k, 0, 0, 0);
        lemma_wide_xor(0, 0, 0, 0);
    } else {
        let j = (n - 1) as nat;
        lemma_clmul_low_odd(a, k, j);
        lemma_term_facts(a, 0, k, j as u64, 0, 0);
        lemma_wide_xor(
            clmul_low(a, k, j),
            (a as u128) & low_mask(j),
            clmul_term(a, k, j),
            (a as u128) & (1u128 << (j as u128)),
        );
    }
}

/// A carry-less product with `k ^ 1` is that with `k`, plus the other factor.
pub proof fn lemma_clmul_odd(a: u64, k: u64)
    ensures
        clmul(a, k ^ 1) == clmul(a, k) ^ (a as u128),
{
    lemma_clmul_low_odd(a, k, 64);
    lemma_term_facts(a, 0, k, 0, 0, 0);
}

/// A carry-less product keeps 32 zero bits at the low end of its first factor.
proof fn lemma_clmul_low_aligned(a: u64, k: u64, n: nat)
    requires
        n <= 64,
        a & 0xffff_ffff == 0,
    ensures
        clmul_low(a, k, n) & 0xffff_ffff == 0,
    decreases n,
{
    if n == 0 {
        lemma_term_facts(a, 0, k, 0, 0, 0);
    } else {
        let j = (n - 1) as nat;
        lemma_clmul_low_aligned(a, k, j);
        lemma_term_facts(a, 0, k, j as u64, clmul_low(a, k, j), clmul_term(a, k, j));
    }
}

/// The low bits of a lane whose low doubleword or quadword is zero.
proof fn lemma_low_zero_facts(f: u128, i: u128)
    by (bit_vector)
    requires
        i < 64,
    ensures
        (f & 0xffff_ffff == 0 && i < 32) ==> (f >> i) & 1 == 0,
        f & 0xffff_ffff_ffff_ffff == 0 ==> (f >> i) & 1 == 0,
{
}

/// A lane whose first `n` bits are zero, for `n` of 32 or 64, starts with the
/// residue zero.
pub proof fn lemma_absorb_low_zero(f: u128, n: nat)
    requires
        n == 32 && f & 0xffff_ffff == 0 || n == 64 && f & 0xffff_ffff_ffff_ffff == 0,
    ensures
        absorb(0, f, n) == 0,
{
    assert forall|i: nat| i < n implies bit(f, i) == bit(0, i) by {
        lemma_low_zero_facts(f, i as u128);
        lemma_bits(0, 0, i, 0);
    }
    lemma_absorb_same_bits(0, f, 0, n);
    lemma_absorb_zero(n);
}

/// Quadwords and doublewords of lanes under shifts and masks.
proof fn lemma_reduce_facts(v: u128, w: u128, x: u128)
    by (bit_vector)
    ensures
        (v >> 64) >> 64 == 0,
        v >> 64 <= 0xffff_ffff_ffff_ffff,
        v & 0xffff_ffff_ffff_ffff <= 0xffff_ffff_ffff_ffff,
        ((w << 32) & 0xffff_ffff_ffff_ffff) >> 32 == w & 0xffff_ffff,
        ((w << 32) & 0xffff_ffff_ffff_ffff) & 0xffff_ffff == 0,
        (x & CRC_MASK2) >> 32 == x >> 32,
        (x & CRC_MASK2) & 0xffff_ffff == 0,
        (((1u128 << 32) - 1) as u128) == 0xffff_ffff,
        (((v ^ w) & 0xffff_ffff_ffff_ffff) as u64) == ((v & 0xffff_ffff_ffff_ffff) as u64) ^ ((w
            & 0xffff_ffff_ffff_ffff) as u64),
        ((v & CRC_MASK) & 0xffff_ffff_ffff_ffff) == v & 0xffff_ffff_ffff_ffff,
        ((v & CRC_MASK) & 0xffff_ffff_ffff_ffff) == v & CRC_MASK,
{
}

/// The first 96 bits of a reduced lane have the residue of the lane, times `x^32`, and
/// its first 32 bits are zero.
pub proof fn lemma_reduce_96(v: u128)
    ensures
        absorb(0, reduce_96(v), 96) == mul_xn(lane(v), 32),
        reduce_96(v) & 0xffff_ffff == 0,
{
    lemma_constants();
    let lo = residue64(lo64(v));
    let hi = residue64(hi64(v));
    let c5 = clmul(lo64(v), RK5);
    let w = c5 ^ (v >> 64);
    lemma_reduce_facts(v, w, 0);
    // the first quadword goes into the second
    assert(absorb(0, w, 96) == mul_xn(lane(v), 32)) by {
        lemma_clmul_residue(lo64(v), RK5, 96, 128);
        lemma_absorb_concat(0, v >> 64, 64, 32);
        lemma_absorb_split(hi, 0, 32);
        lemma_absorb_zero(32);
        lemma_xor_laws(mul_xn(hi, 32), 0, 0);
        lemma_absorb_xor(c5, v >> 64, 96);
        lemma_lane_halves(v);
        lemma_mul_xn_xor(mul_xn(lo, 64), hi, 32);
        lemma_mul_xn_add(lo, 64, 32);
    }
    // the first doubleword of what is left goes into the other two
    let a = lo64(w << 32);
    let c6 = clmul(a, RK6);
    let x = c6 ^ w;
    let u = x & CRC_MASK2;
    let h = absorb(0, w, 32);
    lemma_reduce_facts(w << 32, w, x);
    assert(residue64(a) == h) by {
        lemma_absorb_concat(0, a as u128, 32, 32);
        lemma_absorb_low_zero(a as u128, 32);
        assert forall|i: nat| i < 32 implies bit(w & low_mask(32), i) == bit(w, i) by {
            lemma_bits(w, 0, i, 32);
        }
        lemma_absorb_same_bits(0, w & low_mask(32), w, 32);
    }
    lemma_clmul_residue(a, RK6, 96, 96);
    assert(c6 & 0xffff_ffff == 0) by {
        assert(a & 0xffff_ffff == 0) by {
            assert(((w << 32) & 0xffff_ffff_ffff_ffff) as u64 & 0xffff_ffff == 0) by (bit_vector);
        }
        lemma_clmul_low_aligned(a, RK6, 64);
    }
    lemma_absorb_low_zero(c6, 32);
    lemma_absorb_xor(c6, w, 96);
    lemma_absorb_xor(c6, w, 32);
    lemma_xor_laws(h, 0, 0);
    lemma_absorb_concat(0, x, 32, 64);
    lemma_absorb_split(h, x >> 32, 64);
    lemma_absorb_concat(0, u, 32, 64);
    lemma_absorb_low_zero(u, 32);
    lemma_xor_laws(mul_xn(h, 64), absorb(0, u, 96), absorb(0, w, 96));
}

/// The Barrett reduction leaves nothing of a single bit of the high doubleword; sums of
/// quadwords, regrouped.
proof fn lemma_barrett_facts(j: u64, a: u64, b: u64, c: u64, d: u64, e: u64, f: u64)
    by (bit_vector)
    requires
        32 <= j < 64,
    ensures
        barrett_low(1u64 << j) == 0,
        (a ^ b) ^ (c ^ d) == (a ^ c) ^ (b ^ d),
        ((a ^ b) ^ (c ^ d)) ^ (e ^ f) == ((a ^ c) ^ e) ^ ((b ^ d) ^ f),
        0u64 ^ 0 == 0,
        a ^ a == 0,
        a & (1u64 << j) == 0 || a & (1u64 << j) == 1u64 << j,
        j < 63 ==> a & (((1u64 << ((j + 1) as u64)) - 1) as u64) == (a & (((1u64 << j) - 1) as u64))
            ^ (a & (1u64 << j)),
        j == 63 ==> a == (a & (((1u64 << j) - 1) as u64)) ^ (a & (1u64 << j)),
        a & 0xffff_ffff == 0 ==> a & (((1u64 << 32) - 1) as u64) == 0,
{
}

/// The low quadword of a sum.
proof fn lemma_lo64_xor(p: u128, q: u128)
    ensures
        lo64(p ^ q) == lo64(p) ^ lo64(q),
{
    lemma_reduce_facts(p, q, 0);
}

/// The Barrett reduction is linear.
proof fn lemma_barrett_linear(x: u64, y: u64)
    ensures
        barrett_quotient(x ^ y) == barrett_quotient(x) ^ barrett_quotient(y),
        barrett_low(x ^ y) == barrett_low(x) ^ barrett_low(y),
{
    let gx = barrett_quotient(x);
    let gy = barrett_quotient(y);
    lemma_clmul_low_xor(x, y, RK7, 64);
    lemma_lo64_xor(clmul(x, RK7), clmul(y, RK7));
    lemma_barrett_facts(32, lo64(clmul(x, RK7)), lo64(clmul(y, RK7)), x, y, 0, 0);
    lemma_clmul_low_xor(gx, gy, RK8, 64);
    lemma_lo64_xor(clmul(gx, RK8), clmul(gy, RK8));
    lemma_barrett_facts(32, lo64(clmul(gx, RK8)), lo64(clmul(gy, RK8)), gx, gy, x, y);
}

/// The Barrett reduction leaves nothing in the low quadword, bit by bit of the high
/// doubleword.
proof fn lemma_barrett_span(a: u64, n: nat)
    requires
        32 <= n <= 64,
        a & 0xffff_ffff == 0,
    ensures
        barrett_low(a & low_mask64(n)) == 0,
    decreases n,
{
    if n == 32 {
        lemma_barrett_facts(32, a, 0, 0, 0, 0, 0);
        lemma_barrett_linear(0, 0);
        lemma_barrett_facts(32, barrett_low(0), 0, 0, 0, 0, 0);
    } else {
        let j = (n - 1) as nat;
        lemma_barrett_span(a, j);
        lemma_barrett_facts(j as u64, a, 0, 0, 0, 0, 0);
        let rest = a & low_mask64(j);
        let top = a & (1u64 << (j as u64));
        lemma_barrett_linear(rest, top);
        if top == 0 {
            lemma_barrett_linear(0, 0);
            lemma_barrett_facts(32, barrett_low(0), 0, 0, 0, 0, 0);
        }
        if n == 64 {
            assert(a & 0xffff_ffff_ffff_ffffu64 == a) by (bit_vector);
        }
    }
}

/// The Barrett reduction leaves, in the third doubleword, the register that the 64
/// bits in the two middle doublewords reduce to.
pub proof fn lemma_barrett(u: u128)
    requires
        u & 0xffff_ffff == 0,
    ensures
        mul_xn(((barrett(u) >> 64) & 0xffff_ffff) as u32, 32) == absorb(0, u, 96),
{
    lemma_constants();
    let a = lo64(u);
    let c7 = clmul(a, RK7);
    let q = (c7 ^ u) & CRC_MASK;
    let b = lo64(q);
    let c8 = clmul(b, RK8);
    let fin = (c8 ^ q) ^ u;
    lemma_reduce_facts(c7 ^ u, 0, 0);
    lemma_reduce_facts(c7, u, 0);
    assert(b == barrett_quotient(a));
    assert(q == b as u128);
    // the low quadword of what is left is zero
    assert(fin & 0xffff_ffff_ffff_ffff == 0) by {
        lemma_reduce_facts(c8 ^ q, u, 0);
        lemma_reduce_facts(c8, q, 0);
        assert(lo64(fin) == barrett_low(a));
        assert(a & 0xffff_ffff == 0) by {
            assert(u & 0xffff_ffff == 0 ==> ((u & 0xffff_ffff_ffff_ffff) as u64) & 0xffff_ffff == 0)
                by (bit_vector);
        }
        lemma_barrett_span(a, 64);
        assert(a & 0xffff_ffff_ffff_ffffu64 == a) by (bit_vector);
        assert(((fin & 0xffff_ffff_ffff_ffff) as u64 == 0) ==> fin & 0xffff_ffff_ffff_ffff == 0)
            by (bit_vector);
    }
    // what was taken off is a multiple of the generator
    assert(absorb(0, c8 ^ q, 96) == 0) by {
        lemma_clmul_odd(b, RK8);
        lemma_clmul_multiple(b, RK8 ^ 1, 96);
    }
    lemma_absorb_xor(c8 ^ q, u, 96);
    lemma_xor_laws(absorb(0, u, 96), 0, 0);
    lemma_absorb_concat(0, fin, 64, 32);
    lemma_absorb_low_zero(fin, 64);
    lemma_absorb_word(0, fin >> 64, 32);
    lemma_xor_laws(((fin >> 64) & low_mask(32)) as u32, 0, 0);
}

} // verus!
