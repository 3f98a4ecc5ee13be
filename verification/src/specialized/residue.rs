//! The residue that a run of bits leaves in the register.
//!
//! A 128-bit lane holds sixteen bytes of a stream, the first byte lowest. Bit `i` of
//! the lane is bit `i` of the stream, and the register takes the bits in that order.

use vstd::prelude::*;
use crate::gf2::{
    mul_x, mul_xn, lemma_xor_laws, lemma_xor_cross, lemma_mul_x, lemma_mul_xn_xor,
    lemma_mul_xn_front,
};
use crate::checksum::{update};

verus! {

/// Bit `i` of `v`.
pub open spec fn bit(v: u128, i: nat) -> u32 {
    ((v >> (i as u128)) & 1) as u32
}

/// The register after the `n` lowest bits of `v`, lowest first.
pub open spec fn absorb(reg: u32, v: u128, n: nat) -> u32
    decreases n,
{
    if n == 0 {
        reg
    } else {
        mul_x(absorb(reg, v, (n - 1) as nat) ^ bit(v, (n - 1) as nat))
    }
}

/// The residue of a lane: the register after its 128 bits, from zero.
pub open spec fn lane(v: u128) -> u32 {
    absorb(0, v, 128)
}

/// The residue of four lanes in a row.
pub open spec fn window(c0: u128, c1: u128, c2: u128, c3: u128) -> u32 {
    ((mul_xn(lane(c0), 384) ^ mul_xn(lane(c1), 256)) ^ mul_xn(lane(c2), 128)) ^ lane(c3)
}

/// The `n` lowest bits of a lane.
pub open spec fn low_mask(n: nat) -> u128 {
    if n >= 128 {
        0xffff_ffff_ffff_ffff_ffff_ffff_ffff_ffffu128
    } else {
        ((1u128 << (n as u128)) - 1) as u128
    }
}

/// Byte `i` of a lane.
pub open spec fn byte(v: u128, i: int) -> u8 {
    ((v >> ((8 * i) as u128)) & 0xff) as u8
}

/// The `k` lowest bytes of a lane, lowest first.
pub open spec fn le_bytes(v: u128, k: nat) -> Seq<u8> {
    Seq::new(k, |i: int| byte(v, i))
}

/// Single bits of sums, of shifted lanes and of masked lanes.
proof fn lemma_bit_facts(v: u128, w: u128, i: u128, n: u128)
    by (bit_vector)
    requires
        i < 128,
    ensures
        ((v >> i) & 1) <= 1,
        (((v ^ w) >> i) & 1) as u32 == (((v >> i) & 1) as u32) ^ (((w >> i) & 1) as u32),
        n + i < 128 ==> ((v >> n) >> i) & 1 == (v >> ((n + i) as u128)) & 1,
        (0u128 >> i) & 1 == 0,
        i < n && n < 128 ==> ((v << n) >> i) & 1 == 0,
        i < n && n < 128 ==> ((v & (((1u128 << n) - 1) as u128)) >> i) & 1 == (v >> i) & 1,
{
}

/// The bits of a sum, of a shifted lane and of a masked lane.
pub proof fn lemma_bits(v: u128, w: u128, i: nat, n: nat)
    requires
        i < 128,
    ensures
        bit(v, i) <= 1,
        bit(v ^ w, i) == bit(v, i) ^ bit(w, i),
        n + i < 128 ==> bit(v >> (n as u128), i) == bit(v, n + i),
        bit(0, i) == 0,
        i < n && n < 128 ==> bit(v << (n as u128), i) == 0,
        i < n ==> bit(v & low_mask(n), i) == bit(v, i),
{
    lemma_bit_facts(v, w, i as u128, if n <= 128 { n as u128 } else { 0 });
    if i < n && n >= 128 {
        assert(v & 0xffff_ffff_ffff_ffff_ffff_ffff_ffff_ffffu128 == v) by (bit_vector);
    }
}

/// The register depends on its start and on the bits separately.
pub proof fn lemma_absorb_split(reg: u32, v: u128, n: nat)
    ensures
        absorb(reg, v, n) == mul_xn(reg, n) ^ absorb(0, v, n),
    decreases n,
{
    if n == 0 {
        lemma_xor_laws(reg, 0, 0);
    } else {
        let m = (n - 1) as nat;
        lemma_absorb_split(reg, v, m);
        lemma_xor_laws(mul_xn(reg, m), absorb(0, v, m), bit(v, m));
        lemma_mul_x(mul_xn(reg, m), absorb(0, v, m) ^ bit(v, m));
    }
}

/// Only the bits that are taken count.
pub proof fn lemma_absorb_same_bits(reg: u32, v: u128, w: u128, n: nat)
    requires
        forall|i: nat| i < n ==> bit(v, i) == bit(w, i),
    ensures
        absorb(reg, v, n) == absorb(reg, w, n),
    decreases n,
{
    if n > 0 {
        lemma_absorb_same_bits(reg, v, w, (n - 1) as nat);
    }
}

/// Zero bits leave a zero register at zero.
pub proof fn lemma_absorb_zero(n: nat)
    requires
        n <= 128,
    ensures
        absorb(0, 0, n) == 0,
    decreases n,
{
    if n > 0 {
        lemma_absorb_zero((n - 1) as nat);
        lemma_bits(0, 0, (n - 1) as nat, 0);
        lemma_xor_laws(0, 0, 0);
        lemma_mul_x(0, 0);
    }
}

/// The residue of a sum of lanes is the sum of their residues.
pub proof fn lemma_absorb_xor(v: u128, w: u128, n: nat)
    requires
        n <= 128,
    ensures
        absorb(0, v ^ w, n) == absorb(0, v, n) ^ absorb(0, w, n),
    decreases n,
{
    if n == 0 {
        lemma_xor_laws(0, 0, 0);
    } else {
        let m = (n - 1) as nat;
        lemma_absorb_xor(v, w, m);
        lemma_bits(v, w, m, 0);
        lemma_xor_cross(absorb(0, v, m), absorb(0, w, m), bit(v, m), bit(w, m));
        lemma_mul_x(absorb(0, v, m) ^ bit(v, m), absorb(0, w, m) ^ bit(w, m));
    }
}

/// Taking `n + k` bits is taking `n` bits and then `k` bits of what is left.
pub proof fn lemma_absorb_concat(reg: u32, v: u128, n: nat, k: nat)
    requires
        n + k <= 128,
    ensures
        absorb(reg, v, n + k) == absorb(absorb(reg, v, n), v >> (n as u128), k),
    decreases k,
{
    if k == 0 {
    } else {
        let j = (k - 1) as nat;
        lemma_absorb_concat(reg, v, n, j);
        lemma_bits(v, 0, j, n);
        assert((n + k - 1) as nat == n + j);
    }
}

/// The lowest bits of a lane as a word, one more at a time.
proof fn lemma_low_word_facts(v: u128, k: u32)
    by (bit_vector)
    requires
        k < 32,
    ensures
        (v & (((1u128 << 0) - 1) as u128)) as u32 == 0,
        k < 31 ==> (v & (((1u128 << ((k + 1) as u128)) - 1) as u128)) as u32 == ((v & (((1u128
            << (k as u128)) - 1) as u128)) as u32) ^ ((((v >> (k as u128)) & 1) as u32) << k),
        k == 31 ==> (v & 0xffff_ffff) as u32 == ((v & (((1u128 << (k as u128)) - 1) as u128))
            as u32) ^ ((((v >> (k as u128)) & 1) as u32) << k),
        (v & (((1u128 << 32) - 1) as u128)) == v & 0xffff_ffff,
        k < 31 ==> mul_x(0u32 << ((k + 1) as u32)) == 0u32 << k,
        k < 31 ==> mul_x(1u32 << ((k + 1) as u32)) == 1u32 << k,
        0u32 << 0 == 0,
        1u32 << 0 == 1,
{
}

/// A single bit `k` places up, times `x^k`, is the lowest bit.
proof fn lemma_mul_xn_single(c: u32, k: nat)
    requires
        c <= 1,
        k <= 31,
    ensures
        mul_xn(c << (k as u32), k) == c,
    decreases k,
{
    if k == 0 {
        lemma_low_word_facts(0, 0);
    } else {
        let j = (k - 1) as nat;
        lemma_mul_xn_single(c, j);
        lemma_low_word_facts(0, j as u32);
        lemma_mul_xn_front(c << (k as u32), j);
    }
}

/// Up to 32 bits may be added to the register at once and then multiplied through.
pub proof fn lemma_absorb_word(reg: u32, v: u128, k: nat)
    requires
        k <= 32,
    ensures
        absorb(reg, v, k) == mul_xn(reg ^ ((v & low_mask(k)) as u32), k),
    decreases k,
{
    if k == 0 {
        lemma_low_word_facts(v, 0);
        lemma_xor_laws(reg, 0, 0);
    } else {
        let j = (k - 1) as nat;
        lemma_absorb_word(reg, v, j);
        lemma_low_word_facts(v, j as u32);
        lemma_bits(v, 0, j, 0);
        let lo = (v & low_mask(j)) as u32;
        let b = bit(v, j);
        lemma_mul_xn_single(b, j);
        lemma_mul_xn_xor(reg ^ lo, b << (j as u32), j);
        lemma_xor_laws(reg, lo, b << (j as u32));
    }
}

/// Taking the bits of whole bytes is taking the bytes.
pub proof fn lemma_absorb_bytes(reg: u32, v: u128, k: nat)
    requires
        k <= 16,
    ensures
        absorb(reg, v, 8 * k) == update(reg, le_bytes(v, k)),
    decreases k,
{
    if k > 0 {
        let j = (k - 1) as nat;
        lemma_absorb_bytes(reg, v, j);
        lemma_absorb_concat(reg, v, 8 * j, 8);
        let rest = v >> ((8 * j) as u128);
        lemma_absorb_word(absorb(reg, v, 8 * j), rest, 8);
        assert((rest & low_mask(8)) as u32 == ((rest & 0xff) as u8) as u32) by {
            assert((rest & (((1u128 << 8) - 1) as u128)) as u32 == ((rest & 0xff) as u8) as u32)
                by (bit_vector);
        }
        assert(le_bytes(v, k).drop_last() =~= le_bytes(v, j));
        assert(le_bytes(v, k).last() == (rest & 0xff) as u8);
    }
}

} // verus!
