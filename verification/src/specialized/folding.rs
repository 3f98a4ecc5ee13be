//! Why folding works: what a carry-less product does to the residue of a lane.

use vstd::prelude::*;
use crate::gf2::{
    ONE, mul_xn, xpow, lemma_xor_laws, lemma_xor_regroup, lemma_mul_xn_xor, lemma_mul_xn_add,
    lemma_mul_xn_zero, lemma_mul_xn_front, lemma_xpow_add, lemma_xpow_small,
};
use crate::checksum::{update, lemma_update_split};
use crate::specialized::residue::{
    bit, absorb, lane, window, low_mask, le_bytes, lemma_bits, lemma_absorb_split,
    lemma_absorb_same_bits, lemma_absorb_zero, lemma_absorb_xor, lemma_absorb_concat,
    lemma_absorb_bytes,
};
use crate::specialized::vector::{lo64, hi64, clmul_term, clmul_low, clmul};

verus! {

/// The residue of a quadword: the register after its 64 bits, from zero.
pub open spec fn residue64(a: u64) -> u32 {
    absorb(0, a as u128, 64)
}

/// A lane folded: its high quadword times `klo`, plus its low quadword times `khi`.
pub open spec fn fold_by(v: u128, klo: u64, khi: u64) -> u128 {
    clmul(hi64(v), klo) ^ clmul(lo64(v), khi)
}

/// The laws of `^` on lanes.
pub proof fn lemma_wide_xor(a: u128, b: u128, c: u128, d: u128)
    by (bit_vector)
    ensures
        a ^ b == b ^ a,
        (a ^ b) ^ c == a ^ (b ^ c),
        a ^ 0 == a,
        0 ^ a == a,
        a ^ a == 0,
        (a ^ b) ^ (c ^ d) == (a ^ c) ^ (b ^ d),
        (a & b == 0) ==> (a | b == a ^ b),
{
}

/// A quadword moved up in a lane, and the two quadwords of a lane.
proof fn lemma_shift_facts(k: u128, n: u128, kw: u128, a: u64, v: u128)
    by (bit_vector)
    requires
        k <= 0xffff_ffff_ffff_ffff,
        n <= 63,
        1 <= kw <= 65,
    ensures
        (k << n) >> n == k,
        (k >> kw == 0 && n + kw < 128) ==> (k << n) >> ((n + kw) as u128) == 0,
        kw == 65 ==> k >> kw == 0,
        (((a as u128) >> n) & 1) as u32 == ((a >> (n as u64)) & 1) as u32,
        ((a >> (n as u64)) & 1) <= 1,
        ONE >> 31 == 1,
        v & 0xffff_ffff_ffff_ffff <= 0xffff_ffff_ffff_ffff,
        v >> 64 <= 0xffff_ffff_ffff_ffff,
        (((1u128 << 64) - 1) as u128) == 0xffff_ffff_ffff_ffff,
{
}

/// The residue of a quadword that stands `n` bits up in a run of `w` bits.
pub proof fn lemma_shifted_residue(k: u64, n: nat, w: nat)
    requires
        n <= 63,
        64 <= w <= 128,
        w == 128 || (k as u128) >> ((w - 63) as u128) == 0,
    ensures
        absorb(0, (k as u128) << (n as u128), w) == mul_xn(
            absorb(0, k as u128, (w - 63) as nat),
            (63 - n) as nat,
        ),
{
    let kk = k as u128;
    let x = kk << (n as u128);
    let kw = (w - 63) as nat;
    let rest = (63 - n) as nat;
    lemma_shift_facts(kk, n as u128, kw as u128, 0, 0);
    assert forall|i: nat| i < n implies bit(x, i) == bit(0, i) by {
        lemma_bits(kk, 0, i, n);
    }
    lemma_absorb_same_bits(0, x, 0, n);
    lemma_absorb_zero(n);
    lemma_absorb_concat(0, x, n, kw);
    lemma_absorb_concat(0, x, n + kw, rest);
    if rest > 0 {
        lemma_absorb_split(absorb(0, kk, kw), 0, rest);
        lemma_absorb_zero(rest);
        lemma_xor_laws(mul_xn(absorb(0, kk, kw), rest), 0, 0);
    }
}

/// The residue of a carry-less product, bit by bit of its first factor.
proof fn lemma_clmul_low_residue(a: u64, k: u64, w: nat, e: nat, n: nat)
    requires
        n <= 64,
        64 <= w <= 128,
        w == 128 || (k as u128) >> ((w - 63) as u128) == 0,
        absorb(0, k as u128, (w - 63) as nat) == xpow(e),
        e >= 32,
    ensures
        absorb(0, clmul_low(a, k, n), w) == mul_xn(
            absorb(0, a as u128, n),
            (64 - n + e - 32) as nat,
        ),
    decreases n,
{
    if n == 0 {
        lemma_absorb_zero(w);
        lemma_mul_xn_zero((64 + e - 32) as nat);
    } else {
        let j = (n - 1) as nat;
        let up = (64 - j + e - 32) as nat;
        lemma_clmul_low_residue(a, k, w, e, j);
        let acc = absorb(0, a as u128, j);
        let b = bit(a as u128, j);
        lemma_absorb_xor(clmul_low(a, k, j), clmul_term(a, k, j), w);
        lemma_shift_facts(0, j as u128, 1, a, 0);
        lemma_mul_xn_front(acc ^ b, (up - 1) as nat);
        lemma_mul_xn_xor(acc, b, up);
        if (a >> (j as u64)) & 1 == 1 {
            lemma_shifted_residue(k, j, w);
            lemma_xpow_add(e, (63 - j) as nat);
            lemma_xpow_small(31);
            lemma_xpow_add(31, up);
        } else {
            lemma_absorb_zero(w);
            lemma_mul_xn_zero(up);
        }
    }
}

/// The residue of a carry-less product with a quadword `k` whose own residue is a
/// power of `x`: the other factor's residue, times a power of `x`.
pub proof fn lemma_clmul_residue(a: u64, k: u64, w: nat, e: nat)
    requires
        64 <= w <= 128,
        w == 128 || (k as u128) >> ((w - 63) as u128) == 0,
        absorb(0, k as u128, (w - 63) as nat) == xpow(e),
        e >= 32,
    ensures
        absorb(0, clmul(a, k), w) == mul_xn(residue64(a), (e - 32) as nat),
{
    lemma_clmul_low_residue(a, k, w, e, 64);
}

/// A carry-less product with a multiple of the generator, bit by bit of the other factor.
proof fn lemma_clmul_low_multiple(a: u64, k: u64, w: nat, n: nat)
    requires
        n <= 64,
        64 <= w <= 128,
        w == 128 || (k as u128) >> ((w - 63) as u128) == 0,
        absorb(0, k as u128, (w - 63) as nat) == 0,
    ensures
        absorb(0, clmul_low(a, k, n), w) == 0,
    decreases n,
{
    if n == 0 {
        lemma_absorb_zero(w);
    } else {
        let j = (n - 1) as nat;
        lemma_clmul_low_multiple(a, k, w, j);
        lemma_absorb_xor(clmul_low(a, k, j), clmul_term(a, k, j), w);
        lemma_xor_laws(0, 0, 0);
        if (a >> (j as u64)) & 1 == 1 {
            lemma_shifted_residue(k, j, w);
            lemma_mul_xn_zero((63 - j) as nat);
        } else {
            lemma_absorb_zero(w);
        }
    }
}

/// A carry-less product with a multiple of the generator is a multiple of the generator.
pub proof fn lemma_clmul_multiple(a: u64, k: u64, w: nat)
    requires
        64 <= w <= 128,
        w == 128 || (k as u128) >> ((w - 63) as u128) == 0,
        absorb(0, k as u128, (w - 63) as nat) == 0,
    ensures
        absorb(0, clmul(a, k), w) == 0,
{
    lemma_clmul_low_multiple(a, k, w, 64);
}

/// The residue of a lane, from the residues of its two quadwords.
pub proof fn lemma_lane_halves(v: u128)
    ensures
        lane(v) == mul_xn(residue64(lo64(v)), 64) ^ residue64(hi64(v)),
{
    lemma_shift_facts(0, 0, 1, 0, v);
    lemma_absorb_concat(0, v, 64, 64);
    lemma_absorb_split(absorb(0, v, 64), v >> 64, 64);
    assert forall|i: nat| i < 64 implies bit(v, i) == bit(lo64(v) as u128, i) by {
        lemma_bits(v, 0, i, 64);
    }
    lemma_absorb_same_bits(0, v, lo64(v) as u128, 64);
}

/// Folding a lane by a pair of quadwords whose residues are `x^(d + 32)` and
/// `x^(d + 96)` multiplies its residue by `x^d`.
pub proof fn lemma_fold_residue(v: u128, klo: u64, khi: u64, d: nat)
    requires
        absorb(0, klo as u128, 65) == xpow(d + 32),
        absorb(0, khi as u128, 65) == xpow(d + 96),
    ensures
        lane(fold_by(v, klo, khi)) == mul_xn(lane(v), d),
{
    let lo = residue64(lo64(v));
    let hi = residue64(hi64(v));
    lemma_lane_halves(v);
    lemma_clmul_residue(hi64(v), klo, 128, d + 32);
    lemma_clmul_residue(lo64(v), khi, 128, d + 96);
    lemma_absorb_xor(clmul(hi64(v), klo), clmul(lo64(v), khi), 128);
    lemma_mul_xn_xor(mul_xn(lo, 64), hi, d);
    lemma_mul_xn_add(lo, 64, d);
    lemma_xor_laws(mul_xn(hi, d), mul_xn(lo, 64 + d), 0);
}

/// The residue of four lanes is the register after the four lanes, from zero.
pub proof fn lemma_window_nested(c0: u128, c1: u128, c2: u128, c3: u128)
    ensures
        window(c0, c1, c2, c3) == absorb(absorb(absorb(lane(c0), c1, 128), c2, 128), c3, 128),
{
    let n1 = absorb(lane(c0), c1, 128);
    let n2 = absorb(n1, c2, 128);
    lemma_absorb_split(lane(c0), c1, 128);
    lemma_absorb_split(n1, c2, 128);
    lemma_absorb_split(n2, c3, 128);
    lemma_mul_xn_xor(mul_xn(lane(c0), 128), lane(c1), 128);
    lemma_mul_xn_add(lane(c0), 128, 128);
    lemma_mul_xn_xor(mul_xn(lane(c0), 256) ^ mul_xn(lane(c1), 128), lane(c2), 128);
    lemma_mul_xn_xor(mul_xn(lane(c0), 256), mul_xn(lane(c1), 128), 128);
    lemma_mul_xn_add(lane(c0), 256, 128);
    lemma_mul_xn_add(lane(c1), 128, 128);
}

/// The residue of four lanes, times a power of `x`.
pub proof fn lemma_window_scaled(c0: u128, c1: u128, c2: u128, c3: u128, s: nat)
    ensures
        mul_xn(window(c0, c1, c2, c3), s) == ((mul_xn(lane(c0), 384 + s) ^ mul_xn(
            lane(c1),
            256 + s,
        )) ^ mul_xn(lane(c2), 128 + s)) ^ mul_xn(lane(c3), s),
{
    let t0 = mul_xn(lane(c0), 384);
    let t1 = mul_xn(lane(c1), 256);
    let t2 = mul_xn(lane(c2), 128);
    lemma_mul_xn_xor((t0 ^ t1) ^ t2, lane(c3), s);
    lemma_mul_xn_xor(t0 ^ t1, t2, s);
    lemma_mul_xn_xor(t0, t1, s);
    lemma_mul_xn_add(lane(c0), 384, s);
    lemma_mul_xn_add(lane(c1), 256, s);
    lemma_mul_xn_add(lane(c2), 128, s);
}

/// One step of folding: the first lane, folded over 512 bits, takes sixteen new bytes
/// and goes to the end of the row.
pub proof fn lemma_window_step(c0: u128, c1: u128, c2: u128, c3: u128, x: u128, t: u128)
    requires
        lane(x) == mul_xn(lane(c0), 512),
    ensures
        window(c1, c2, c3, x ^ t) == update(window(c0, c1, c2, c3), le_bytes(t, 16)),
{
    lemma_window_scaled(c0, c1, c2, c3, 128);
    lemma_absorb_bytes(0, t, 16);
    lemma_update_split(window(c0, c1, c2, c3), le_bytes(t, 16));
    lemma_absorb_xor(x, t, 128);
    lemma_xor_regroup(
        mul_xn(lane(c0), 512),
        mul_xn(lane(c1), 384),
        mul_xn(lane(c2), 256),
        mul_xn(lane(c3), 128),
        0,
        0,
        0,
        0,
        lane(t),
    );
}

/// The two parts of a lane that is merged from two.
proof fn lemma_merge_facts(v: u128, w: u128, s: u128)
    by (bit_vector)
    requires
        0 < s < 128,
    ensures
        (v >> s) >> ((128 - s) as u128) == 0,
        (w << ((128 - s) as u128)) >> ((128 - s) as u128) == w & (((1u128 << s) - 1) as u128),
        (v >> s) & (w << ((128 - s) as u128)) == 0,
{
}

/// The residue of a lane, cut after its first `s` bits.
pub proof fn lemma_lane_cut(v: u128, s: nat, d: nat)
    requires
        0 < s < 128,
    ensures
        mul_xn(lane(v), d) == mul_xn(absorb(0, v, s), (128 - s + d) as nat) ^ mul_xn(
            absorb(0, v >> (s as u128), (128 - s) as nat),
            d,
        ),
{
    let rest = (128 - s) as nat;
    lemma_absorb_concat(0, v, s, rest);
    lemma_absorb_split(absorb(0, v, s), v >> (s as u128), rest);
    lemma_mul_xn_xor(mul_xn(absorb(0, v, s), rest), absorb(0, v >> (s as u128), rest), d);
    lemma_mul_xn_add(absorb(0, v, s), rest, d);
}

/// The residue of a lane made of the first `s` bits of `w`, moved to its end.
pub proof fn lemma_lane_head(w: u128, s: nat)
    requires
        0 < s < 128,
    ensures
        lane(w << ((128 - s) as u128)) == absorb(0, w, s),
{
    let rest = (128 - s) as nat;
    let y = w << (rest as u128);
    lemma_merge_facts(0, w, s as u128);
    lemma_absorb_concat(0, y, rest, s);
    assert forall|i: nat| i < rest implies bit(y, i) == bit(0, i) by {
        lemma_bits(w, 0, i, rest);
    }
    lemma_absorb_same_bits(0, y, 0, rest);
    lemma_absorb_zero(rest);
    assert forall|i: nat| i < s implies bit(w & low_mask(s), i) == bit(w, i) by {
        lemma_bits(w, 0, i, s);
    }
    lemma_absorb_same_bits(0, w & low_mask(s), w, s);
}

/// The residue of a lane made of `v` without its first `s` bits, and then the first
/// `s` bits of `w`.
pub proof fn lemma_lane_merge(v: u128, w: u128, s: nat, d: nat)
    requires
        0 < s < 128,
    ensures
        mul_xn(lane((v >> (s as u128)) | (w << ((128 - s) as u128))), d) == mul_xn(
            absorb(0, v >> (s as u128), (128 - s) as nat),
            s + d,
        ) ^ mul_xn(absorb(0, w, s), d),
{
    let rest = (128 - s) as nat;
    let x = v >> (s as u128);
    let y = w << (rest as u128);
    lemma_merge_facts(v, w, s as u128);
    lemma_wide_xor(x, y, 0, 0);
    lemma_absorb_xor(x, y, 128);
    lemma_lane_head(w, s);
    lemma_absorb_concat(0, x, rest, s);
    lemma_absorb_split(absorb(0, x, rest), 0, s);
    lemma_absorb_zero(s);
    lemma_xor_laws(mul_xn(absorb(0, x, rest), s), 0, 0);
    lemma_mul_xn_xor(mul_xn(absorb(0, x, rest), s), absorb(0, w, s), d);
    lemma_mul_xn_add(absorb(0, x, rest), s, d);
}

/// A partial fold: the row moves up by `s` bits. The `s` bits that leave its first
/// lane come back folded over 512 bits, in `x`, and the first `s` bits of `p` come in at
/// its end.
pub proof fn lemma_window_partial(
    c0: u128,
    c1: u128,
    c2: u128,
    c3: u128,
    p: u128,
    x: u128,
    s: nat,
)
    requires
        0 < s < 128,
        lane(x) == mul_xn(lane(c0 << ((128 - s) as u128)), 512),
    ensures
        window(
            (c0 >> (s as u128)) | (c1 << ((128 - s) as u128)),
            (c1 >> (s as u128)) | (c2 << ((128 - s) as u128)),
            (c2 >> (s as u128)) | (c3 << ((128 - s) as u128)),
            ((c3 >> (s as u128)) | (p << ((128 - s) as u128))) ^ x,
        ) == mul_xn(window(c0, c1, c2, c3), s) ^ absorb(0, p, s),
{
    let up = (128 - s) as u128;
    let dn = s as u128;
    let m3 = (c3 >> dn) | (p << up);
    lemma_window_scaled(c0, c1, c2, c3, s);
    lemma_lane_cut(c0, s, 384 + s);
    lemma_lane_cut(c1, s, 256 + s);
    lemma_lane_cut(c2, s, 128 + s);
    lemma_lane_cut(c3, s, s);
    lemma_lane_merge(c0, c1, s, 384);
    lemma_lane_merge(c1, c2, s, 256);
    lemma_lane_merge(c2, c3, s, 128);
    lemma_lane_merge(c3, p, s, 0);
    lemma_lane_head(c0, s);
    lemma_absorb_xor(m3, x, 128);
    let r = (128 - s) as nat;
    lemma_xor_regroup(
        mul_xn(absorb(0, c0, s), 512),
        mul_xn(absorb(0, c1, s), 384),
        mul_xn(absorb(0, c2, s), 256),
        mul_xn(absorb(0, c3, s), 128),
        mul_xn(absorb(0, c0 >> dn, r), 384 + s),
        mul_xn(absorb(0, c1 >> dn, r), 256 + s),
        mul_xn(absorb(0, c2 >> dn, r), 128 + s),
        mul_xn(absorb(0, c3 >> dn, r), s),
        absorb(0, p, s),
    );
}

} // verus!
