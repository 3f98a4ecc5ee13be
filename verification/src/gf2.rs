//! Arithmetic in the ring of polynomials over GF(2) modulo the CRC-32 generator.
//!
//! A residue is held in a `u32` in the reflected convention of CRC-32: bit `31 - i`
//! is the coefficient of `x^i`. Addition of residues is `^`.

use vstd::prelude::*;

verus! {

/// The generator polynomial without its leading term `x^32`, reflected.
pub const POLY: u32 = 0xedb8_8320;

/// The residue of the constant polynomial `1`.
pub const ONE: u32 = 0x8000_0000;

/// `r * x` modulo the generator.
pub open spec fn mul_x(r: u32) -> u32 {
    (r >> 1) ^ (if r & 1 == 1 { POLY } else { 0 })
}

/// `r * x^n` modulo the generator.
pub open spec fn mul_xn(r: u32, n: nat) -> u32
    decreases n,
{
    if n == 0 {
        r
    } else {
        mul_x(mul_xn(r, (n - 1) as nat))
    }
}

/// `x^n` modulo the generator.
pub open spec fn xpow(n: nat) -> u32 {
    mul_xn(ONE, n)
}

/// Whether `x^i` occurs in the residue `a`, for `i < 32`.
pub open spec fn coeff(a: u32, i: nat) -> bool {
    (a >> ((31 - i) as u32)) & 1 == 1
}

/// The term that the coefficient of `x^i` in `a` adds to a product with `b`.
pub open spec fn mul_term(a: u32, b: u32, i: nat) -> u32 {
    if coeff(a, i) {
        mul_xn(b, i)
    } else {
        0
    }
}

/// The sum of `b * x^i` over the `i < k` with `coeff(a, i)`.
pub open spec fn mul_low(a: u32, b: u32, k: nat) -> u32
    decreases k,
{
    if k == 0 {
        0
    } else {
        let i = (k - 1) as nat;
        mul_low(a, b, i) ^ mul_term(a, b, i)
    }
}

/// `a * b` modulo the generator.
pub open spec fn poly_mul(a: u32, b: u32) -> u32 {
    mul_low(a, b, 32)
}

/// The laws of `^` on three words.
pub proof fn lemma_xor_laws(a: u32, b: u32, c: u32)
    by (bit_vector)
    ensures
        a ^ b == b ^ a,
        (a ^ b) ^ c == a ^ (b ^ c),
        a ^ a == 0,
        a ^ 0 == a,
        0 ^ a == a,
        (a ^ b) ^ b == a,
        (a ^ b == c) ==> (a == c ^ b),
        (a ^ b == a ^ c) ==> (b == c),
        !a == a ^ 0xffff_ffff,
{
}

/// Two sums of two words each, added, may be regrouped crosswise.
pub proof fn lemma_xor_cross(a: u32, b: u32, c: u32, d: u32)
    by (bit_vector)
    ensures
        (a ^ b) ^ (c ^ d) == (a ^ c) ^ (b ^ d),
        (a ^ b) ^ ((b ^ c) ^ d) == (a ^ c) ^ d,
{
}

/// Sums of many words, regrouped.
pub proof fn lemma_xor_regroup(
    a0: u32,
    a1: u32,
    a2: u32,
    a3: u32,
    b0: u32,
    b1: u32,
    b2: u32,
    b3: u32,
    t: u32,
)
    by (bit_vector)
    ensures
        ((a1 ^ a2) ^ a3) ^ (a0 ^ t) == (((a0 ^ a1) ^ a2) ^ a3) ^ t,
        (((b0 ^ a1) ^ (b1 ^ a2)) ^ (b2 ^ a3)) ^ ((b3 ^ t) ^ a0) == ((((a0 ^ b0) ^ (a1 ^ b1)) ^ (a2
            ^ b2)) ^ (a3 ^ b3)) ^ t,
{
}

/// Multiplication by `x` is linear and one-to-one.
pub proof fn lemma_mul_x(a: u32, b: u32)
    by (bit_vector)
    ensures
        mul_x(a ^ b) == mul_x(a) ^ mul_x(b),
        mul_x(0) == 0,
        mul_x(a) == mul_x(b) ==> a == b,
{
}

/// Zero times a power of `x` is zero.
pub proof fn lemma_mul_xn_zero(n: nat)
    ensures
        mul_xn(0, n) == 0,
    decreases n,
{
    if n > 0 {
        lemma_mul_xn_zero((n - 1) as nat);
        lemma_mul_x(0, 0);
    }
}

/// Multiplication by a power of `x` is linear.
pub proof fn lemma_mul_xn_xor(a: u32, b: u32, n: nat)
    ensures
        mul_xn(a ^ b, n) == mul_xn(a, n) ^ mul_xn(b, n),
    decreases n,
{
    if n > 0 {
        let m = (n - 1) as nat;
        lemma_mul_xn_xor(a, b, m);
        lemma_mul_x(mul_xn(a, m), mul_xn(b, m));
    }
}

/// Multiplication by a power of `x` is one-to-one.
pub proof fn lemma_mul_xn_injective(a: u32, b: u32, n: nat)
    requires
        mul_xn(a, n) == mul_xn(b, n),
    ensures
        a == b,
    decreases n,
{
    if n > 0 {
        let m = (n - 1) as nat;
        lemma_mul_x(mul_xn(a, m), mul_xn(b, m));
        lemma_mul_xn_injective(a, b, m);
    }
}

/// Powers of `x` add up.
pub proof fn lemma_mul_xn_add(r: u32, a: nat, b: nat)
    ensures
        mul_xn(mul_xn(r, a), b) == mul_xn(r, a + b),
    decreases b,
{
    if b > 0 {
        lemma_mul_xn_add(r, a, (b - 1) as nat);
        assert((a + b - 1) as nat == a + (b - 1) as nat);
    }
}

/// One multiplication by `x` may be taken first or last.
pub proof fn lemma_mul_xn_front(r: u32, n: nat)
    ensures
        mul_xn(mul_x(r), n) == mul_x(mul_xn(r, n)),
{
    assert(mul_xn(r, 1) == mul_x(r)) by {
        reveal_with_fuel(mul_xn, 2);
    }
    lemma_mul_xn_add(r, 1, n);
    assert(mul_xn(r, (n + 1) as nat) == mul_x(mul_xn(r, n)));
}

/// No power of `x` is zero modulo the generator.
pub proof fn lemma_xpow_nonzero(n: nat)
    ensures
        xpow(n) != 0,
{
    if xpow(n) == 0 {
        lemma_mul_xn_zero(n);
        lemma_mul_xn_injective(ONE, 0, n);
    }
}

/// A power of `x` times a power of `x`.
pub proof fn lemma_xpow_add(a: nat, b: nat)
    ensures
        mul_xn(xpow(a), b) == xpow(a + b),
{
    lemma_mul_xn_add(ONE, a, b);
}

/// A product with zero as its second factor.
pub proof fn lemma_mul_low_zero(a: u32, k: nat)
    ensures
        mul_low(a, 0, k) == 0,
    decreases k,
{
    if k > 0 {
        let i = (k - 1) as nat;
        lemma_mul_low_zero(a, i);
        lemma_mul_xn_zero(i);
        lemma_xor_laws(0, 0, 0);
    }
}

/// A product is linear in its second factor.
pub proof fn lemma_mul_low_xor(a: u32, b: u32, d: u32, k: nat)
    ensures
        mul_low(a, b ^ d, k) == mul_low(a, b, k) ^ mul_low(a, d, k),
    decreases k,
{
    if k == 0 {
        lemma_xor_laws(0, 0, 0);
    } else {
        let i = (k - 1) as nat;
        lemma_mul_low_xor(a, b, d, i);
        lemma_mul_xn_xor(b, d, i);
        lemma_xor_laws(0, 0, 0);
        lemma_xor_cross(mul_low(a, b, i), mul_term(a, b, i), mul_low(a, d, i), mul_term(a, d, i));
    }
}

/// A power of `x` in the second factor may be taken out of a product.
pub proof fn lemma_mul_low_shift(a: u32, b: u32, n: nat, k: nat)
    ensures
        mul_low(a, mul_xn(b, n), k) == mul_xn(mul_low(a, b, k), n),
    decreases k,
{
    if k == 0 {
        lemma_mul_xn_zero(n);
    } else {
        let i = (k - 1) as nat;
        lemma_mul_low_shift(a, b, n, i);
        lemma_mul_xn_add(b, n, i);
        lemma_mul_xn_add(b, i, n);
        lemma_mul_xn_zero(n);
        lemma_mul_xn_xor(mul_low(a, b, i), mul_term(a, b, i), n);
    }
}

/// The `k` highest bits of `a`, which hold its coefficients below `x^k`.
pub open spec fn low_terms(a: u32, k: nat) -> u32 {
    if k >= 32 {
        a
    } else {
        a & !(0xffff_ffffu32 >> (k as u32))
    }
}

/// The lowest terms of a residue, one more at a time.
proof fn lemma_low_terms_bits(a: u32, k: u32)
    by (bit_vector)
    requires
        k < 32,
    ensures
        a & !(0xffff_ffffu32 >> 0) == 0,
        k < 31 ==> (a & !(0xffff_ffffu32 >> k)) ^ (if (a >> ((31 - k) as u32)) & 1 == 1 {
            ONE >> k
        } else {
            0
        }) == a & !(0xffff_ffffu32 >> ((k + 1) as u32)),
        k == 31 ==> (a & !(0xffff_ffffu32 >> k)) ^ (if (a >> ((31 - k) as u32)) & 1 == 1 {
            ONE >> k
        } else {
            0
        }) == a,
        k < 31 ==> mul_x(ONE >> k) == ONE >> ((k + 1) as u32),
        ONE >> 0 == ONE,
{
}

/// Below `x^32` a power of `x` is a single bit.
pub proof fn lemma_xpow_small(i: nat)
    requires
        i < 32,
    ensures
        xpow(i) == ONE >> (i as u32),
    decreases i,
{
    if i == 0 {
        lemma_low_terms_bits(0, 0);
    } else {
        lemma_xpow_small((i - 1) as nat);
        lemma_low_terms_bits(0, (i - 1) as u32);
    }
}

/// The product with `1`, term by term.
proof fn lemma_mul_low_one(a: u32, k: nat)
    requires
        k <= 32,
    ensures
        mul_low(a, ONE, k) == low_terms(a, k),
    decreases k,
{
    if k == 0 {
        lemma_low_terms_bits(a, 0);
    } else {
        let i = (k - 1) as nat;
        lemma_mul_low_one(a, i);
        lemma_xpow_small(i);
        lemma_low_terms_bits(a, i as u32);
    }
}

/// `1` is the unit of the product.
pub proof fn lemma_poly_mul_one(a: u32)
    ensures
        poly_mul(a, ONE) == a,
{
    lemma_mul_low_one(a, 32);
}

/// A product with a power of `x` as its second factor.
pub proof fn lemma_poly_mul_xpow_right(a: u32, n: nat)
    ensures
        poly_mul(a, xpow(n)) == mul_xn(a, n),
{
    lemma_mul_low_shift(a, ONE, n, 32);
    lemma_poly_mul_one(a);
}

/// A product with a power of `x` as its first factor, term by term of the second.
proof fn lemma_poly_mul_xpow_left_partial(n: nat, b: u32, k: nat)
    requires
        k <= 32,
    ensures
        poly_mul(xpow(n), low_terms(b, k)) == mul_low(b, xpow(n), k),
    decreases k,
{
    if k == 0 {
        lemma_low_terms_bits(b, 0);
        lemma_mul_low_zero(xpow(n), 32);
    } else {
        let i = (k - 1) as nat;
        lemma_poly_mul_xpow_left_partial(n, b, i);
        lemma_mul_low_one(b, i);
        lemma_mul_low_one(b, k);
        assert(low_terms(b, k) == low_terms(b, i) ^ mul_term(b, ONE, i));
        lemma_mul_low_xor(xpow(n), low_terms(b, i), mul_term(b, ONE, i), 32);
        if coeff(b, i) {
            lemma_poly_mul_xpow_right(xpow(n), i);
        } else {
            lemma_mul_low_zero(xpow(n), 32);
        }
        assert(poly_mul(xpow(n), mul_term(b, ONE, i)) == mul_term(b, xpow(n), i));
    }
}

/// A product with a power of `x` as its first factor.
pub proof fn lemma_poly_mul_xpow_left(n: nat, b: u32)
    ensures
        poly_mul(xpow(n), b) == mul_xn(b, n),
{
    lemma_poly_mul_xpow_left_partial(n, b, 32);
    lemma_poly_mul_xpow_right(b, n);
}

/// The product of two powers of `x`.
pub proof fn lemma_poly_mul_xpow(a: nat, b: nat)
    ensures
        poly_mul(xpow(a), xpow(b)) == xpow(a + b),
{
    lemma_poly_mul_xpow_right(xpow(a), b);
    lemma_xpow_add(a, b);
}

/// How a multiplication by `x` is undone.
proof fn lemma_div_x(r: u32)
    by (bit_vector)
    ensures
        r & 0x8000_0000 != 0 ==> mul_x(((r ^ POLY) << 1) | 1) == r,
        r & 0x8000_0000 == 0 ==> mul_x(r << 1) == r,
{
}

/// `r / x` modulo the generator: the residue that gives `r` when multiplied by `x`.
pub fn div_x(r: u32) -> (q: u32)
    ensures
        mul_x(q) == r,
{
    proof {
        lemma_div_x(r);
    }
    if r & 0x8000_0000 != 0 {
        ((r ^ POLY) << 1) | 1
    } else {
        r << 1
    }
}

/// `r / x^n` modulo the generator.
pub fn div_xn(r: u32, n: u32) -> (q: u32)
    ensures
        mul_xn(q, n as nat) == r,
{
    let mut q = r;
    let mut i: u32 = 0;
    while i < n
        invariant
            i <= n,
            mul_xn(q, i as nat) == r,
        decreases n - i,
    {
        let next = div_x(q);
        proof {
            lemma_mul_xn_front(next, i as nat);
        }
        q = next;
        i += 1;
    }
    q
}

} // verus!
