//! Merging the checksums of two segments into the checksum of their concatenation.

use vstd::prelude::*;
use vstd::arithmetic::power2::{pow2, lemma_pow2_unfold, lemma2_to64};
use vstd::std_specs::bits::axiom_u64_leading_zeros;
use crate::gf2::{
    POLY, ONE, mul_xn, xpow, coeff, mul_low, poly_mul, lemma_xor_laws, lemma_xor_cross,
    lemma_mul_xn_xor, lemma_mul_xn_add, lemma_poly_mul_xpow, lemma_poly_mul_xpow_left,
    lemma_xpow_nonzero,
};
use crate::checksum::{update, resume, crc32, lemma_update_concat, lemma_update_split};

verus! {

/// `X2N_TABLE[i]` is `x^(8 * 2^i)` modulo the generator. An index is taken modulo 32:
/// squaring the last entry gives the first one again.
pub const X2N_TABLE: [u32; 32] = [
    0x00800000, 0x00008000, 0xedb88320, 0xb1e6b092, 0xa06a2517, 0xed627dae, 0x88d14467, 0xd7bbfe6a,
    0xec447f11, 0x8e7ea170, 0x6427800e, 0x4d47bae0, 0x09fe548f, 0x83852d0f, 0x30362f1a, 0x7b5a9cc3,
    0x31fec169, 0x9fec022a, 0x6c8dedc4, 0x15d6874d, 0x5fde7a4e, 0xbad90e37, 0x2e4e5eef, 0x4eaba214,
    0xa8a472c0, 0x429a969e, 0x148d302a, 0xc40ba6d0, 0xc4e22c3c, 0x40000000, 0x20000000, 0x08000000,
];

/// The checksum of a stream whose first segment has the checksum `crc1` and whose
/// second segment has the checksum `crc2` and is `len2` bytes long.
pub open spec fn combine_spec(crc1: u32, crc2: u32, len2: u64) -> u32 {
    mul_xn(crc1, 8 * (len2 as nat)) ^ crc2
}

/// The number that the `i` lowest bits of `v` make.
pub open spec fn low_bits(v: u64, i: nat) -> nat {
    if i >= 64 {
        v as nat
    } else {
        (v & (((1u64 << (i as u64)) - 1) as u64)) as nat
    }
}

/// The mask that walks down the bits of the first factor.
proof fn lemma_multiply_bits(a: u32, b: u32, k: u32, i: u32)
    by (bit_vector)
    requires
        k < 32,
    ensures
        ((a & (ONE >> k)) != 0) == ((a >> ((31 - k) as u32)) & 1 == 1),
        ONE >> k >= 1,
        k < 31 ==> (ONE >> k) >> 1 == ONE >> ((k + 1) as u32),
        k == 31 ==> a & (((ONE >> k) - 1) as u32) == 0,
        k < 31 ==> ((ONE >> ((k + 1) as u32)) | (((ONE >> ((k + 1) as u32)) - 1) as u32)) == ((ONE
            >> k) - 1) as u32,
        a & (ONE >> k) == 0 ==> a & ((ONE >> k) | (((ONE >> k) - 1) as u32)) == a & (((ONE >> k)
            - 1) as u32),
        (a & (((ONE >> k) - 1) as u32) == 0 && k < i && i < 32) ==> (a >> ((31 - i) as u32)) & 1
            == 0,
        ONE >> 0 == ONE,
        a != 0 ==> a & (ONE | ((ONE - 1) as u32)) != 0,
        (b & 1 != 0) == (b & 1 == 1),
        (b >> 1) ^ 0 == b >> 1,
        1u32 << 31 == ONE,
{
}

/// Terms that a factor does not have add nothing to a product.
proof fn lemma_mul_low_tail(a: u32, b: u32, k: nat, n: nat)
    requires
        k <= n,
        forall|i: nat| k <= i < n ==> !coeff(a, i),
    ensures
        mul_low(a, b, n) == mul_low(a, b, k),
    decreases n,
{
    if n > k {
        lemma_mul_low_tail(a, b, k, (n - 1) as nat);
        lemma_xor_laws(mul_low(a, b, (n - 1) as nat), 0, 0);
    }
}

/// `a * b` modulo the generator. Bit by bit, from the constant term of `a` up; it
/// stops at the highest term of `a` and so does not end when `a` is zero.
pub fn multiply(a: u32, b: u32) -> (p: u32)
    requires
        a != 0,
    ensures
        p == poly_mul(a, b),
{
    let ghost b0 = b;
    let mut b = b;
    let mut m: u32 = 1u32 << 31;
    let mut p: u32 = 0;
    let ghost mut k: nat = 0;
    proof {
        lemma_multiply_bits(a, b, 0, 0);
    }
    loop
        invariant_except_break
            k <= 31,
            m == ONE >> (k as u32),
            b == mul_xn(b0, k),
            p == mul_low(a, b0, k),
            a & (m | ((m - 1) as u32)) != 0,
        ensures
            p == poly_mul(a, b0),
        decreases 31 - k,
    {
        proof {
            lemma_multiply_bits(a, b, k as u32, 0);
        }
        if (a & m) != 0 {
            p ^= b;
            if (a & (m - 1)) == 0 {
                proof {
                    assert forall|i: nat| k + 1 <= i < 32 implies !coeff(a, i) by {
                        lemma_multiply_bits(a, b, k as u32, i as u32);
                    }
                    lemma_mul_low_tail(a, b0, k + 1, 32);
                }
                break ;
            }
        } else {
            proof {
                lemma_xor_laws(p, 0, 0);
            }
        }
        m >>= 1;
        if b & 1 != 0 {
            b = (b >> 1) ^ POLY;
        } else {
            b >>= 1;
        }
        proof {
            k = k + 1;
        }
    }
    p
}

/// The first entry of the table is `x^8`, and each entry squared gives the next.
proof fn lemma_x2n_values()
    by (bit_vector)
    ensures
        mul_xn(ONE, 8) == 0x00800000u32,
        poly_mul(0x00800000u32, 0x00800000u32) == 0x00008000u32,
        poly_mul(0x00008000u32, 0x00008000u32) == 0xedb88320u32,
        poly_mul(0xedb88320u32, 0xedb88320u32) == 0xb1e6b092u32,
        poly_mul(0xb1e6b092u32, 0xb1e6b092u32) == 0xa06a2517u32,
        poly_mul(0xa06a2517u32, 0xa06a2517u32) == 0xed627daeu32,
        poly_mul(0xed627daeu32, 0xed627daeu32) == 0x88d14467u32,
        poly_mul(0x88d14467u32, 0x88d14467u32) == 0xd7bbfe6au32,
        poly_mul(0xd7bbfe6au32, 0xd7bbfe6au32) == 0xec447f11u32,
        poly_mul(0xec447f11u32, 0xec447f11u32) == 0x8e7ea170u32,
        poly_mul(0x8e7ea170u32, 0x8e7ea170u32) == 0x6427800eu32,
        poly_mul(0x6427800eu32, 0x6427800eu32) == 0x4d47bae0u32,
        poly_mul(0x4d47bae0u32, 0x4d47bae0u32) == 0x09fe548fu32,
        poly_mul(0x09fe548fu32, 0x09fe548fu32) == 0x83852d0fu32,
        poly_mul(0x83852d0fu32, 0x83852d0fu32) == 0x30362f1au32,
        poly_mul(0x30362f1au32, 0x30362f1au32) == 0x7b5a9cc3u32,
        poly_mul(0x7b5a9cc3u32, 0x7b5a9cc3u32) == 0x31fec169u32,
        poly_mul(0x31fec169u32, 0x31fec169u32) == 0x9fec022au32,
        poly_mul(0x9fec022au32, 0x9fec022au32) == 0x6c8dedc4u32,
        poly_mul(0x6c8dedc4u32, 0x6c8dedc4u32) == 0x15d6874du32,
        poly_mul(0x15d6874du32, 0x15d6874du32) == 0x5fde7a4eu32,
        poly_mul(0x5fde7a4eu32, 0x5fde7a4eu32) == 0xbad90e37u32,
        poly_mul(0xbad90e37u32, 0xbad90e37u32) == 0x2e4e5eefu32,
        poly_mul(0x2e4e5eefu32, 0x2e4e5eefu32) == 0x4eaba214u32,
        poly_mul(0x4eaba214u32, 0x4eaba214u32) == 0xa8a472c0u32,
        poly_mul(0xa8a472c0u32, 0xa8a472c0u32) == 0x429a969eu32,
        poly_mul(0x429a969eu32, 0x429a969eu32) == 0x148d302au32,
        poly_mul(0x148d302au32, 0x148d302au32) == 0xc40ba6d0u32,
        poly_mul(0xc40ba6d0u32, 0xc40ba6d0u32) == 0xc4e22c3cu32,
        poly_mul(0xc4e22c3cu32, 0xc4e22c3cu32) == 0x40000000u32,
        poly_mul(0x40000000u32, 0x40000000u32) == 0x20000000u32,
        poly_mul(0x20000000u32, 0x20000000u32) == 0x08000000u32,
        poly_mul(0x08000000u32, 0x08000000u32) == 0x00800000u32,
{
}

/// Each entry of the table is the square of the one before it, the first that of the last.
proof fn lemma_x2n_squares(j: int)
    requires
        0 <= j < 32,
    ensures
        poly_mul(X2N_TABLE[j], X2N_TABLE[j]) == X2N_TABLE[(j + 1) % 32],
        X2N_TABLE[0] == xpow(8),
{
    lemma_x2n_values();
}

/// What the table holds, at any index.
pub proof fn lemma_x2n_table(i: nat)
    ensures
        X2N_TABLE[(i % 32) as int] == xpow(8 * pow2(i)),
        X2N_TABLE[(i % 32) as int] != 0,
    decreases i,
{
    lemma2_to64();
    if i == 0 {
        lemma_x2n_squares(0);
    } else {
        let j = (i - 1) as nat;
        lemma_x2n_table(j);
        lemma_x2n_squares((j % 32) as int);
        lemma_pow2_unfold(i);
        lemma_poly_mul_xpow(8 * pow2(j), 8 * pow2(j));
        assert(8 * pow2(j) + 8 * pow2(j) == 8 * pow2(i));
        assert((j % 32 + 1) % 32 == i % 32);
    }
    lemma_xpow_nonzero(8 * pow2(i));
}

/// The lowest bits of a length, one more at a time.
proof fn lemma_low_bits(v: u64, i: u64, n: u64)
    by (bit_vector)
    requires
        i < 64,
        n <= 64,
    ensures
        v & (((1u64 << 0) - 1) as u64) == 0,
        i < 63 ==> v & (((1u64 << ((i + 1) as u64)) - 1) as u64) == (v & (((1u64 << i) - 1) as u64))
            + (if (v >> i) & 1 != 0 {
            1u64 << i
        } else {
            0
        }),
        i == 63 ==> v == (v & (((1u64 << i) - 1) as u64)) + (if (v >> i) & 1 != 0 {
            1u64 << i
        } else {
            0
        }),
        i < 63 ==> 1u64 << ((i + 1) as u64) == 2 * (1u64 << i),
        1u64 << 0 == 1,
        (n < 64 && v >> n == 0) ==> v & (((1u64 << n) - 1) as u64) == v,
        (i & 0x1f) == i % 32,
{
}

/// A single bit is a power of two.
proof fn lemma_shl_pow2(i: nat)
    requires
        i < 64,
    ensures
        (1u64 << (i as u64)) as nat == pow2(i),
    decreases i,
{
    lemma2_to64();
    if i == 0 {
        lemma_low_bits(0, 0, 0);
    } else {
        lemma_shl_pow2((i - 1) as nat);
        lemma_low_bits(0, (i - 1) as u64, 0);
        lemma_pow2_unfold(i);
    }
}

/// The checksum of the concatenation of two segments, from the checksum `crc1` of
/// the first and the checksum `crc2` and the length in bytes `len2` of the second.
pub fn combine(crc1: u32, crc2: u32, len2: u64) -> (crc: u32)
    ensures
        crc == combine_spec(crc1, crc2, len2),
{
    let mut p: u32 = 1u32 << 31;
    let n: u32 = 64 - len2.leading_zeros();
    proof {
        axiom_u64_leading_zeros(len2);
        lemma_multiply_bits(0, 0, 0, 0);
        lemma_low_bits(len2, 0, 0);
    }
    for i in 0..n
        invariant
            n <= 64,
            p == xpow(8 * low_bits(len2, i as nat)),
    {
        proof {
            lemma_low_bits(len2, i as u64, 0);
            lemma_shl_pow2(i as nat);
            lemma_x2n_table(i as nat);
        }
        if (len2 >> i & 1) != 0 {
            p = multiply(X2N_TABLE[(i & 0x1F) as usize], p);
            proof {
                lemma_poly_mul_xpow(8 * pow2(i as nat), 8 * low_bits(len2, i as nat));
                assert(8 * pow2(i as nat) + 8 * low_bits(len2, i as nat) == 8 * low_bits(
                    len2,
                    (i + 1) as nat,
                ));
            }
        }
    }
    proof {
        lemma_low_bits(len2, 0, n as u64);
        assert(low_bits(len2, n as nat) == len2 as nat);
        lemma_xpow_nonzero(8 * (len2 as nat));
        lemma_poly_mul_xpow_left(8 * (len2 as nat), crc1);
    }
    multiply(p, crc1) ^ crc2
}

/// Combining the checksums of two segments gives the checksum of their concatenation,
/// also where the first segment continues a stream whose checksum so far was `crc`.
pub proof fn lemma_combine_resumed(crc: u32, a: Seq<u8>, b: Seq<u8>)
    requires
        b.len() <= u64::MAX,
    ensures
        combine_spec(resume(crc, a), crc32(b), b.len() as u64) == resume(crc, a + b),
{
    let ones = 0xffff_ffffu32;
    let n = 8 * b.len();
    let ra = update(crc ^ ones, a);
    lemma_mul_xn_xor(ra, ones, n);
    lemma_xor_laws(ones, 0, 0);
    lemma_update_split(ones, b);
    lemma_update_concat(crc ^ ones, a, b);
    lemma_update_split(ra, b);
    lemma_xor_cross(mul_xn(ra, n), mul_xn(ones, n), update(0, b), ones);
}

/// Combining the checksums of two segments gives the checksum of their concatenation.
pub proof fn lemma_combine_concat(a: Seq<u8>, b: Seq<u8>)
    requires
        b.len() <= u64::MAX,
    ensures
        combine_spec(crc32(a), crc32(b), b.len() as u64) == crc32(a + b),
{
    lemma_combine_resumed(0, a, b);
}

/// Combining is associative: of three checksums the first two may be combined
/// first, or the last two.
pub proof fn lemma_combine_associative(crc1: u32, crc2: u32, crc3: u32, len2: u64, len3: u64)
    requires
        len2 + len3 <= u64::MAX,
    ensures
        combine_spec(combine_spec(crc1, crc2, len2), crc3, len3) == combine_spec(
            crc1,
            combine_spec(crc2, crc3, len3),
            (len2 + len3) as u64,
        ),
{
    let n2 = 8 * (len2 as nat);
    let n3 = 8 * (len3 as nat);
    lemma_mul_xn_xor(mul_xn(crc1, n2), crc2, n3);
    lemma_mul_xn_add(crc1, n2, n3);
    lemma_xor_laws(mul_xn(crc1, n2 + n3), mul_xn(crc2, n3), crc3);
}

/// Of three segments, combining from the left and combining from the right both
/// give the checksum of the three segments joined.
pub proof fn lemma_combine_three(a: Seq<u8>, b: Seq<u8>, c: Seq<u8>)
    requires
        b.len() + c.len() <= u64::MAX,
    ensures
        combine_spec(combine_spec(crc32(a), crc32(b), b.len() as u64), crc32(c), c.len() as u64)
            == crc32(a + b + c),
        combine_spec(
            crc32(a),
            combine_spec(crc32(b), crc32(c), c.len() as u64),
            (b.len() + c.len()) as u64,
        ) == crc32(a + b + c),
{
    lemma_combine_concat(a, b);
    lemma_combine_concat(a + b, c);
    lemma_combine_concat(b, c);
    lemma_combine_concat(a, b + c);
    assert(a + (b + c) =~= a + b + c);
}

} // verus!
