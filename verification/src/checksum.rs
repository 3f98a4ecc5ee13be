//! What a CRC-32 checksum is.
//!
//! The register of the checksum is a residue modulo the generator (see `gf2`). A byte
//! is added to the register and the sum multiplied by `x^8`; the register starts
//! from all ones and the checksum is its complement.

use vstd::prelude::*;
use crate::gf2::{mul_xn, lemma_mul_xn_add, lemma_mul_xn_xor, lemma_xor_laws};

verus! {

/// The register after one more byte.
pub open spec fn update_byte(reg: u32, byte: u8) -> u32 {
    mul_xn(reg ^ (byte as u32), 8)
}

/// The register after `bytes`, taken in order.
pub open spec fn update(reg: u32, bytes: Seq<u8>) -> u32
    decreases bytes.len(),
{
    if bytes.len() == 0 {
        reg
    } else {
        update_byte(update(reg, bytes.drop_last()), bytes.last())
    }
}

/// The checksum of a stream whose first part has the checksum `crc` and whose
/// rest is `bytes`.
pub open spec fn resume(crc: u32, bytes: Seq<u8>) -> u32 {
    update(crc ^ 0xffff_ffff, bytes) ^ 0xffff_ffff
}

/// The CRC-32 checksum of `bytes`.
pub open spec fn crc32(bytes: Seq<u8>) -> u32 {
    resume(0, bytes)
}

/// The checksum after the chunks of `chunks`, fed one after the other.
pub open spec fn resume_chunks(crc: u32, chunks: Seq<Seq<u8>>) -> u32
    decreases chunks.len(),
{
    if chunks.len() == 0 {
        crc
    } else {
        resume(resume_chunks(crc, chunks.drop_last()), chunks.last())
    }
}

/// The chunks of `chunks`, joined.
pub open spec fn join(chunks: Seq<Seq<u8>>) -> Seq<u8>
    decreases chunks.len(),
{
    if chunks.len() == 0 {
        Seq::empty()
    } else {
        join(chunks.drop_last()) + chunks.last()
    }
}

/// The register after two runs of bytes is the register after their concatenation.
pub proof fn lemma_update_concat(reg: u32, a: Seq<u8>, b: Seq<u8>)
    ensures
        update(reg, a + b) == update(update(reg, a), b),
    decreases b.len(),
{
    if b.len() == 0 {
        assert(a + b =~= a);
    } else {
        lemma_update_concat(reg, a, b.drop_last());
        assert((a + b).drop_last() =~= a + b.drop_last());
        assert((a + b).last() == b.last());
    }
}

/// The register after the first `i + 1` bytes, from the register after the first `i`.
pub proof fn lemma_update_take(reg: u32, bytes: Seq<u8>, i: int)
    requires
        0 <= i < bytes.len(),
    ensures
        update(reg, bytes.take(i + 1)) == update_byte(update(reg, bytes.take(i)), bytes[i]),
{
    assert(bytes.take(i + 1).drop_last() =~= bytes.take(i));
}

/// The register depends on its start and on the bytes separately.
pub proof fn lemma_update_split(reg: u32, bytes: Seq<u8>)
    ensures
        update(reg, bytes) == mul_xn(reg, 8 * bytes.len()) ^ update(0, bytes),
    decreases bytes.len(),
{
    if bytes.len() == 0 {
        lemma_xor_laws(reg, 0, 0);
    } else {
        let front = bytes.drop_last();
        let last = bytes.last() as u32;
        lemma_update_split(reg, front);
        let hi = mul_xn(reg, 8 * front.len());
        let lo = update(0, front);
        // update(reg, front) ^ last == hi ^ (lo ^ last)
        lemma_xor_laws(hi, lo, last);
        lemma_mul_xn_xor(hi, lo ^ last, 8);
        lemma_mul_xn_add(reg, 8 * front.len(), 8);
    }
}

/// The checksum of no bytes is zero.
pub proof fn lemma_crc32_empty()
    ensures
        crc32(Seq::empty()) == 0,
{
    lemma_xor_laws(0xffff_ffff, 0, 0);
}

/// Feeding no bytes leaves the checksum as it is.
pub proof fn lemma_resume_empty(crc: u32)
    ensures
        resume(crc, Seq::empty()) == crc,
{
    lemma_xor_laws(crc, 0xffff_ffff, 0);
}

/// Feeding `a` and then `b` gives the checksum that feeding `a + b` gives.
pub proof fn lemma_resume_concat(crc: u32, a: Seq<u8>, b: Seq<u8>)
    ensures
        resume(resume(crc, a), b) == resume(crc, a + b),
{
    lemma_update_concat(crc ^ 0xffff_ffff, a, b);
    lemma_xor_laws(update(crc ^ 0xffff_ffff, a), 0xffff_ffff, 0);
}

/// However a stream is cut into chunks, feeding the chunks one at a time gives the
/// checksum that feeding the whole stream at once gives.
pub proof fn lemma_chunks_consistent(crc: u32, chunks: Seq<Seq<u8>>)
    ensures
        resume_chunks(crc, chunks) == resume(crc, join(chunks)),
    decreases chunks.len(),
{
    if chunks.len() == 0 {
        lemma_resume_empty(crc);
    } else {
        lemma_chunks_consistent(crc, chunks.drop_last());
        lemma_resume_concat(crc, join(chunks.drop_last()), chunks.last());
    }
}

} // verus!
