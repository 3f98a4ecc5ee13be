//! CRC-32 checksums of byte streams.
//!
//! A [`Hasher`] takes the bytes of a stream in any number of pieces and gives their
//! checksum. It works with one of two engines, chosen once when it is made: a
//! table-driven one, and one that folds the stream in four lanes of 128 bits. What
//! a checksum is stands in `checksum`; both engines are proved against it.

use vstd::prelude::*;

pub mod gf2;
pub mod checksum;
pub mod combine;
pub mod table;
pub mod baseline;
pub mod features;
pub mod specialized;

use crate::checksum::{resume, lemma_resume_empty};
use crate::combine::combine_spec;
use crate::features::Features;

verus! {

/// The engine of a hasher, with its state.
#[derive(Clone, Debug)]
enum State {
    Baseline(baseline::State),
    Specialized(specialized::State),
}

/// Represents an in-progress CRC32 computation.
#[derive(Clone, Debug)]
pub struct Hasher {
    amount: u64,
    state: State,
}

impl Hasher {
    /// The checksum of the bytes taken so far: what `finalize` would give now.
    pub closed spec fn crc(&self) -> u32 {
        match self.state {
            State::Baseline(state) => state.crc(),
            State::Specialized(state) => state.crc(),
        }
    }

    /// The number of bytes taken so far, modulo `2^64`.
    pub closed spec fn amount(&self) -> u64 {
        self.amount
    }

    /// The folding engine in its present state, where the hasher works with it.
    pub closed spec fn folding(&self) -> Option<specialized::State> {
        match self.state {
            State::Baseline(_) => None,
            State::Specialized(state) => Some(state),
        }
    }

    /// Whether the hasher works with the folding engine.
    pub open spec fn specialized(&self) -> bool {
        self.folding() is Some
    }

    /// Create a new `Hasher`.
    ///
    /// It works with the folding engine where `features` has all that folding asks
    /// for, and with the table-driven engine where it has not.
    ///
    /// The folding engine of this library computes its vector operations in ordinary
    /// integer arithmetic on 128-bit words. It gives the checksums that folding with
    /// the processor's vector instructions gives, but not their speed: the choice of
    /// the engine changes no result, and here it gains no time.
    pub fn new(features: Features) -> (h: Self)
        ensures
            h.crc() == 0,
            h.amount() == 0,
            h.specialized() == features.sufficient(),
            h.folding() matches Some(s) ==> s.lanes() == (
                0x9db4_2487u128,
                0u128,
                0u128,
                0u128,
                0u128,
            ),
    {
        match Self::internal_new_specialized(features) {
            Some(h) => h,
            None => Self::internal_new_baseline(),
        }
    }

    /// A hasher that continues a stream of which `length` bytes were taken and whose
    /// checksum so far is `crc`.
    pub fn new_from_state(features: Features, crc: u32, length: u64) -> (h: Self)
        ensures
            h.crc() == crc,
            h.amount() == length,
            h.specialized() == features.sufficient(),
            h.folding() matches Some(s) ==> s.restored(crc ^ 0xffff_ffff),
    {
        match specialized::State::with_initial(features, crc) {
            Some(state) => Hasher { amount: length, state: State::Specialized(state) },
            None => Hasher {
                amount: length,
                state: State::Baseline(baseline::State::with_initial(crc)),
            },
        }
    }

    /// A new hasher that works with the table-driven engine.
    ///
    /// Internal-only API. Don't use: it may change or go without notice.
    pub fn internal_new_baseline() -> (h: Self)
        ensures
            h.crc() == 0,
            h.amount() == 0,
            !h.specialized(),
    {
        Hasher { amount: 0, state: State::Baseline(baseline::State::new()) }
    }

    /// A new hasher that works with the folding engine, where `features` has all that
    /// folding asks for, and `None` where it has not.
    ///
    /// Internal-only API. Don't use: it may change or go without notice.
    pub fn internal_new_specialized(features: Features) -> (r: Option<Self>)
        ensures
            r is Some <==> features.sufficient(),
            r matches Some(h) ==> h.crc() == 0 && h.amount() == 0 && h.specialized(),
            r matches Some(h) ==> (h.folding() matches Some(s) && s.lanes() == (
                0x9db4_2487u128,
                0u128,
                0u128,
                0u128,
                0u128,
            )),
    {
        {
            if let Some(state) = specialized::State::new(features) {
                return Some(Hasher { amount: 0, state: State::Specialized(state) });
            }
        }
        None
    }

    /// Whether the hasher works with the folding engine.
    pub fn is_specialized(&self) -> (b: bool)
        ensures
            b == self.specialized(),
    {
        match self.state {
            State::Baseline(_) => false,
            State::Specialized(_) => true,
        }
    }

    /// Process the given byte slice and update the hash state.
    pub fn update(&mut self, buf: &[u8])
        ensures
            final(self).crc() == resume(old(self).crc(), buf@),
            buf@.len() == 0 ==> *final(self) == *old(self),
            final(self).amount() == old(self).amount().wrapping_add(buf@.len() as u64),
            final(self).specialized() == old(self).specialized(),
    {
        self.amount = self.amount.wrapping_add(buf.len() as u64);
        match &mut self.state {
            State::Baseline(state) => state.update(buf),
            State::Specialized(state) => state.update(buf),
        }
        proof {
            if buf@.len() == 0 {
                assert(buf@ =~= Seq::empty());
                lemma_resume_empty(old(self).crc());
            }
        }
    }

    /// Finalize the hash state and return the computed CRC32 value.
    pub fn finalize(self) -> (crc: u32)
        ensures
            crc == self.crc(),
    {
        match self.state {
            State::Baseline(state) => state.finalize(),
            State::Specialized(state) => state.finalize(),
        }
    }

    /// Takes the stream of `other` after the stream of `self`: afterwards `self` is
    /// as if it had taken the bytes of both, in that order. Only the checksum and the
    /// length of `other` are read.
    pub fn combine(&mut self, other: &Self)
        ensures
            final(self).crc() == combine_spec(old(self).crc(), other.crc(), other.amount()),
            final(self).amount() == old(self).amount().wrapping_add(other.amount()),
            final(self).specialized() == old(self).specialized(),
            final(self).folding() matches Some(s) ==> s.restored(
                combine_spec(old(self).crc(), other.crc(), other.amount()) ^ 0xffff_ffff,
            ),
    {
        self.amount = self.amount.wrapping_add(other.amount);
        let other_crc = other.checksum();
        match &mut self.state {
            State::Baseline(state) => state.combine(other_crc, other.amount),
            State::Specialized(state) => state.combine(other_crc, other.amount),
        }
    }

    /// The checksum of the bytes taken so far. The hasher can take more.
    pub fn checksum(&self) -> (crc: u32)
        ensures
            crc == self.crc(),
    {
        match &self.state {
            State::Baseline(state) => state.duplicate().finalize(),
            State::Specialized(state) => state.duplicate().finalize(),
        }
    }
}

/// The two engines agree: where a table-driven engine and a folding engine hold the
/// same checksum and each takes the same bytes, they hold the same checksum again.
pub proof fn lemma_engines_agree(
    table: baseline::State,
    table_after: baseline::State,
    folding: specialized::State,
    folding_after: specialized::State,
    bytes: Seq<u8>,
)
    requires
        table.crc() == folding.crc(),
        table_after.crc() == resume(table.crc(), bytes),
        folding_after.crc() == resume(folding.crc(), bytes),
    ensures
        table_after.crc() == folding_after.crc(),
{
}

impl core::hash::Hasher for Hasher {
    /// Takes the bytes of `bytes`, as `update` does.
    fn write(&mut self, bytes: &[u8])
        ensures
            final(self).crc() == resume(old(self).crc(), bytes@),
            bytes@.len() == 0 ==> *final(self) == *old(self),
            final(self).amount() == old(self).amount().wrapping_add(bytes@.len() as u64),
            final(self).specialized() == old(self).specialized(),
    {
        self.update(bytes)
    }

    /// The checksum of the bytes taken so far, widened.
    fn finish(&self) -> (digest: u64)
        ensures
            digest == self.crc(),
    {
        self.checksum() as u64
    }
}

} // verus!
