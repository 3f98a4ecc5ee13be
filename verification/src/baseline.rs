//! The table-driven engine: one table lookup for each byte.

use vstd::prelude::*;
use crate::gf2::lemma_xor_laws;
use crate::checksum::{update, resume, lemma_update_take};
use crate::combine::{combine, combine_spec};
use crate::table::{CRC32_TABLE, lemma_table_entry, lemma_table_step};

verus! {

/// The state of the table-driven engine: the checksum of the bytes taken so far.
#[derive(Clone, Debug)]
pub struct State {
    state: u32,
}

/// The index into the table, and what is left of the register.
proof fn lemma_step_bits(reg: u32, byte: u8)
    by (bit_vector)
    ensures
        ((reg ^ (byte as u32)) & 0xff) == (((reg as u8) ^ byte) as u32),
        (reg ^ (byte as u32)) >> 8 == reg >> 8,
        !(!reg) == reg,
{
}

impl State {
    /// The checksum of the bytes taken so far.
    pub closed spec fn crc(&self) -> u32 {
        self.state
    }

    /// An engine that has taken no bytes.
    pub fn new() -> (s: Self)
        ensures
            s.crc() == 0,
    {
        State { state: 0 }
    }

    /// An engine that continues a stream whose checksum so far is `crc`.
    pub fn with_initial(crc: u32) -> (s: Self)
        ensures
            s.crc() == crc,
    {
        State { state: crc }
    }

    /// A second engine in the same state.
    pub fn duplicate(&self) -> (s: Self)
        ensures
            s == *self,
    {
        State { state: self.state }
    }

    /// Takes the bytes of `buf`.
    pub fn update(&mut self, buf: &[u8])
        ensures
            final(self).crc() == resume(old(self).crc(), buf@),
            buf@.len() == 0 ==> *final(self) == *old(self),
    {
        let ghost start = self.state ^ 0xffff_ffff;
        let mut reg: u32 = !self.state;
        proof {
            lemma_xor_laws(self.state, 0, 0);
            lemma_step_bits(self.state, 0);
        }
        let mut i: usize = 0;
        while i < buf.len()
            invariant
                i <= buf.len(),
                reg == update(start, buf@.take(i as int)),
            decreases buf.len() - i,
        {
            let byte = buf[i];
            proof {
                lemma_update_take(start, buf@, i as int);
                lemma_step_bits(reg, byte);
                lemma_table_step(reg ^ (byte as u32));
                lemma_table_entry(((reg as u8) ^ byte) as int);
            }
            reg = CRC32_TABLE[((reg as u8) ^ byte) as usize] ^ (reg >> 8);
            i += 1;
        }
        proof {
            assert(buf@.take(buf.len() as int) =~= buf@);
            lemma_xor_laws(reg, 0, 0);
        }
        self.state = !reg;
    }

    /// The checksum of the bytes taken.
    pub fn finalize(self) -> (crc: u32)
        ensures
            crc == self.crc(),
    {
        self.state
    }

    /// Takes a segment of `amount` bytes, of which only the checksum `other` is at hand.
    pub fn combine(&mut self, other: u32, amount: u64)
        ensures
            final(self).crc() == combine_spec(old(self).crc(), other, amount),
    {
        self.state = combine(self.state, other, amount);
    }
}

} // verus!
