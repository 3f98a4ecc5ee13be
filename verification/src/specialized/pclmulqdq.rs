//! The folding engine: four lanes of 128 bits, folded by carry-less products.

use vstd::prelude::*;
use crate::gf2::{
    mul_xn, div_xn, lemma_xor_laws, lemma_xor_regroup, lemma_mul_xn_injective, lemma_mul_xn_zero,
    lemma_mul_xn_add,
};
use crate::checksum::{update, resume, lemma_update_concat, lemma_update_split};
use crate::combine::{combine, combine_spec};
use crate::features::Features;
use crate::specialized::residue::{
    bit, lane, window, byte, le_bytes, lemma_bits, lemma_absorb_bytes, lemma_absorb_zero,
    lemma_absorb_concat, lemma_absorb_word, lemma_absorb_same_bits,
};
use crate::specialized::vector::{
    lo64, hi64, shuffle, pack32, clmulepi64_si128, shuffle_epi8, slli_si128, srli_si128, set_epi32,
    extract_epi32, load_bytes, loadu_si128,
};
use crate::specialized::folding::{
    fold_by, lemma_wide_xor, lemma_window_step, lemma_window_partial, lemma_window_scaled,
};
use crate::specialized::reduction::{
    FOLD4_LO, FOLD4_HI, RK1, RK2, RK5, RK6, RK7, RK8, fold_into, fold_row, reduce_128, reduce_96,
    barrett_step, barrett, lemma_constants, lemma_fold4_residue, lemma_fold_into, lemma_reduce_96,
    lemma_barrett,
};

verus! {

/// Row `len - 1` holds the selectors that move a lane up by `16 - len` bytes. With the
/// high bit of each selector flipped they move it down by `len` bytes.
pub const PSHUFB_SHF_TABLE: [u128; 15] = [
    0x008f8e8d_8c8b8a89_88878685_84838281,
    0x01008f8e_8d8c8b8a_89888786_85848382,
    0x0201008f_8e8d8c8b_8a898887_86858483,
    0x03020100_8f8e8d8c_8b8a8988_87868584,
    0x04030201_008f8e8d_8c8b8a89_88878685,
    0x05040302_01008f8e_8d8c8b8a_89888786,
    0x06050403_0201008f_8e8d8c8b_8a898887,
    0x07060504_03020100_8f8e8d8c_8b8a8988,
    0x08070605_04030201_008f8e8d_8c8b8a89,
    0x09080706_05040302_01008f8e_8d8c8b8a,
    0x0a090807_06050403_0201008f_8e8d8c8b,
    0x0b0a0908_07060504_03020100_8f8e8d8c,
    0x0c0b0a09_08070605_04030201_008f8e8d,
    0x0d0c0b0a_09080706_05040302_01008f8e,
    0x0e0d0c0b_0a090807_06050403_0201008f,
];

/// The high bit of each of the sixteen selectors of a shuffle.
pub const SELECT_NONE: u128 = 0x8080_8080_8080_8080_8080_8080_8080_8080;

/// The pairs of quadwords of the last reduction: for folding over 128 bits, for the
/// reduction to 64 bits, and for the Barrett reduction.
pub const CRC_K: [u128; 3] = [
    0x0000_0001_7519_97d0_0000_0000_ccaa_009e,
    0x0000_0001_63cd_6124_0000_0000_ccaa_009e,
    0x0000_0001_db71_0640_0000_0001_f701_1640,
];

/// Keeps the low quadword of a lane.
pub const CRC_MASK: u128 = 0x0000_0000_0000_0000_ffff_ffff_ffff_ffff;

/// Drops the low doubleword of a lane.
pub const CRC_MASK2: u128 = 0xffff_ffff_ffff_ffff_ffff_ffff_0000_0000;

/// The state of the folding engine.
#[derive(Clone, Debug)]
pub struct State {
    xmm_crc0: u128,
    xmm_crc1: u128,
    xmm_crc2: u128,
    xmm_crc3: u128,
    xmm_crc_part: u128,
}

/// What a shuffle by each row of the table does, row by row.
proof fn lemma_shuffle_rows(a: u128)
    by (bit_vector)
    ensures
        shuffle(a, 0x008f8e8d_8c8b8a89_88878685_84838281u128) == a << 120,
        shuffle(a, 0x008f8e8d_8c8b8a89_88878685_84838281u128 ^ SELECT_NONE) == a >> 8,
        shuffle(a, 0x01008f8e_8d8c8b8a_89888786_85848382u128) == a << 112,
        shuffle(a, 0x01008f8e_8d8c8b8a_89888786_85848382u128 ^ SELECT_NONE) == a >> 16,
        shuffle(a, 0x0201008f_8e8d8c8b_8a898887_86858483u128) == a << 104,
        shuffle(a, 0x0201008f_8e8d8c8b_8a898887_86858483u128 ^ SELECT_NONE) == a >> 24,
        shuffle(a, 0x03020100_8f8e8d8c_8b8a8988_87868584u128) == a << 96,
        shuffle(a, 0x03020100_8f8e8d8c_8b8a8988_87868584u128 ^ SELECT_NONE) == a >> 32,
        shuffle(a, 0x04030201_008f8e8d_8c8b8a89_88878685u128) == a << 88,
        shuffle(a, 0x04030201_008f8e8d_8c8b8a89_88878685u128 ^ SELECT_NONE) == a >> 40,
        shuffle(a, 0x05040302_01008f8e_8d8c8b8a_89888786u128) == a << 80,
        shuffle(a, 0x05040302_01008f8e_8d8c8b8a_89888786u128 ^ SELECT_NONE) == a >> 48,
        shuffle(a, 0x06050403_0201008f_8e8d8c8b_8a898887u128) == a << 72,
        shuffle(a, 0x06050403_0201008f_8e8d8c8b_8a898887u128 ^ SELECT_NONE) == a >> 56,
        shuffle(a, 0x07060504_03020100_8f8e8d8c_8b8a8988u128) == a << 64,
        shuffle(a, 0x07060504_03020100_8f8e8d8c_8b8a8988u128 ^ SELECT_NONE) == a >> 64,
        shuffle(a, 0x08070605_04030201_008f8e8d_8c8b8a89u128) == a << 56,
        shuffle(a, 0x08070605_04030201_008f8e8d_8c8b8a89u128 ^ SELECT_NONE) == a >> 72,
        shuffle(a, 0x09080706_05040302_01008f8e_8d8c8b8au128) == a << 48,
        shuffle(a, 0x09080706_05040302_01008f8e_8d8c8b8au128 ^ SELECT_NONE) == a >> 80,
        shuffle(a, 0x0a090807_06050403_0201008f_8e8d8c8bu128) == a << 40,
        shuffle(a, 0x0a090807_06050403_0201008f_8e8d8c8bu128 ^ SELECT_NONE) == a >> 88,
        shuffle(a, 0x0b0a0908_07060504_03020100_8f8e8d8cu128) == a << 32,
        shuffle(a, 0x0b0a0908_07060504_03020100_8f8e8d8cu128 ^ SELECT_NONE) == a >> 96,
        shuffle(a, 0x0c0b0a09_08070605_04030201_008f8e8du128) == a << 24,
        shuffle(a, 0x0c0b0a09_08070605_04030201_008f8e8du128 ^ SELECT_NONE) == a >> 104,
        shuffle(a, 0x0d0c0b0a_09080706_05040302_01008f8eu128) == a << 16,
        shuffle(a, 0x0d0c0b0a_09080706_05040302_01008f8eu128 ^ SELECT_NONE) == a >> 112,
        shuffle(a, 0x0e0d0c0b_0a090807_06050403_0201008fu128) == a << 8,
        shuffle(a, 0x0e0d0c0b_0a090807_06050403_0201008fu128 ^ SELECT_NONE) == a >> 120,
{
}

/// What a shuffle by a row of the table does.
proof fn lemma_shuffle_table(a: u128, len: usize)
    requires
        1 <= len <= 15,
    ensures
        shuffle(a, PSHUFB_SHF_TABLE[len - 1]) == a << ((128 - 8 * len) as u128),
        shuffle(a, PSHUFB_SHF_TABLE[len - 1] ^ SELECT_NONE) == a >> ((8 * len) as u128),
{
    lemma_shuffle_rows(a);
}

/// The quadwords of the constant vectors.
proof fn lemma_quadwords()
    by (bit_vector)
    ensures
        pack32(0x8080_8080, 0x8080_8080, 0x8080_8080, 0x8080_8080) == SELECT_NONE,
        lo64(pack32(0x0000_0001, 0x5444_2bd4, 0x0000_0001, 0xc6e4_1596)) == FOLD4_LO,
        hi64(pack32(0x0000_0001, 0x5444_2bd4, 0x0000_0001, 0xc6e4_1596)) == FOLD4_HI,
        lo64(0x0000_0001_7519_97d0_0000_0000_ccaa_009eu128) == RK1,
        hi64(0x0000_0001_7519_97d0_0000_0000_ccaa_009eu128) == RK2,
        lo64(0x0000_0001_63cd_6124_0000_0000_ccaa_009eu128) == RK5,
        hi64(0x0000_0001_63cd_6124_0000_0000_ccaa_009eu128) == RK6,
        lo64(0x0000_0001_db71_0640_0000_0001_f701_1640u128) == RK7,
        hi64(0x0000_0001_db71_0640_0000_0001_f701_1640u128) == RK8,
        pack32(0, 0, 0, 0x9db4_2487) == 0x9db4_2487u128,
{
}

/// A doubleword at the end of a lane, and the low four bits of an address.
proof fn lemma_state_bits(w: u32, addr: usize)
    by (bit_vector)
    ensures
        ((w as u128) << 96) >> 96 == w as u128,
        ((w as u128) << 96) & 0xffff_ffff_ffff_ffff_ffff_ffff == 0,
        (((1u128 << 32) - 1) as u128) == 0xffff_ffff,
        (w as u128) & 0xffff_ffff == w as u128,
        addr & 0xf <= 15,
        ((16 - (addr & 0xf)) as usize) & 0xf <= 15,
{
}

/// The bytes of a lane whose low `len` bytes were taken from another.
proof fn lemma_staged_bits(p: u128, l: u128, len: u32, j: u32)
    by (bit_vector)
    requires
        len < 16,
        j < 16,
        l >> ((8 * len) as u128) == 0,
    ensures
        (1u128 << ((8 * len) as u128)) >= 1,
        j < len ==> ((((p & !(((1u128 << ((8 * len) as u128)) - 1) as u128)) | l) >> ((8
            * j) as u128)) & 0xff) == (l >> ((8 * j) as u128)) & 0xff,
        j >= len ==> ((((p & !(((1u128 << ((8 * len) as u128)) - 1) as u128)) | l) >> ((8
            * j) as u128)) & 0xff) == (p >> ((8 * j) as u128)) & 0xff,
{
}

/// Feeding a chunk after a run of bytes that were fed gives a longer run.
proof fn lemma_take_chunk(reg: u32, bytes: Seq<u8>, src: int, n: int)
    requires
        0 <= src,
        0 <= n,
        src + n <= bytes.len(),
    ensures
        update(update(reg, bytes.take(src)), bytes.subrange(src, src + n)) == update(
            reg,
            bytes.take(src + n),
        ),
{
    lemma_update_concat(reg, bytes.take(src), bytes.subrange(src, src + n));
    assert(bytes.take(src) + bytes.subrange(src, src + n) =~= bytes.take(src + n));
}

/// The address of the first byte of `buf`, by `<[u8]>::as_ptr`. An address is known
/// only while the program runs, so nothing is said of it.
#[verifier::external_body]
fn address_of(buf: &[u8]) -> (addr: usize) {
    buf.as_ptr() as usize
}

impl State {
    /// The register of the checksum that the four lanes stand for.
    pub closed spec fn register(&self) -> u32 {
        window(self.xmm_crc0, self.xmm_crc1, self.xmm_crc2, self.xmm_crc3)
    }

    /// The checksum of the bytes taken so far.
    pub closed spec fn crc(&self) -> u32 {
        self.register() ^ 0xffff_ffff
    }

    /// The five lanes: the four of the row, first to last, and the staged one.
    pub closed spec fn lanes(&self) -> (u128, u128, u128, u128, u128) {
        (self.xmm_crc0, self.xmm_crc1, self.xmm_crc2, self.xmm_crc3, self.xmm_crc_part)
    }

    /// Whether the lanes are those that an engine starts from when it continues a
    /// stream with the register `reg`: all zero but the last doubleword of the row,
    /// which holds `reg / x^32`.
    pub open spec fn restored(&self, reg: u32) -> bool {
        &&& self.lanes().0 == 0
        &&& self.lanes().1 == 0
        &&& self.lanes().2 == 0
        &&& self.lanes().4 == 0
        &&& self.lanes().3 & 0xffff_ffff_ffff_ffff_ffff_ffff == 0
        &&& mul_xn((self.lanes().3 >> 96) as u32, 32) == reg
    }

    /// The four lanes taken into one.
    pub closed spec fn row(&self) -> u128 {
        fold_row(self.xmm_crc0, self.xmm_crc1, self.xmm_crc2, self.xmm_crc3)
    }

    /// An engine that has taken no bytes, where the processor has what folding asks
    /// for, and `None` where it has not.
    pub fn new(features: Features) -> (r: Option<Self>)
        ensures
            r is Some <==> features.sufficient(),
            r matches Some(s) ==> s.crc() == 0,
            r matches Some(s) ==> s.lanes() == (0x9db4_2487u128, 0u128, 0u128, 0u128, 0u128),
    {
        if features.pclmulqdq && features.sse && features.sse2 && features.ssse3
            && features.sse4_1 {
            let s = Self::init();
            proof {
                lemma_xor_laws(0xffff_ffff, 0, 0);
            }
            Some(s)
        } else {
            None
        }
    }

    /// An engine that continues a stream whose checksum so far is `crc`, where the
    /// processor has what folding asks for, and `None` where it has not.
    pub fn with_initial(features: Features, crc: u32) -> (r: Option<Self>)
        ensures
            r is Some <==> features.sufficient(),
            r matches Some(s) ==> s.crc() == crc,
            r matches Some(s) ==> s.restored(crc ^ 0xffff_ffff),
    {
        if features.is_sufficient() {
            let s = Self::restore(!crc);
            proof {
                lemma_xor_laws(crc, 0xffff_ffff, 0);
            }
            Some(s)
        } else {
            None
        }
    }

    /// A second engine in the same state.
    pub fn duplicate(&self) -> (s: Self)
        ensures
            s == *self,
    {
        State {
            xmm_crc0: self.xmm_crc0,
            xmm_crc1: self.xmm_crc1,
            xmm_crc2: self.xmm_crc2,
            xmm_crc3: self.xmm_crc3,
            xmm_crc_part: self.xmm_crc_part,
        }
    }

    /// Takes the bytes of `buf`.
    pub fn update(&mut self, buf: &[u8])
        ensures
            final(self).crc() == resume(old(self).crc(), buf@),
            buf@.len() == 0 ==> *final(self) == *old(self),
    {
        let addr = address_of(buf);
        proof {
            lemma_state_bits(0, addr);
            lemma_xor_laws(self.register(), 0xffff_ffff, 0);
        }
        let algn_diff: usize = (16 - (addr & 0xF)) & 0xF;
        self.fold(buf, algn_diff);
    }

    /// The checksum of the bytes taken.
    pub fn finalize(self) -> (crc: u32)
        ensures
            crc == self.crc(),
    {
        let mut state = self;
        state.fold_512to32()
    }

    /// Takes a segment of `amount` bytes, of which only the checksum `other` is at hand.
    pub fn combine(&mut self, other: u32, amount: u64)
        ensures
            final(self).crc() == combine_spec(old(self).crc(), other, amount),
            final(self).restored(combine_spec(old(self).crc(), other, amount) ^ 0xffff_ffff),
    {
        let mut copy = self.duplicate();
        let crc = combine(copy.fold_512to32(), other, amount);
        *self = Self::restore(!crc);
        proof {
            lemma_xor_laws(crc, 0xffff_ffff, 0);
        }
    }

    /// The lanes before the first byte: the first lane holds the residue that 512
    /// bits later is the register of all ones.
    fn init() -> (s: Self)
        ensures
            s.register() == 0xffff_ffff,
            s.xmm_crc0 == 0x9db4_2487,
            s.xmm_crc1 == 0,
            s.xmm_crc2 == 0,
            s.xmm_crc3 == 0,
            s.xmm_crc_part == 0,
    {
        proof {
            lemma_constants();
            lemma_quadwords();
        }
        State {
            xmm_crc0: set_epi32(0, 0, 0, 0x9db42487),
            xmm_crc1: 0,
            xmm_crc2: 0,
            xmm_crc3: 0,
            xmm_crc_part: 0,
        }
    }

    /// Lanes that stand for the register `reg`: the last doubleword of the last lane
    /// holds `reg / x^32`.
    fn restore(reg: u32) -> (s: Self)
        ensures
            s.register() == reg,
            s.restored(reg),
    {
        let w = div_xn(reg, 32);
        let last: u128 = (w as u128) << 96;
        proof {
            lemma_state_bits(w, 0);
            lemma_absorb_zero(128);
            lemma_mul_xn_zero(384);
            lemma_mul_xn_zero(256);
            lemma_mul_xn_zero(128);
            lemma_xor_laws(lane(last), 0, 0);
            lemma_absorb_concat(0, last, 96, 32);
            assert forall|i: nat| i < 96 implies bit(last, i) == bit(0, i) by {
                lemma_bits(w as u128, 0, i, 96);
            }
            lemma_absorb_same_bits(0, last, 0, 96);
            lemma_absorb_zero(96);
            lemma_absorb_word(0, w as u128, 32);
            lemma_xor_laws(w, 0, 0);
            lemma_xor_laws(0, 0, 0);
        }
        State { xmm_crc0: 0, xmm_crc1: 0, xmm_crc2: 0, xmm_crc3: last, xmm_crc_part: 0 }
    }

    /// Folds the first lane over 512 bits and moves it to the end of the row: room for
    /// one new lane.
    fn fold_1(&mut self)
        ensures
            final(self).xmm_crc0 == old(self).xmm_crc1,
            final(self).xmm_crc1 == old(self).xmm_crc2,
            final(self).xmm_crc2 == old(self).xmm_crc3,
            final(self).xmm_crc3 == fold_by(old(self).xmm_crc0, FOLD4_LO, FOLD4_HI),
            final(self).xmm_crc_part == old(self).xmm_crc_part,
            final(self).register() == mul_xn(old(self).register(), 128),
    {
        let xmm_fold4 = set_epi32(0x00000001, 0x54442bd4, 0x00000001, 0xc6e41596);
        proof {
            lemma_quadwords();
            Self::lemma_rotate(self.xmm_crc0, self.xmm_crc1, self.xmm_crc2, self.xmm_crc3);
        }

        let x_tmp3 = self.xmm_crc3;

        self.xmm_crc3 = self.xmm_crc0;
        self.xmm_crc0 = clmulepi64_si128(self.xmm_crc0, xmm_fold4, 0x01);
        self.xmm_crc3 = clmulepi64_si128(self.xmm_crc3, xmm_fold4, 0x10);
        let res = self.xmm_crc0 ^ self.xmm_crc3;

        self.xmm_crc0 = self.xmm_crc1;
        self.xmm_crc1 = self.xmm_crc2;
        self.xmm_crc2 = x_tmp3;
        self.xmm_crc3 = res;
    }

    /// Folds the first two lanes over 512 bits and moves them to the end of the row:
    /// room for two new lanes.
    fn fold_2(&mut self)
        ensures
            final(self).xmm_crc0 == old(self).xmm_crc2,
            final(self).xmm_crc1 == old(self).xmm_crc3,
            final(self).xmm_crc2 == fold_by(old(self).xmm_crc0, FOLD4_LO, FOLD4_HI),
            final(self).xmm_crc3 == fold_by(old(self).xmm_crc1, FOLD4_LO, FOLD4_HI),
            final(self).xmm_crc_part == old(self).xmm_crc_part,
            final(self).register() == mul_xn(old(self).register(), 256),
    {
        let xmm_fold4 = set_epi32(0x00000001, 0x54442bd4, 0x00000001, 0xc6e41596);
        proof {
            lemma_quadwords();
            let f0 = fold_by(self.xmm_crc0, FOLD4_LO, FOLD4_HI);
            Self::lemma_rotate(self.xmm_crc0, self.xmm_crc1, self.xmm_crc2, self.xmm_crc3);
            Self::lemma_rotate(self.xmm_crc1, self.xmm_crc2, self.xmm_crc3, f0);
            lemma_mul_xn_add(self.register(), 128, 128);
        }

        let x_tmp3 = self.xmm_crc3;
        let x_tmp2 = self.xmm_crc2;

        self.xmm_crc3 = self.xmm_crc1;
        self.xmm_crc1 = clmulepi64_si128(self.xmm_crc1, xmm_fold4, 0x01);
        self.xmm_crc3 = clmulepi64_si128(self.xmm_crc3, xmm_fold4, 0x10);
        let res31 = self.xmm_crc1 ^ self.xmm_crc3;

        self.xmm_crc2 = self.xmm_crc0;
        self.xmm_crc0 = clmulepi64_si128(self.xmm_crc0, xmm_fold4, 0x01);
        self.xmm_crc2 = clmulepi64_si128(self.xmm_crc2, xmm_fold4, 0x10);
        let res20 = self.xmm_crc0 ^ self.xmm_crc2;

        self.xmm_crc0 = x_tmp2;
        self.xmm_crc1 = x_tmp3;
        self.xmm_crc2 = res20;
        self.xmm_crc3 = res31;
    }

    /// Folds the first three lanes over 512 bits and moves them to the end of the row:
    /// room for three new lanes.
    fn fold_3(&mut self)
        ensures
            final(self).xmm_crc0 == old(self).xmm_crc3,
            final(self).xmm_crc1 == fold_by(old(self).xmm_crc0, FOLD4_LO, FOLD4_HI),
            final(self).xmm_crc2 == fold_by(old(self).xmm_crc1, FOLD4_LO, FOLD4_HI),
            final(self).xmm_crc3 == fold_by(old(self).xmm_crc2, FOLD4_LO, FOLD4_HI),
            final(self).xmm_crc_part == old(self).xmm_crc_part,
            final(self).register() == mul_xn(old(self).register(), 384),
    {
        let xmm_fold4 = set_epi32(0x00000001, 0x54442bd4, 0x00000001, 0xc6e41596);
        proof {
            lemma_quadwords();
            let f0 = fold_by(self.xmm_crc0, FOLD4_LO, FOLD4_HI);
            let f1 = fold_by(self.xmm_crc1, FOLD4_LO, FOLD4_HI);
            Self::lemma_rotate(self.xmm_crc0, self.xmm_crc1, self.xmm_crc2, self.xmm_crc3);
            Self::lemma_rotate(self.xmm_crc1, self.xmm_crc2, self.xmm_crc3, f0);
            Self::lemma_rotate(self.xmm_crc2, self.xmm_crc3, f0, f1);
            lemma_mul_xn_add(self.register(), 128, 128);
            lemma_mul_xn_add(self.register(), 256, 128);
        }

        let x_tmp3 = self.xmm_crc3;

        self.xmm_crc3 = self.xmm_crc2;
        self.xmm_crc2 = clmulepi64_si128(self.xmm_crc2, xmm_fold4, 0x01);
        self.xmm_crc3 = clmulepi64_si128(self.xmm_crc3, xmm_fold4, 0x10);
        let res32 = self.xmm_crc2 ^ self.xmm_crc3;

        self.xmm_crc2 = self.xmm_crc1;
        self.xmm_crc1 = clmulepi64_si128(self.xmm_crc1, xmm_fold4, 0x01);
        self.xmm_crc2 = clmulepi64_si128(self.xmm_crc2, xmm_fold4, 0x10);
        let res21 = self.xmm_crc1 ^ self.xmm_crc2;

        self.xmm_crc1 = self.xmm_crc0;
        self.xmm_crc0 = clmulepi64_si128(self.xmm_crc0, xmm_fold4, 0x01);
        self.xmm_crc1 = clmulepi64_si128(self.xmm_crc1, xmm_fold4, 0x10);
        let res10 = self.xmm_crc0 ^ self.xmm_crc1;

        self.xmm_crc0 = x_tmp3;
        self.xmm_crc1 = res10;
        self.xmm_crc2 = res21;
        self.xmm_crc3 = res32;
    }

    /// Folds all four lanes over 512 bits: room for four new lanes.
    fn fold_4(&mut self)
        ensures
            final(self).xmm_crc0 == fold_by(old(self).xmm_crc0, FOLD4_LO, FOLD4_HI),
            final(self).xmm_crc1 == fold_by(old(self).xmm_crc1, FOLD4_LO, FOLD4_HI),
            final(self).xmm_crc2 == fold_by(old(self).xmm_crc2, FOLD4_LO, FOLD4_HI),
            final(self).xmm_crc3 == fold_by(old(self).xmm_crc3, FOLD4_LO, FOLD4_HI),
            final(self).xmm_crc_part == old(self).xmm_crc_part,
            final(self).register() == mul_xn(old(self).register(), 512),
    {
        let xmm_fold4 = set_epi32(0x00000001, 0x54442bd4, 0x00000001, 0xc6e41596);
        proof {
            lemma_quadwords();
            let f0 = fold_by(self.xmm_crc0, FOLD4_LO, FOLD4_HI);
            let f1 = fold_by(self.xmm_crc1, FOLD4_LO, FOLD4_HI);
            let f2 = fold_by(self.xmm_crc2, FOLD4_LO, FOLD4_HI);
            Self::lemma_rotate(self.xmm_crc0, self.xmm_crc1, self.xmm_crc2, self.xmm_crc3);
            Self::lemma_rotate(self.xmm_crc1, self.xmm_crc2, self.xmm_crc3, f0);
            Self::lemma_rotate(self.xmm_crc2, self.xmm_crc3, f0, f1);
            Self::lemma_rotate(self.xmm_crc3, f0, f1, f2);
            lemma_mul_xn_add(self.register(), 128, 128);
            lemma_mul_xn_add(self.register(), 256, 128);
            lemma_mul_xn_add(self.register(), 384, 128);
        }

        let mut x_tmp0 = self.xmm_crc0;
        let mut x_tmp1 = self.xmm_crc1;
        let mut x_tmp2 = self.xmm_crc2;
        let mut x_tmp3 = self.xmm_crc3;

        self.xmm_crc0 = clmulepi64_si128(self.xmm_crc0, xmm_fold4, 0x01);
        x_tmp0 = clmulepi64_si128(x_tmp0, xmm_fold4, 0x10);
        let res0 = self.xmm_crc0 ^ x_tmp0;

        self.xmm_crc1 = clmulepi64_si128(self.xmm_crc1, xmm_fold4, 0x01);
        x_tmp1 = clmulepi64_si128(x_tmp1, xmm_fold4, 0x10);
        let res1 = self.xmm_crc1 ^ x_tmp1;

        self.xmm_crc2 = clmulepi64_si128(self.xmm_crc2, xmm_fold4, 0x01);
        x_tmp2 = clmulepi64_si128(x_tmp2, xmm_fold4, 0x10);
        let res2 = self.xmm_crc2 ^ x_tmp2;

        self.xmm_crc3 = clmulepi64_si128(self.xmm_crc3, xmm_fold4, 0x01);
        x_tmp3 = clmulepi64_si128(x_tmp3, xmm_fold4, 0x10);
        let res3 = self.xmm_crc3 ^ x_tmp3;

        self.xmm_crc0 = res0;
        self.xmm_crc1 = res1;
        self.xmm_crc2 = res2;
        self.xmm_crc3 = res3;
    }

    /// The row after its first lane was folded over 512 bits and moved to its end.
    proof fn lemma_rotate(c0: u128, c1: u128, c2: u128, c3: u128)
        ensures
            window(c1, c2, c3, fold_by(c0, FOLD4_LO, FOLD4_HI)) == mul_xn(
                window(c0, c1, c2, c3),
                128,
            ),
    {
        let x = fold_by(c0, FOLD4_LO, FOLD4_HI);
        lemma_fold4_residue(c0);
        lemma_window_scaled(c0, c1, c2, c3, 128);
        lemma_xor_regroup(
            mul_xn(lane(c0), 512),
            mul_xn(lane(c1), 384),
            mul_xn(lane(c2), 256),
            mul_xn(lane(c3), 128),
            0,
            0,
            0,
            0,
            0,
        );
        lemma_xor_laws(mul_xn(lane(c0), 512), 0, 0);
        lemma_xor_laws(mul_xn(window(c0, c1, c2, c3), 128), 0, 0);
    }

    /// Takes the `len` first bytes of the staged lane: the row moves up by `len`
    /// bytes, and what leaves its first lane comes back folded.
    fn partial_fold(&mut self, len: usize)
        requires
            1 <= len <= 15,
        ensures
            final(self).register() == update(
                old(self).register(),
                le_bytes(old(self).xmm_crc_part, len as nat),
            ),
            final(self).xmm_crc0 == (old(self).xmm_crc0 >> ((8 * len) as u128)) | (old(
                self,
            ).xmm_crc1 << ((128 - 8 * len) as u128)),
            final(self).xmm_crc1 == (old(self).xmm_crc1 >> ((8 * len) as u128)) | (old(
                self,
            ).xmm_crc2 << ((128 - 8 * len) as u128)),
            final(self).xmm_crc2 == (old(self).xmm_crc2 >> ((8 * len) as u128)) | (old(
                self,
            ).xmm_crc3 << ((128 - 8 * len) as u128)),
            final(self).xmm_crc3 == ((old(self).xmm_crc3 >> ((8 * len) as u128)) | (old(
                self,
            ).xmm_crc_part << ((128 - 8 * len) as u128))) ^ fold_by(
                old(self).xmm_crc0 << ((128 - 8 * len) as u128),
                FOLD4_LO,
                FOLD4_HI,
            ),
            final(self).xmm_crc_part == old(self).xmm_crc_part << ((128 - 8 * len) as u128),
    {
        let xmm_fold4 = set_epi32(0x00000001, 0x54442bd4, 0x00000001, 0xc6e41596);
        let xmm_mask3 = set_epi32(0x80808080, 0x80808080, 0x80808080, 0x80808080);

        let xmm_shl = PSHUFB_SHF_TABLE[len - 1];
        let xmm_shr = xmm_shl ^ xmm_mask3;

        let ghost c0 = self.xmm_crc0;
        let ghost c1 = self.xmm_crc1;
        let ghost c2 = self.xmm_crc2;
        let ghost c3 = self.xmm_crc3;
        let ghost p = self.xmm_crc_part;
        let ghost s = (8 * len) as nat;
        proof {
            lemma_quadwords();
            lemma_shuffle_table(c0, len);
            lemma_shuffle_table(c1, len);
            lemma_shuffle_table(c2, len);
            lemma_shuffle_table(c3, len);
            lemma_shuffle_table(p, len);
        }

        let xmm_a0_0 = shuffle_epi8(self.xmm_crc0, xmm_shl);

        self.xmm_crc0 = shuffle_epi8(self.xmm_crc0, xmm_shr);
        let xmm_tmp1 = shuffle_epi8(self.xmm_crc1, xmm_shl);
        self.xmm_crc0 = self.xmm_crc0 | xmm_tmp1;

        self.xmm_crc1 = shuffle_epi8(self.xmm_crc1, xmm_shr);
        let xmm_tmp2 = shuffle_epi8(self.xmm_crc2, xmm_shl);
        self.xmm_crc1 = self.xmm_crc1 | xmm_tmp2;

        self.xmm_crc2 = shuffle_epi8(self.xmm_crc2, xmm_shr);
        let xmm_tmp3 = shuffle_epi8(self.xmm_crc3, xmm_shl);
        self.xmm_crc2 = self.xmm_crc2 | xmm_tmp3;

        self.xmm_crc3 = shuffle_epi8(self.xmm_crc3, xmm_shr);
        self.xmm_crc_part = shuffle_epi8(self.xmm_crc_part, xmm_shl);
        self.xmm_crc3 = self.xmm_crc3 | self.xmm_crc_part;
        let xmm_a0_1 = clmulepi64_si128(xmm_a0_0, xmm_fold4, 0x10);
        let ghost a0 = xmm_a0_0;
        let xmm_a0_0 = clmulepi64_si128(xmm_a0_0, xmm_fold4, 0x01);

        let ghost merged = self.xmm_crc3;
        self.xmm_crc3 = (self.xmm_crc3 ^ xmm_a0_0) ^ xmm_a0_1;

        proof {
            let x = fold_by(a0, FOLD4_LO, FOLD4_HI);
            lemma_wide_xor(merged, xmm_a0_0, xmm_a0_1, 0);
            lemma_fold4_residue(a0);
            lemma_window_partial(c0, c1, c2, c3, p, x, s);
            lemma_absorb_bytes(0, p, len as nat);
            lemma_update_split(window(c0, c1, c2, c3), le_bytes(p, len as nat));
        }
    }

    /// Stages the `len` bytes of `bytes` from `pos` on: they go to the low end of the
    /// staged lane, and the bytes above them stay.
    fn partial_load(&mut self, bytes: &[u8], pos: usize, len: usize)
        requires
            len <= 16,
            pos + len <= bytes.len(),
        ensures
            le_bytes(final(self).xmm_crc_part, len as nat) == bytes@.subrange(
                pos as int,
                pos + len,
            ),
            forall|j: int|
                len <= j < 16 ==> #[trigger] byte(final(self).xmm_crc_part, j) == byte(
                    old(self).xmm_crc_part,
                    j,
                ),
            final(self).xmm_crc0 == old(self).xmm_crc0,
            final(self).xmm_crc1 == old(self).xmm_crc1,
            final(self).xmm_crc2 == old(self).xmm_crc2,
            final(self).xmm_crc3 == old(self).xmm_crc3,
    {
        let low = load_bytes(bytes, pos, len);
        if len < 16 {
            let ghost kept = self.xmm_crc_part;
            proof {
                lemma_staged_bits(kept, low, len as u32, 0);
            }
            let keep: u128 = !((1u128 << (8 * len)) - 1);
            self.xmm_crc_part = (self.xmm_crc_part & keep) | low;
            proof {
                assert forall|j: int| 0 <= j < 16 implies #[trigger] byte(self.xmm_crc_part, j)
                    == (if j < len {
                    byte(low, j)
                } else {
                    byte(kept, j)
                }) by {
                    lemma_staged_bits(kept, low, len as u32, j as u32);
                }
                assert(le_bytes(self.xmm_crc_part, len as nat) =~= le_bytes(low, len as nat));
            }
        } else {
            self.xmm_crc_part = low;
        }
    }

    /// Takes the bytes of `bytes`. The first `algn_diff` bytes of a run of sixteen or
    /// more go first, as a partial block, so that the lanes that follow start at a
    /// multiple of sixteen where `algn_diff` is the distance to the next one.
    pub fn fold(&mut self, bytes: &[u8], algn_diff: usize)
        requires
            algn_diff < 16,
        ensures
            final(self).register() == update(old(self).register(), bytes@),
            final(self).crc() == resume(old(self).crc(), bytes@),
            bytes@.len() == 0 ==> *final(self) == *old(self),
    {
        let ghost start = self.register();
        proof {
            lemma_xor_laws(start, 0xffff_ffff, 0);
        }
        let mut src: usize = 0;
        let mut len: usize = bytes.len();

        if len == 0 {
            assert(bytes@ =~= Seq::empty());
            return ;
        }
        if len < 16 {
            self.partial_load(bytes, src, len);
            assert(bytes@.subrange(0, len as int) =~= bytes@);
            return self.partial_fold(len);
        }
        assert(bytes@.take(0) =~= Seq::empty());

        if algn_diff > 0 {
            self.xmm_crc_part = loadu_si128(bytes, src);
            src = src + algn_diff;
            len -= algn_diff;

            if len == 0 {
                return ;
            }
            proof {
                assert(le_bytes(self.xmm_crc_part, algn_diff as nat) =~= le_bytes(
                    self.xmm_crc_part,
                    16,
                ).take(algn_diff as int));
                assert(bytes@.subrange(0, 16).take(algn_diff as int) =~= bytes@.take(
                    algn_diff as int,
                ));
            }
            self.partial_fold(algn_diff);
        }
        while len >= 64
            invariant
                src + len == bytes.len(),
                self.register() == update(start, bytes@.take(src as int)),
            decreases len,
        {
            let xmm_t0 = loadu_si128(bytes, src);
            let xmm_t1 = loadu_si128(bytes, src + 16);
            let xmm_t2 = loadu_si128(bytes, src + 32);
            let xmm_t3 = loadu_si128(bytes, src + 48);

            let ghost c0 = self.xmm_crc0;
            let ghost c1 = self.xmm_crc1;
            let ghost c2 = self.xmm_crc2;
            let ghost c3 = self.xmm_crc3;

            self.fold_4();

            self.xmm_crc0 = self.xmm_crc0 ^ xmm_t0;
            self.xmm_crc1 = self.xmm_crc1 ^ xmm_t1;
            self.xmm_crc2 = self.xmm_crc2 ^ xmm_t2;
            self.xmm_crc3 = self.xmm_crc3 ^ xmm_t3;

            proof {
                Self::lemma_lane_taken(start, bytes@, src as int, c0, c1, c2, c3, xmm_t0);
                Self::lemma_lane_taken(
                    start,
                    bytes@,
                    src + 16,
                    c1,
                    c2,
                    c3,
                    self.xmm_crc0,
                    xmm_t1,
                );
                Self::lemma_lane_taken(
                    start,
                    bytes@,
                    src + 32,
                    c2,
                    c3,
                    self.xmm_crc0,
                    self.xmm_crc1,
                    xmm_t2,
                );
                Self::lemma_lane_taken(
                    start,
                    bytes@,
                    src + 48,
                    c3,
                    self.xmm_crc0,
                    self.xmm_crc1,
                    self.xmm_crc2,
                    xmm_t3,
                );
            }

            src = src + 64;
            len -= 64;
        }

        if len >= 48 {
            let xmm_t0 = loadu_si128(bytes, src);
            let xmm_t1 = loadu_si128(bytes, src + 16);
            let xmm_t2 = loadu_si128(bytes, src + 32);

            let ghost c0 = self.xmm_crc0;
            let ghost c1 = self.xmm_crc1;
            let ghost c2 = self.xmm_crc2;
            let ghost c3 = self.xmm_crc3;

            self.fold_3();

            self.xmm_crc1 = self.xmm_crc1 ^ xmm_t0;
            self.xmm_crc2 = self.xmm_crc2 ^ xmm_t1;
            self.xmm_crc3 = self.xmm_crc3 ^ xmm_t2;

            proof {
                Self::lemma_lane_taken(start, bytes@, src as int, c0, c1, c2, c3, xmm_t0);
                Self::lemma_lane_taken(
                    start,
                    bytes@,
                    src + 16,
                    c1,
                    c2,
                    c3,
                    self.xmm_crc1,
                    xmm_t1,
                );
                Self::lemma_lane_taken(
                    start,
                    bytes@,
                    src + 32,
                    c2,
                    c3,
                    self.xmm_crc1,
                    self.xmm_crc2,
                    xmm_t2,
                );
            }

            src = src + 48;
            len -= 48;
            if len == 0 {
                assert(bytes@.take(src as int) =~= bytes@);
                return ;
            }
            self.partial_load(bytes, src, len);
        } else if len >= 32 {
            let xmm_t0 = loadu_si128(bytes, src);
            let xmm_t1 = loadu_si128(bytes, src + 16);

            let ghost c0 = self.xmm_crc0;
            let ghost c1 = self.xmm_crc1;
            let ghost c2 = self.xmm_crc2;
            let ghost c3 = self.xmm_crc3;

            self.fold_2();

            self.xmm_crc2 = self.xmm_crc2 ^ xmm_t0;
            self.xmm_crc3 = self.xmm_crc3 ^ xmm_t1;

            proof {
                Self::lemma_lane_taken(start, bytes@, src as int, c0, c1, c2, c3, xmm_t0);
                Self::lemma_lane_taken(
                    start,
                    bytes@,
                    src + 16,
                    c1,
                    c2,
                    c3,
                    self.xmm_crc2,
                    xmm_t1,
                );
            }

            src = src + 32;
            len -= 32;
            if len == 0 {
                assert(bytes@.take(src as int) =~= bytes@);
                return ;
            }
            self.partial_load(bytes, src, len);
        } else if len >= 16 {
            let xmm_t0 = loadu_si128(bytes, src);

            let ghost c0 = self.xmm_crc0;
            let ghost c1 = self.xmm_crc1;
            let ghost c2 = self.xmm_crc2;
            let ghost c3 = self.xmm_crc3;

            self.fold_1();

            self.xmm_crc3 = self.xmm_crc3 ^ xmm_t0;

            proof {
                Self::lemma_lane_taken(start, bytes@, src as int, c0, c1, c2, c3, xmm_t0);
            }

            src = src + 16;
            len -= 16;
            if len == 0 {
                assert(bytes@.take(src as int) =~= bytes@);
                return ;
            }
            self.partial_load(bytes, src, len);
        } else {
            if len == 0 {
                assert(bytes@.take(src as int) =~= bytes@);
                return ;
            }
            self.partial_load(bytes, src, len);
        }

        proof {
            lemma_take_chunk(start, bytes@, src as int, len as int);
            assert(bytes@.take(src + len) =~= bytes@);
        }
        self.partial_fold(len);
    }

    /// One lane of sixteen bytes taken: the row `c0 .. c3` goes over to the row
    /// `c1, c2, c3` and the first lane, folded, plus the new lane `t`.
    proof fn lemma_lane_taken(
        start: u32,
        bytes: Seq<u8>,
        src: int,
        c0: u128,
        c1: u128,
        c2: u128,
        c3: u128,
        t: u128,
    )
        requires
            0 <= src,
            src + 16 <= bytes.len(),
            le_bytes(t, 16) == bytes.subrange(src, src + 16),
            window(c0, c1, c2, c3) == update(start, bytes.take(src)),
        ensures
            window(c1, c2, c3, fold_by(c0, FOLD4_LO, FOLD4_HI) ^ t) == update(
                start,
                bytes.take(src + 16),
            ),
    {
        lemma_fold4_residue(c0);
        lemma_window_step(c0, c1, c2, c3, fold_by(c0, FOLD4_LO, FOLD4_HI), t);
        lemma_take_chunk(start, bytes, src, 16);
    }

    /// Reduces the four lanes to the 32 bits of the register and gives its complement,
    /// the checksum.
    fn fold_512to32(&mut self) -> (crc: u32)
        ensures
            crc == old(self).crc(),
            final(self).xmm_crc0 == reduce_128(old(self).row()),
            final(self).xmm_crc1 == reduce_96(old(self).row()),
            final(self).xmm_crc2 == barrett_step(reduce_96(old(self).row())),
            final(self).xmm_crc3 == barrett(reduce_96(old(self).row())),
            final(self).xmm_crc_part == old(self).xmm_crc_part,
    {
        let ghost c0 = self.xmm_crc0;
        let ghost c1 = self.xmm_crc1;
        let ghost c2 = self.xmm_crc2;
        let ghost c3 = self.xmm_crc3;
        proof {
            lemma_quadwords();
        }

        let xmm_mask = CRC_MASK;
        let xmm_mask2 = CRC_MASK2;

        let mut crc_fold: u128;

        // k1
        crc_fold = CRC_K[0];

        let x_tmp0 = clmulepi64_si128(self.xmm_crc0, crc_fold, 0x10);
        self.xmm_crc0 = clmulepi64_si128(self.xmm_crc0, crc_fold, 0x01);
        self.xmm_crc1 = self.xmm_crc1 ^ x_tmp0;
        self.xmm_crc1 = self.xmm_crc1 ^ self.xmm_crc0;
        proof {
            lemma_wide_xor(c1, x_tmp0, self.xmm_crc0, 0);
            lemma_wide_xor(x_tmp0, self.xmm_crc0, 0, 0);
            assert(self.xmm_crc1 == fold_into(c1, c0));
        }

        let ghost x1 = self.xmm_crc1;
        let x_tmp1 = clmulepi64_si128(self.xmm_crc1, crc_fold, 0x10);
        self.xmm_crc1 = clmulepi64_si128(self.xmm_crc1, crc_fold, 0x01);
        self.xmm_crc2 = self.xmm_crc2 ^ x_tmp1;
        self.xmm_crc2 = self.xmm_crc2 ^ self.xmm_crc1;
        proof {
            lemma_wide_xor(c2, x_tmp1, self.xmm_crc1, 0);
            lemma_wide_xor(x_tmp1, self.xmm_crc1, 0, 0);
            assert(self.xmm_crc2 == fold_into(c2, x1));
        }

        let ghost x2 = self.xmm_crc2;
        let x_tmp2 = clmulepi64_si128(self.xmm_crc2, crc_fold, 0x10);
        self.xmm_crc2 = clmulepi64_si128(self.xmm_crc2, crc_fold, 0x01);
        self.xmm_crc3 = self.xmm_crc3 ^ x_tmp2;
        self.xmm_crc3 = self.xmm_crc3 ^ self.xmm_crc2;
        proof {
            lemma_wide_xor(c3, x_tmp2, self.xmm_crc2, 0);
            lemma_wide_xor(x_tmp2, self.xmm_crc2, 0, 0);
            assert(self.xmm_crc3 == fold_into(c3, x2));
            lemma_fold_into(c0, c1, c2, c3);
        }
        let ghost v = self.xmm_crc3;

        // k5
        crc_fold = CRC_K[1];

        self.xmm_crc0 = self.xmm_crc3;
        self.xmm_crc3 = clmulepi64_si128(self.xmm_crc3, crc_fold, 0);
        self.xmm_crc0 = srli_si128(self.xmm_crc0, 8);
        self.xmm_crc3 = self.xmm_crc3 ^ self.xmm_crc0;

        self.xmm_crc0 = self.xmm_crc3;
        self.xmm_crc3 = slli_si128(self.xmm_crc3, 4);
        self.xmm_crc3 = clmulepi64_si128(self.xmm_crc3, crc_fold, 0x10);
        self.xmm_crc3 = self.xmm_crc3 ^ self.xmm_crc0;
        self.xmm_crc3 = self.xmm_crc3 & xmm_mask2;
        proof {
            assert(self.xmm_crc3 == reduce_96(v));
            lemma_reduce_96(v);
        }
        let ghost u = self.xmm_crc3;

        // k7
        self.xmm_crc1 = self.xmm_crc3;
        self.xmm_crc2 = self.xmm_crc3;
        crc_fold = CRC_K[2];

        self.xmm_crc3 = clmulepi64_si128(self.xmm_crc3, crc_fold, 0);
        self.xmm_crc3 = self.xmm_crc3 ^ self.xmm_crc2;
        self.xmm_crc3 = self.xmm_crc3 & xmm_mask;

        self.xmm_crc2 = self.xmm_crc3;
        self.xmm_crc3 = clmulepi64_si128(self.xmm_crc3, crc_fold, 0x10);
        self.xmm_crc3 = self.xmm_crc3 ^ self.xmm_crc2;
        self.xmm_crc3 = self.xmm_crc3 ^ self.xmm_crc1;
        proof {
            assert(self.xmm_crc3 == barrett(u));
            lemma_barrett(u);
        }

        let crc = extract_epi32(self.xmm_crc3, 2);
        proof {
            lemma_mul_xn_injective(crc, lane(v), 32);
            lemma_xor_laws(crc, 0, 0);
        }
        return !crc;
    }
}

} // verus!
