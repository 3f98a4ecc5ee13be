use crc32fast::baseline;
use crc32fast::features::Features;
use crc32fast::gf2::{div_x, div_xn};
use crc32fast::specialized;
use crc32fast::specialized::vector::{
    clmulepi64_si128, extract_epi32, load_bytes, loadu_si128, set_epi32, shuffle_epi8, slli_si128,
    srli_si128,
};
use crc32fast::table::CRC32_TABLE;
use crc32fast::Hasher;

/// The checksum, bit by bit.
fn reference(bytes: &[u8]) -> u32 {
    let mut reg: u32 = 0xffff_ffff;
    for &b in bytes {
        reg ^= b as u32;
        for _ in 0..8 {
            reg = if reg & 1 != 0 { (reg >> 1) ^ 0xedb8_8320 } else { reg >> 1 };
        }
    }
    !reg
}

fn sample(len: usize, seed: u32) -> Vec<u8> {
    let mut x = seed;
    let mut out = Vec::with_capacity(len);
    for _ in 0..len {
        x = x.wrapping_mul(1664525).wrapping_add(1013904223);
        out.push((x >> 24) as u8);
    }
    out
}

fn folding() -> specialized::State {
    match specialized::State::new(Features::all()) {
        Some(state) => state,
        None => panic!("not supported"),
    }
}

#[test]
fn empty_input_is_zero() {
    assert_eq!(Hasher::new(Features::none()).finalize(), 0);
    assert_eq!(Hasher::new(Features::all()).finalize(), 0);
    assert_eq!(Hasher::internal_new_baseline().finalize(), 0);
    let mut h = Hasher::new(Features::all());
    h.update(b"");
    assert_eq!(h.finalize(), 0);
}

#[test]
fn known_checksums() {
    for features in [Features::none(), Features::all()] {
        let mut h = Hasher::new(features);
        h.update(b"123456789");
        assert_eq!(h.finalize(), 0xcbf4_3926);
        let mut h = Hasher::new(features);
        h.update(b"foo bar baz");
        assert_eq!(h.finalize(), reference(b"foo bar baz"));
        let mut h = Hasher::new(features);
        h.update(b"The quick brown fox jumps over the lazy dog");
        assert_eq!(h.finalize(), 0x414f_a339);
        let mut h = Hasher::new(features);
        h.update(b"a");
        assert_eq!(h.finalize(), 0xe8b7_be43);
    }
}

#[test]
fn engines_agree_on_every_length() {
    for len in 0..=130usize {
        let data = sample(len, len as u32 + 1);
        let mut table = baseline::State::new();
        let mut vector = folding();
        table.update(&data);
        vector.update(&data);
        let expected = reference(&data);
        assert_eq!(table.finalize(), expected);
        assert_eq!(vector.finalize(), expected);
    }
}

#[test]
fn engines_agree_on_long_input() {
    let data = sample(5000, 99);
    let mut table = baseline::State::new();
    let mut vector = folding();
    table.update(&data);
    vector.update(&data);
    assert_eq!(table.finalize(), reference(&data));
    assert_eq!(vector.finalize(), reference(&data));
}

#[test]
fn engines_agree_at_every_offset() {
    // chunks of many lengths, each started at each of the sixteen offsets
    let mut table = baseline::State::new();
    let mut vector = folding();
    let mut all: Vec<u8> = Vec::new();
    for round in 0..200usize {
        let chunk = sample((round * 7) % 150, round as u32);
        let offset = round & 0xF;
        let part: &[u8] = if chunk.len() <= offset { &chunk } else { &chunk[offset..] };
        table.update(part);
        vector.update(part);
        all.extend_from_slice(part);
    }
    let expected = reference(&all);
    assert_eq!(vector.finalize(), expected);
    assert_eq!(table.finalize(), expected);
}

#[test]
fn chunks_give_the_checksum_of_the_whole() {
    let data = sample(777, 5);
    let whole = reference(&data);
    for features in [Features::none(), Features::all()] {
        for step in [1usize, 2, 3, 15, 16, 17, 31, 32, 47, 48, 63, 64, 65, 100, 776, 777] {
            let mut h = Hasher::new(features);
            for chunk in data.chunks(step) {
                h.update(chunk);
            }
            assert_eq!(h.finalize(), whole);
        }
    }
}

#[test]
fn every_split_in_two() {
    let data = sample(131, 6);
    let whole = reference(&data);
    for cut in 0..=data.len() {
        let mut h = Hasher::new(Features::all());
        h.update(&data[..cut]);
        h.update(&data[cut..]);
        assert_eq!(h.finalize(), whole);
    }
}

#[test]
fn new_selects_the_engine_by_the_features() {
    assert!(Hasher::new(Features::all()).is_specialized());
    assert!(!Hasher::new(Features::none()).is_specialized());
    assert!(!Hasher::internal_new_baseline().is_specialized());
    // one missing feature is enough for the fallback
    let mut f = Features::all();
    f.pclmulqdq = false;
    assert!(!Hasher::new(f).is_specialized());
    let mut f = Features::all();
    f.sse = false;
    assert!(!Hasher::new(f).is_specialized());
    let mut f = Features::all();
    f.sse2 = false;
    assert!(!Hasher::new(f).is_specialized());
    let mut f = Features::all();
    f.ssse3 = false;
    assert!(!Hasher::new(f).is_specialized());
    let mut f = Features::all();
    f.sse4_1 = false;
    assert!(!Hasher::new(f).is_specialized());
    assert!(!f.is_sufficient());
    assert!(Features::all().is_sufficient());
}

#[test]
fn internal_new_specialized_needs_the_features() {
    assert!(Hasher::internal_new_specialized(Features::none()).is_none());
    assert!(specialized::State::new(Features::none()).is_none());
    assert!(specialized::State::with_initial(Features::none(), 7).is_none());
    match Hasher::internal_new_specialized(Features::all()) {
        Some(mut h) => {
            assert!(h.is_specialized());
            h.update(b"123456789");
            assert_eq!(h.finalize(), 0xcbf4_3926);
        }
        None => panic!("not supported"),
    }
}

#[test]
fn checksum_leaves_the_hasher_usable() {
    for features in [Features::none(), Features::all()] {
        let mut h = Hasher::new(features);
        h.update(b"1234");
        assert_eq!(h.checksum(), reference(b"1234"));
        h.update(b"56789");
        assert_eq!(h.checksum(), 0xcbf4_3926);
        let copy = h.clone();
        assert_eq!(copy.finalize(), h.finalize());
    }
}

#[test]
fn states_resume_from_a_checksum() {
    let a = sample(33, 1);
    let b = sample(95, 2);
    let mut ab = a.clone();
    ab.extend_from_slice(&b);
    let mut table = baseline::State::with_initial(reference(&a));
    table.update(&b);
    assert_eq!(table.finalize(), reference(&ab));
    match specialized::State::with_initial(Features::all(), reference(&a)) {
        Some(mut vector) => {
            assert_eq!(vector.duplicate().finalize(), reference(&a));
            vector.update(&b);
            assert_eq!(vector.finalize(), reference(&ab));
        }
        None => panic!("not supported"),
    }
}

#[test]
fn states_combine() {
    let a = sample(50, 3);
    let b = sample(81, 4);
    let mut ab = a.clone();
    ab.extend_from_slice(&b);
    let mut table = baseline::State::new();
    table.update(&a);
    table.combine(reference(&b), b.len() as u64);
    assert_eq!(table.duplicate().finalize(), reference(&ab));
    let mut vector = folding();
    vector.update(&a);
    vector.combine(reference(&b), b.len() as u64);
    assert_eq!(vector.finalize(), reference(&ab));
}

#[test]
fn table_entries() {
    assert_eq!(CRC32_TABLE[0], 0);
    assert_eq!(CRC32_TABLE[1], 0x7707_3096);
    assert_eq!(CRC32_TABLE[128], 0xedb8_8320);
    assert_eq!(CRC32_TABLE[255], 0x2d02_ef8d);
}

#[test]
fn division_by_x_undoes_multiplication() {
    // x * (1 / x) is 1
    assert_eq!(div_x(0x4000_0000), 0x8000_0000);
    assert_eq!(div_x(0xedb8_8320), 0x0000_0001);
    assert_eq!(div_xn(0xedb8_8320, 32), 0x8000_0000);
    assert_eq!(div_xn(0xffff_ffff, 0), 0xffff_ffff);
    // the start of the folding engine: all ones, 512 bits back
    assert_eq!(div_xn(0xffff_ffff, 512), 0x9db4_2487);
}

#[test]
fn carry_less_products() {
    let a: u128 = (0x0000_0000_0000_0003u128 << 64) | 0x0000_0000_0000_0005;
    let b: u128 = (0x0000_0000_0000_0007u128 << 64) | 0x8000_0000_0000_0001;
    // 5 * (x^63 + 1), 3 * (x^63 + 1), 5 * 7, 3 * 7 over GF(2)
    assert_eq!(clmulepi64_si128(a, b, 0x00), (5u128 << 63) ^ 5);
    assert_eq!(clmulepi64_si128(a, b, 0x01), (3u128 << 63) ^ 3);
    assert_eq!(clmulepi64_si128(a, b, 0x10), 27);
    assert_eq!(clmulepi64_si128(a, b, 0x11), 9);
    assert_eq!(
        clmulepi64_si128(u64::MAX as u128, u64::MAX as u128, 0),
        0x5555_5555_5555_5555_5555_5555_5555_5555
    );
}

#[test]
fn vector_operations() {
    let v = set_epi32(0x0f0e_0d0c, 0x0b0a_0908, 0x0706_0504, 0x0302_0100);
    assert_eq!(v, 0x0f0e_0d0c_0b0a_0908_0706_0504_0302_0100);
    assert_eq!(extract_epi32(v, 0), 0x0302_0100);
    assert_eq!(extract_epi32(v, 2), 0x0b0a_0908);
    assert_eq!(extract_epi32(v, 3), 0x0f0e_0d0c);
    assert_eq!(slli_si128(v, 4), v << 32);
    assert_eq!(srli_si128(v, 8), v >> 64);
    assert_eq!(slli_si128(v, 16), 0);
    assert_eq!(srli_si128(v, 16), 0);
    // reversing the bytes, and zeroing by the high bit of a selector
    let reverse = 0x0001_0203_0405_0607_0809_0a0b_0c0d_0e0fu128;
    assert_eq!(shuffle_epi8(v, reverse), 0x0001_0203_0405_0607_0809_0a0b_0c0d_0e0f);
    assert_eq!(shuffle_epi8(v, reverse | 0x80), 0x0001_0203_0405_0607_0809_0a0b_0c0d_0e00);
    let bytes: Vec<u8> = (0u8..20).collect();
    assert_eq!(loadu_si128(&bytes, 0), v);
    assert_eq!(loadu_si128(&bytes, 4), (v >> 32) | (0x1312_1110u128 << 96));
    assert_eq!(load_bytes(&bytes, 1, 3), 0x03_0201);
    assert_eq!(load_bytes(&bytes, 1, 0), 0);
}

#[test]
fn hashing_trait() {
    for features in [Features::none(), Features::all()] {
        let mut h = Hasher::new(features);
        std::hash::Hasher::write(&mut h, b"1234");
        std::hash::Hasher::write(&mut h, b"56789");
        assert_eq!(std::hash::Hasher::finish(&h), 0xcbf4_3926u64);
        // the digest was only read: the hasher goes on
        std::hash::Hasher::write_u8(&mut h, b'0');
        assert_eq!(std::hash::Hasher::finish(&h), reference(b"1234567890") as u64);
        assert_eq!(h.finalize(), reference(b"1234567890"));
    }
}

#[test]
fn update_with_nothing_changes_nothing() {
    for features in [Features::none(), Features::all()] {
        let mut h = Hasher::new(features);
        h.update(b"abc");
        let before = h.checksum();
        h.update(&[]);
        assert_eq!(h.checksum(), before);
    }
}

#[test]
fn fold_at_every_distance_from_alignment() {
    for algn_diff in 0..16usize {
        for len in 0..=130usize {
            let data = sample(len, (algn_diff * 131 + len) as u32);
            let mut vector = folding();
            vector.fold(&data, algn_diff);
            assert_eq!(vector.finalize(), reference(&data));
        }
    }
    // and in two pieces, each with its own distance
    let data = sample(300, 77);
    for algn_diff in 0..16usize {
        let mut vector = folding();
        vector.fold(&data[..123], algn_diff);
        vector.fold(&data[123..], 15 - algn_diff);
        assert_eq!(vector.finalize(), reference(&data));
    }
}

#[test]
fn a_new_engine_starts_from_the_folded_seed() {
    let text = format!("{:?}", folding());
    // 0x9db42487 in the first lane, zero in the others
    assert!(text.contains("xmm_crc0: 2645828743"));
    assert!(text.contains("xmm_crc1: 0"));
    assert!(text.contains("xmm_crc2: 0"));
    assert!(text.contains("xmm_crc3: 0"));
    assert!(text.contains("xmm_crc_part: 0"));
}

#[test]
fn writing_counts_the_bytes() {
    let a = sample(60, 21);
    let b = sample(45, 22);
    let mut ab = a.clone();
    ab.extend_from_slice(&b);
    for features in [Features::none(), Features::all()] {
        let mut first = Hasher::new(features);
        first.update(&a);
        let mut second = Hasher::new(features);
        std::hash::Hasher::write(&mut second, &b);
        // combining reads the length that `write` has counted
        first.combine(&second);
        assert_eq!(first.finalize(), reference(&ab));
    }
}
