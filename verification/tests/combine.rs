use crc32fast::combine::{combine, multiply, X2N_TABLE};
use crc32fast::features::Features;
use crc32fast::Hasher;

fn crc(bytes: &[u8]) -> u32 {
    let mut hasher = Hasher::internal_new_baseline();
    hasher.update(bytes);
    hasher.finalize()
}

fn sample(len: usize, seed: u32) -> Vec<u8> {
    let mut x = seed;
    let mut out = Vec::with_capacity(len);
    for _ in 0..len {
        x = x.wrapping_mul(1664525).wrapping_add(1013904223);
        out.push((x >> 24) as u8);
    }
    out
}

#[test]
fn golden() {
    assert_eq!(
        combine(0xB8AD0532, 0x804754D9, 0x19B77C403D9D90EE),
        940758956
    );
    assert_eq!(
        combine(0xF310DC54, 0x8B65DF79, 0x2F0327F1309076FF),
        3454617599
    );
}

#[test]
fn multiply_by_one_and_by_x() {
    // 0x8000_0000 is the polynomial 1, 0x4000_0000 is x
    assert_eq!(multiply(0x8000_0000, 0xdead_beef), 0xdead_beef);
    assert_eq!(multiply(0xdead_beef, 0x8000_0000), 0xdead_beef);
    assert_eq!(multiply(0x4000_0000, 0x0000_0002), 0x0000_0001);
    assert_eq!(multiply(0x4000_0000, 0x0000_0001), 0xedb8_8320);
}

#[test]
fn multiply_squares_the_table() {
    for i in 0..32 {
        assert_eq!(
            multiply(X2N_TABLE[i], X2N_TABLE[i]),
            X2N_TABLE[(i + 1) % 32]
        );
    }
}

#[test]
fn combine_with_empty_second_segment() {
    assert_eq!(combine(0x1234_5678, 0, 0), 0x1234_5678);
}

#[test]
fn combine_gives_checksum_of_concatenation() {
    let lengths =
        [(0usize, 0usize), (0, 5), (5, 0), (1, 1), (13, 64), (64, 13), (100, 130), (257, 31)];
    for (la, lb) in lengths {
        let a = sample(la, 1);
        let b = sample(lb, 2);
        let mut ab = a.clone();
        ab.extend_from_slice(&b);
        assert_eq!(combine(crc(&a), crc(&b), b.len() as u64), crc(&ab));
    }
}

#[test]
fn combine_known_value() {
    // crc32("hello ") and crc32("world") give crc32("hello world")
    assert_eq!(crc(b"hello world"), 0x0d4a_1185);
    assert_eq!(combine(crc(b"hello "), crc(b"world"), 5), 0x0d4a_1185);
}

#[test]
fn combine_is_associative() {
    let a = sample(37, 3);
    let b = sample(70, 4);
    let c = sample(129, 5);
    let mut abc = a.clone();
    abc.extend_from_slice(&b);
    abc.extend_from_slice(&c);
    let left = combine(combine(crc(&a), crc(&b), 70), crc(&c), 129);
    let right = combine(crc(&a), combine(crc(&b), crc(&c), 129), 70 + 129);
    assert_eq!(left, crc(&abc));
    assert_eq!(right, crc(&abc));
}

#[test]
fn hasher_combine_both_engines() {
    let a = sample(77, 6);
    let b = sample(150, 7);
    let mut ab = a.clone();
    ab.extend_from_slice(&b);
    for first in [Features::none(), Features::all()] {
        for second in [Features::none(), Features::all()] {
            let mut h1 = Hasher::new(first);
            h1.update(&a);
            let mut h2 = Hasher::new(second);
            h2.update(&b);
            h1.combine(&h2);
            assert_eq!(h1.is_specialized(), first == Features::all());
            assert_eq!(h1.checksum(), crc(&ab));
            // the combined hasher goes on
            h1.update(&a);
            let mut aba = ab.clone();
            aba.extend_from_slice(&a);
            assert_eq!(h1.finalize(), crc(&aba));
        }
    }
}

#[test]
fn new_from_state_resumes() {
    let a = sample(40, 8);
    let b = sample(90, 9);
    let mut ab = a.clone();
    ab.extend_from_slice(&b);
    for features in [Features::none(), Features::all()] {
        let mut h = Hasher::new_from_state(features, crc(&a), a.len() as u64);
        assert_eq!(h.checksum(), crc(&a));
        h.update(&b);
        assert_eq!(h.finalize(), crc(&ab));

        // the length that was handed in is the one that combining uses
        let mut first = Hasher::new(features);
        first.update(&a);
        let second = Hasher::new_from_state(features, crc(&b), b.len() as u64);
        first.combine(&second);
        assert_eq!(first.finalize(), crc(&ab));
    }
}
