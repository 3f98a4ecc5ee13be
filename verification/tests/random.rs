use crc32fast::baseline;
use crc32fast::features::Features;
use crc32fast::specialized;
use crc32fast::Hasher;
use quickcheck::QuickCheck;

fn agree(chunks: Vec<(Vec<u8>, usize)>) -> bool {
    let mut baseline = baseline::State::new();
    let mut pclmulqdq = specialized::State::new(Features::all()).expect("not supported");
    for (chunk, mut offset) in chunks {
        // simulate random alignments by offsetting the slice by up to 15 bytes
        offset = offset & 0xF;
        if chunk.len() <= offset {
            baseline.update(&chunk);
            pclmulqdq.update(&chunk);
        } else {
            baseline.update(&chunk[offset..]);
            pclmulqdq.update(&chunk[offset..]);
        }
    }
    pclmulqdq.finalize() == baseline.finalize()
}

fn combined(a: Vec<u8>, b: Vec<u8>) -> bool {
    let mut first = Hasher::new(Features::all());
    first.update(&a);
    let mut second = Hasher::new(Features::none());
    second.update(&b);
    let mut whole = Hasher::new(Features::none());
    whole.update(&a);
    whole.update(&b);
    first.combine(&second);
    first.finalize() == whole.finalize()
}

#[test]
fn check_against_baseline() {
    QuickCheck::new()
        .tests(300)
        .quickcheck(agree as fn(Vec<(Vec<u8>, usize)>) -> bool);
}

#[test]
fn combine_against_update() {
    QuickCheck::new()
        .tests(300)
        .quickcheck(combined as fn(Vec<u8>, Vec<u8>) -> bool);
}
