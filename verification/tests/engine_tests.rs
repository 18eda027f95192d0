use diskverify::engine::chunk_schedule;
use diskverify::engine::next_chunk_size;
use diskverify::engine::progress_due;
use diskverify::engine::verify_extent;
use diskverify::engine::write_extent;
use diskverify::generator::Xoshiro256StarStar;
use diskverify::generator::fill_buffer;

fn written(seed: u64, total: usize, block: usize) -> Vec<u8> {
    let mut dev = vec![0u8; total];
    write_extent(&mut dev, seed, block);
    dev
}

#[test]
fn concrete_scenario_seed_42() {
    // Total size 18, block size 8: chunks 8, 8, 2; a clean round trip finds
    // no mismatch; corrupting byte 10 (inside the second chunk) finds one.
    assert_eq!(chunk_schedule(18, 8), vec![8u64, 8, 2]);
    let mut dev = vec![0u8; 18];
    write_extent(&mut dev, 42, 8);
    assert_eq!(verify_extent(&dev, 42, 8), 0);
    dev[10] ^= 0xff;
    assert_eq!(verify_extent(&dev, 42, 8), 1);
}

#[test]
fn chunk_schedule_covers_exactly() {
    assert_eq!(chunk_schedule(0, 8), Vec::<u64>::new());
    assert_eq!(chunk_schedule(24, 8), vec![8u64, 8, 8]);
    assert_eq!(chunk_schedule(5, 8), vec![5u64]);
    let sched = chunk_schedule(100, 7);
    assert_eq!(sched.len(), 15);
    assert_eq!(sched.iter().sum::<u64>(), 100);
    assert!(sched[..14].iter().all(|&c| c == 7));
    assert_eq!(sched[14], 100 % 7);
}

#[test]
fn next_chunk_size_caps_at_remaining() {
    assert_eq!(next_chunk_size(18, 0, 8), 8);
    assert_eq!(next_chunk_size(18, 16, 8), 2);
    assert_eq!(next_chunk_size(18, 17, 8), 1);
    assert_eq!(next_chunk_size(8, 0, 64), 8);
}

#[test]
fn progress_is_throttled_to_one_second() {
    assert!(!progress_due(0));
    assert!(progress_due(1));
    assert!(progress_due(3600));
}

#[test]
fn round_trip_is_clean() {
    for &(total, block) in &[(0usize, 1usize), (1, 1), (33, 8), (64, 16), (100, 7), (15, 64)] {
        let dev = written(7, total, block);
        assert_eq!(verify_extent(&dev, 7, block), 0, "total {} block {}", total, block);
    }
}

#[test]
fn wrong_seed_is_detected() {
    let dev = written(7, 64, 16);
    assert_ne!(verify_extent(&dev, 8, 16), 0);
}

#[test]
fn every_single_byte_flip_is_one_mismatch() {
    let mut dev = written(5, 24, 7);
    for j in 0..24 {
        dev[j] ^= 0x01;
        assert_eq!(verify_extent(&dev, 5, 7), 1, "flipped byte {}", j);
        dev[j] ^= 0x01;
    }
    assert_eq!(verify_extent(&dev, 5, 7), 0);
}

#[test]
fn two_corrupted_chunks_count_two() {
    let mut dev = written(5, 24, 8);
    dev[0] ^= 0x80;
    dev[23] ^= 0x80;
    assert_eq!(verify_extent(&dev, 5, 8), 2);
}

#[test]
fn aligned_block_sizes_are_interchangeable() {
    // With block sizes that are multiples of 8 the stream is addressed by
    // absolute offset, so write and verify may use different block sizes.
    let dev = written(9, 100, 8);
    assert_eq!(dev, written(9, 100, 16));
    assert_eq!(dev, written(9, 100, 64));
    assert_eq!(verify_extent(&dev, 9, 24), 0);
    assert_eq!(verify_extent(&dev, 9, 200), 0);
}

#[test]
fn write_matches_direct_fills() {
    // The write pass feeds the chunk schedule to one generator: 18 bytes at
    // block size 8 are two full fills and one 2-byte fill.
    let dev = written(42, 18, 8);
    let mut rng = Xoshiro256StarStar::new(42);
    let mut expected = Vec::new();
    for len in [8usize, 8, 2] {
        let mut chunk = vec![0u8; len];
        fill_buffer(&mut rng, &mut chunk);
        expected.extend_from_slice(&chunk);
    }
    assert_eq!(dev, expected);
}
