use diskverify::generator::Xoshiro256StarStar;
use diskverify::generator::fill_buffer;

fn filled(seed: u64, len: usize) -> Vec<u8> {
    let mut rng = Xoshiro256StarStar::new(seed);
    let mut buf = vec![0u8; len];
    fill_buffer(&mut rng, &mut buf);
    buf
}

#[test]
fn same_seed_same_words() {
    let mut a = Xoshiro256StarStar::new(0x00c0_ffee);
    let mut b = Xoshiro256StarStar::new(0x00c0_ffee);
    for _ in 0..100 {
        assert_eq!(a.next_u64(), b.next_u64());
    }
}

#[test]
fn different_seeds_diverge() {
    let mut a = Xoshiro256StarStar::new(1);
    let mut b = Xoshiro256StarStar::new(2);
    let wa: Vec<u64> = (0..8).map(|_| a.next_u64()).collect();
    let wb: Vec<u64> = (0..8).map(|_| b.next_u64()).collect();
    assert_ne!(wa, wb);
}

#[test]
fn determinism_across_schedules_and_instances() {
    // Two independent generators fed the same buffer-length schedule produce
    // byte-identical output.
    let schedule = [5usize, 16, 3, 8, 1, 0, 27];
    let mut a = Xoshiro256StarStar::new(42);
    let mut b = Xoshiro256StarStar::new(42);
    for &len in schedule.iter() {
        let mut buf_a = vec![0u8; len];
        let mut buf_b = vec![0u8; len];
        fill_buffer(&mut a, &mut buf_a);
        fill_buffer(&mut b, &mut buf_b);
        assert_eq!(buf_a, buf_b);
    }
}

#[test]
fn fill_is_not_a_no_op() {
    let buf = filled(42, 32);
    assert_ne!(buf, vec![0u8; 32]);
}

#[test]
fn zero_length_fill_leaves_generator_unchanged() {
    let mut plain = Xoshiro256StarStar::new(7);
    let mut touched = Xoshiro256StarStar::new(7);
    let mut empty: Vec<u8> = Vec::new();
    fill_buffer(&mut touched, &mut empty);
    assert!(empty.is_empty());
    assert_eq!(plain.next_u64(), touched.next_u64());
}

#[test]
fn sub_word_prefix_stability() {
    // Buffers of lengths 1, 7, 8, 9 and 15 from freshly seeded generators
    // agree on their common prefix, and the 8-byte output is the first 8
    // bytes of the 9-byte output.
    let lens = [1usize, 7, 8, 9, 15];
    let bufs: Vec<Vec<u8>> = lens.iter().map(|&l| filled(99, l)).collect();
    let longest = &bufs[4];
    for buf in &bufs {
        let common = buf.len().min(7);
        assert_eq!(&buf[..common], &longest[..common]);
    }
    let eight = &bufs[2];
    let nine = &bufs[3];
    assert_eq!(&eight[..], &nine[..8]);
}

#[test]
fn partial_tail_consumes_one_word() {
    // A 9-byte fill draws two words: the next word after it is word 3 of the
    // stream, the same word a 16-byte fill would have placed at offset 16.
    let mut a = Xoshiro256StarStar::new(11);
    let mut buf = vec![0u8; 9];
    fill_buffer(&mut a, &mut buf);
    let mut b = Xoshiro256StarStar::new(11);
    b.next_u64();
    b.next_u64();
    assert_eq!(a.next_u64(), b.next_u64());
}

#[test]
fn words_are_emitted_least_significant_byte_first() {
    let mut rng = Xoshiro256StarStar::new(3);
    let word = rng.next_u64();
    let buf = filled(3, 8);
    assert_eq!(buf, word.to_le_bytes().to_vec());
}
