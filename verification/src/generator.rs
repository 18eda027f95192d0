//! Deterministic pseudorandom byte-stream generator.
//!
//! A 64-bit seed is expanded into four state words by a splitmix-style
//! avalanche mix; each draw advances the state by the xoshiro256** recurrence
//! and yields one 64-bit word. `fill_buffer` lays the word sequence over a
//! byte buffer least-significant byte first, drawing one final word for any
//! partial 8-byte tail, so that the whole byte stream is a pure function of
//! the seed and the sequence of buffer lengths.

use vstd::prelude::*;

verus! {

/// Increment of the auxiliary mixing counter used to derive the initial state.
pub const SPLITMIX_GAMMA: u64 = 0x9e3779b97f4a7c15;

/// First odd multiplier of the avalanche mix.
pub const MIX_MULTIPLIER_A: u64 = 0xbf58476d1ce4e5b9;

/// Second odd multiplier of the avalanche mix.
pub const MIX_MULTIPLIER_B: u64 = 0x94d049bb133111eb;

/// The xoshiro256** generator: four 64-bit state words, advanced by a fixed
/// rotate/xor/shift recurrence on every draw.
pub struct Xoshiro256StarStar {
    s0: u64,
    s1: u64,
    s2: u64,
    s3: u64,
}

/// The multiply–shift–multiply–shift avalanche mix applied to each advanced
/// counter value during construction.
pub open spec fn mix64(x: u64) -> u64 {
    let a = (x ^ (x >> 30u64)).wrapping_mul(MIX_MULTIPLIER_A);
    let b = (a ^ (a >> 27u64)).wrapping_mul(MIX_MULTIPLIER_B);
    b ^ (b >> 31u64)
}

impl Xoshiro256StarStar {
    /// The state derived from a seed: four advances of the mixing counter,
    /// each passed through the avalanche mix.
    pub closed spec fn from_seed(seed: u64) -> Xoshiro256StarStar {
        let x1 = seed.wrapping_add(SPLITMIX_GAMMA);
        let x2 = x1.wrapping_add(SPLITMIX_GAMMA);
        let x3 = x2.wrapping_add(SPLITMIX_GAMMA);
        let x4 = x3.wrapping_add(SPLITMIX_GAMMA);
        Xoshiro256StarStar { s0: mix64(x1), s1: mix64(x2), s2: mix64(x3), s3: mix64(x4) }
    }

    /// One step of the xoshiro256** state recurrence.
    pub closed spec fn step(g: Xoshiro256StarStar) -> Xoshiro256StarStar {
        let t = g.s1 << 17u64;
        let s2a = g.s2 ^ g.s0;
        let s3a = g.s3 ^ g.s1;
        let s1a = g.s1 ^ s2a;
        let s0a = g.s0 ^ s3a;
        let s2b = s2a ^ t;
        let s3b = (s3a << 45u64) | (s3a >> 19u64);
        Xoshiro256StarStar { s0: s0a, s1: s1a, s2: s2b, s3: s3b }
    }

    /// The 64-bit word a state yields when drawn from.
    pub closed spec fn output(g: Xoshiro256StarStar) -> u64 {
        let a = g.s1.wrapping_mul(5);
        let r = (a << 7u64) | (a >> 57u64);
        r.wrapping_mul(9)
    }

    /// The state after `n` draws.
    pub closed spec fn advance(g: Xoshiro256StarStar, n: nat) -> Xoshiro256StarStar
        decreases n,
    {
        if n == 0 {
            g
        } else {
            Xoshiro256StarStar::step(Xoshiro256StarStar::advance(g, (n - 1) as nat))
        }
    }

    /// The `i`-th word of the stream that begins at state `g`.
    pub open spec fn word_at(g: Xoshiro256StarStar, i: nat) -> u64 {
        Xoshiro256StarStar::output(Xoshiro256StarStar::advance(g, i))
    }

    /// Construct a generator from a seed; the same seed always yields the
    /// same initial state.
    pub fn new(seed: u64) -> (r: Self)
        ensures
            r == Xoshiro256StarStar::from_seed(seed),
    {
        let x1 = seed.wrapping_add(SPLITMIX_GAMMA);
        let x2 = x1.wrapping_add(SPLITMIX_GAMMA);
        let x3 = x2.wrapping_add(SPLITMIX_GAMMA);
        let x4 = x3.wrapping_add(SPLITMIX_GAMMA);
        Xoshiro256StarStar { s0: avalanche(x1), s1: avalanche(x2), s2: avalanche(x3), s3: avalanche(x4) }
    }

    /// Draw one 64-bit word, advancing the state by one step.
    pub fn next_u64(&mut self) -> (r: u64)
        ensures
            *final(self) == Xoshiro256StarStar::step(*old(self)),
            r == Xoshiro256StarStar::output(*old(self)),
    {
        let a = self.s1.wrapping_mul(5);
        let result = ((a << 7u64) | (a >> 57u64)).wrapping_mul(9);
        let t = self.s1 << 17u64;
        self.s2 = self.s2 ^ self.s0;
        self.s3 = self.s3 ^ self.s1;
        self.s1 = self.s1 ^ self.s2;
        self.s0 = self.s0 ^ self.s3;
        self.s2 = self.s2 ^ t;
        self.s3 = (self.s3 << 45u64) | (self.s3 >> 19u64);
        result
    }
}

/// Byte `j` (least-significant first) of a 64-bit word.
pub open spec fn byte_of_word(w: u64, j: nat) -> u8
    recommends
        j < 8,
{
    ((w >> ((8 * j) as u64)) & 0xff) as u8
}

/// How many words a fill of `n` bytes draws: one per full 8-byte span, plus
/// one for any partial tail.
pub open spec fn words_for(n: nat) -> nat {
    (n + 7) / 8
}

/// The first `n` bytes of the stream that begins at state `g`: byte `i` is
/// byte `i % 8` of word `i / 8`.
pub open spec fn gen_bytes(g: Xoshiro256StarStar, n: nat) -> Seq<u8> {
    Seq::new(n, |i: int| byte_of_word(Xoshiro256StarStar::word_at(g, (i / 8) as nat), (i % 8) as nat))
}

/// The state after filling a buffer of `n` bytes.
pub open spec fn after_fill(g: Xoshiro256StarStar, n: nat) -> Xoshiro256StarStar {
    Xoshiro256StarStar::advance(g, words_for(n))
}

/// Advancing `a` steps and then `b` more is advancing `a + b` steps.
pub proof fn lemma_advance_add(g: Xoshiro256StarStar, a: nat, b: nat)
    ensures
        Xoshiro256StarStar::advance(Xoshiro256StarStar::advance(g, a), b)
            == Xoshiro256StarStar::advance(g, a + b),
    decreases b,
{
    if b > 0 {
        lemma_advance_add(g, a, (b - 1) as nat);
    }
}

/// Prefix stability: the stream of a shorter fill is a prefix of the stream
/// of a longer one from the same state, because each byte depends only on
/// its absolute position.
pub proof fn lemma_gen_bytes_prefix(g: Xoshiro256StarStar, a: nat, b: nat)
    requires
        a <= b,
    ensures
        gen_bytes(g, b).subrange(0, a as int) == gen_bytes(g, a),
{
    assert(gen_bytes(g, b).subrange(0, a as int) =~= gen_bytes(g, a));
}

/// Splitting at a word-aligned position: the stream of `n` bytes is the
/// stream of the first `c` bytes followed by the stream that begins at the
/// state advanced by `c / 8` words.
pub proof fn lemma_gen_bytes_split(g: Xoshiro256StarStar, c: nat, n: nat)
    requires
        c <= n,
        c % 8 == 0,
    ensures
        gen_bytes(g, n) == gen_bytes(g, c)
            + gen_bytes(Xoshiro256StarStar::advance(g, c / 8), (n - c) as nat),
{
    let tail = gen_bytes(Xoshiro256StarStar::advance(g, c / 8), (n - c) as nat);
    assert forall|i: int| c <= i < n implies gen_bytes(g, n)[i] == tail[i - c] by {
        let k = i - c;
        assert(i / 8 == c / 8 + k / 8 && i % 8 == k % 8) by (nonlinear_arith)
            requires
                c % 8 == 0,
                0 <= k,
                i == c + k,
        ;
        lemma_advance_add(g, c / 8, (k / 8) as nat);
    }
    assert(gen_bytes(g, n) =~= gen_bytes(g, c) + tail);
}

/// The avalanche mix, executed; used only during construction.
fn avalanche(x: u64) -> (r: u64)
    ensures
        r == mix64(x),
{
    let a = (x ^ (x >> 30u64)).wrapping_mul(MIX_MULTIPLIER_A);
    let b = (a ^ (a >> 27u64)).wrapping_mul(MIX_MULTIPLIER_B);
    b ^ (b >> 31u64)
}

/// Store byte `j` of word `w` at position `pos` of the buffer.
fn write_stream_byte(buf: &mut Vec<u8>, pos: usize, w: u64, j: usize)
    requires
        pos < old(buf)@.len(),
        j < 8,
    ensures
        final(buf)@ == old(buf)@.update(pos as int, byte_of_word(w, j as nat)),
{
    let shift: u64 = (8 * j) as u64;
    let masked: u64 = (w >> shift) & 0xff;
    proof {
        assert((w >> shift) & 0xff < 256) by (bit_vector);
    }
    buf[pos] = masked as u8;
}

/// Fill the whole buffer with the next bytes of the generator's stream:
/// one word per 8-byte span, emitted least-significant byte first, with one
/// final word covering any partial 8-byte tail. A zero-length buffer draws
/// nothing and leaves the generator unchanged.
pub fn fill_buffer(rng: &mut Xoshiro256StarStar, buf: &mut Vec<u8>)
    ensures
        final(buf)@.len() == old(buf)@.len(),
        final(buf)@ == gen_bytes(*old(rng), old(buf)@.len() as nat),
        *final(rng) == after_fill(*old(rng), old(buf)@.len() as nat),
        old(buf)@.len() == 0 ==> *final(rng) == *old(rng),
{
    let ghost g0 = *old(rng);
    let ghost target = gen_bytes(g0, old(buf)@.len() as nat);
    let len = buf.len();
    let mut idx: usize = 0;
    while idx < len && len - idx >= 8
        invariant
            len == buf@.len(),
            target == gen_bytes(g0, len as nat),
            idx <= len,
            idx % 8 == 0,
            *rng == Xoshiro256StarStar::advance(g0, (idx / 8) as nat),
            forall|k: int| 0 <= k < idx ==> buf@[k] == target[k],
        decreases len - idx,
    {
        let w = rng.next_u64();
        proof {
            assert(Xoshiro256StarStar::advance(g0, (idx / 8 + 1) as nat)
                == Xoshiro256StarStar::step(Xoshiro256StarStar::advance(g0, (idx / 8) as nat)));
        }
        let mut j: usize = 0;
        while j < 8
            invariant
                j <= 8,
                idx + 8 <= len,
                len == buf@.len(),
                target == gen_bytes(g0, len as nat),
                idx % 8 == 0,
                w == Xoshiro256StarStar::word_at(g0, (idx / 8) as nat),
                forall|k: int| 0 <= k < idx + j ==> buf@[k] == target[k],
            decreases 8 - j,
        {
            write_stream_byte(buf, idx + j, w, j);
            proof {
                assert((idx + j) / 8 == idx / 8 && (idx + j) % 8 == j) by (nonlinear_arith)
                    requires
                        idx % 8 == 0,
                        0 <= j < 8,
                ;
                assert(buf@[(idx + j) as int] == target[(idx + j) as int]);
            }
            j = j + 1;
        }
        idx = idx + 8;
        proof {
            assert(idx % 8 == 0 && idx / 8 == (idx - 8) / 8 + 1) by (nonlinear_arith)
                requires
                    (idx - 8) % 8 == 0,
                    idx >= 8,
            ;
        }
    }
    if idx < len {
        let w = rng.next_u64();
        proof {
            assert(Xoshiro256StarStar::advance(g0, (idx / 8 + 1) as nat)
                == Xoshiro256StarStar::step(Xoshiro256StarStar::advance(g0, (idx / 8) as nat)));
        }
        let rem = len - idx;
        let mut j: usize = 0;
        while j < rem
            invariant
                j <= rem,
                rem == len - idx,
                rem < 8,
                idx < len,
                len == buf@.len(),
                target == gen_bytes(g0, len as nat),
                idx % 8 == 0,
                w == Xoshiro256StarStar::word_at(g0, (idx / 8) as nat),
                forall|k: int| 0 <= k < idx + j ==> buf@[k] == target[k],
            decreases rem - j,
        {
            write_stream_byte(buf, idx + j, w, j);
            proof {
                assert((idx + j) / 8 == idx / 8 && (idx + j) % 8 == j) by (nonlinear_arith)
                    requires
                        idx % 8 == 0,
                        0 <= j < 8,
                ;
                assert(buf@[(idx + j) as int] == target[(idx + j) as int]);
            }
            j = j + 1;
        }
        proof {
            assert(words_for(len as nat) == idx / 8 + 1) by (nonlinear_arith)
                requires
                    idx % 8 == 0,
                    idx < len,
                    len < idx + 8,
            ;
            assert(buf@ =~= target);
        }
    } else {
        proof {
            assert(idx == len);
            assert(words_for(len as nat) == idx / 8) by (nonlinear_arith)
                requires
                    idx % 8 == 0,
                    idx == len,
            ;
            assert(buf@ =~= target);
        }
    }
}


} // verus!
