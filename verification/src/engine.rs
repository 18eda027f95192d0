//! Sequential transfer engine.
//!
//! A device is modeled as a flat byte extent of known total size. One pass
//! iterates it in chunks of at most the caller's block size, from offset 0 to
//! the end: the write pass lays the generator's stream over the extent, the
//! verify pass regenerates the same stream and counts the chunks whose bytes
//! differ. Both passes compute each chunk size as the minimum of the block
//! size and the bytes remaining, so the extent is covered exactly once,
//! contiguously, with at most one trailing partial chunk.

use vstd::prelude::*;

use crate::generator::Xoshiro256StarStar;
use crate::generator::after_fill;
use crate::generator::fill_buffer;
use crate::generator::gen_bytes;

verus! {

/// The chunk sizes of one pass over `total` bytes with the given block size:
/// full blocks, then the remainder if there is one.
pub open spec fn chunk_sizes(total: nat, block: nat) -> Seq<nat>
    recommends
        block > 0,
    decreases total,
{
    if total == 0 || block == 0 {
        Seq::empty()
    } else {
        let c: nat = if block < total {
            block
        } else {
            total
        };
        seq![c] + chunk_sizes((total - c) as nat, block)
    }
}

/// The bytes a write pass starting at generator state `g` lays over an
/// extent of `total` bytes: each chunk is one buffer fill, and a partial
/// trailing chunk still consumes a whole final word.
pub open spec fn pattern(g: Xoshiro256StarStar, total: nat, block: nat) -> Seq<u8>
    recommends
        block > 0,
    decreases total,
{
    if total == 0 || block == 0 {
        Seq::empty()
    } else {
        let c: nat = if block < total {
            block
        } else {
            total
        };
        gen_bytes(g, c) + pattern(after_fill(g, c), (total - c) as nat, block)
    }
}

/// How many chunks of `data` differ from the stream regenerated from state
/// `g` with the given block size: one per differing chunk, not per byte.
pub open spec fn mismatch_count(data: Seq<u8>, g: Xoshiro256StarStar, block: nat) -> nat
    recommends
        block > 0,
    decreases data.len(),
{
    if data.len() == 0 || block == 0 {
        0
    } else {
        let c: nat = if block < data.len() {
            block
        } else {
            data.len() as nat
        };
        let differs: nat = if data.subrange(0, c as int) == gen_bytes(g, c) {
            0
        } else {
            1
        };
        differs + mismatch_count(data.skip(c as int), after_fill(g, c), block)
    }
}

/// The size of the next chunk: the block size, or the bytes remaining when
/// fewer than a block are left.
pub fn next_chunk_size(total_size: u64, transferred: u64, block_size: usize) -> (c: usize)
    requires
        transferred < total_size,
        block_size > 0,
    ensures
        c as int == (if (block_size as int) < total_size - transferred {
            block_size as int
        } else {
            total_size - transferred
        }),
        1 <= c <= block_size,
{
    let remaining = total_size - transferred;
    if (block_size as u64) < remaining {
        block_size
    } else {
        remaining as usize
    }
}

/// Whether a progress line is due: at most one per elapsed wall-clock
/// second. Pure in the elapsed time, so the throttle can be tested without a
/// clock; its outcome never feeds back into the transfer logic.
pub fn progress_due(seconds_since_last_report: u64) -> (due: bool)
    ensures
        due == (seconds_since_last_report >= 1),
{
    seconds_since_last_report >= 1
}

/// The whole chunk-size schedule of one pass, in order.
pub fn chunk_schedule(total_size: u64, block_size: u64) -> (v: Vec<u64>)
    requires
        block_size > 0,
    ensures
        v@.map_values(|c: u64| c as nat) == chunk_sizes(total_size as nat, block_size as nat),
{
    let mut v: Vec<u64> = Vec::new();
    let mut left = total_size;
    proof {
        assert(v@.map_values(|c: u64| c as nat) =~= Seq::<nat>::empty());
    }
    while left > 0
        invariant
            left <= total_size,
            block_size > 0,
            chunk_sizes(total_size as nat, block_size as nat) == v@.map_values(|c: u64| c as nat)
                + chunk_sizes(left as nat, block_size as nat),
        decreases left,
    {
        let c = if block_size < left {
            block_size
        } else {
            left
        };
        let ghost prev = v@;
        v.push(c);
        left = left - c;
        proof {
            assert(v@.map_values(|x: u64| x as nat)
                =~= prev.map_values(|x: u64| x as nat) + seq![c as nat]);
            assert(prev.map_values(|x: u64| x as nat) + (seq![c as nat]
                + chunk_sizes(left as nat, block_size as nat))
                =~= v@.map_values(|x: u64| x as nat) + chunk_sizes(left as nat, block_size as nat));
        }
    }
    proof {
        assert(chunk_sizes(0, block_size as nat) =~= Seq::<nat>::empty());
        assert(v@.map_values(|c: u64| c as nat) + Seq::<nat>::empty()
            =~= v@.map_values(|c: u64| c as nat));
    }
    v
}

/// A byte vector of the given length.
fn zeroed(n: usize) -> (v: Vec<u8>)
    ensures
        v@.len() == n,
{
    let mut v: Vec<u8> = Vec::new();
    while v.len() < n
        invariant
            v@.len() <= n,
        decreases n - v@.len(),
    {
        v.push(0);
    }
    v
}

/// Copy the whole source buffer into the extent at the given offset; bytes
/// outside the copied range are untouched.
fn copy_into(dev: &mut Vec<u8>, offset: usize, src: &Vec<u8>)
    requires
        offset + src@.len() <= old(dev)@.len(),
    ensures
        final(dev)@.len() == old(dev)@.len(),
        forall|k: int|
            offset <= k < offset + src@.len() ==> final(dev)@[k] == src@[k - offset],
        forall|k: int|
            (0 <= k < offset || offset + src@.len() <= k < old(dev)@.len())
                ==> final(dev)@[k] == old(dev)@[k],
{
    let n = src.len();
    let dev_len = dev.len();
    let mut k: usize = 0;
    while k < n
        invariant
            n == src@.len(),
            k <= n,
            offset + n <= dev_len,
            dev_len == dev@.len(),
            dev@.len() == old(dev)@.len(),
            forall|i: int| offset <= i < offset + k ==> dev@[i] == src@[i - offset],
            forall|i: int|
                (0 <= i < offset || offset + k <= i < dev@.len()) ==> dev@[i] == old(dev)@[i],
        decreases n - k,
    {
        let b = src[k];
        dev[offset + k] = b;
        k = k + 1;
    }
}

/// Whether the extent's bytes at `[offset, offset + expected.len())` equal
/// the expected buffer.
fn range_matches(dev: &Vec<u8>, offset: usize, expected: &Vec<u8>) -> (r: bool)
    requires
        offset + expected@.len() <= dev@.len(),
    ensures
        r == (dev@.subrange(offset as int, offset + expected@.len()) == expected@),
{
    let n = expected.len();
    let dev_len = dev.len();
    let ghost range = dev@.subrange(offset as int, offset + expected@.len());
    let mut k: usize = 0;
    while k < n
        invariant
            n == expected@.len(),
            k <= n,
            offset + n <= dev_len,
            dev_len == dev@.len(),
            range == dev@.subrange(offset as int, offset + expected@.len()),
            forall|i: int| 0 <= i < k ==> range[i] == expected@[i],
        decreases n - k,
    {
        if dev[offset + k] != expected[k] {
            proof {
                assert(range[k as int] != expected@[k as int]);
            }
            return false;
        }
        k = k + 1;
    }
    proof {
        assert(range =~= expected@);
    }
    true
}

/// Write pass: lay the seeded stream over the whole extent, chunk by chunk.
/// Afterwards the extent holds exactly the pattern of that seed, extent size
/// and block size.
pub fn write_extent(dev: &mut Vec<u8>, seed: u64, block_size: usize)
    requires
        block_size > 0,
    ensures
        final(dev)@.len() == old(dev)@.len(),
        final(dev)@ == pattern(
            Xoshiro256StarStar::from_seed(seed),
            old(dev)@.len() as nat,
            block_size as nat,
        ),
{
    let ghost g0 = Xoshiro256StarStar::from_seed(seed);
    let total = dev.len();
    let mut rng = Xoshiro256StarStar::new(seed);
    let mut buffer = zeroed(block_size);
    let mut offset: usize = 0;
    proof {
        assert(dev@.subrange(0, 0) =~= Seq::<u8>::empty());
        assert(Seq::<u8>::empty() + pattern(rng, total as nat, block_size as nat)
            =~= pattern(rng, total as nat, block_size as nat));
    }
    while offset < total
        invariant
            block_size > 0,
            total == dev@.len(),
            dev@.len() == old(dev)@.len(),
            offset <= total,
            buffer@.len() == block_size || offset == total,
            pattern(g0, total as nat, block_size as nat) == dev@.subrange(0, offset as int)
                + pattern(rng, (total - offset) as nat, block_size as nat),
        decreases total - offset,
    {
        let remaining = total - offset;
        let chunk = if block_size < remaining {
            block_size
        } else {
            remaining
        };
        if chunk < buffer.len() {
            buffer.truncate(chunk);
        }
        let ghost rng_pre = rng;
        let ghost dev_pre = dev@;
        fill_buffer(&mut rng, &mut buffer);
        copy_into(dev, offset, &buffer);
        proof {
            assert(pattern(rng_pre, remaining as nat, block_size as nat) == gen_bytes(
                rng_pre,
                chunk as nat,
            ) + pattern(rng, (remaining - chunk) as nat, block_size as nat));
            assert(dev@.subrange(0, (offset + chunk) as int) =~= dev_pre.subrange(0, offset as int)
                + buffer@);
            assert((dev_pre.subrange(0, offset as int) + gen_bytes(rng_pre, chunk as nat))
                + pattern(rng, (remaining - chunk) as nat, block_size as nat)
                =~= dev@.subrange(0, (offset + chunk) as int) + pattern(
                rng,
                (remaining - chunk) as nat,
                block_size as nat,
            ));
            assert(dev_pre.subrange(0, offset as int) + (gen_bytes(rng_pre, chunk as nat)
                + pattern(rng, (remaining - chunk) as nat, block_size as nat))
                =~= (dev_pre.subrange(0, offset as int) + gen_bytes(rng_pre, chunk as nat))
                + pattern(rng, (remaining - chunk) as nat, block_size as nat));
        }
        offset = offset + chunk;
    }
    proof {
        assert(pattern(rng, 0, block_size as nat) =~= Seq::<u8>::empty());
        assert(dev@.subrange(0, total as int) + Seq::<u8>::empty() =~= dev@);
    }
}

/// Verify pass: regenerate the stream from the seed and count the chunks
/// whose on-extent bytes differ from it. Zero means the extent holds exactly
/// the pattern; content differences are counted, never an error.
pub fn verify_extent(dev: &Vec<u8>, seed: u64, block_size: usize) -> (mismatches: u64)
    requires
        block_size > 0,
    ensures
        mismatches as nat == mismatch_count(
            dev@,
            Xoshiro256StarStar::from_seed(seed),
            block_size as nat,
        ),
        mismatches == 0 <==> dev@ == pattern(
            Xoshiro256StarStar::from_seed(seed),
            dev@.len() as nat,
            block_size as nat,
        ),
{
    let ghost g0 = Xoshiro256StarStar::from_seed(seed);
    let total = dev.len();
    let mut rng = Xoshiro256StarStar::new(seed);
    let mut expected = zeroed(block_size);
    let mut offset: usize = 0;
    let mut mismatches: u64 = 0;
    proof {
        assert(dev@.skip(0) =~= dev@);
    }
    while offset < total
        invariant
            block_size > 0,
            total == dev@.len(),
            offset <= total,
            expected@.len() == block_size || offset == total,
            mismatches as int <= offset as int,
            mismatch_count(dev@, g0, block_size as nat) == mismatches as nat + mismatch_count(
                dev@.skip(offset as int),
                rng,
                block_size as nat,
            ),
        decreases total - offset,
    {
        let remaining = total - offset;
        let chunk = if block_size < remaining {
            block_size
        } else {
            remaining
        };
        if chunk < expected.len() {
            expected.truncate(chunk);
        }
        let ghost rng_pre = rng;
        let ghost data = dev@.skip(offset as int);
        fill_buffer(&mut rng, &mut expected);
        let matches = range_matches(dev, offset, &expected);
        if !matches {
            mismatches = mismatches + 1;
        }
        proof {
            assert(data.subrange(0, chunk as int) =~= dev@.subrange(
                offset as int,
                offset + chunk as int,
            ));
            assert(data.skip(chunk as int) =~= dev@.skip((offset + chunk) as int));
            assert(mismatch_count(data, rng_pre, block_size as nat) == (if data.subrange(
                0,
                chunk as int,
            ) == gen_bytes(rng_pre, chunk as nat) {
                0nat
            } else {
                1nat
            }) + mismatch_count(data.skip(chunk as int), rng, block_size as nat));
        }
        offset = offset + chunk;
    }
    proof {
        assert(dev@.skip(total as int).len() == 0);
        assert(mismatch_count(dev@.skip(total as int), rng, block_size as nat) == 0);
        crate::laws::lemma_mismatch_zero_iff(dev@, g0, block_size as nat);
    }
    mismatches
}

} // verus!
