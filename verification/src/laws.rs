//! The engine's guarantees, stated and proved once and for all: the chunk
//! schedule covers the extent exactly, a verify pass over a freshly written
//! extent reports zero mismatches, a single corrupted byte is reported as
//! exactly one mismatched chunk, and with 8-byte-aligned block sizes the
//! stream is addressed by absolute offset, so write and verify may even use
//! different block sizes.

use vstd::prelude::*;

use vstd::arithmetic::div_mod::lemma_fundamental_div_mod;
use vstd::arithmetic::div_mod::lemma_fundamental_div_mod_converse;

use crate::engine::chunk_sizes;
use crate::engine::mismatch_count;
use crate::engine::pattern;
use crate::generator::Xoshiro256StarStar;
use crate::generator::after_fill;
use crate::generator::gen_bytes;
use crate::generator::lemma_gen_bytes_split;
use crate::generator::words_for;

verus! {

/// The sum of a sequence of sizes.
pub open spec fn seq_sum(s: Seq<nat>) -> nat
    decreases s.len(),
{
    if s.len() == 0 {
        0
    } else {
        s[0] + seq_sum(s.drop_first())
    }
}

/// The bytes produced by feeding a schedule of buffer lengths to one
/// generator, one `fill_buffer` call per entry. Together with the contracts
/// of `Xoshiro256StarStar::new` and `fill_buffer`, this pins the whole output
/// of any run as a function of the seed and the schedule alone: two
/// independent generators built from the same seed and fed the same schedule
/// produce byte-identical output.
pub open spec fn schedule_bytes(g: Xoshiro256StarStar, lens: Seq<nat>) -> Seq<u8>
    decreases lens.len(),
{
    if lens.len() == 0 {
        Seq::empty()
    } else {
        gen_bytes(g, lens[0]) + schedule_bytes(after_fill(g, lens[0]), lens.drop_first())
    }
}

/// A pass's pattern is exactly what feeding its chunk schedule to the
/// generator produces, so the write pass and the verify pass compare the
/// same bytes whenever they share seed and block size.
pub proof fn lemma_pattern_is_schedule(g: Xoshiro256StarStar, total: nat, block: nat)
    requires
        block > 0,
    ensures
        pattern(g, total, block) == schedule_bytes(g, chunk_sizes(total, block)),
    decreases total,
{
    if total == 0 {
        assert(chunk_sizes(total, block).len() == 0);
    } else {
        let c: nat = if block < total {
            block
        } else {
            total
        };
        lemma_pattern_is_schedule(after_fill(g, c), (total - c) as nat, block);
        assert((seq![c] + chunk_sizes((total - c) as nat, block)).drop_first() =~= chunk_sizes(
            (total - c) as nat,
            block,
        ));
    }
}

/// Coverage: the chunk sizes of one pass sum to the total, every chunk up to
/// `total / block` is a full block, and there is a trailing partial chunk of
/// size `total % block` exactly when the total is not a multiple of the
/// block size.
pub proof fn lemma_chunk_coverage(total: nat, block: nat)
    requires
        block > 0,
    ensures
        seq_sum(chunk_sizes(total, block)) == total,
        forall|i: int| 0 <= i < total / block ==> chunk_sizes(total, block)[i] == block,
        total % block == 0 ==> chunk_sizes(total, block).len() == total / block,
        total % block != 0 ==> chunk_sizes(total, block).len() == total / block + 1
            && chunk_sizes(total, block).last() == total % block,
    decreases total,
{
    if total == 0 {
        lemma_fundamental_div_mod_converse(0, block as int, 0, 0);
    } else if total < block {
        lemma_fundamental_div_mod_converse(total as int, block as int, 0, total as int);
        let s = chunk_sizes(total, block);
        assert(s =~= seq![total] + chunk_sizes(0, block));
        assert(s.drop_first() =~= Seq::<nat>::empty());
        assert(s[0] == total);
        assert(seq_sum(Seq::<nat>::empty()) == 0);
        assert(seq_sum(s) == total);
    } else {
        let q = total / block;
        let r = total % block;
        lemma_fundamental_div_mod(total as int, block as int);
        assert(q >= 1) by (nonlinear_arith)
            requires
                total == block * q + r,
                0 <= r < block,
                block <= total,
                block > 0,
                q >= 0,
        ;
        assert((total - block) as int == (q - 1) * block + r) by (nonlinear_arith)
            requires
                total == block * q + r,
                block <= total,
        ;
        lemma_fundamental_div_mod_converse(
            (total - block) as int,
            block as int,
            q - 1,
            r as int,
        );
        lemma_chunk_coverage((total - block) as nat, block);
        let c: nat = if block < total {
            block
        } else {
            total
        };
        let rest = chunk_sizes((total - c) as nat, block);
        let s = chunk_sizes(total, block);
        assert(s == seq![c] + rest);
        assert(s.drop_first() =~= rest);
        assert(seq_sum(s) == c + seq_sum(rest));
        assert forall|i: int| 0 <= i < q implies s[i] == block by {
            if i >= 1 {
                assert(s[i] == rest[i - 1]);
            }
        }
        if r != 0 {
            assert(rest.len() >= 1);
            assert(s.last() == rest.last());
        }
    }
}

/// The pattern of a pass has exactly the extent's length.
pub proof fn lemma_pattern_len(g: Xoshiro256StarStar, total: nat, block: nat)
    requires
        block > 0,
    ensures
        pattern(g, total, block).len() == total,
    decreases total,
{
    if total != 0 {
        let c: nat = if block < total {
            block
        } else {
            total
        };
        lemma_pattern_len(after_fill(g, c), (total - c) as nat, block);
    }
}

/// A verify pass reports zero mismatches exactly when the extent holds the
/// pattern, byte for byte.
pub proof fn lemma_mismatch_zero_iff(data: Seq<u8>, g: Xoshiro256StarStar, block: nat)
    requires
        block > 0,
    ensures
        mismatch_count(data, g, block) == 0 <==> data == pattern(g, data.len(), block),
    decreases data.len(),
{
    let n = data.len();
    if n == 0 {
        assert(data =~= pattern(g, n, block));
    } else {
        let c: nat = if block < n {
            block
        } else {
            n
        };
        let g2 = after_fill(g, c);
        let tail = data.skip(c as int);
        lemma_mismatch_zero_iff(tail, g2, block);
        lemma_pattern_len(g2, (n - c) as nat, block);
        if mismatch_count(data, g, block) == 0 {
            assert(data.subrange(0, c as int) == gen_bytes(g, c));
            assert(tail == pattern(g2, (n - c) as nat, block));
            assert(data =~= pattern(g, n, block));
        }
        if data == pattern(g, n, block) {
            assert(data.subrange(0, c as int) =~= gen_bytes(g, c));
            assert(tail =~= pattern(g2, (n - c) as nat, block));
        }
    }
}

/// Round trip: verifying an extent that holds the pattern of the same seed
/// and block size finds zero mismatches.
pub proof fn lemma_round_trip(g: Xoshiro256StarStar, total: nat, block: nat)
    requires
        block > 0,
    ensures
        mismatch_count(pattern(g, total, block), g, block) == 0,
{
    lemma_pattern_len(g, total, block);
    lemma_mismatch_zero_iff(pattern(g, total, block), g, block);
}

/// Tamper detection: an extent that differs from the pattern in exactly one
/// byte verifies with exactly one mismatched chunk.
pub proof fn lemma_tamper(data: Seq<u8>, g: Xoshiro256StarStar, block: nat, j: int)
    requires
        block > 0,
        0 <= j < data.len(),
        data[j] != pattern(g, data.len(), block)[j],
        forall|k: int|
            0 <= k < data.len() && k != j ==> data[k] == pattern(g, data.len(), block)[k],
    ensures
        mismatch_count(data, g, block) == 1,
    decreases data.len(),
{
    let n = data.len();
    let p = pattern(g, n, block);
    lemma_pattern_len(g, n, block);
    let c: nat = if block < n {
        block
    } else {
        n
    };
    let g2 = after_fill(g, c);
    let tail = data.skip(c as int);
    let ptail = pattern(g2, (n - c) as nat, block);
    lemma_pattern_len(g2, (n - c) as nat, block);
    if j < c {
        assert(data.subrange(0, c as int)[j] != gen_bytes(g, c)[j]);
        assert(tail =~= ptail);
        lemma_mismatch_zero_iff(tail, g2, block);
    } else {
        assert(data.subrange(0, c as int) =~= gen_bytes(g, c));
        assert(forall|k: int| 0 <= k < n - c && k != j - c ==> tail[k] == ptail[k]);
        assert(tail[j - c] != ptail[j - c]);
        lemma_tamper(tail, g2, block, j - c);
    }
}

/// With a block size that is a multiple of 8, every chunk boundary falls on
/// a word boundary, so the pattern is the plain stream: each byte depends
/// only on its absolute offset, not on how the pass was chunked.
pub proof fn lemma_pattern_block_aligned(g: Xoshiro256StarStar, total: nat, block: nat)
    requires
        block > 0,
        block % 8 == 0,
    ensures
        pattern(g, total, block) == gen_bytes(g, total),
    decreases total,
{
    if total == 0 {
        assert(pattern(g, total, block) =~= gen_bytes(g, 0));
    } else if total <= block {
        assert(gen_bytes(g, total) + pattern(after_fill(g, total), 0, block) =~= gen_bytes(
            g,
            total,
        ));
    } else {
        assert(words_for(block) == block / 8) by (nonlinear_arith)
            requires
                block > 0,
                block % 8 == 0,
                words_for(block) == (block + 7) / 8,
        ;
        let g2 = after_fill(g, block);
        lemma_gen_bytes_split(g, block, total);
        lemma_pattern_block_aligned(g2, (total - block) as nat, block);
    }
}

/// Block-size sensitivity: any two block sizes that are multiples of 8 give
/// the same pattern, so a device written with one may be verified with the
/// other. Block sizes that are not multiples of 8 consume a whole word for
/// the partial tail of every chunk and need not agree.
pub proof fn lemma_block_size_independent(
    g: Xoshiro256StarStar,
    total: nat,
    block_a: nat,
    block_b: nat,
)
    requires
        block_a > 0,
        block_b > 0,
        block_a % 8 == 0,
        block_b % 8 == 0,
    ensures
        pattern(g, total, block_a) == pattern(g, total, block_b),
{
    lemma_pattern_block_aligned(g, total, block_a);
    lemma_pattern_block_aligned(g, total, block_b);
}

/// An extent written with one 8-byte-aligned block size verifies cleanly
/// with any other 8-byte-aligned block size.
pub proof fn lemma_cross_block_verify(
    g: Xoshiro256StarStar,
    total: nat,
    written_block: nat,
    verify_block: nat,
)
    requires
        written_block > 0,
        verify_block > 0,
        written_block % 8 == 0,
        verify_block % 8 == 0,
    ensures
        mismatch_count(pattern(g, total, written_block), g, verify_block) == 0,
{
    lemma_block_size_independent(g, total, written_block, verify_block);
    lemma_round_trip(g, total, verify_block);
}

} // verus!
