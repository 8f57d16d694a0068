//! Head words.
//!
//! Each end of the ring has a head word: one `usize` that holds, from the lowest bit up, an index
//! into the ring, a sixteen-bit sequence tag and the shutdown flag. The tag counts the items that
//! were ever claimed at that end, so that a head word which was seen a while ago differs from the
//! present one even where the index has come round to the same slot.

use vstd::prelude::*;

verus! {

/// Set in a head word once the other side of the channel is gone.
pub const SHUTDOWN_FLAG: usize = 1usize << (usize::BITS - 1);

/// Position of the lowest bit of the sequence tag.
pub const SEQ_SHIFT: u32 = usize::BITS - 1 - 16;

/// The bits of the sequence tag.
pub const SEQ_MASK: usize = 0xFFFFusize << SEQ_SHIFT;

/// The number of distinct sequence tags.
pub open spec fn seq_limit() -> int {
    0x1_0000
}

/// The number of indices that fit below the sequence tag.
pub open spec fn index_limit() -> int {
    if usize::BITS == 64 {
        0x8000_0000_0000
    } else {
        0x8000
    }
}

/// The index that a head word holds.
pub open spec fn word_index(word: usize) -> int {
    word as int % index_limit()
}

/// The sequence tag that a head word holds.
pub open spec fn word_seq(word: usize) -> int {
    word as int / index_limit() % seq_limit()
}

/// Whether a head word carries the shutdown flag.
pub open spec fn word_shutdown(word: usize) -> bool {
    word as int >= index_limit() * seq_limit()
}

/// The head word with the given parts.
pub open spec fn packed(index: int, seq: int, shutdown: bool) -> int {
    index + index_limit() * seq + if shutdown {
        index_limit() * seq_limit()
    } else {
        0
    }
}

/// The sequence tag after `count` more items were claimed.
pub open spec fn seq_after(seq: int, count: int) -> int {
    (seq + count) % seq_limit()
}

/// A head word is its index, its tag and its flag, and every combination of the three that is in
/// range is a head word of its own.
pub proof fn word_round_trip(word: usize, i: int, s: int, f: bool)
    requires
        0 <= i < index_limit(),
        0 <= s < seq_limit(),
    ensures
        packed(word_index(word), word_seq(word), word_shutdown(word)) == word,
        0 <= word_index(word) < index_limit(),
        0 <= word_seq(word) < seq_limit(),
        0 <= packed(i, s, f) <= usize::MAX,
        word_index(packed(i, s, f) as usize) == i,
        word_seq(packed(i, s, f) as usize) == s,
        word_shutdown(packed(i, s, f) as usize) == f,
{
}

/// Tells whether a head word carries the shutdown flag.
pub fn is_shutdown(word: usize) -> (r: bool)
    ensures
        r == word_shutdown(word),
{
    proof {
        if usize::BITS == 64 {
            let w = word as u64;
            assert(w & (1u64 << 63) != 0 <==> w >= 0x8000_0000_0000_0000) by (bit_vector);
            assert(SHUTDOWN_FLAG as u64 == 1u64 << 63);
        } else {
            let w = word as u32;
            assert(w & (1u32 << 31) != 0 <==> w >= 0x8000_0000) by (bit_vector);
            assert(SHUTDOWN_FLAG as u32 == 1u32 << 31);
        }
    }
    word & SHUTDOWN_FLAG != 0
}

/// Takes the index out of a head word.
pub fn index_of(word: usize) -> (r: usize)
    ensures
        r == word_index(word),
{
    proof {
        if usize::BITS == 64 {
            let w = word as u64;
            assert((w & !(1u64 << 63)) & !(0xFFFFu64 << 47) == w % 0x8000_0000_0000) by (bit_vector);
            assert(SHUTDOWN_FLAG as u64 == 1u64 << 63);
            assert(SEQ_MASK as u64 == 0xFFFFu64 << 47);
        } else {
            let w = word as u32;
            assert((w & !(1u32 << 31)) & !(0xFFFFu32 << 15) == w % 0x8000) by (bit_vector);
            assert(SHUTDOWN_FLAG as u32 == 1u32 << 31);
            assert(SEQ_MASK as u32 == 0xFFFFu32 << 15);
        }
    }
    (word & !SHUTDOWN_FLAG) & !SEQ_MASK
}

/// Takes the sequence tag out of a head word, in the place where the word holds it.
pub fn tag_of(word: usize) -> (r: usize)
    ensures
        r == index_limit() * word_seq(word),
{
    proof {
        if usize::BITS == 64 {
            let w = word as u64;
            assert(w & (0xFFFFu64 << 47) == 0x8000_0000_0000u64 * (w / 0x8000_0000_0000 % 0x1_0000))
                by (bit_vector);
            assert(SEQ_MASK as u64 == 0xFFFFu64 << 47);
        } else {
            let w = word as u32;
            assert(w & (0xFFFFu32 << 15) == 0x8000u32 * (w / 0x8000 % 0x1_0000)) by (bit_vector);
            assert(SEQ_MASK as u32 == 0xFFFFu32 << 15);
        }
    }
    word & SEQ_MASK
}

/// Adding shifted counts adds the counts, up to the range of the sequence tag.
proof fn lemma_tag_sum(limit: int, q: int, b: int, sum: int)
    requires
        limit == 0x8000 || limit == 0x8000_0000_0000,
        0 <= q < 0x1_0000,
        0 <= b,
        sum == limit * (q + b % 0x2_0000) || sum == limit * (q + b % 0x2_0000 - 0x2_0000),
    ensures
        sum / limit % 0x1_0000 == (q + b) % 0x1_0000,
{
    let r = b % 0x2_0000;
    if sum == limit * (q + r) {
        assert(sum / limit == q + r) by {
            if limit == 0x8000 {
                assert(sum == 0x8000 * (q + r));
            } else {
                assert(sum == 0x8000_0000_0000 * (q + r));
            }
        }
    } else {
        assert(sum / limit == q + r - 0x2_0000) by {
            if limit == 0x8000 {
                assert(sum == 0x8000 * (q + r - 0x2_0000));
            } else {
                assert(sum == 0x8000_0000_0000 * (q + r - 0x2_0000));
            }
        }
    }
    assert((q + r) % 0x1_0000 == (q + b) % 0x1_0000);
}

/// Counts `burst_len` more items into a sequence tag.
#[verifier::rlimit(50)]
pub fn next_tag(tag: usize, burst_len: usize) -> (r: usize)
    requires
        tag as int % index_limit() == 0,
        tag < index_limit() * seq_limit(),
    ensures
        r == index_limit() * seq_after(tag as int / index_limit(), burst_len as int),
{
    let shifted: usize = burst_len << SEQ_SHIFT;
    let sum: usize = tag.wrapping_add(shifted);
    proof {
        if usize::BITS == 64 {
            let b = burst_len as u64;
            let m = sum as u64;
            assert(shifted as u64 == b << 47);
            assert(SEQ_MASK as u64 == 0xFFFFu64 << 47);
            assert(m & (0xFFFFu64 << 47) == 0x8000_0000_0000u64 * (m / 0x8000_0000_0000 % 0x1_0000))
                by (bit_vector);
            assert(b << 47 == 0x8000_0000_0000u64 * (b % 0x2_0000)) by (bit_vector);
            lemma_tag_sum(index_limit(), tag as int / index_limit(), burst_len as int, sum as int);
        } else {
            let b = burst_len as u32;
            let m = sum as u32;
            assert(shifted as u32 == b << 15);
            assert(SEQ_MASK as u32 == 0xFFFFu32 << 15);
            assert(m & (0xFFFFu32 << 15) == 0x8000u32 * (m / 0x8000 % 0x1_0000)) by (bit_vector);
            assert(b << 15 == 0x8000u32 * (b % 0x2_0000)) by (bit_vector);
            lemma_tag_sum(index_limit(), tag as int / index_limit(), burst_len as int, sum as int);
        }
    }
    sum & SEQ_MASK
}

/// Puts a head word together.
pub fn pack(index: usize, tag: usize, shutdown: bool) -> (r: usize)
    requires
        index < index_limit(),
        tag as int % index_limit() == 0,
        tag < index_limit() * seq_limit(),
    ensures
        r == packed(index as int, tag as int / index_limit(), shutdown),
{
    let flag: usize = if shutdown {
        SHUTDOWN_FLAG
    } else {
        0
    };
    proof {
        if usize::BITS == 64 {
            let i = index as u64;
            let t = tag as u64;
            let f = flag as u64;
            assert(SHUTDOWN_FLAG as u64 == 1u64 << 63);
            assert(1u64 << 63 == 0x8000_0000_0000_0000) by (bit_vector);
            assert(i | f | t == i + f + t) by (bit_vector)
                requires
                    i < 0x8000_0000_0000,
                    t % 0x8000_0000_0000 == 0,
                    t < 0x8000_0000_0000_0000,
                    f == 0 || f == 0x8000_0000_0000_0000,
            ;
        } else {
            let i = index as u32;
            let t = tag as u32;
            let f = flag as u32;
            assert(SHUTDOWN_FLAG as u32 == 1u32 << 31);
            assert(1u32 << 31 == 0x8000_0000) by (bit_vector);
            assert(i | f | t == i + f + t) by (bit_vector)
                requires
                    i < 0x8000,
                    t % 0x8000 == 0,
                    t < 0x8000_0000,
                    f == 0 || f == 0x8000_0000,
            ;
        }
    }
    index | flag | tag
}

/// Raises the shutdown flag of a head word.
pub fn with_shutdown(word: usize) -> (r: usize)
    ensures
        r == packed(word_index(word), word_seq(word), true),
        word_index(r) == word_index(word),
        word_seq(r) == word_seq(word),
        word_shutdown(r),
{
    proof {
        if usize::BITS == 64 {
            let w = word as u64;
            assert(SHUTDOWN_FLAG as u64 == 1u64 << 63);
            assert(w | (1u64 << 63) == if w >= 0x8000_0000_0000_0000 {
                w as int
            } else {
                w + 0x8000_0000_0000_0000
            }) by (bit_vector);
        } else {
            let w = word as u32;
            assert(SHUTDOWN_FLAG as u32 == 1u32 << 31);
            assert(w | (1u32 << 31) == if w >= 0x8000_0000 {
                w as int
            } else {
                w + 0x8000_0000
            }) by (bit_vector);
        }
    }
    word | SHUTDOWN_FLAG
}

}
