//! Deriving the pseudo-random selection index.
//!
//! The host supplies two inputs the operator does not control: the raw data
//! of a recent-slot-hashes account and the current wall-clock timestamp. The
//! seed is the 64-bit little-endian word read at a fixed offset of that data,
//! less the timestamp (saturating, so an adversarial clock cannot wrap it),
//! and the winning position is the seed reduced modulo the participant count.

use vstd::prelude::*;

verus! {

/// Offset, in bytes, of the 64-bit entropy word inside the
/// recent-slot-hashes account data.
pub const SLOT_HASH_ENTROPY_OFFSET: usize = 12;

/// The unsigned 64-bit value that eight little-endian bytes denote.
pub open spec fn u64_of_le_bytes(s: Seq<u8>) -> int
    recommends
        s.len() == 8,
{
    s[0] + s[1] * 0x100 + s[2] * 0x1_0000 + s[3] * 0x100_0000 + s[4] * 0x1_0000_0000
        + s[5] * 0x100_0000_0000 + s[6] * 0x1_0000_0000_0000 + s[7] * 0x100_0000_0000_0000
}

/// Reads the entropy word out of the raw recent-slot-hashes account data:
/// the little-endian 64-bit integer at `SLOT_HASH_ENTROPY_OFFSET`, or `None`
/// when the data is too short to contain it.
pub fn read_entropy_word(data: &Vec<u8>) -> (r: Option<u64>)
    ensures
        match r {
            Some(v) => data@.len() >= SLOT_HASH_ENTROPY_OFFSET + 8 && v == u64_of_le_bytes(
                data@.subrange(
                    SLOT_HASH_ENTROPY_OFFSET as int,
                    SLOT_HASH_ENTROPY_OFFSET as int + 8,
                ),
            ),
            None => data@.len() < SLOT_HASH_ENTROPY_OFFSET + 8,
        },
{
    if data.len() < SLOT_HASH_ENTROPY_OFFSET + 8 {
        return None;
    }
    let b0 = data[SLOT_HASH_ENTROPY_OFFSET] as u64;
    let b1 = data[SLOT_HASH_ENTROPY_OFFSET + 1] as u64;
    let b2 = data[SLOT_HASH_ENTROPY_OFFSET + 2] as u64;
    let b3 = data[SLOT_HASH_ENTROPY_OFFSET + 3] as u64;
    let b4 = data[SLOT_HASH_ENTROPY_OFFSET + 4] as u64;
    let b5 = data[SLOT_HASH_ENTROPY_OFFSET + 5] as u64;
    let b6 = data[SLOT_HASH_ENTROPY_OFFSET + 6] as u64;
    let b7 = data[SLOT_HASH_ENTROPY_OFFSET + 7] as u64;
    let v = b0 + b1 * 0x100 + b2 * 0x1_0000 + b3 * 0x100_0000 + b4 * 0x1_0000_0000
        + b5 * 0x100_0000_0000 + b6 * 0x1_0000_0000_0000 + b7 * 0x100_0000_0000_0000;
    proof {
        let s = data@.subrange(
            SLOT_HASH_ENTROPY_OFFSET as int,
            SLOT_HASH_ENTROPY_OFFSET as int + 8,
        );
        assert(s[0] == data@[SLOT_HASH_ENTROPY_OFFSET as int]);
        assert(s[1] == data@[SLOT_HASH_ENTROPY_OFFSET as int + 1]);
        assert(s[2] == data@[SLOT_HASH_ENTROPY_OFFSET as int + 2]);
        assert(s[3] == data@[SLOT_HASH_ENTROPY_OFFSET as int + 3]);
        assert(s[4] == data@[SLOT_HASH_ENTROPY_OFFSET as int + 4]);
        assert(s[5] == data@[SLOT_HASH_ENTROPY_OFFSET as int + 5]);
        assert(s[6] == data@[SLOT_HASH_ENTROPY_OFFSET as int + 6]);
        assert(s[7] == data@[SLOT_HASH_ENTROPY_OFFSET as int + 7]);
    }
    Some(v)
}

/// The two's-complement 64-bit word that a signed timestamp occupies: the
/// timestamp itself when non-negative, otherwise the timestamp plus 2^64.
pub open spec fn timestamp_as_word(t: i64) -> u64 {
    if t >= 0 {
        t as u64
    } else {
        (t + 0x1_0000_0000_0000_0000) as u64
    }
}

/// Computes `timestamp_as_word` executably.
pub fn timestamp_word(t: i64) -> (r: u64)
    ensures
        r == timestamp_as_word(t),
{
    if t >= 0 {
        t as u64
    } else {
        let magnitude: i64 = -(t + 1);
        u64::MAX - (magnitude as u64)
    }
}

/// The draw seed: the entropy word less the timestamp word, saturating at
/// zero so the subtraction cannot wrap.
pub open spec fn seed_of(entropy: u64, timestamp: i64) -> u64 {
    if entropy >= timestamp_as_word(timestamp) {
        (entropy - timestamp_as_word(timestamp)) as u64
    } else {
        0u64
    }
}

/// Combines the entropy word with the timestamp into the draw seed.
pub fn derive_seed(entropy: u64, timestamp: i64) -> (r: u64)
    ensures
        r == seed_of(entropy, timestamp),
{
    let word = timestamp_word(timestamp);
    entropy.saturating_sub(word)
}

/// The winning position among `count` participants for a given seed.
pub open spec fn selection_index(seed: u64, count: int) -> int
    recommends
        count > 0,
{
    seed as int % count
}

/// Reduces the seed modulo the participant count.
pub fn select_index(seed: u64, count: usize) -> (r: usize)
    requires
        count > 0,
    ensures
        r == selection_index(seed, count as int),
        r < count,
{
    (seed % (count as u64)) as usize
}

} // verus!
