use liquidity_pool::entropy::derive_seed;
use liquidity_pool::entropy::read_entropy_word;
use liquidity_pool::entropy::select_index;
use liquidity_pool::entropy::timestamp_word;
use liquidity_pool::entropy::SLOT_HASH_ENTROPY_OFFSET;

#[test]
fn entropy_word_is_little_endian_at_the_fixed_offset() {
    let mut data = vec![0u8; SLOT_HASH_ENTROPY_OFFSET + 8];
    data[SLOT_HASH_ENTROPY_OFFSET] = 0x78;
    data[SLOT_HASH_ENTROPY_OFFSET + 1] = 0x56;
    data[SLOT_HASH_ENTROPY_OFFSET + 2] = 0x34;
    data[SLOT_HASH_ENTROPY_OFFSET + 3] = 0x12;
    assert_eq!(read_entropy_word(&data), Some(0x12345678));

    let mut data = vec![0u8; 64];
    for i in 0..8 {
        data[SLOT_HASH_ENTROPY_OFFSET + i] = 0xFF;
    }
    assert_eq!(read_entropy_word(&data), Some(u64::MAX));
}

#[test]
fn entropy_word_needs_twenty_bytes() {
    assert_eq!(read_entropy_word(&vec![]), None);
    assert_eq!(read_entropy_word(&vec![0u8; SLOT_HASH_ENTROPY_OFFSET + 7]), None);
    assert_eq!(read_entropy_word(&vec![0u8; SLOT_HASH_ENTROPY_OFFSET + 8]), Some(0));
}

#[test]
fn timestamp_word_wraps_like_the_machine_cast() {
    assert_eq!(timestamp_word(0), 0);
    assert_eq!(timestamp_word(5), 5);
    assert_eq!(timestamp_word(i64::MAX), i64::MAX as u64);
    assert_eq!(timestamp_word(-1), u64::MAX);
    assert_eq!(timestamp_word(-2), u64::MAX - 1);
    assert_eq!(timestamp_word(i64::MIN), 1u64 << 63);
}

#[test]
fn seed_subtracts_the_timestamp_saturating_at_zero() {
    assert_eq!(derive_seed(10, 3), 7);
    assert_eq!(derive_seed(10, 10), 0);
    assert_eq!(derive_seed(10, 11), 0);
    assert_eq!(derive_seed(3, -1), 0);
    assert_eq!(derive_seed(u64::MAX, -1), 0);
    assert_eq!(derive_seed(0, 0), 0);
}

#[test]
fn selection_index_is_the_seed_modulo_the_count() {
    assert_eq!(select_index(7, 3), 1);
    assert_eq!(select_index(3, 2), 1);
    assert_eq!(select_index(4, 2), 0);
    assert_eq!(select_index(0, 5), 0);
    assert_eq!(select_index(u64::MAX, 1), 0);
}
