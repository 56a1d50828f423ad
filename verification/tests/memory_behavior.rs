use evm_core::errors::EvmErrors;
use evm_core::memory::{Memory, MEMORY_LIMIT};
use evm_core::word::Word;

#[test]
fn store_load_word_round_trips_and_grows() {
    let mut mem = Memory::new();
    let w = Word::from_limbs(1, 2, 3, 4);
    mem.store_word(100, w).unwrap();
    // Memory grew at least to the end of the window.
    assert!(mem.data.len() >= 132);
    assert_eq!(mem.load_word(100).unwrap(), w);
}

#[test]
fn growth_exposes_zero_bytes() {
    let mut mem = Memory::new();
    mem.store_byte(10, 0xab).unwrap();
    assert_eq!(mem.data.len(), 11);
    for i in 0..10 {
        assert_eq!(mem.load_byte(i), 0);
    }
    assert_eq!(mem.load_byte(10), 0xab);
    // A read past the end sees zero without growing.
    assert_eq!(mem.load_byte(999), 0);
    assert_eq!(mem.data.len(), 11);
}

#[test]
fn word_is_stored_big_endian() {
    let mut mem = Memory::new();
    mem.store_word(0, Word::from_u64(0x0102)).unwrap();
    assert_eq!(mem.load_byte(30), 0x01);
    assert_eq!(mem.load_byte(31), 0x02);
    assert_eq!(mem.load_byte(0), 0x00);
}

#[test]
fn copy_handles_overlapping_regions() {
    let mut mem = Memory::new_with_data(vec![1, 2, 3, 4, 5]);
    mem.copy(0, 2, 3).unwrap();
    assert_eq!(mem.data, vec![1, 2, 1, 2, 3]);
}

#[test]
fn copy_grows_both_regions() {
    let mut mem = Memory::new_with_data(vec![9, 8]);
    mem.copy(0, 4, 2).unwrap();
    assert_eq!(mem.data, vec![9, 8, 0, 0, 9, 8]);
}

#[test]
fn memory_ceiling_is_enforced() {
    let mut mem = Memory::new();
    let w = Word::from_u64(1);
    assert!(matches!(
        mem.store_word(MEMORY_LIMIT - 31, w),
        Err(EvmErrors::MemoryLimitExceeded)
    ));
    assert!(matches!(
        mem.store_byte(MEMORY_LIMIT, 1),
        Err(EvmErrors::MemoryLimitExceeded)
    ));
    assert!(matches!(
        mem.load_word(MEMORY_LIMIT),
        Err(EvmErrors::MemoryLimitExceeded)
    ));
    // Nothing was allocated by the refused requests.
    assert_eq!(mem.data.len(), 0);
}
