use evm_core::word::{
    word_add, word_and, word_div, word_eq, word_exp, word_low_byte, word_lt, word_mul, word_not,
    word_or, word_rem, word_sdiv, word_slt, word_smod, word_sub, word_xor, Word,
};

fn w(n: u64) -> Word {
    Word::from_u64(n)
}

/// The word of value `-n` in two's complement: `2^256 - n`.
fn neg(n: u64) -> Word {
    word_sub(&Word::zero(), &w(n))
}

#[test]
fn add_and_sub_small_values() {
    assert_eq!(word_add(&w(5), &w(7)), w(12));
    assert_eq!(word_sub(&w(12), &w(7)), w(5));
}

#[test]
fn add_wraps_at_word_size() {
    let max = word_not(&Word::zero());
    // (2^256 - 1) + 1 wraps to zero.
    assert_eq!(word_add(&max, &w(1)), Word::zero());
    // Wrapping subtraction comes back around.
    assert_eq!(word_sub(&Word::zero(), &w(1)), max);
}

#[test]
fn sub_after_add_round_trips() {
    // The round-trip law on a handful of values, including one that wraps.
    let pairs = [(0u64, 0u64), (5, 7), (u64::MAX, u64::MAX), (1, u64::MAX)];
    for (a, b) in pairs {
        assert_eq!(word_sub(&word_add(&w(a), &w(b)), &w(b)), w(a));
    }
    let max = word_not(&Word::zero());
    assert_eq!(word_sub(&word_add(&max, &max), &max), max);
}

#[test]
fn mul_div_rem_small_values() {
    assert_eq!(word_mul(&w(6), &w(7)), w(42));
    assert_eq!(word_div(&w(42), &w(6)), w(7));
    assert_eq!(word_rem(&w(10), &w(3)), w(1));
}

#[test]
fn mul_wraps_at_word_size() {
    // (2^255) * 2 wraps to zero.
    let high = Word::from_limbs(0, 0, 0, 0x8000_0000_0000_0000);
    assert_eq!(word_mul(&high, &w(2)), Word::zero());
}

#[test]
fn exp_computes_powers() {
    assert_eq!(word_exp(&w(2), &w(10)), w(1024));
    assert_eq!(word_exp(&w(3), &w(0)), w(1));
    // 2^256 wraps to zero.
    assert_eq!(word_exp(&w(2), &w(256)), Word::zero());
}

#[test]
fn signed_division_truncates_toward_zero() {
    // -8 / 2 == -4
    assert_eq!(word_sdiv(&neg(8), &w(2)), neg(4));
    // 8 / -2 == -4
    assert_eq!(word_sdiv(&w(8), &neg(2)), neg(4));
    // -7 / 2 == -3 (truncation, not flooring)
    assert_eq!(word_sdiv(&neg(7), &w(2)), neg(3));
    // The minimum value divided by minus one wraps back to itself.
    let min = Word::from_limbs(0, 0, 0, 0x8000_0000_0000_0000);
    assert_eq!(word_sdiv(&min, &neg(1)), min);
}

#[test]
fn signed_remainder_takes_dividend_sign() {
    // -7 % 3 == -1
    assert_eq!(word_smod(&neg(7), &w(3)), neg(1));
    // 7 % -3 == 1
    assert_eq!(word_smod(&w(7), &neg(3)), w(1));
}

#[test]
fn comparisons_unsigned_and_signed() {
    assert!(word_lt(&w(2), &w(3)));
    assert!(!word_lt(&w(3), &w(3)));
    // Unsigned: a negative pattern is a huge number.
    assert!(word_lt(&w(3), &neg(1)));
    // Signed: minus one is below three.
    assert!(word_slt(&neg(1), &w(3)));
    assert!(!word_slt(&w(3), &neg(1)));
    assert!(word_eq(&w(9), &w(9)));
    assert!(!word_eq(&w(9), &w(8)));
}

#[test]
fn bitwise_operations_work_limbwise() {
    assert_eq!(word_and(&w(0b1100), &w(0b1010)), w(0b1000));
    assert_eq!(word_or(&w(0b1100), &w(0b1010)), w(0b1110));
    assert_eq!(word_xor(&w(0b1100), &w(0b1010)), w(0b0110));
    let max = word_not(&Word::zero());
    assert_eq!(max, Word::from_limbs(u64::MAX, u64::MAX, u64::MAX, u64::MAX));
}

#[test]
fn low_byte_is_value_mod_256() {
    assert_eq!(word_low_byte(&w(0x1234)), 0x34);
    assert_eq!(word_low_byte(&Word::from_limbs(0x100, 5, 6, 7)), 0);
}
