use vstd::prelude::*;
use vstd::arithmetic::div_mod::{
    lemma_fundamental_div_mod_converse, lemma_small_mod, lemma_sub_mod_noop,
};
use vstd::arithmetic::power::pow;

verus! {

/// The 256-bit value unit of the machine: the universal type of the stack,
/// of memory words and of storage slots.  Four little-endian 64-bit limbs;
/// `limb0` is the least significant.  Unsigned modular arithmetic is the
/// default; `as_int` is the two's-complement reinterpretation of the same
/// bit pattern.
#[derive(Clone, Copy, Debug, PartialEq, Eq, Structural)]
pub struct Word {
    pub limb0: u64,
    pub limb1: u64,
    pub limb2: u64,
    pub limb3: u64,
}

/// 2^64, the weight of the second limb.
pub open spec fn p64() -> nat {
    0x1_0000_0000_0000_0000
}

/// 2^128, the weight of the third limb.
pub open spec fn p128() -> nat {
    0x1_0000_0000_0000_0000_0000_0000_0000_0000nat
}

/// 2^192, the weight of the highest limb.
pub open spec fn p192() -> nat {
    0x1_0000_0000_0000_0000_0000_0000_0000_0000_0000_0000_0000_0000nat
}

/// 2^255, the boundary between the non-negative and the negative half of
/// the signed reinterpretation.
pub open spec fn p255() -> nat {
    0x8000_0000_0000_0000_0000_0000_0000_0000_0000_0000_0000_0000_0000_0000_0000_0000nat
}

/// 2^256, the modulus of all wrapping word arithmetic.
pub open spec fn p256() -> nat {
    0x1_0000_0000_0000_0000_0000_0000_0000_0000_0000_0000_0000_0000_0000_0000_0000_0000nat
}

impl Word {
    /// The unsigned value of the word.
    pub open spec fn as_nat(self) -> nat {
        (self.limb0 + self.limb1 * p64() + self.limb2 * p128() + self.limb3 * p192()) as nat
    }

    /// The same bit pattern read as a two's-complement signed integer.
    pub open spec fn as_int(self) -> int {
        if self.as_nat() < p255() {
            self.as_nat() as int
        } else {
            self.as_nat() - p256()
        }
    }

    pub fn zero() -> (r: Word)
        ensures
            r.as_nat() == 0,
    {
        Word { limb0: 0, limb1: 0, limb2: 0, limb3: 0 }
    }

    pub fn one() -> (r: Word)
        ensures
            r.as_nat() == 1,
    {
        Word { limb0: 1, limb1: 0, limb2: 0, limb3: 0 }
    }

    pub fn from_u64(v: u64) -> (r: Word)
        ensures
            r.as_nat() == v,
    {
        Word { limb0: v, limb1: 0, limb2: 0, limb3: 0 }
    }

    pub fn from_limbs(limb0: u64, limb1: u64, limb2: u64, limb3: u64) -> (r: Word)
        ensures
            r.as_nat() == limb0 + limb1 * p64() + limb2 * p128() + limb3 * p192(),
    {
        Word { limb0, limb1, limb2, limb3 }
    }

    /// True exactly when the word is zero.
    pub fn is_zero(&self) -> (r: bool)
        ensures
            r == (self.as_nat() == 0),
    {
        self.limb0 == 0 && self.limb1 == 0 && self.limb2 == 0 && self.limb3 == 0
    }

    /// The low 64 bits of the word, and whether the rest is zero: the usual
    /// way a word operand is narrowed to a machine offset.
    pub fn to_usize_checked(&self) -> (r: Option<usize>)
        ensures
            match r {
                Some(v) => v == self.as_nat(),
                None => self.as_nat() > usize::MAX,
            },
    {
        if self.limb1 == 0 && self.limb2 == 0 && self.limb3 == 0 {
            if self.limb0 <= usize::MAX as u64 {
                Some(self.limb0 as usize)
            } else {
                proof {
                    lemma_word_nonneg_parts(*self);
                }
                None
            }
        } else {
            proof {
                lemma_word_nonneg_parts(*self);
            }
            None
        }
    }
}

/// Every word value lies below 2^256.
pub proof fn lemma_word_bound(w: Word)
    ensures
        w.as_nat() < p256(),
{
    assert(w.limb0 < p64() && w.limb1 < p64() && w.limb2 < p64() && w.limb3 < p64());
}

proof fn lemma_word_nonneg_parts(w: Word)
    ensures
        w.as_nat() >= w.limb0,
        w.limb1 > 0 || w.limb2 > 0 || w.limb3 > 0 ==> w.as_nat() >= p64(),
{
}

/// Two words with the same unsigned value are the same word: the limbs are
/// the base-2^64 digits of the value, which are unique.
pub proof fn lemma_as_nat_injective(a: Word, b: Word)
    requires
        a.as_nat() == b.as_nat(),
    ensures
        a == b,
{
    let va = a.as_nat();
    assert(va == (a.limb1 + a.limb2 * p64() + a.limb3 * p128()) * p64() + a.limb0) by (nonlinear_arith)
        requires va == a.as_nat();
    assert(va == (b.limb1 + b.limb2 * p64() + b.limb3 * p128()) * p64() + b.limb0) by (nonlinear_arith)
        requires va == b.as_nat();
    lemma_fundamental_div_mod_converse(
        va as int,
        p64() as int,
        (a.limb1 + a.limb2 * p64() + a.limb3 * p128()) as int,
        a.limb0 as int,
    );
    lemma_fundamental_div_mod_converse(
        va as int,
        p64() as int,
        (b.limb1 + b.limb2 * p64() + b.limb3 * p128()) as int,
        b.limb0 as int,
    );
    assert(a.limb0 == b.limb0);
    let ha = a.limb1 + a.limb2 * p64() + a.limb3 * p128();
    let hb = b.limb1 + b.limb2 * p64() + b.limb3 * p128();
    assert(ha == hb);
    assert(ha == (a.limb2 + a.limb3 * p64()) * p64() + a.limb1) by (nonlinear_arith)
        requires ha == a.limb1 + a.limb2 * p64() + a.limb3 * p128();
    assert(hb == (b.limb2 + b.limb3 * p64()) * p64() + b.limb1) by (nonlinear_arith)
        requires hb == b.limb1 + b.limb2 * p64() + b.limb3 * p128();
    lemma_fundamental_div_mod_converse(
        ha as int,
        p64() as int,
        (a.limb2 + a.limb3 * p64()) as int,
        a.limb1 as int,
    );
    lemma_fundamental_div_mod_converse(
        ha as int,
        p64() as int,
        (b.limb2 + b.limb3 * p64()) as int,
        b.limb1 as int,
    );
    assert(a.limb1 == b.limb1);
    let ga = a.limb2 + a.limb3 * p64();
    let gb = b.limb2 + b.limb3 * p64();
    assert(ga == gb);
    lemma_fundamental_div_mod_converse(ga as int, p64() as int, a.limb3 as int, a.limb2 as int);
    lemma_fundamental_div_mod_converse(gb as int, p64() as int, b.limb3 as int, b.limb2 as int);
    assert(a.limb2 == b.limb2 && a.limb3 == b.limb3);
}

/// Unsigned less-than, by limb comparison from the most significant down.
pub fn word_lt(a: &Word, b: &Word) -> (r: bool)
    ensures
        r == (a.as_nat() < b.as_nat()),
{
    if a.limb3 != b.limb3 {
        a.limb3 < b.limb3
    } else if a.limb2 != b.limb2 {
        a.limb2 < b.limb2
    } else if a.limb1 != b.limb1 {
        a.limb1 < b.limb1
    } else {
        a.limb0 < b.limb0
    }
}

/// Signed less-than: the words reinterpreted as two's complement.
pub fn word_slt(a: &Word, b: &Word) -> (r: bool)
    ensures
        r == (a.as_int() < b.as_int()),
{
    proof {
        lemma_sign_boundary(*a);
        lemma_sign_boundary(*b);
    }
    let a_neg = a.limb3 >= 0x8000_0000_0000_0000;
    let b_neg = b.limb3 >= 0x8000_0000_0000_0000;
    if a_neg != b_neg {
        a_neg
    } else {
        word_lt(a, b)
    }
}

/// Equality of words, decided limb by limb; equal values mean equal words.
pub fn word_eq(a: &Word, b: &Word) -> (r: bool)
    ensures
        r == (a.as_nat() == b.as_nat()),
{
    proof {
        if a.as_nat() == b.as_nat() {
            lemma_as_nat_injective(*a, *b);
        }
    }
    a.limb0 == b.limb0 && a.limb1 == b.limb1 && a.limb2 == b.limb2 && a.limb3 == b.limb3
}

/// Bitwise conjunction, limb by limb.
pub fn word_and(a: &Word, b: &Word) -> (r: Word)
    ensures
        r.limb0 == (a.limb0 & b.limb0),
        r.limb1 == (a.limb1 & b.limb1),
        r.limb2 == (a.limb2 & b.limb2),
        r.limb3 == (a.limb3 & b.limb3),
{
    Word {
        limb0: a.limb0 & b.limb0,
        limb1: a.limb1 & b.limb1,
        limb2: a.limb2 & b.limb2,
        limb3: a.limb3 & b.limb3,
    }
}

/// Bitwise disjunction, limb by limb.
pub fn word_or(a: &Word, b: &Word) -> (r: Word)
    ensures
        r.limb0 == (a.limb0 | b.limb0),
        r.limb1 == (a.limb1 | b.limb1),
        r.limb2 == (a.limb2 | b.limb2),
        r.limb3 == (a.limb3 | b.limb3),
{
    Word {
        limb0: a.limb0 | b.limb0,
        limb1: a.limb1 | b.limb1,
        limb2: a.limb2 | b.limb2,
        limb3: a.limb3 | b.limb3,
    }
}

/// Bitwise exclusive or, limb by limb.
pub fn word_xor(a: &Word, b: &Word) -> (r: Word)
    ensures
        r.limb0 == (a.limb0 ^ b.limb0),
        r.limb1 == (a.limb1 ^ b.limb1),
        r.limb2 == (a.limb2 ^ b.limb2),
        r.limb3 == (a.limb3 ^ b.limb3),
{
    Word {
        limb0: a.limb0 ^ b.limb0,
        limb1: a.limb1 ^ b.limb1,
        limb2: a.limb2 ^ b.limb2,
        limb3: a.limb3 ^ b.limb3,
    }
}

/// Bitwise complement, limb by limb.
pub fn word_not(a: &Word) -> (r: Word)
    ensures
        r.limb0 == !a.limb0,
        r.limb1 == !a.limb1,
        r.limb2 == !a.limb2,
        r.limb3 == !a.limb3,
{
    Word { limb0: !a.limb0, limb1: !a.limb1, limb2: !a.limb2, limb3: !a.limb3 }
}

/// The least significant byte of the word: its value modulo 256.
pub fn word_low_byte(w: &Word) -> (r: u8)
    ensures
        r == w.as_nat() % 256,
{
    proof {
        let l = w.limb0;
        assert(l & 0xff == l % 256) by (bit_vector);
        let rest = w.limb1 * 0x100_0000_0000_0000 + w.limb2
            * 0x1_0000_0000_0000_0000_0000_0000_0000_00nat + w.limb3
            * 0x1_0000_0000_0000_0000_0000_0000_0000_0000_0000_0000_0000_00nat;
        assert(w.as_nat() == 256 * rest + w.limb0);
        vstd::arithmetic::div_mod::lemma_mod_multiples_vanish(
            rest as int,
            w.limb0 as int,
            256,
        );
        lemma_small_mod((w.limb0 % 256) as nat, 256);
    }
    (w.limb0 & 0xff) as u8
}

/// Value of wrapping 256-bit addition.
pub open spec fn add_val(a: nat, b: nat) -> nat {
    (a + b) % p256()
}

/// Value of wrapping 256-bit subtraction.
pub open spec fn sub_val(a: nat, b: nat) -> nat {
    (((a - b) % (p256() as int)) as nat)
}

/// Value of wrapping 256-bit multiplication.
pub open spec fn mul_val(a: nat, b: nat) -> nat {
    (a * b) % p256()
}

/// Value of unsigned division; a zero divisor yields zero, never a fault.
pub open spec fn div_val(a: nat, b: nat) -> nat {
    if b == 0 {
        0
    } else {
        a / b
    }
}

/// Value of the unsigned remainder; a zero divisor yields zero, never a fault.
pub open spec fn mod_val(a: nat, b: nat) -> nat {
    if b == 0 {
        0
    } else {
        a % b
    }
}

/// Value of wrapping 256-bit exponentiation.
pub open spec fn exp_val(base: nat, e: nat) -> nat {
    (pow(base as int, e) % (p256() as int)) as nat
}

/// The unsigned bit pattern of an integer, wrapped into one word.
pub open spec fn wrap256(x: int) -> nat {
    ((x % (p256() as int)) as nat)
}

/// Magnitude of an integer.
pub open spec fn abs_val(x: int) -> nat {
    if x >= 0 {
        x as nat
    } else {
        (-x) as nat
    }
}

/// Quotient of signed division truncated toward zero, the convention of
/// two's-complement machine division.
pub open spec fn trunc_div(a: int, b: int) -> int {
    if (a >= 0) == (b >= 0) {
        (abs_val(a) / abs_val(b)) as int
    } else {
        -((abs_val(a) / abs_val(b)) as int)
    }
}

/// Remainder of truncated signed division; it carries the sign of the
/// dividend.
pub open spec fn trunc_rem(a: int, b: int) -> int {
    a - b * trunc_div(a, b)
}

/// Value of signed division on the two's-complement readings; a zero
/// divisor yields zero.
pub open spec fn sdiv_val(a: int, b: int) -> nat {
    if b == 0 {
        0
    } else {
        wrap256(trunc_div(a, b))
    }
}

/// Value of the signed remainder on the two's-complement readings; a zero
/// divisor yields zero.
pub open spec fn smod_val(a: int, b: int) -> nat {
    if b == 0 {
        0
    } else {
        wrap256(trunc_rem(a, b))
    }
}

/// Relies on `alloy::primitives::U256::wrapping_add` (ruint): addition
/// modulo 2^256 over little-endian 64-bit limbs.
#[verifier::external_body]
pub fn word_add(a: &Word, b: &Word) -> (r: Word)
    ensures
        r.as_nat() == add_val(a.as_nat(), b.as_nat()),
{
    let x = alloy::primitives::U256::from_limbs([a.limb0, a.limb1, a.limb2, a.limb3]);
    let y = alloy::primitives::U256::from_limbs([b.limb0, b.limb1, b.limb2, b.limb3]);
    let l = x.wrapping_add(y).into_limbs();
    Word { limb0: l[0], limb1: l[1], limb2: l[2], limb3: l[3] }
}

/// Relies on `alloy::primitives::U256::wrapping_sub` (ruint): subtraction
/// modulo 2^256.
#[verifier::external_body]
pub fn word_sub(a: &Word, b: &Word) -> (r: Word)
    ensures
        r.as_nat() == sub_val(a.as_nat(), b.as_nat()),
{
    let x = alloy::primitives::U256::from_limbs([a.limb0, a.limb1, a.limb2, a.limb3]);
    let y = alloy::primitives::U256::from_limbs([b.limb0, b.limb1, b.limb2, b.limb3]);
    let l = x.wrapping_sub(y).into_limbs();
    Word { limb0: l[0], limb1: l[1], limb2: l[2], limb3: l[3] }
}

/// Relies on `alloy::primitives::U256::wrapping_mul` (ruint): multiplication
/// modulo 2^256.
#[verifier::external_body]
pub fn word_mul(a: &Word, b: &Word) -> (r: Word)
    ensures
        r.as_nat() == mul_val(a.as_nat(), b.as_nat()),
{
    let x = alloy::primitives::U256::from_limbs([a.limb0, a.limb1, a.limb2, a.limb3]);
    let y = alloy::primitives::U256::from_limbs([b.limb0, b.limb1, b.limb2, b.limb3]);
    let l = x.wrapping_mul(y).into_limbs();
    Word { limb0: l[0], limb1: l[1], limb2: l[2], limb3: l[3] }
}

/// Relies on `alloy::primitives::U256::wrapping_div` (ruint): the rounded-down
/// quotient; it panics on a zero divisor, which the precondition excludes.
#[verifier::external_body]
pub fn word_div(a: &Word, b: &Word) -> (r: Word)
    requires
        b.as_nat() != 0,
    ensures
        r.as_nat() == a.as_nat() / b.as_nat(),
{
    let x = alloy::primitives::U256::from_limbs([a.limb0, a.limb1, a.limb2, a.limb3]);
    let y = alloy::primitives::U256::from_limbs([b.limb0, b.limb1, b.limb2, b.limb3]);
    let l = x.wrapping_div(y).into_limbs();
    Word { limb0: l[0], limb1: l[1], limb2: l[2], limb3: l[3] }
}

/// Relies on `alloy::primitives::U256::wrapping_rem` (ruint): the remainder of
/// the rounded-down division; it panics on a zero divisor, which the
/// precondition excludes.
#[verifier::external_body]
pub fn word_rem(a: &Word, b: &Word) -> (r: Word)
    requires
        b.as_nat() != 0,
    ensures
        r.as_nat() == a.as_nat() % b.as_nat(),
{
    let x = alloy::primitives::U256::from_limbs([a.limb0, a.limb1, a.limb2, a.limb3]);
    let y = alloy::primitives::U256::from_limbs([b.limb0, b.limb1, b.limb2, b.limb3]);
    let l = x.wrapping_rem(y).into_limbs();
    Word { limb0: l[0], limb1: l[1], limb2: l[2], limb3: l[3] }
}

/// Relies on `alloy::primitives::U256::pow` (ruint `wrapping_pow`):
/// exponentiation by squaring, wrapping modulo 2^256.
#[verifier::external_body]
pub fn word_exp(a: &Word, b: &Word) -> (r: Word)
    ensures
        r.as_nat() == exp_val(a.as_nat(), b.as_nat()),
{
    let x = alloy::primitives::U256::from_limbs([a.limb0, a.limb1, a.limb2, a.limb3]);
    let y = alloy::primitives::U256::from_limbs([b.limb0, b.limb1, b.limb2, b.limb3]);
    let l = x.pow(y).into_limbs();
    Word { limb0: l[0], limb1: l[1], limb2: l[2], limb3: l[3] }
}

/// Relies on `alloy::primitives::I256::wrapping_div`: two's-complement
/// division truncated toward zero; the minimum value divided by minus one
/// wraps back to itself, which `wrap256` of the exact quotient also gives.
/// It panics on a zero divisor, which the precondition excludes.
#[verifier::external_body]
pub fn word_sdiv(a: &Word, b: &Word) -> (r: Word)
    requires
        b.as_nat() != 0,
    ensures
        r.as_nat() == sdiv_val(a.as_int(), b.as_int()),
{
    let x = alloy::primitives::I256::from_raw(
        alloy::primitives::U256::from_limbs([a.limb0, a.limb1, a.limb2, a.limb3]),
    );
    let y = alloy::primitives::I256::from_raw(
        alloy::primitives::U256::from_limbs([b.limb0, b.limb1, b.limb2, b.limb3]),
    );
    let l = x.wrapping_div(y).into_raw().into_limbs();
    Word { limb0: l[0], limb1: l[1], limb2: l[2], limb3: l[3] }
}

/// Relies on `alloy::primitives::I256::wrapping_rem`: the remainder of
/// truncated two's-complement division, signed like the dividend.  It panics
/// on a zero divisor, which the precondition excludes.
#[verifier::external_body]
pub fn word_smod(a: &Word, b: &Word) -> (r: Word)
    requires
        b.as_nat() != 0,
    ensures
        r.as_nat() == smod_val(a.as_int(), b.as_int()),
{
    let x = alloy::primitives::I256::from_raw(
        alloy::primitives::U256::from_limbs([a.limb0, a.limb1, a.limb2, a.limb3]),
    );
    let y = alloy::primitives::I256::from_raw(
        alloy::primitives::U256::from_limbs([b.limb0, b.limb1, b.limb2, b.limb3]),
    );
    let l = x.wrapping_rem(y).into_raw().into_limbs();
    Word { limb0: l[0], limb1: l[1], limb2: l[2], limb3: l[3] }
}

/// Round-trip law of wrapping addition and subtraction: for any words `a`
/// and `b`, subtracting `b` from `a + b` gives back `a` exactly, under the
/// modular wraparound of 256-bit arithmetic.
pub proof fn lemma_add_sub_round_trip(a: Word, b: Word)
    ensures
        sub_val(add_val(a.as_nat(), b.as_nat()), b.as_nat()) == a.as_nat(),
{
    let m = p256() as int;
    let x = a.as_nat() as int;
    let y = b.as_nat() as int;
    lemma_word_bound(a);
    lemma_word_bound(b);
    let s = (x + y) % m;
    lemma_small_mod(b.as_nat(), p256());
    lemma_sub_mod_noop(x + y, y, m);
    assert((s - y % m) % m == (x + y - y) % m);
    lemma_small_mod(a.as_nat(), p256());
}

/// The round-trip law at the word level: where `s` is what adding `b` to
/// `a` produced and `r` is what subtracting `b` from `s` produced — the
/// exact contracts of the wrapping addition and subtraction — `r` is `a`
/// itself.
pub proof fn lemma_word_add_sub_round_trip(a: Word, b: Word, s: Word, r: Word)
    requires
        s.as_nat() == add_val(a.as_nat(), b.as_nat()),
        r.as_nat() == sub_val(s.as_nat(), b.as_nat()),
    ensures
        r == a,
{
    lemma_add_sub_round_trip(a, b);
    lemma_as_nat_injective(r, a);
}

/// The signed remainder of a zero divisor is zero by definition; so is the
/// unsigned one.  Stated once so callers need not unfold the value functions.
pub proof fn lemma_div_mod_by_zero(a: nat, sa: int)
    ensures
        div_val(a, 0) == 0,
        mod_val(a, 0) == 0,
        sdiv_val(sa, 0) == 0,
        smod_val(sa, 0) == 0,
{
}

/// The sign of the two's-complement reading is the top bit of the top limb.
proof fn lemma_sign_boundary(w: Word)
    ensures
        (w.as_nat() >= p255()) == (w.limb3 >= 0x8000_0000_0000_0000),
{
    if w.limb3 >= 0x8000_0000_0000_0000 {
        assert(w.limb3 * p192() >= 0x8000_0000_0000_0000 * p192()) by (nonlinear_arith)
            requires w.limb3 >= 0x8000_0000_0000_0000;
    } else {
        assert(w.limb3 * p192() <= (0x8000_0000_0000_0000 - 1) * p192()) by (nonlinear_arith)
            requires w.limb3 <= 0x8000_0000_0000_0000 - 1;
    }
}

} // verus!
