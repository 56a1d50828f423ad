use vstd::prelude::*;
use vstd::arithmetic::power2::pow2;

use crate::bytes::{bytes_val, word_byte, word_truncate_bytes};
use crate::evm_types::tx_eq;
use crate::opcodes::Opcode;
use crate::stack::STACK_LIMIT;
use crate::word::{
    add_val, div_val, exp_val, mod_val, mul_val, sdiv_val, smod_val, sub_val, word_add, word_div,
    word_eq, word_exp, word_lt, word_mul, word_rem, word_sdiv, word_slt, word_smod, word_sub,
    Word,
};
use crate::{Evm, ProgramExitStatus};

verus! {

/// The execution context is read-only: no handler changes the block
/// environment or the transaction record.
pub open spec fn env_unchanged(pre: Evm, post: Evm) -> bool {
    post.block_env == pre.block_env && tx_eq(post.tx, pre.tx) && post.code.data@ == pre.code.data@
}

/// What a pure stack operation never touches: memory, storage, context.
pub open spec fn frame_unchanged(pre: Evm, post: Evm) -> bool {
    post.memory.data@ == pre.memory.data@ && post.storage.view_map() == pre.storage.view_map()
        && env_unchanged(pre, post)
}

/// The stack's documented capacity invariant: at most `STACK_LIMIT` items.
/// Constructors establish it and every operation preserves it; operations
/// that pop before they push rely on it.
pub open spec fn stack_ok(e: Evm) -> bool {
    e.stack.data@.len() <= STACK_LIMIT
}

/// One as a word for a true comparison, zero for a false one.
pub open spec fn bool_val(b: bool) -> nat {
    if b {
        1
    } else {
        0
    }
}

/// The value of `SIGNEXTEND` on this machine: the integer truncated to
/// its low `size` bytes; a width of 32 bytes or more leaves the word
/// unchanged.
pub open spec fn signext_val(x: nat, size: nat) -> nat {
    if size >= 32 {
        x
    } else {
        x % pow2((8 * size) as nat)
    }
}

/// The value of `BYTE`: big-endian byte `i` of the word, zero when the
/// index is out of range.
pub open spec fn byte_val(x: nat, i: nat) -> nat {
    if i > 31 {
        0
    } else {
        (x / pow2((8 * (31 - i)) as nat)) % 256
    }
}

/// The result of one two-operand operation.  `left` is the operand popped
/// second, `right` the operand popped first: the canonical order pops the
/// right-hand operand first.  Two instructions read their operands
/// otherwise: `EXP` pops its base first, and `SIGNEXTEND` and `BYTE` pop
/// their width or index first.
pub open spec fn binop_val(op: Opcode, left: Word, right: Word) -> nat {
    match op {
        Opcode::ADD => add_val(left.as_nat(), right.as_nat()),
        Opcode::SUB => sub_val(left.as_nat(), right.as_nat()),
        Opcode::MUL => mul_val(left.as_nat(), right.as_nat()),
        Opcode::DIV => div_val(left.as_nat(), right.as_nat()),
        Opcode::SDIV => sdiv_val(left.as_int(), right.as_int()),
        Opcode::MOD => mod_val(left.as_nat(), right.as_nat()),
        Opcode::SMOD => smod_val(left.as_int(), right.as_int()),
        Opcode::EXP => exp_val(right.as_nat(), left.as_nat()),
        Opcode::SIGNEXTEND => signext_val(left.as_nat(), right.as_nat()),
        Opcode::BYTE => byte_val(left.as_nat(), right.as_nat()),
        Opcode::LT => bool_val(left.as_nat() < right.as_nat()),
        Opcode::GT => bool_val(left.as_nat() > right.as_nat()),
        Opcode::SLT => bool_val(left.as_int() < right.as_int()),
        Opcode::SGT => bool_val(left.as_int() > right.as_int()),
        Opcode::EQ => bool_val(left.as_nat() == right.as_nat()),
        _ => 0,
    }
}

/// The effect of a two-operand value operation: with two operands on the
/// stack it replaces them by the operation's result and changes nothing
/// else; with fewer it fails, leaving the stack as it was.  `pc2` is the
/// program counter afterwards.
pub open spec fn binop_post(pre: Evm, post: Evm, op: Opcode, pc2: int) -> bool {
    let s = pre.stack.data@;
    frame_unchanged(pre, post) && post.pc == pc2 && if s.len() >= 2 {
        &&& post.status == pre.status
        &&& post.stack.data@.len() + 1 == s.len()
        &&& post.stack.data@.drop_last() == s.drop_last().drop_last()
        &&& post.stack.data@.last().as_nat() == binop_val(op, s[s.len() - 2], s.last())
    } else {
        post.status == ProgramExitStatus::Failure && post.stack.data@ == s
    }
}

/// The effect of pushing one environment value `v`: with room on the stack
/// it is pushed and nothing else changes; on a full stack the operation
/// fails and the stack is left as it was.
pub open spec fn env_push_post(pre: Evm, post: Evm, v: nat, pc2: int) -> bool {
    let s = pre.stack.data@;
    frame_unchanged(pre, post) && post.pc == pc2 && if s.len() < STACK_LIMIT {
        &&& post.status == pre.status
        &&& post.stack.data@.len() == s.len() + 1
        &&& post.stack.data@.drop_last() == s
        &&& post.stack.data@.last().as_nat() == v
    } else {
        post.status == ProgramExitStatus::Failure && post.stack.data@ == s
    }
}

/// The effect of `STOP`: the run halts in success; nothing else changes.
pub open spec fn stop_post(pre: Evm, post: Evm, pc2: int) -> bool {
    frame_unchanged(pre, post) && post.pc == pc2 && post.stack.data@ == pre.stack.data@
        && post.status == ProgramExitStatus::Success
}

/// STOP: halt in success; no other state changes.
pub fn stop(evm: &mut Evm)
    ensures
        stop_post(*old(evm), *final(evm), old(evm).pc as int),
{
    evm.status = ProgramExitStatus::Success;
}

/// ADD: pop two words, push their sum modulo 2^256.
pub fn add(evm: &mut Evm)
    requires
        stack_ok(*old(evm)),
    ensures
        binop_post(*old(evm), *final(evm), Opcode::ADD, old(evm).pc as int),
{
    if evm.stack.len() < 2 {
        evm.status = ProgramExitStatus::Failure;
        return ;
    }
    let right = evm.stack.pop().unwrap();
    let left = evm.stack.pop().unwrap();
    let result = word_add(&left, &right);
    evm.stack.push(result).unwrap();
    proof {
        assert(final(evm).stack.data@.drop_last() =~= old(
            evm,
        ).stack.data@.drop_last().drop_last());
    }
}

/// SUB: pop the right operand, then the left, push `left - right` with
/// modular wraparound.
pub fn sub(evm: &mut Evm)
    requires
        stack_ok(*old(evm)),
    ensures
        binop_post(*old(evm), *final(evm), Opcode::SUB, old(evm).pc as int),
{
    if evm.stack.len() < 2 {
        evm.status = ProgramExitStatus::Failure;
        return ;
    }
    let right = evm.stack.pop().unwrap();
    let left = evm.stack.pop().unwrap();
    let result = word_sub(&left, &right);
    evm.stack.push(result).unwrap();
    proof {
        assert(final(evm).stack.data@.drop_last() =~= old(
            evm,
        ).stack.data@.drop_last().drop_last());
    }
}

/// MUL: pop two words, push their product modulo 2^256.
pub fn mul(evm: &mut Evm)
    requires
        stack_ok(*old(evm)),
    ensures
        binop_post(*old(evm), *final(evm), Opcode::MUL, old(evm).pc as int),
{
    if evm.stack.len() < 2 {
        evm.status = ProgramExitStatus::Failure;
        return ;
    }
    let right = evm.stack.pop().unwrap();
    let left = evm.stack.pop().unwrap();
    let result = word_mul(&left, &right);
    evm.stack.push(result).unwrap();
    proof {
        assert(final(evm).stack.data@.drop_last() =~= old(
            evm,
        ).stack.data@.drop_last().drop_last());
    }
}

/// DIV: pop the divisor, then the dividend, push the quotient; a zero
/// divisor yields zero, never a fault.
pub fn div(evm: &mut Evm)
    requires
        stack_ok(*old(evm)),
    ensures
        binop_post(*old(evm), *final(evm), Opcode::DIV, old(evm).pc as int),
{
    if evm.stack.len() < 2 {
        evm.status = ProgramExitStatus::Failure;
        return ;
    }
    let right = evm.stack.pop().unwrap();
    let left = evm.stack.pop().unwrap();
    let result = if right.is_zero() {
        Word::zero()
    } else {
        word_div(&left, &right)
    };
    evm.stack.push(result).unwrap();
    proof {
        assert(final(evm).stack.data@.drop_last() =~= old(
            evm,
        ).stack.data@.drop_last().drop_last());
    }
}

/// SDIV: signed division of the two's-complement readings, truncated
/// toward zero; a zero divisor yields zero.
pub fn sdiv(evm: &mut Evm)
    requires
        stack_ok(*old(evm)),
    ensures
        binop_post(*old(evm), *final(evm), Opcode::SDIV, old(evm).pc as int),
{
    if evm.stack.len() < 2 {
        evm.status = ProgramExitStatus::Failure;
        return ;
    }
    let right = evm.stack.pop().unwrap();
    let left = evm.stack.pop().unwrap();
    proof {
        crate::word::lemma_word_bound(right);
    }
    let result = if right.is_zero() {
        Word::zero()
    } else {
        word_sdiv(&left, &right)
    };
    evm.stack.push(result).unwrap();
    proof {
        assert(final(evm).stack.data@.drop_last() =~= old(
            evm,
        ).stack.data@.drop_last().drop_last());
    }
}

/// MOD: pop the divisor, then the dividend, push the remainder; a zero
/// divisor yields zero, never a fault.
pub fn modulo(evm: &mut Evm)
    requires
        stack_ok(*old(evm)),
    ensures
        binop_post(*old(evm), *final(evm), Opcode::MOD, old(evm).pc as int),
{
    if evm.stack.len() < 2 {
        evm.status = ProgramExitStatus::Failure;
        return ;
    }
    let right = evm.stack.pop().unwrap();
    let left = evm.stack.pop().unwrap();
    let result = if right.is_zero() {
        Word::zero()
    } else {
        word_rem(&left, &right)
    };
    evm.stack.push(result).unwrap();
    proof {
        assert(final(evm).stack.data@.drop_last() =~= old(
            evm,
        ).stack.data@.drop_last().drop_last());
    }
}

/// SMOD: the remainder of signed truncated division, signed like the
/// dividend; a zero divisor yields zero.
pub fn smod(evm: &mut Evm)
    requires
        stack_ok(*old(evm)),
    ensures
        binop_post(*old(evm), *final(evm), Opcode::SMOD, old(evm).pc as int),
{
    if evm.stack.len() < 2 {
        evm.status = ProgramExitStatus::Failure;
        return ;
    }
    let right = evm.stack.pop().unwrap();
    let left = evm.stack.pop().unwrap();
    proof {
        crate::word::lemma_word_bound(right);
    }
    let result = if right.is_zero() {
        Word::zero()
    } else {
        word_smod(&left, &right)
    };
    evm.stack.push(result).unwrap();
    proof {
        assert(final(evm).stack.data@.drop_last() =~= old(
            evm,
        ).stack.data@.drop_last().drop_last());
    }
}

/// EXP: pop the base, then the exponent, push the power modulo 2^256.
pub fn exp(evm: &mut Evm)
    requires
        stack_ok(*old(evm)),
    ensures
        binop_post(*old(evm), *final(evm), Opcode::EXP, old(evm).pc as int),
{
    if evm.stack.len() < 2 {
        evm.status = ProgramExitStatus::Failure;
        return ;
    }
    let base = evm.stack.pop().unwrap();
    let exponent = evm.stack.pop().unwrap();
    let result = word_exp(&base, &exponent);
    evm.stack.push(result).unwrap();
    proof {
        assert(final(evm).stack.data@.drop_last() =~= old(
            evm,
        ).stack.data@.drop_last().drop_last());
    }
}

/// LT: pop the right operand, then the left, push 1 when `left < right`,
/// else 0, comparing unsigned.
pub fn lt(evm: &mut Evm)
    requires
        stack_ok(*old(evm)),
    ensures
        binop_post(*old(evm), *final(evm), Opcode::LT, old(evm).pc as int),
{
    if evm.stack.len() < 2 {
        evm.status = ProgramExitStatus::Failure;
        return ;
    }
    let right = evm.stack.pop().unwrap();
    let left = evm.stack.pop().unwrap();
    let result = if word_lt(&left, &right) {
        Word::one()
    } else {
        Word::zero()
    };
    evm.stack.push(result).unwrap();
    proof {
        assert(final(evm).stack.data@.drop_last() =~= old(
            evm,
        ).stack.data@.drop_last().drop_last());
    }
}

/// GT: pop the right operand, then the left, push 1 when `left > right`,
/// else 0, comparing unsigned.
pub fn gt(evm: &mut Evm)
    requires
        stack_ok(*old(evm)),
    ensures
        binop_post(*old(evm), *final(evm), Opcode::GT, old(evm).pc as int),
{
    if evm.stack.len() < 2 {
        evm.status = ProgramExitStatus::Failure;
        return ;
    }
    let right = evm.stack.pop().unwrap();
    let left = evm.stack.pop().unwrap();
    let result = if word_lt(&right, &left) {
        Word::one()
    } else {
        Word::zero()
    };
    evm.stack.push(result).unwrap();
    proof {
        assert(final(evm).stack.data@.drop_last() =~= old(
            evm,
        ).stack.data@.drop_last().drop_last());
    }
}

/// SLT: signed less-than on the two's-complement readings.
pub fn slt(evm: &mut Evm)
    requires
        stack_ok(*old(evm)),
    ensures
        binop_post(*old(evm), *final(evm), Opcode::SLT, old(evm).pc as int),
{
    if evm.stack.len() < 2 {
        evm.status = ProgramExitStatus::Failure;
        return ;
    }
    let right = evm.stack.pop().unwrap();
    let left = evm.stack.pop().unwrap();
    let result = if word_slt(&left, &right) {
        Word::one()
    } else {
        Word::zero()
    };
    evm.stack.push(result).unwrap();
    proof {
        assert(final(evm).stack.data@.drop_last() =~= old(
            evm,
        ).stack.data@.drop_last().drop_last());
    }
}

/// SGT: signed greater-than on the two's-complement readings.
pub fn sgt(evm: &mut Evm)
    requires
        stack_ok(*old(evm)),
    ensures
        binop_post(*old(evm), *final(evm), Opcode::SGT, old(evm).pc as int),
{
    if evm.stack.len() < 2 {
        evm.status = ProgramExitStatus::Failure;
        return ;
    }
    let right = evm.stack.pop().unwrap();
    let left = evm.stack.pop().unwrap();
    let result = if word_slt(&right, &left) {
        Word::one()
    } else {
        Word::zero()
    };
    evm.stack.push(result).unwrap();
    proof {
        assert(final(evm).stack.data@.drop_last() =~= old(
            evm,
        ).stack.data@.drop_last().drop_last());
    }
}

/// EQ: pop two words, push 1 when they are equal, else 0.
pub fn eq(evm: &mut Evm)
    requires
        stack_ok(*old(evm)),
    ensures
        binop_post(*old(evm), *final(evm), Opcode::EQ, old(evm).pc as int),
{
    if evm.stack.len() < 2 {
        evm.status = ProgramExitStatus::Failure;
        return ;
    }
    let right = evm.stack.pop().unwrap();
    let left = evm.stack.pop().unwrap();
    let result = if word_eq(&left, &right) {
        Word::one()
    } else {
        Word::zero()
    };
    evm.stack.push(result).unwrap();
    proof {
        assert(final(evm).stack.data@.drop_last() =~= old(
            evm,
        ).stack.data@.drop_last().drop_last());
    }
}

/// One limb of a bitwise operation's result.
pub open spec fn bit_val(op: Opcode, a: u64, b: u64) -> u64 {
    match op {
        Opcode::AND => a & b,
        Opcode::OR => a | b,
        Opcode::XOR => a ^ b,
        _ => 0,
    }
}

/// The effect of a bitwise two-operand operation: the two operands are
/// replaced by their limb-by-limb combination.
pub open spec fn bitop_post(pre: Evm, post: Evm, op: Opcode, pc2: int) -> bool {
    let s = pre.stack.data@;
    frame_unchanged(pre, post) && post.pc == pc2 && if s.len() >= 2 {
        let l = s[s.len() - 2];
        let r = s.last();
        &&& post.status == pre.status
        &&& post.stack.data@ == s.drop_last().drop_last().push(
            (Word {
                limb0: bit_val(op, l.limb0, r.limb0),
                limb1: bit_val(op, l.limb1, r.limb1),
                limb2: bit_val(op, l.limb2, r.limb2),
                limb3: bit_val(op, l.limb3, r.limb3),
            }),
        )
    } else {
        post.status == ProgramExitStatus::Failure && post.stack.data@ == s
    }
}

/// The effect of an operation that pops one word and pushes the value `v`
/// computed from it; with an empty stack it fails, changing nothing.
pub open spec fn unop_map_post(pre: Evm, post: Evm, v: nat, pc2: int) -> bool {
    let s = pre.stack.data@;
    frame_unchanged(pre, post) && post.pc == pc2 && if s.len() >= 1 {
        &&& post.status == pre.status
        &&& post.stack.data@.len() == s.len()
        &&& post.stack.data@.drop_last() == s.drop_last()
        &&& post.stack.data@.last().as_nat() == v
    } else {
        post.status == ProgramExitStatus::Failure && post.stack.data@ == s
    }
}

/// The value of `ADDMOD`: the wrapped sum of the first two operands reduced
/// by the third; a zero modulus yields zero.
pub open spec fn addmod_val(a: nat, b: nat, c: nat) -> nat {
    if c == 0 {
        0
    } else {
        add_val(a, b) % c
    }
}

/// The value of `MULMOD`: the wrapped product of the first two operands
/// reduced by the third; a zero modulus yields zero.
pub open spec fn mulmod_val(a: nat, b: nat, c: nat) -> nat {
    if c == 0 {
        0
    } else {
        mul_val(a, b) % c
    }
}

/// The effect of a three-operand reduction: the operands, popped as `a`,
/// `b` and the modulus `c`, are replaced by the value `v`.
pub open spec fn ternop_post(pre: Evm, post: Evm, v: nat, pc2: int) -> bool {
    let s = pre.stack.data@;
    frame_unchanged(pre, post) && post.pc == pc2 && if s.len() >= 3 {
        &&& post.status == pre.status
        &&& post.stack.data@.len() + 2 == s.len()
        &&& post.stack.data@.drop_last() == s.drop_last().drop_last().drop_last()
        &&& post.stack.data@.last().as_nat() == v
    } else {
        post.status == ProgramExitStatus::Failure && post.stack.data@ == s
    }
}

/// AND: pop two words, push their bitwise conjunction.
pub fn and(evm: &mut Evm)
    requires
        stack_ok(*old(evm)),
    ensures
        bitop_post(*old(evm), *final(evm), Opcode::AND, old(evm).pc as int),
{
    if evm.stack.len() < 2 {
        evm.status = ProgramExitStatus::Failure;
        return ;
    }
    let right = evm.stack.pop().unwrap();
    let left = evm.stack.pop().unwrap();
    let result = crate::word::word_and(&left, &right);
    evm.stack.push(result).unwrap();
}

/// OR: pop two words, push their bitwise disjunction.
pub fn or(evm: &mut Evm)
    requires
        stack_ok(*old(evm)),
    ensures
        bitop_post(*old(evm), *final(evm), Opcode::OR, old(evm).pc as int),
{
    if evm.stack.len() < 2 {
        evm.status = ProgramExitStatus::Failure;
        return ;
    }
    let right = evm.stack.pop().unwrap();
    let left = evm.stack.pop().unwrap();
    let result = crate::word::word_or(&left, &right);
    evm.stack.push(result).unwrap();
}

/// XOR: pop two words, push their bitwise exclusive or.
pub fn xor(evm: &mut Evm)
    requires
        stack_ok(*old(evm)),
    ensures
        bitop_post(*old(evm), *final(evm), Opcode::XOR, old(evm).pc as int),
{
    if evm.stack.len() < 2 {
        evm.status = ProgramExitStatus::Failure;
        return ;
    }
    let right = evm.stack.pop().unwrap();
    let left = evm.stack.pop().unwrap();
    let result = crate::word::word_xor(&left, &right);
    evm.stack.push(result).unwrap();
}

/// The effect of `NOT`: the top word is replaced by its limb-by-limb
/// complement; an empty stack fails unchanged.
pub open spec fn not_post(pre: Evm, post: Evm, pc2: int) -> bool {
    let s = pre.stack.data@;
    frame_unchanged(pre, post) && post.pc == pc2 && if s.len() >= 1 {
        post.status == pre.status && post.stack.data@ == s.drop_last().push(
            (Word {
                limb0: !s.last().limb0,
                limb1: !s.last().limb1,
                limb2: !s.last().limb2,
                limb3: !s.last().limb3,
            }),
        )
    } else {
        post.status == ProgramExitStatus::Failure && post.stack.data@ == s
    }
}

/// NOT: pop one word, push its bitwise complement.
pub fn not(evm: &mut Evm)
    requires
        stack_ok(*old(evm)),
    ensures
        not_post(*old(evm), *final(evm), old(evm).pc as int),
{
    if evm.stack.len() < 1 {
        evm.status = ProgramExitStatus::Failure;
        return ;
    }
    let a = evm.stack.pop().unwrap();
    let result = crate::word::word_not(&a);
    evm.stack.push(result).unwrap();
}

/// ISZERO: pop one word, push 1 when it is zero, else 0.
pub fn is_zero(evm: &mut Evm)
    requires
        stack_ok(*old(evm)),
    ensures
        unop_map_post(
            *old(evm),
            *final(evm),
            bool_val(old(evm).stack.data@.last().as_nat() == 0),
            old(evm).pc as int,
        ),
{
    if evm.stack.len() < 1 {
        evm.status = ProgramExitStatus::Failure;
        return ;
    }
    let a = evm.stack.pop().unwrap();
    let result = if a.is_zero() {
        Word::one()
    } else {
        Word::zero()
    };
    evm.stack.push(result).unwrap();
    proof {
        assert(final(evm).stack.data@.drop_last() =~= old(evm).stack.data@.drop_last());
    }
}

/// BYTE: pop the byte index, then the word; push the indexed big-endian
/// byte of the word, or zero when the index passes 31.
pub fn byte(evm: &mut Evm)
    requires
        stack_ok(*old(evm)),
    ensures
        binop_post(*old(evm), *final(evm), Opcode::BYTE, old(evm).pc as int),
{
    if evm.stack.len() < 2 {
        evm.status = ProgramExitStatus::Failure;
        return ;
    }
    let index = evm.stack.pop().unwrap();
    let value = evm.stack.pop().unwrap();
    let result = match index.to_usize_checked() {
        Some(i) => {
            if i <= 31 {
                let b = word_byte(&value, i);
                Word::from_u64(b as u64)
            } else {
                Word::zero()
            }
        },
        None => Word::zero(),
    };
    evm.stack.push(result).unwrap();
    proof {
        assert(final(evm).stack.data@.drop_last() =~= old(
            evm,
        ).stack.data@.drop_last().drop_last());
    }
}

/// SIGNEXTEND: pop the byte width, then the word; push the word truncated
/// to that many low bytes, or unchanged when the width reaches 32.
pub fn signextend(evm: &mut Evm)
    requires
        stack_ok(*old(evm)),
    ensures
        binop_post(*old(evm), *final(evm), Opcode::SIGNEXTEND, old(evm).pc as int),
{
    if evm.stack.len() < 2 {
        evm.status = ProgramExitStatus::Failure;
        return ;
    }
    let size = evm.stack.pop().unwrap();
    let integer = evm.stack.pop().unwrap();
    let result = match size.to_usize_checked() {
        Some(s) => {
            if s < 32 {
                word_truncate_bytes(&integer, s)
            } else {
                integer
            }
        },
        None => integer,
    };
    evm.stack.push(result).unwrap();
    proof {
        assert(final(evm).stack.data@.drop_last() =~= old(
            evm,
        ).stack.data@.drop_last().drop_last());
    }
}

/// ADDMOD: pop `a`, `b` and the modulus `c`; push `(a + b) % c`, the
/// reduction applied to the wrapped sum; a zero modulus yields zero.
pub fn addmod(evm: &mut Evm)
    requires
        stack_ok(*old(evm)),
    ensures
        ({
            let s = old(evm).stack.data@;
            ternop_post(
                *old(evm),
                *final(evm),
                addmod_val(
                    s.last().as_nat(),
                    s[s.len() - 2].as_nat(),
                    s[s.len() - 3].as_nat(),
                ),
                old(evm).pc as int,
            )
        }),
{
    if evm.stack.len() < 3 {
        evm.status = ProgramExitStatus::Failure;
        return ;
    }
    let a = evm.stack.pop().unwrap();
    let b = evm.stack.pop().unwrap();
    let c = evm.stack.pop().unwrap();
    let inner = word_add(&a, &b);
    let result = if c.is_zero() {
        Word::zero()
    } else {
        word_rem(&inner, &c)
    };
    evm.stack.push(result).unwrap();
    proof {
        assert(final(evm).stack.data@.drop_last() =~= old(
            evm,
        ).stack.data@.drop_last().drop_last().drop_last());
    }
}

/// MULMOD: pop `a`, `b` and the modulus `c`; push `(a * b) % c`, the
/// reduction applied to the wrapped product; a zero modulus yields zero.
pub fn mulmod(evm: &mut Evm)
    requires
        stack_ok(*old(evm)),
    ensures
        ({
            let s = old(evm).stack.data@;
            ternop_post(
                *old(evm),
                *final(evm),
                mulmod_val(
                    s.last().as_nat(),
                    s[s.len() - 2].as_nat(),
                    s[s.len() - 3].as_nat(),
                ),
                old(evm).pc as int,
            )
        }),
{
    if evm.stack.len() < 3 {
        evm.status = ProgramExitStatus::Failure;
        return ;
    }
    let a = evm.stack.pop().unwrap();
    let b = evm.stack.pop().unwrap();
    let c = evm.stack.pop().unwrap();
    let inner = word_mul(&a, &b);
    let result = if c.is_zero() {
        Word::zero()
    } else {
        word_rem(&inner, &c)
    };
    evm.stack.push(result).unwrap();
    proof {
        assert(final(evm).stack.data@.drop_last() =~= old(
            evm,
        ).stack.data@.drop_last().drop_last().drop_last());
    }
}

/// The effect of `POP`: the top word leaves the stack; an empty stack
/// fails unchanged.
pub open spec fn pop_post(pre: Evm, post: Evm, pc2: int) -> bool {
    let s = pre.stack.data@;
    frame_unchanged(pre, post) && post.pc == pc2 && if s.len() >= 1 {
        post.status == pre.status && post.stack.data@ == s.drop_last()
    } else {
        post.status == ProgramExitStatus::Failure && post.stack.data@ == s
    }
}

/// POP: discard the top of the stack; an empty stack fails.
pub fn pop(evm: &mut Evm)
    ensures
        pop_post(*old(evm), *final(evm), old(evm).pc as int),
{
    match evm.stack.pop() {
        Some(_) => {},
        None => {
            evm.status = ProgramExitStatus::Failure;
        },
    }
}

/// The 32 bytes of the transaction payload from `off` on, read big-endian
/// and zero-padded past the end of the payload.
pub open spec fn cdl_bytes(data: Seq<u8>, off: nat) -> Seq<u8> {
    Seq::new(
        32,
        |i: int|
            if off + i < data.len() {
                data[off + i]
            } else {
                0u8
            },
    )
}

/// Pushes one value, reporting a full stack as a failure.
fn push_value(evm: &mut Evm, value: Word)
    ensures
        env_unchanged(*old(evm), *final(evm)),
        final(evm).memory.data@ == old(evm).memory.data@,
        final(evm).storage.view_map() == old(evm).storage.view_map(),
        final(evm).pc == old(evm).pc,
        old(evm).stack.data@.len() < STACK_LIMIT ==> final(evm).status == old(evm).status
            && final(evm).stack.data@ == old(evm).stack.data@.push(value)
            && final(evm).stack.data@.drop_last() == old(evm).stack.data@,
        old(evm).stack.data@.len() >= STACK_LIMIT ==> final(evm).status
            == ProgramExitStatus::Failure && final(evm).stack.data@ == old(evm).stack.data@,
{
    match evm.stack.push(value) {
        Ok(()) => {
            proof {
                assert(final(evm).stack.data@.drop_last() =~= old(evm).stack.data@);
            }
        },
        Err(_) => {
            evm.status = ProgramExitStatus::Failure;
        },
    }
}

/// ADDRESS: push the executing account's address (the transaction's
/// recipient), left-padded with zero bytes to a full word.
pub fn address(evm: &mut Evm)
    ensures
        env_push_post(*old(evm), *final(evm), old(evm).tx.to.as_nat(), old(evm).pc as int),
{
    let value = evm.tx.to.to_word();
    push_value(evm, value);
}

/// ORIGIN: push the transaction sender's address, left-padded to a word.
pub fn origin(evm: &mut Evm)
    ensures
        env_push_post(*old(evm), *final(evm), old(evm).tx.from.as_nat(), old(evm).pc as int),
{
    let value = evm.tx.from.to_word();
    push_value(evm, value);
}

/// BALANCE: push the balance of the transaction sender's account; an
/// unknown account reads as zero.
pub fn balance(evm: &mut Evm)
    ensures
        env_push_post(
            *old(evm),
            *final(evm),
            old(evm).storage.account_at(old(evm).tx.from).0,
            old(evm).pc as int,
        ),
{
    let addr = evm.tx.from;
    let value = evm.storage.balance_of(addr);
    push_value(evm, value);
}

/// CALLVALUE: push the value transferred with the call.
pub fn call_value(evm: &mut Evm)
    ensures
        env_push_post(*old(evm), *final(evm), old(evm).tx.value.as_nat(), old(evm).pc as int),
{
    let value = evm.tx.value;
    push_value(evm, value);
}

/// GASPRICE: push the transaction's gas limit, this design's stand-in for
/// a price field the transaction record does not carry.
pub fn gas_price(evm: &mut Evm)
    ensures
        env_push_post(*old(evm), *final(evm), old(evm).tx.gas_limit.as_nat(), old(evm).pc as int),
{
    let value = evm.tx.gas_limit;
    push_value(evm, value);
}

/// COINBASE: push the block's coinbase address, left-padded to a word.
pub fn coin_base(evm: &mut Evm)
    ensures
        env_push_post(
            *old(evm),
            *final(evm),
            old(evm).block_env.coinbase.as_nat(),
            old(evm).pc as int,
        ),
{
    let value = evm.block_env.coinbase.to_word();
    push_value(evm, value);
}

/// TIMESTAMP: push the block's timestamp.
pub fn timestamp(evm: &mut Evm)
    ensures
        env_push_post(
            *old(evm),
            *final(evm),
            old(evm).block_env.timestamp.as_nat(),
            old(evm).pc as int,
        ),
{
    let value = evm.block_env.timestamp;
    push_value(evm, value);
}

/// NUMBER: push the block's number.
pub fn number(evm: &mut Evm)
    ensures
        env_push_post(
            *old(evm),
            *final(evm),
            old(evm).block_env.number.as_nat(),
            old(evm).pc as int,
        ),
{
    let value = evm.block_env.number;
    push_value(evm, value);
}

/// GASLIMIT: push the block's gas limit.
pub fn gas_limit(evm: &mut Evm)
    ensures
        env_push_post(
            *old(evm),
            *final(evm),
            old(evm).block_env.gas_limit.as_nat(),
            old(evm).pc as int,
        ),
{
    let value = evm.block_env.gas_limit;
    push_value(evm, value);
}

/// CHAINID: push the chain identifier.
pub fn chain_id(evm: &mut Evm)
    ensures
        env_push_post(
            *old(evm),
            *final(evm),
            old(evm).block_env.chain_id.as_nat(),
            old(evm).pc as int,
        ),
{
    let value = evm.block_env.chain_id;
    push_value(evm, value);
}

/// GAS: push the remaining gas, which without gas accounting is the
/// block's gas limit.
pub fn gas(evm: &mut Evm)
    ensures
        env_push_post(
            *old(evm),
            *final(evm),
            old(evm).block_env.gas_limit.as_nat(),
            old(evm).pc as int,
        ),
{
    let value = evm.block_env.gas_limit;
    push_value(evm, value);
}

/// PC: push the program counter of this instruction.
pub fn pc(evm: &mut Evm)
    ensures
        env_push_post(*old(evm), *final(evm), old(evm).pc as nat, old(evm).pc as int),
{
    let value = Word::from_u64(evm.pc as u64);
    push_value(evm, value);
}

/// MSIZE: push the current memory size in bytes.
pub fn m_size(evm: &mut Evm)
    ensures
        env_push_post(
            *old(evm),
            *final(evm),
            old(evm).memory.data@.len(),
            old(evm).pc as int,
        ),
{
    let value = Word::from_u64(evm.memory.data.len() as u64);
    push_value(evm, value);
}

/// PUSH0: push the zero word.
pub fn push_0(evm: &mut Evm)
    ensures
        env_push_post(*old(evm), *final(evm), 0, old(evm).pc as int),
{
    let value = Word::zero();
    push_value(evm, value);
}

/// CALLDATALOAD: pop an offset, push the 32 payload bytes from it on,
/// big-endian and zero-padded past the payload's end.
pub fn call_data_load(evm: &mut Evm)
    requires
        stack_ok(*old(evm)),
    ensures
        unop_map_post(
            *old(evm),
            *final(evm),
            bytes_val(cdl_bytes(old(evm).tx.data@, old(evm).stack.data@.last().as_nat())),
            old(evm).pc as int,
        ),
{
    if evm.stack.len() < 1 {
        evm.status = ProgramExitStatus::Failure;
        return ;
    }
    let offset = evm.stack.pop().unwrap();
    let n = evm.tx.data.len();
    let result = match offset.to_usize_checked() {
        Some(off) => {
            let mut bytes: Vec<u8> = Vec::new();
            let mut k: usize = 0;
            while k < 32
                invariant
                    k <= 32,
                    n == evm.tx.data@.len(),
                    bytes@.len() == k,
                    forall|i: int|
                        0 <= i < k ==> bytes@[i] == cdl_bytes(evm.tx.data@, off as nat)[i],
                decreases 32 - k,
            {
                let b = if off < n && k < n - off {
                    evm.tx.data[off + k]
                } else {
                    0
                };
                bytes.push(b);
                k = k + 1;
            }
            proof {
                assert(bytes@ =~= cdl_bytes(evm.tx.data@, off as nat));
            }
            crate::bytes::word_from_be_bytes(&bytes)
        },
        None => {
            proof {
                crate::bytes::lemma_bytes_val_zeros(
                    cdl_bytes(evm.tx.data@, offset.as_nat()),
                );
            }
            Word::zero()
        },
    };
    evm.stack.push(result).unwrap();
    proof {
        assert(final(evm).stack.data@.drop_last() =~= old(evm).stack.data@.drop_last());
    }
}

/// BLOCKHASH: pop a block number; push the environment's block hash when
/// the number does not pass the current block's, else zero.
pub fn block_hash(evm: &mut Evm)
    requires
        stack_ok(*old(evm)),
    ensures
        unop_map_post(
            *old(evm),
            *final(evm),
            (if old(evm).stack.data@.last().as_nat() > old(evm).block_env.number.as_nat() {
                0
            } else {
                old(evm).block_env.block_hash.as_nat()
            }),
            old(evm).pc as int,
        ),
{
    if evm.stack.len() < 1 {
        evm.status = ProgramExitStatus::Failure;
        return ;
    }
    let block_number = evm.stack.pop().unwrap();
    let current = evm.block_env.number;
    let result = if crate::word::word_lt(&current, &block_number) {
        Word::zero()
    } else {
        evm.block_env.block_hash
    };
    evm.stack.push(result).unwrap();
    proof {
        assert(final(evm).stack.data@.drop_last() =~= old(evm).stack.data@.drop_last());
    }
}

/// SLOAD: pop a storage key; push the value of that slot under the
/// executing account's address.  An unset slot reads as zero.
pub fn s_load(evm: &mut Evm)
    requires
        stack_ok(*old(evm)),
    ensures
        unop_map_post(
            *old(evm),
            *final(evm),
            old(evm).storage.slot_at(old(evm).tx.to, old(evm).stack.data@.last().as_nat()),
            old(evm).pc as int,
        ),
{
    if evm.stack.len() < 1 {
        evm.status = ProgramExitStatus::Failure;
        return ;
    }
    let key = evm.stack.pop().unwrap();
    let locator = evm.tx.to;
    let word = evm.storage.s_load(locator, key);
    evm.stack.push(word).unwrap();
    proof {
        assert(final(evm).stack.data@.drop_last() =~= old(evm).stack.data@.drop_last());
    }
}

/// The effect of `DUP(n)`: a copy of the value at depth `n` is pushed.
/// A stack shallower than `n`, or already full, fails unchanged.
pub open spec fn dup_post(pre: Evm, post: Evm, n: nat, pc2: int) -> bool {
    let s = pre.stack.data@;
    frame_unchanged(pre, post) && post.pc == pc2 && if n <= s.len() && s.len() < STACK_LIMIT {
        post.status == pre.status && post.stack.data@ == s.push(s[s.len() - n])
    } else {
        post.status == ProgramExitStatus::Failure && post.stack.data@ == s
    }
}

/// DUP(n): push a copy of the stack value at depth `n` (1 is the top).
pub fn dup_n(evm: &mut Evm, n: u8)
    requires
        1 <= n <= 16,
    ensures
        dup_post(*old(evm), *final(evm), n as nat, old(evm).pc as int),
{
    let value = match evm.stack.peek((n - 1) as usize) {
        Ok(w) => w,
        Err(_) => {
            evm.status = ProgramExitStatus::Failure;
            return ;
        },
    };
    push_value(evm, value);
}

/// The effect of `SWAP(n)`: the top of the stack and the value `n` below
/// it change places.  A stack without both fails unchanged.
pub open spec fn swap_post(pre: Evm, post: Evm, n: nat, pc2: int) -> bool {
    let s = pre.stack.data@;
    frame_unchanged(pre, post) && post.pc == pc2 && if n + 1 <= s.len() {
        post.status == pre.status && post.stack.data@ == s.update(
            s.len() - 1,
            s[s.len() - 1 - n],
        ).update(s.len() - 1 - n, s.last())
    } else {
        post.status == ProgramExitStatus::Failure && post.stack.data@ == s
    }
}

/// SWAP(n): exchange the top of the stack with the value `n` below it.
pub fn swap_n(evm: &mut Evm, n: u8)
    requires
        1 <= n <= 16,
    ensures
        swap_post(*old(evm), *final(evm), n as nat, old(evm).pc as int),
{
    match evm.stack.swap(n as usize) {
        Ok(()) => {},
        Err(_) => {
            evm.status = ProgramExitStatus::Failure;
        },
    }
}

/// The effect of `MSTORE`: the offset and the value leave the stack, the
/// memory window of 32 bytes at the offset takes the value's big-endian
/// bytes, growing memory with zero bytes up to the window's end.  An offset
/// past the ceiling fails with the operands consumed and memory unchanged.
pub open spec fn mstore_post(pre: Evm, post: Evm, pc2: int) -> bool {
    let s = pre.stack.data@;
    env_unchanged(pre, post) && post.storage.view_map() == pre.storage.view_map() && post.pc
        == pc2 && if s.len() >= 2 {
        let off = s.last().as_nat();
        let v = s[s.len() - 2];
        post.stack.data@ == s.drop_last().drop_last() && if off + 32
            <= crate::memory::MEMORY_LIMIT {
            let grown = crate::memory::grow_seq(pre.memory.data@, (off + 32) as int);
            &&& post.status == pre.status
            &&& post.memory.data@.len() == grown.len()
            &&& forall|i: int|
                0 <= i < grown.len() && !(off <= i < off + 32) ==> post.memory.data@[i]
                    == grown[i]
            &&& bytes_val(post.memory.data@.subrange(off as int, (off + 32) as int)) == v.as_nat()
        } else {
            post.status == ProgramExitStatus::Failure && post.memory.data@ == pre.memory.data@
        }
    } else {
        post.status == ProgramExitStatus::Failure && post.stack.data@ == s && post.memory.data@
            == pre.memory.data@
    }
}

/// MSTORE: pop an offset, then a value; store the value's 32 big-endian
/// bytes at the offset, growing memory as needed.
pub fn m_store(evm: &mut Evm)
    ensures
        mstore_post(*old(evm), *final(evm), old(evm).pc as int),
{
    if evm.stack.len() < 2 {
        evm.status = ProgramExitStatus::Failure;
        return ;
    }
    let offset = evm.stack.pop().unwrap();
    let value = evm.stack.pop().unwrap();
    proof {
        assert(evm.stack.data@ =~= old(evm).stack.data@.drop_last().drop_last());
    }
    match offset.to_usize_checked() {
        Some(o) => {
            match evm.memory.store_word(o, value) {
                Ok(()) => {},
                Err(_) => {
                    evm.status = ProgramExitStatus::Failure;
                },
            }
        },
        None => {
            evm.status = ProgramExitStatus::Failure;
        },
    }
}

/// MSTORE, under the name the dispatch of this design first used; the
/// semantics are those of `m_store`.
pub fn mstore(evm: &mut Evm)
    ensures
        mstore_post(*old(evm), *final(evm), old(evm).pc as int),
{
    m_store(evm);
}

/// The effect of `MLOAD`: the offset leaves the stack and the word read
/// from the 32-byte window at it, grown with zero bytes as needed, takes
/// its place.
pub open spec fn mload_post(pre: Evm, post: Evm, pc2: int) -> bool {
    let s = pre.stack.data@;
    env_unchanged(pre, post) && post.storage.view_map() == pre.storage.view_map() && post.pc
        == pc2 && if s.len() >= 1 {
        let off = s.last().as_nat();
        if off + 32 <= crate::memory::MEMORY_LIMIT {
            &&& post.status == pre.status
            &&& post.memory.data@ == crate::memory::grow_seq(pre.memory.data@, (off + 32) as int)
            &&& post.stack.data@.len() == s.len()
            &&& post.stack.data@.drop_last() == s.drop_last()
            &&& post.stack.data@.last().as_nat() == bytes_val(
                post.memory.data@.subrange(off as int, (off + 32) as int),
            )
        } else {
            post.status == ProgramExitStatus::Failure && post.stack.data@ == s.drop_last()
                && post.memory.data@ == pre.memory.data@
        }
    } else {
        post.status == ProgramExitStatus::Failure && post.stack.data@ == s && post.memory.data@
            == pre.memory.data@
    }
}

/// MLOAD: pop an offset, push the 32-byte big-endian word at it, growing
/// memory so a read past the end sees zero bytes.
pub fn m_load(evm: &mut Evm)
    requires
        stack_ok(*old(evm)),
    ensures
        mload_post(*old(evm), *final(evm), old(evm).pc as int),
{
    if evm.stack.len() < 1 {
        evm.status = ProgramExitStatus::Failure;
        return ;
    }
    let offset = evm.stack.pop().unwrap();
    match offset.to_usize_checked() {
        Some(o) => {
            match evm.memory.load_word(o) {
                Ok(w) => {
                    evm.stack.push(w).unwrap();
                    proof {
                        assert(final(evm).stack.data@.drop_last() =~= old(
                            evm,
                        ).stack.data@.drop_last());
                    }
                },
                Err(_) => {
                    evm.status = ProgramExitStatus::Failure;
                },
            }
        },
        None => {
            evm.status = ProgramExitStatus::Failure;
        },
    }
}

/// The effect of `MSTORE8`: the offset and the value leave the stack and
/// the single byte at the offset takes the value modulo 256, with growth
/// up to the offset.
pub open spec fn mstore8_post(pre: Evm, post: Evm, pc2: int) -> bool {
    let s = pre.stack.data@;
    env_unchanged(pre, post) && post.storage.view_map() == pre.storage.view_map() && post.pc
        == pc2 && if s.len() >= 2 {
        let off = s.last().as_nat();
        let v = s[s.len() - 2].as_nat();
        post.stack.data@ == s.drop_last().drop_last() && if off < crate::memory::MEMORY_LIMIT {
            let grown = crate::memory::grow_seq(pre.memory.data@, (off + 1) as int);
            &&& post.status == pre.status
            &&& post.memory.data@.len() == grown.len()
            &&& forall|i: int|
                0 <= i < grown.len() && i != off ==> post.memory.data@[i] == grown[i]
            &&& post.memory.data@[off as int] == v % 256
        } else {
            post.status == ProgramExitStatus::Failure && post.memory.data@ == pre.memory.data@
        }
    } else {
        post.status == ProgramExitStatus::Failure && post.stack.data@ == s && post.memory.data@
            == pre.memory.data@
    }
}

/// MSTORE8: pop an offset, then a value; store the value's least
/// significant byte at the offset, growing memory as needed.
pub fn m_store8(evm: &mut Evm)
    ensures
        mstore8_post(*old(evm), *final(evm), old(evm).pc as int),
{
    if evm.stack.len() < 2 {
        evm.status = ProgramExitStatus::Failure;
        return ;
    }
    let offset = evm.stack.pop().unwrap();
    let value = evm.stack.pop().unwrap();
    proof {
        assert(evm.stack.data@ =~= old(evm).stack.data@.drop_last().drop_last());
    }
    match offset.to_usize_checked() {
        Some(o) => {
            let b = crate::word::word_low_byte(&value);
            match evm.memory.store_byte(o, b) {
                Ok(()) => {},
                Err(_) => {
                    evm.status = ProgramExitStatus::Failure;
                },
            }
        },
        None => {
            evm.status = ProgramExitStatus::Failure;
        },
    }
}

/// The effect of `MCOPY`: the source offset, the length and the
/// destination leave the stack; the destination region takes the source
/// region's bytes as they stood after growth, a move that reads the source
/// before writing.
pub open spec fn mcopy_post(pre: Evm, post: Evm, pc2: int) -> bool {
    let s = pre.stack.data@;
    env_unchanged(pre, post) && post.storage.view_map() == pre.storage.view_map() && post.pc
        == pc2 && if s.len() >= 3 {
        let src = s.last().as_nat();
        let len = s[s.len() - 2].as_nat();
        let dst = s[s.len() - 3].as_nat();
        post.stack.data@ == s.drop_last().drop_last().drop_last() && if src + len
            <= crate::memory::MEMORY_LIMIT && dst + len <= crate::memory::MEMORY_LIMIT {
            let grown = crate::memory::grow_seq(
                pre.memory.data@,
                if src + len > dst + len {
                    (src + len) as int
                } else {
                    (dst + len) as int
                },
            );
            &&& post.status == pre.status
            &&& post.memory.data@.len() == grown.len()
            &&& forall|i: int|
                0 <= i < grown.len() && !(dst <= i < dst + len) ==> #[trigger] post.memory.data@[i]
                    == grown[i]
            &&& forall|i: int|
                0 <= i < len ==> #[trigger] post.memory.data@[dst + i] == grown[src + i]
        } else {
            post.status == ProgramExitStatus::Failure && post.memory.data@ == pre.memory.data@
        }
    } else {
        post.status == ProgramExitStatus::Failure && post.stack.data@ == s && post.memory.data@
            == pre.memory.data@
    }
}

/// MCOPY: pop the source offset, the length and the destination; copy the
/// region, growing memory so both regions exist and handling overlap as a
/// move.
pub fn m_copy(evm: &mut Evm)
    ensures
        mcopy_post(*old(evm), *final(evm), old(evm).pc as int),
{
    if evm.stack.len() < 3 {
        evm.status = ProgramExitStatus::Failure;
        return ;
    }
    let offset = evm.stack.pop().unwrap();
    let length = evm.stack.pop().unwrap();
    let dest = evm.stack.pop().unwrap();
    proof {
        assert(evm.stack.data@ =~= old(evm).stack.data@.drop_last().drop_last().drop_last());
    }
    let o = match offset.to_usize_checked() {
        Some(o) => o,
        None => {
            evm.status = ProgramExitStatus::Failure;
            return ;
        },
    };
    let l = match length.to_usize_checked() {
        Some(l) => l,
        None => {
            evm.status = ProgramExitStatus::Failure;
            return ;
        },
    };
    let d = match dest.to_usize_checked() {
        Some(d) => d,
        None => {
            evm.status = ProgramExitStatus::Failure;
            return ;
        },
    };
    match evm.memory.copy(o, d, l) {
        Ok(()) => {
            proof {
                let pre = *old(evm);
                let s = pre.stack.data@;
                let src = s.last().as_nat();
                let len = s[s.len() - 2].as_nat();
                let dst = s[s.len() - 3].as_nat();
                assert(src + len <= crate::memory::MEMORY_LIMIT);
                assert(dst + len <= crate::memory::MEMORY_LIMIT);
                let grown = crate::memory::grow_seq(
                    pre.memory.data@,
                    if src + len > dst + len {
                        (src + len) as int
                    } else {
                        (dst + len) as int
                    },
                );
                let gm = crate::memory::grow_seq(
                    pre.memory.data@,
                    if o + l > d + l {
                        o + l
                    } else {
                        d + l
                    },
                );
                assert(gm == grown);
                assert(evm.memory.data@.len() == grown.len());
                assert(forall|i: int|
                    0 <= i < grown.len() && !(dst <= i < dst + len) ==> #[trigger] evm.memory.data@[i]
                        == grown[i]);
                assert(forall|i: int|
                    0 <= i < len ==> #[trigger] evm.memory.data@[dst + i] == grown[src + i]);
            }
        },
        Err(_) => {
            evm.status = ProgramExitStatus::Failure;
        },
    }
}

/// The effect of `SSTORE`: the key and the value leave the stack and the
/// slot under the executing account's address takes the value; the account
/// record is created on first write and every other slot, balance and code
/// is kept.
pub open spec fn sstore_post(pre: Evm, post: Evm, pc2: int) -> bool {
    let s = pre.stack.data@;
    env_unchanged(pre, post) && post.memory.data@ == pre.memory.data@ && post.pc == pc2 && if s.len()
        >= 2 {
        let key = s.last();
        let value = s[s.len() - 2];
        &&& post.status == pre.status
        &&& post.stack.data@ == s.drop_last().drop_last()
        &&& post.storage.view_map() == pre.storage.view_map().insert(
            pre.tx.to,
            (
                pre.storage.account_at(pre.tx.to).0,
                pre.storage.account_at(pre.tx.to).1,
                pre.storage.account_at(pre.tx.to).2.insert(key.as_nat(), value.as_nat()),
            ),
        )
    } else {
        post.status == ProgramExitStatus::Failure && post.stack.data@ == s
            && post.storage.view_map() == pre.storage.view_map()
    }
}

/// SSTORE: pop a key, then a value; store the value into that slot of the
/// executing account's persistent storage.
pub fn s_store(evm: &mut Evm)
    ensures
        sstore_post(*old(evm), *final(evm), old(evm).pc as int),
{
    if evm.stack.len() < 2 {
        evm.status = ProgramExitStatus::Failure;
        return ;
    }
    let offset = evm.stack.pop().unwrap();
    let value = evm.stack.pop().unwrap();
    proof {
        assert(evm.stack.data@ =~= old(evm).stack.data@.drop_last().drop_last());
    }
    let locator = evm.tx.to;
    evm.storage.s_store(locator, offset, value);
}

/// The effect of `JUMP`: the target leaves the stack; when it is a valid
/// jump destination under the ceiling the program counter moves there,
/// else the run fails with the counter unchanged.
pub open spec fn jump_post(pre: Evm, post: Evm) -> bool {
    let s = pre.stack.data@;
    frame_unchanged(pre, post) && if s.len() >= 1 {
        let t = s.last().as_nat();
        post.stack.data@ == s.drop_last() && if t <= crate::memory::MEMORY_LIMIT
            && crate::opcodes::valid_jump_dest(pre.code.data@, t as int) {
            post.status == pre.status && post.pc == t
        } else {
            post.status == ProgramExitStatus::Failure && post.pc == pre.pc
        }
    } else {
        post.status == ProgramExitStatus::Failure && post.stack.data@ == s && post.pc == pre.pc
    }
}

/// JUMP: pop a target and move the program counter there, but only to a
/// byte that the instruction scan classifies as `JUMPDEST`; a data byte of
/// a push, or any other byte, fails the run.
pub fn jump(evm: &mut Evm)
    ensures
        jump_post(*old(evm), *final(evm)),
{
    if evm.stack.len() < 1 {
        evm.status = ProgramExitStatus::Failure;
        return ;
    }
    let target = evm.stack.pop().unwrap();
    match crate::opcodes::resolve_jump_target(&evm.code.data, &target) {
        Ok(t) => {
            evm.pc = t;
        },
        Err(_) => {
            evm.status = ProgramExitStatus::Failure;
        },
    }
}

/// The effect of `JUMPI`: the target and the condition leave the stack; a
/// nonzero condition jumps exactly as `JUMP` does, a zero condition steps
/// to the next instruction.
pub open spec fn jumpi_post(pre: Evm, post: Evm) -> bool {
    let s = pre.stack.data@;
    frame_unchanged(pre, post) && if s.len() >= 2 {
        let t = s.last().as_nat();
        let cond = s[s.len() - 2].as_nat();
        post.stack.data@ == s.drop_last().drop_last() && if cond != 0 {
            if t <= crate::memory::MEMORY_LIMIT && crate::opcodes::valid_jump_dest(
                pre.code.data@,
                t as int,
            ) {
                post.status == pre.status && post.pc == t
            } else {
                post.status == ProgramExitStatus::Failure && post.pc == pre.pc
            }
        } else {
            post.status == pre.status && post.pc == pre.pc + 1
        }
    } else {
        post.status == ProgramExitStatus::Failure && post.stack.data@ == s && post.pc == pre.pc
    }
}

/// JUMPI: pop a target and a condition; jump to the target when the
/// condition is nonzero, under the same validity rule as `JUMP`, else fall
/// through to the next instruction.
pub fn jumpi(evm: &mut Evm)
    requires
        old(evm).pc < usize::MAX,
    ensures
        jumpi_post(*old(evm), *final(evm)),
{
    if evm.stack.len() < 2 {
        evm.status = ProgramExitStatus::Failure;
        return ;
    }
    let target = evm.stack.pop().unwrap();
    let condition = evm.stack.pop().unwrap();
    proof {
        assert(evm.stack.data@ =~= old(evm).stack.data@.drop_last().drop_last());
    }
    if condition.is_zero() {
        evm.pc = evm.pc + 1;
        return ;
    }
    match crate::opcodes::resolve_jump_target(&evm.code.data, &target) {
        Ok(t) => {
            evm.pc = t;
        },
        Err(_) => {
            evm.status = ProgramExitStatus::Failure;
        },
    }
}

/// The effect of an instruction that only marks a place: nothing changes
/// but the program counter's ordinary advance.
pub open spec fn noop_post(pre: Evm, post: Evm, pc2: int) -> bool {
    frame_unchanged(pre, post) && post.pc == pc2 && post.stack.data@ == pre.stack.data@
        && post.status == pre.status
}

/// JUMPDEST: a legal landing site; the instruction itself changes nothing.
pub fn jump_dest(evm: &mut Evm)
    ensures
        noop_post(*old(evm), *final(evm), old(evm).pc as int),
{
}

/// The immediate bytes of a `PUSH(n)` at `pc`: the `n` code bytes after
/// the opcode byte, a read past the end of memory seeing zero bytes.
pub open spec fn push_immediates(mem: Seq<u8>, pc: nat, n: nat) -> Seq<u8> {
    Seq::new(n, |i: int| crate::memory::byte_at(mem, pc + 1 + i))
}

/// The effect of `PUSH(n)`: the word read big-endian from the `n`
/// immediate bytes is pushed and the program counter skips the opcode and
/// its immediates.  An instruction standing past the memory ceiling, or a
/// full stack, fails with nothing else changed.
pub open spec fn push_op_post(pre: Evm, post: Evm, n: nat) -> bool {
    let s = pre.stack.data@;
    frame_unchanged(pre, post) && if pre.pc + 1 + n > crate::memory::MEMORY_LIMIT {
        post.status == ProgramExitStatus::Failure && post.stack.data@ == s && post.pc == pre.pc
    } else if s.len() < STACK_LIMIT {
        &&& post.status == pre.status
        &&& post.pc == pre.pc + 1 + n
        &&& post.stack.data@.len() == s.len() + 1
        &&& post.stack.data@.drop_last() == s
        &&& post.stack.data@.last().as_nat() == bytes_val(
            push_immediates(pre.code.data@, pre.pc as nat, n),
        )
    } else {
        post.status == ProgramExitStatus::Failure && post.stack.data@ == s && post.pc == pre.pc
    }
}

/// PUSH(n): read the `n` immediate bytes after the opcode, zero-padded
/// past the end of memory, push them as a left-padded word, and step the
/// program counter past the immediates.
pub fn push_n(evm: &mut Evm, n: u8)
    requires
        1 <= n <= 32,
    ensures
        push_op_post(*old(evm), *final(evm), n as nat),
{
    let pc0 = evm.pc;
    let n_us = n as usize;
    if pc0 > crate::memory::MEMORY_LIMIT - 1 - n_us {
        evm.status = ProgramExitStatus::Failure;
        return ;
    }
    let mut bytes: Vec<u8> = Vec::new();
    let mut k: usize = 0;
    while k < n_us
        invariant
            k <= n_us,
            n_us <= 32,
            pc0 + 1 + n_us <= crate::memory::MEMORY_LIMIT,
            bytes@.len() == k,
            evm == old(evm),
            forall|i: int|
                0 <= i < k ==> bytes@[i] == crate::memory::byte_at(evm.code.data@, pc0 + 1 + i),
        decreases n_us - k,
    {
        let b = evm.code.load_byte(pc0 + 1 + k);
        bytes.push(b);
        k = k + 1;
    }
    let mut padded: Vec<u8> = Vec::new();
    let mut j: usize = 0;
    while j < 32 - n_us
        invariant
            j <= 32 - n_us,
            n_us <= 32,
            padded@.len() == j,
            forall|i: int| 0 <= i < j ==> padded@[i] == 0u8,
            evm == old(evm),
            bytes@.len() == n_us,
        decreases 32 - n_us - j,
    {
        padded.push(0);
        j = j + 1;
    }
    let ghost zeros = padded@;
    let mut t: usize = 0;
    while t < n_us
        invariant
            t <= n_us,
            n_us <= 32,
            bytes@.len() == n_us,
            padded@.len() == zeros.len() + t,
            zeros.len() == 32 - n_us,
            forall|i: int| 0 <= i < zeros.len() ==> zeros[i] == 0u8,
            padded@.subrange(0, zeros.len() as int) == zeros,
            forall|i: int| 0 <= i < t ==> padded@[zeros.len() + i] == bytes@[i],
            evm == old(evm),
        decreases n_us - t,
    {
        let b = bytes[t];
        padded.push(b);
        proof {
            assert(padded@.subrange(0, zeros.len() as int) =~= zeros);
        }
        t = t + 1;
    }
    let w = crate::bytes::word_from_be_bytes(&padded);
    proof {
        assert(padded@ =~= zeros + padded@.subrange(zeros.len() as int, padded@.len() as int));
        assert(padded@.subrange(zeros.len() as int, padded@.len() as int) =~= bytes@);
        crate::bytes::lemma_bytes_val_zeros(zeros);
        crate::bytes::lemma_bytes_val_concat(zeros, bytes@);
        assert(bytes@ =~= push_immediates(evm.code.data@, pc0 as nat, n as nat));
    }
    match evm.stack.push(w) {
        Ok(()) => {
            proof {
                assert(evm.stack.data@.drop_last() =~= old(evm).stack.data@);
            }
            evm.pc = pc0 + 1 + n_us;
        },
        Err(_) => {
            evm.status = ProgramExitStatus::Failure;
        },
    }
}

} // verus!
