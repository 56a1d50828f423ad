use vstd::prelude::*;

verus! {

/// The byte that marks a legal landing site for `JUMP` and `JUMPI`.
pub const JUMPDEST_BYTE: u8 = 0x5b;

/// One decoded instruction.  The immediate-carrying families keep their
/// width as a payload: `PUSH(n)` reads `n` immediate bytes, `DUP(n)` and
/// `SWAP(n)` act at stack depth `n`.
#[derive(Clone, Copy, Debug, PartialEq, Eq, Structural)]
pub enum Opcode {
    STOP,
    ADD,
    MUL,
    SUB,
    DIV,
    SDIV,
    MOD,
    SMOD,
    ADDMOD,
    MULMOD,
    EXP,
    SIGNEXTEND,
    LT,
    GT,
    SLT,
    SGT,
    EQ,
    ISZERO,
    AND,
    OR,
    XOR,
    NOT,
    BYTE,
    ADDRESS,
    BALANCE,
    ORIGIN,
    CALLVALUE,
    CALLDATALOAD,
    GASPRICE,
    BLOCKHASH,
    COINBASE,
    TIMESTAMP,
    NUMBER,
    GASLIMIT,
    CHAINID,
    POP,
    MLOAD,
    MSTORE,
    MSTORE8,
    SLOAD,
    SSTORE,
    JUMP,
    JUMPI,
    PC,
    MSIZE,
    GAS,
    JUMPDEST,
    MCOPY,
    PUSH0,
    PUSH(u8),
    DUP(u8),
    SWAP(u8),
}

/// The total decoding of one code byte: every byte value maps either to an
/// instruction or to `None`, the trap for undefined opcodes.
pub open spec fn decode(b: u8) -> Option<Opcode> {
    if b == 0x00 {
        Some(Opcode::STOP)
    } else if b == 0x01 {
        Some(Opcode::ADD)
    } else if b == 0x02 {
        Some(Opcode::MUL)
    } else if b == 0x03 {
        Some(Opcode::SUB)
    } else if b == 0x04 {
        Some(Opcode::DIV)
    } else if b == 0x05 {
        Some(Opcode::SDIV)
    } else if b == 0x06 {
        Some(Opcode::MOD)
    } else if b == 0x07 {
        Some(Opcode::SMOD)
    } else if b == 0x08 {
        Some(Opcode::ADDMOD)
    } else if b == 0x09 {
        Some(Opcode::MULMOD)
    } else if b == 0x0a {
        Some(Opcode::EXP)
    } else if b == 0x0b {
        Some(Opcode::SIGNEXTEND)
    } else if b == 0x10 {
        Some(Opcode::LT)
    } else if b == 0x11 {
        Some(Opcode::GT)
    } else if b == 0x12 {
        Some(Opcode::SLT)
    } else if b == 0x13 {
        Some(Opcode::SGT)
    } else if b == 0x14 {
        Some(Opcode::EQ)
    } else if b == 0x15 {
        Some(Opcode::ISZERO)
    } else if b == 0x16 {
        Some(Opcode::AND)
    } else if b == 0x17 {
        Some(Opcode::OR)
    } else if b == 0x18 {
        Some(Opcode::XOR)
    } else if b == 0x19 {
        Some(Opcode::NOT)
    } else if b == 0x1a {
        Some(Opcode::BYTE)
    } else if b == 0x30 {
        Some(Opcode::ADDRESS)
    } else if b == 0x31 {
        Some(Opcode::BALANCE)
    } else if b == 0x32 {
        Some(Opcode::ORIGIN)
    } else if b == 0x34 {
        Some(Opcode::CALLVALUE)
    } else if b == 0x35 {
        Some(Opcode::CALLDATALOAD)
    } else if b == 0x3a {
        Some(Opcode::GASPRICE)
    } else if b == 0x40 {
        Some(Opcode::BLOCKHASH)
    } else if b == 0x41 {
        Some(Opcode::COINBASE)
    } else if b == 0x42 {
        Some(Opcode::TIMESTAMP)
    } else if b == 0x43 {
        Some(Opcode::NUMBER)
    } else if b == 0x45 {
        Some(Opcode::GASLIMIT)
    } else if b == 0x46 {
        Some(Opcode::CHAINID)
    } else if b == 0x50 {
        Some(Opcode::POP)
    } else if b == 0x51 {
        Some(Opcode::MLOAD)
    } else if b == 0x52 {
        Some(Opcode::MSTORE)
    } else if b == 0x53 {
        Some(Opcode::MSTORE8)
    } else if b == 0x54 {
        Some(Opcode::SLOAD)
    } else if b == 0x55 {
        Some(Opcode::SSTORE)
    } else if b == 0x56 {
        Some(Opcode::JUMP)
    } else if b == 0x57 {
        Some(Opcode::JUMPI)
    } else if b == 0x58 {
        Some(Opcode::PC)
    } else if b == 0x59 {
        Some(Opcode::MSIZE)
    } else if b == 0x5a {
        Some(Opcode::GAS)
    } else if b == 0x5b {
        Some(Opcode::JUMPDEST)
    } else if b == 0x5e {
        Some(Opcode::MCOPY)
    } else if b == 0x5f {
        Some(Opcode::PUSH0)
    } else if 0x60 <= b && b <= 0x7f {
        Some(Opcode::PUSH((b - 0x5f) as u8))
    } else if 0x80 <= b && b <= 0x8f {
        Some(Opcode::DUP((b - 0x7f) as u8))
    } else if 0x90 <= b && b <= 0x9f {
        Some(Opcode::SWAP((b - 0x8f) as u8))
    } else {
        None
    }
}

impl Opcode {
    /// Decodes a raw code byte.  `None` stands for an undefined opcode,
    /// which the interpreter turns into a failure, never a silent no-op.
    pub fn from_u8(b: u8) -> (r: Option<Opcode>)
        ensures
            r == decode(b),
    {
        if b == 0x00 {
            Some(Opcode::STOP)
        } else if b == 0x01 {
            Some(Opcode::ADD)
        } else if b == 0x02 {
            Some(Opcode::MUL)
        } else if b == 0x03 {
            Some(Opcode::SUB)
        } else if b == 0x04 {
            Some(Opcode::DIV)
        } else if b == 0x05 {
            Some(Opcode::SDIV)
        } else if b == 0x06 {
            Some(Opcode::MOD)
        } else if b == 0x07 {
            Some(Opcode::SMOD)
        } else if b == 0x08 {
            Some(Opcode::ADDMOD)
        } else if b == 0x09 {
            Some(Opcode::MULMOD)
        } else if b == 0x0a {
            Some(Opcode::EXP)
        } else if b == 0x0b {
            Some(Opcode::SIGNEXTEND)
        } else if b == 0x10 {
            Some(Opcode::LT)
        } else if b == 0x11 {
            Some(Opcode::GT)
        } else if b == 0x12 {
            Some(Opcode::SLT)
        } else if b == 0x13 {
            Some(Opcode::SGT)
        } else if b == 0x14 {
            Some(Opcode::EQ)
        } else if b == 0x15 {
            Some(Opcode::ISZERO)
        } else if b == 0x16 {
            Some(Opcode::AND)
        } else if b == 0x17 {
            Some(Opcode::OR)
        } else if b == 0x18 {
            Some(Opcode::XOR)
        } else if b == 0x19 {
            Some(Opcode::NOT)
        } else if b == 0x1a {
            Some(Opcode::BYTE)
        } else if b == 0x30 {
            Some(Opcode::ADDRESS)
        } else if b == 0x31 {
            Some(Opcode::BALANCE)
        } else if b == 0x32 {
            Some(Opcode::ORIGIN)
        } else if b == 0x34 {
            Some(Opcode::CALLVALUE)
        } else if b == 0x35 {
            Some(Opcode::CALLDATALOAD)
        } else if b == 0x3a {
            Some(Opcode::GASPRICE)
        } else if b == 0x40 {
            Some(Opcode::BLOCKHASH)
        } else if b == 0x41 {
            Some(Opcode::COINBASE)
        } else if b == 0x42 {
            Some(Opcode::TIMESTAMP)
        } else if b == 0x43 {
            Some(Opcode::NUMBER)
        } else if b == 0x45 {
            Some(Opcode::GASLIMIT)
        } else if b == 0x46 {
            Some(Opcode::CHAINID)
        } else if b == 0x50 {
            Some(Opcode::POP)
        } else if b == 0x51 {
            Some(Opcode::MLOAD)
        } else if b == 0x52 {
            Some(Opcode::MSTORE)
        } else if b == 0x53 {
            Some(Opcode::MSTORE8)
        } else if b == 0x54 {
            Some(Opcode::SLOAD)
        } else if b == 0x55 {
            Some(Opcode::SSTORE)
        } else if b == 0x56 {
            Some(Opcode::JUMP)
        } else if b == 0x57 {
            Some(Opcode::JUMPI)
        } else if b == 0x58 {
            Some(Opcode::PC)
        } else if b == 0x59 {
            Some(Opcode::MSIZE)
        } else if b == 0x5a {
            Some(Opcode::GAS)
        } else if b == 0x5b {
            Some(Opcode::JUMPDEST)
        } else if b == 0x5e {
            Some(Opcode::MCOPY)
        } else if b == 0x5f {
            Some(Opcode::PUSH0)
        } else if 0x60 <= b && b <= 0x7f {
            Some(Opcode::PUSH(b - 0x5f))
        } else if 0x80 <= b && b <= 0x8f {
            Some(Opcode::DUP(b - 0x7f))
        } else if 0x90 <= b && b <= 0x9f {
            Some(Opcode::SWAP(b - 0x8f))
        } else {
            None
        }
    }
}

/// The number of immediate bytes that follow an instruction's opcode byte:
/// `PUSH(n)` carries `n`, every other instruction none.
pub open spec fn push_width(b: u8) -> nat {
    if 0x60 <= b && b <= 0x7f {
        (b - 0x5f) as nat
    } else {
        0
    }
}

/// Whether `target` is a valid jump destination of the code when scanned
/// from `i`: the scan advances one instruction at a time, stepping over
/// immediate bytes, so a data byte of a push can never be landed on, even
/// if its value equals the `JUMPDEST` byte.
pub open spec fn valid_dest_from(code: Seq<u8>, i: int, target: int) -> bool
    decreases target - i,
{
    if i > target || target >= code.len() || i < 0 {
        false
    } else if i == target {
        code[i] == JUMPDEST_BYTE
    } else if i + 1 + push_width(code[i]) > target {
        false
    } else {
        valid_dest_from(code, i + 1 + push_width(code[i]), target)
    }
}

/// Whether `target` is a byte of the code that an instruction scan from the
/// start reaches, and that holds the `JUMPDEST` opcode.
pub open spec fn valid_jump_dest(code: Seq<u8>, target: int) -> bool {
    valid_dest_from(code, 0, target)
}

/// Whether the instruction scan of the code, started at `i`, lands on
/// `j`: the positions the scan visits are exactly the instruction starts.
pub open spec fn scan_hits(code: Seq<u8>, i: int, j: int) -> bool
    decreases j - i,
{
    if i == j {
        true
    } else if i > j {
        false
    } else if i + 1 + push_width(code[i]) > j {
        false
    } else {
        scan_hits(code, i + 1 + push_width(code[i]), j)
    }
}

/// Along one scan path, a byte strictly inside the immediates of a push
/// instruction is never landed on.
proof fn lemma_scan_skips_push_data(code: Seq<u8>, s: int, i: int, target: int)
    requires
        0 <= s,
        scan_hits(code, s, i),
        i < target,
        target <= i + push_width(code[i]),
    ensures
        !valid_dest_from(code, s, target),
    decreases i - s,
{
    if s == i {
    } else {
        lemma_scan_skips_push_data(code, s + 1 + push_width(code[s]), i, target);
    }
}

/// Jump validity law: a byte that is a data byte of a preceding push
/// instruction — one the instruction scan from the start of the code
/// reaches at `i`, whose immediates cover `target` — is not a valid jump
/// destination, even if that byte's value equals the `JUMPDEST` opcode;
/// `JUMP` and `JUMPI` to it therefore fail.
pub proof fn lemma_push_data_not_jump_dest(code: Seq<u8>, i: int, target: int)
    requires
        0 <= i,
        scan_hits(code, 0, i),
        i < target,
        target <= i + push_width(code[i]),
    ensures
        !valid_jump_dest(code, target),
{
    lemma_scan_skips_push_data(code, 0, i, target);
}

/// Resolves a jump target word to a program-counter value: the target must
/// fit under the memory ceiling and be a valid jump destination of the
/// code.  Anything else is refused as `InvalidJumpDestination`, the failure
/// that `JUMP` and `JUMPI` report through the machine's status.
pub fn resolve_jump_target(code: &Vec<u8>, target: &crate::word::Word) -> (r: Result<
    usize,
    crate::errors::EvmErrors,
>)
    ensures
        match r {
            Ok(t) => t == target.as_nat() && t <= crate::memory::MEMORY_LIMIT && valid_jump_dest(
                code@,
                t as int,
            ),
            Err(e) => e == crate::errors::EvmErrors::InvalidJumpDestination && !(target.as_nat()
                <= crate::memory::MEMORY_LIMIT && valid_jump_dest(
                code@,
                target.as_nat() as int,
            )),
        },
{
    match target.to_usize_checked() {
        Some(t) => {
            if t <= crate::memory::MEMORY_LIMIT && is_valid_jump_dest(code, t) {
                Ok(t)
            } else {
                Err(crate::errors::EvmErrors::InvalidJumpDestination)
            }
        },
        None => Err(crate::errors::EvmErrors::InvalidJumpDestination),
    }
}

/// Decides jump-destination validity by the instruction scan.
pub fn is_valid_jump_dest(code: &Vec<u8>, target: usize) -> (r: bool)
    requires
        target + 33 <= usize::MAX,
    ensures
        r == valid_jump_dest(code@, target as int),
{
    let n = code.len();
    if target >= n {
        return false;
    }
    let mut i: usize = 0;
    while i < target
        invariant
            target < n,
            n == code@.len(),
            target + 33 <= usize::MAX,
            i <= target + 33,
            valid_jump_dest(code@, target as int) == valid_dest_from(code@, i as int, target as int),
        decreases
                (if i <= target {
                    (target - i) as int
                } else {
                    0
                }),
    {
        let b = code[i];
        let w: usize = if 0x60 <= b && b <= 0x7f {
            (b - 0x5f) as usize
        } else {
            0
        };
        i = i + 1 + w;
    }
    if i == target {
        code[target] == JUMPDEST_BYTE
    } else {
        false
    }
}

} // verus!
