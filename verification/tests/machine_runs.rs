use evm_core::errors::EvmErrors;
use evm_core::evm_types::{Address, BlockEnv, Transaction};
use evm_core::memory::Memory;
use evm_core::stack::Stack;
use evm_core::storage::{EvmAccount, EvmStorage};
use evm_core::word::Word;
use evm_core::{Evm, ProgramExitStatus};

fn w(n: u64) -> Word {
    Word::from_u64(n)
}

/// A machine in contract-creation mode: the code bytes stand in the
/// transaction payload and the zero recipient marks creation.
fn creation_evm(code: Vec<u8>) -> Evm {
    let tx = Transaction {
        from: Address::from_u64(1),
        to: Address::zero(),
        value: Word::zero(),
        nonce: Word::zero(),
        data: code,
        gas_limit: w(100000),
    };
    Evm::new(
        BlockEnv::default(),
        tx,
        Memory::new(),
        Stack::default(),
        EvmStorage::default(),
    )
}

/// Seeds the code region and drives the loop to completion.
fn run_creation(code: Vec<u8>) -> Evm {
    let mut evm = creation_evm(code);
    evm.execute().unwrap();
    evm.run(10_000);
    evm
}

#[test]
fn scenario_add_store_load() {
    // PUSH1 6; PUSH1 7; ADD; PUSH1 0; MSTORE; PUSH1 0; MLOAD; STOP
    let mut evm = run_creation(vec![
        0x60, 0x06, 0x60, 0x07, 0x01, 0x60, 0x00, 0x52, 0x60, 0x00, 0x51, 0x00,
    ]);
    assert_eq!(evm.status, ProgramExitStatus::Success);
    assert_eq!(evm.stack.pop(), Some(w(13)));
}

#[test]
fn scenario_division_by_zero_yields_zero() {
    // PUSH1 10; PUSH1 0; DIV; STOP — the divisor is zero, no failure.
    let mut evm = run_creation(vec![0x60, 0x0a, 0x60, 0x00, 0x04, 0x00]);
    assert_eq!(evm.status, ProgramExitStatus::Success);
    assert_eq!(evm.stack.pop(), Some(w(0)));
}

#[test]
fn scenario_running_off_code_end_halts_in_success() {
    // PUSH1 5 with no STOP: falling off the end of code is the implicit
    // stop, and this design halts in success.
    let mut evm = run_creation(vec![0x60, 0x05]);
    assert_eq!(evm.status, ProgramExitStatus::Success);
    assert_eq!(evm.stack.pop(), Some(w(5)));
}

#[test]
fn scenario_storage_persists_across_runs() {
    let x = Address::from_u64(0xabcd);

    // First run under address X: SSTORE of key 1, value 42.
    let mut storage = EvmStorage::default();
    storage.data.push((
        x,
        EvmAccount {
            code: vec![0x60, 0x2a, 0x60, 0x01, 0x55, 0x00],
            balance: Word::zero(),
            word: Vec::new(),
        },
    ));
    let tx1 = Transaction {
        from: Address::from_u64(1),
        to: x,
        value: Word::zero(),
        nonce: Word::zero(),
        data: Vec::new(),
        gas_limit: w(100000),
    };
    let mut evm1 = Evm::new(BlockEnv::default(), tx1, Memory::new(), Stack::default(), storage);
    evm1.execute().unwrap();
    evm1.run(10_000);
    assert_eq!(evm1.status, ProgramExitStatus::Success);

    // Later run over the same storage: SLOAD of key 1 gives 42 back.
    let mut storage = evm1.storage;
    let entry = storage
        .data
        .iter_mut()
        .rev()
        .find(|(a, _)| *a == x)
        .expect("account record for X");
    entry.1.code = vec![0x60, 0x01, 0x54, 0x00];
    let tx2 = Transaction {
        from: Address::from_u64(1),
        to: x,
        value: Word::zero(),
        nonce: Word::zero(),
        data: Vec::new(),
        gas_limit: w(100000),
    };
    let mut evm2 = Evm::new(BlockEnv::default(), tx2, Memory::new(), Stack::default(), storage);
    evm2.execute().unwrap();
    evm2.run(10_000);
    assert_eq!(evm2.status, ProgramExitStatus::Success);
    assert_eq!(evm2.stack.pop(), Some(w(42)));

    // An unset key reads as zero.
    assert_eq!(evm2.storage.s_load(x, w(2)), w(0));
    assert_eq!(evm2.storage.s_load(x, w(1)), w(42));
}

#[test]
fn jump_to_push_data_byte_fails() {
    // PUSH1 0x5b; PUSH1 1; JUMP — the target byte holds the JUMPDEST
    // value but is an immediate of the first push, so the jump must fail.
    let evm = run_creation(vec![0x60, 0x5b, 0x60, 0x01, 0x56]);
    assert_eq!(evm.status, ProgramExitStatus::Failure);
}

#[test]
fn jump_to_real_jumpdest_succeeds() {
    // PUSH1 4; JUMP; STOP; JUMPDEST; PUSH1 7; STOP
    let mut evm = run_creation(vec![0x60, 0x04, 0x56, 0x00, 0x5b, 0x60, 0x07, 0x00]);
    assert_eq!(evm.status, ProgramExitStatus::Success);
    assert_eq!(evm.stack.pop(), Some(w(7)));
}

#[test]
fn jumpi_taken_and_not_taken() {
    // PUSH1 1; PUSH1 6; JUMPI; STOP; .. JUMPDEST; PUSH1 9; STOP
    let mut taken = run_creation(vec![0x60, 0x01, 0x60, 0x06, 0x57, 0x00, 0x5b, 0x60, 0x09, 0x00]);
    assert_eq!(taken.status, ProgramExitStatus::Success);
    assert_eq!(taken.stack.pop(), Some(w(9)));

    // PUSH1 0; PUSH1 7; JUMPI; PUSH1 5; STOP — the zero condition falls
    // through.
    let mut skipped = run_creation(vec![0x60, 0x00, 0x60, 0x07, 0x57, 0x60, 0x05, 0x00]);
    assert_eq!(skipped.status, ProgramExitStatus::Success);
    assert_eq!(skipped.stack.pop(), Some(w(5)));
}

#[test]
fn undefined_opcode_fails_the_run() {
    let evm = run_creation(vec![0x21]);
    assert_eq!(evm.status, ProgramExitStatus::Failure);
}

#[test]
fn stack_underflow_fails_the_run() {
    // ADD with an empty stack.
    let evm = run_creation(vec![0x01]);
    assert_eq!(evm.status, ProgramExitStatus::Failure);
}

#[test]
fn modulo_by_zero_yields_zero() {
    // PUSH1 10; PUSH1 0; MOD; STOP
    let mut evm = run_creation(vec![0x60, 0x0a, 0x60, 0x00, 0x06, 0x00]);
    assert_eq!(evm.status, ProgramExitStatus::Success);
    assert_eq!(evm.stack.pop(), Some(w(0)));
}

#[test]
fn addmod_and_mulmod_reduce_by_the_third_operand() {
    // PUSH1 5; PUSH1 3; PUSH1 4; ADDMOD; STOP -> (4 + 3) % 5 == 2
    let mut am = run_creation(vec![0x60, 0x05, 0x60, 0x03, 0x60, 0x04, 0x08, 0x00]);
    assert_eq!(am.stack.pop(), Some(w(2)));

    // PUSH1 7; PUSH1 3; PUSH1 4; MULMOD; STOP -> (4 * 3) % 7 == 5
    let mut mm = run_creation(vec![0x60, 0x07, 0x60, 0x03, 0x60, 0x04, 0x09, 0x00]);
    assert_eq!(mm.stack.pop(), Some(w(5)));

    // A zero modulus yields zero, never a fault.
    let mut zm = run_creation(vec![0x60, 0x00, 0x60, 0x03, 0x60, 0x04, 0x08, 0x00]);
    assert_eq!(zm.status, ProgramExitStatus::Success);
    assert_eq!(zm.stack.pop(), Some(w(0)));
}

#[test]
fn calldataload_reads_payload_zero_padded() {
    // PUSH1 0; CALLDATALOAD; STOP — in creation mode the payload is the
    // code itself, read big-endian and zero-padded to a word.
    let mut evm = run_creation(vec![0x60, 0x00, 0x35, 0x00]);
    assert_eq!(evm.status, ProgramExitStatus::Success);
    assert_eq!(
        evm.stack.pop(),
        Some(Word::from_limbs(0, 0, 0, 0x6000_3500_0000_0000))
    );
}

#[test]
fn byte_extracts_big_endian_byte() {
    // PUSH2 0x1234; PUSH1 31; BYTE; STOP -> 0x34
    let mut evm = run_creation(vec![0x61, 0x12, 0x34, 0x60, 31, 0x1a, 0x00]);
    assert_eq!(evm.stack.pop(), Some(w(0x34)));

    // An index past 31 pushes zero.
    let mut oob = run_creation(vec![0x61, 0x12, 0x34, 0x60, 32, 0x1a, 0x00]);
    assert_eq!(oob.stack.pop(), Some(w(0)));
}

#[test]
fn signextend_truncates_to_low_bytes() {
    // PUSH2 0x1234; PUSH1 1; SIGNEXTEND; STOP -> low byte 0x34
    let mut evm = run_creation(vec![0x61, 0x12, 0x34, 0x60, 0x01, 0x0b, 0x00]);
    assert_eq!(evm.stack.pop(), Some(w(0x34)));

    // A width of 32 or more leaves the word unchanged.
    let mut full = run_creation(vec![0x61, 0x12, 0x34, 0x60, 32, 0x0b, 0x00]);
    assert_eq!(full.stack.pop(), Some(w(0x1234)));
}

#[test]
fn iszero_not_and_comparisons() {
    // PUSH1 0; ISZERO; STOP -> 1
    let mut z = run_creation(vec![0x60, 0x00, 0x15, 0x00]);
    assert_eq!(z.stack.pop(), Some(w(1)));

    // PUSH1 2; PUSH1 3; LT; STOP: left 2, right 3 -> 1
    let mut lt = run_creation(vec![0x60, 0x02, 0x60, 0x03, 0x10, 0x00]);
    assert_eq!(lt.stack.pop(), Some(w(1)));

    // PUSH1 2; PUSH1 3; GT; STOP: left 2, right 3 -> 0
    let mut gt = run_creation(vec![0x60, 0x02, 0x60, 0x03, 0x11, 0x00]);
    assert_eq!(gt.stack.pop(), Some(w(0)));

    // PUSH1 5; PUSH1 5; EQ; STOP -> 1
    let mut eq = run_creation(vec![0x60, 0x05, 0x60, 0x05, 0x14, 0x00]);
    assert_eq!(eq.stack.pop(), Some(w(1)));
}

#[test]
fn dup_and_swap_rearrange_the_stack() {
    // PUSH1 1; PUSH1 2; DUP2; STOP -> stack [1, 2, 1]
    let mut dup = run_creation(vec![0x60, 0x01, 0x60, 0x02, 0x81, 0x00]);
    assert_eq!(dup.stack.pop(), Some(w(1)));
    assert_eq!(dup.stack.pop(), Some(w(2)));
    assert_eq!(dup.stack.pop(), Some(w(1)));

    // PUSH1 1; PUSH1 2; SWAP1; STOP -> stack [2, 1]
    let mut swap = run_creation(vec![0x60, 0x01, 0x60, 0x02, 0x90, 0x00]);
    assert_eq!(swap.stack.pop(), Some(w(1)));
    assert_eq!(swap.stack.pop(), Some(w(2)));
}

#[test]
fn mstore8_writes_one_byte() {
    // PUSH1 0xff; PUSH1 2; MSTORE8; STOP
    let evm = run_creation(vec![0x60, 0xff, 0x60, 0x02, 0x53, 0x00]);
    assert_eq!(evm.status, ProgramExitStatus::Success);
    assert_eq!(evm.memory.load_byte(2), 0xff);
    assert_eq!(evm.memory.load_byte(1), 0);
}

#[test]
fn environment_opcodes_project_the_context() {
    // TIMESTAMP; NUMBER; CHAINID; CALLVALUE; PC; PUSH0; STOP
    let mut env = BlockEnv::default();
    env.timestamp = w(1_700_000_000);
    env.number = w(123);
    env.chain_id = w(7);
    let tx = Transaction {
        from: Address::from_u64(9),
        to: Address::zero(),
        value: w(55),
        nonce: Word::zero(),
        data: vec![0x42, 0x43, 0x46, 0x34, 0x58, 0x5f, 0x00],
        gas_limit: w(100000),
    };
    let mut evm = Evm::new(env, tx, Memory::new(), Stack::default(), EvmStorage::default());
    evm.execute().unwrap();
    evm.run(10_000);
    assert_eq!(evm.status, ProgramExitStatus::Success);
    assert_eq!(evm.stack.pop(), Some(w(0)));  // PUSH0
    assert_eq!(evm.stack.pop(), Some(w(4)));  // PC of the PC opcode
    assert_eq!(evm.stack.pop(), Some(w(55)));  // CALLVALUE
    assert_eq!(evm.stack.pop(), Some(w(7)));  // CHAINID
    assert_eq!(evm.stack.pop(), Some(w(123)));  // NUMBER
    assert_eq!(evm.stack.pop(), Some(w(1_700_000_000)));  // TIMESTAMP
}

#[test]
fn balance_reads_the_senders_account() {
    let from = Address::from_u64(9);
    let mut storage = EvmStorage::default();
    storage.data.push((
        from,
        EvmAccount { code: Vec::new(), balance: w(77), word: Vec::new() },
    ));
    let tx = Transaction {
        from,
        to: Address::zero(),
        value: Word::zero(),
        nonce: Word::zero(),
        data: vec![0x31, 0x00],
        gas_limit: w(100000),
    };
    let mut evm = Evm::new(BlockEnv::default(), tx, Memory::new(), Stack::default(), storage);
    evm.execute().unwrap();
    evm.run(10_000);
    assert_eq!(evm.stack.pop(), Some(w(77)));
}

#[test]
fn executing_an_unknown_account_is_an_error() {
    let tx = Transaction {
        from: Address::from_u64(1),
        to: Address::from_u64(0xdead),
        value: Word::zero(),
        nonce: Word::zero(),
        data: Vec::new(),
        gas_limit: w(100000),
    };
    let mut evm = Evm::new(
        BlockEnv::default(),
        tx,
        Memory::new(),
        Stack::default(),
        EvmStorage::default(),
    );
    assert!(matches!(evm.execute(), Err(EvmErrors::UnknownAccount)));
}

#[test]
fn address_and_origin_push_padded_addresses() {
    // ADDRESS; ORIGIN; STOP under a message call to a known account.
    let x = Address::from_u64(0x1111);
    let mut storage = EvmStorage::default();
    storage.data.push((
        x,
        EvmAccount { code: vec![0x30, 0x32, 0x00], balance: Word::zero(), word: Vec::new() },
    ));
    let tx = Transaction {
        from: Address::from_u64(0x2222),
        to: x,
        value: Word::zero(),
        nonce: Word::zero(),
        data: Vec::new(),
        gas_limit: w(100000),
    };
    let mut evm = Evm::new(BlockEnv::default(), tx, Memory::new(), Stack::default(), storage);
    evm.execute().unwrap();
    evm.run(10_000);
    assert_eq!(evm.stack.pop(), Some(w(0x2222)));  // ORIGIN
    assert_eq!(evm.stack.pop(), Some(w(0x1111)));  // ADDRESS
}

#[test]
fn mcopy_moves_a_memory_region() {
    // PUSH1 7; PUSH1 0; MSTORE8;  (mem[0] = 7)
    // PUSH1 5; PUSH1 3; PUSH1 0; MCOPY; STOP  (dest 5, length 3, src 0)
    let evm = run_creation(vec![
        0x60, 0x07, 0x60, 0x00, 0x53, 0x60, 0x05, 0x60, 0x03, 0x60, 0x00, 0x5e, 0x00,
    ]);
    assert_eq!(evm.status, ProgramExitStatus::Success);
    assert_eq!(evm.memory.load_byte(5), 7);
    assert_eq!(evm.memory.load_byte(6), 0);
}

#[test]
fn exp_opcode_pops_base_first() {
    // PUSH1 10 (exponent); PUSH1 2 (base); EXP; STOP -> 1024
    let mut evm = run_creation(vec![0x60, 0x0a, 0x60, 0x02, 0x0a, 0x00]);
    assert_eq!(evm.stack.pop(), Some(w(1024)));
}

#[test]
fn bitwise_opcodes_combine_operands() {
    // PUSH1 0b1100; PUSH1 0b1010; AND / OR / XOR; STOP
    let mut and = run_creation(vec![0x60, 0x0c, 0x60, 0x0a, 0x16, 0x00]);
    assert_eq!(and.stack.pop(), Some(w(0x08)));
    let mut or = run_creation(vec![0x60, 0x0c, 0x60, 0x0a, 0x17, 0x00]);
    assert_eq!(or.stack.pop(), Some(w(0x0e)));
    let mut xor = run_creation(vec![0x60, 0x0c, 0x60, 0x0a, 0x18, 0x00]);
    assert_eq!(xor.stack.pop(), Some(w(0x06)));

    // PUSH1 0; NOT; STOP -> all bits set
    let mut not = run_creation(vec![0x60, 0x00, 0x19, 0x00]);
    assert_eq!(
        not.stack.pop(),
        Some(Word::from_limbs(u64::MAX, u64::MAX, u64::MAX, u64::MAX))
    );
}

#[test]
fn signed_comparisons_read_twos_complement() {
    // PUSH1 0; NOT (gives -1); PUSH1 3; SLT; STOP: left = -1, right = 3 -> 1
    let mut slt = run_creation(vec![0x60, 0x00, 0x19, 0x60, 0x03, 0x12, 0x00]);
    assert_eq!(slt.stack.pop(), Some(w(1)));

    // Same operands under SGT -> 0
    let mut sgt = run_creation(vec![0x60, 0x00, 0x19, 0x60, 0x03, 0x13, 0x00]);
    assert_eq!(sgt.stack.pop(), Some(w(0)));

    // Unsigned LT sees -1 as a huge value: left = -1, right = 3 -> 0
    let mut lt = run_creation(vec![0x60, 0x00, 0x19, 0x60, 0x03, 0x10, 0x00]);
    assert_eq!(lt.stack.pop(), Some(w(0)));
}

#[test]
fn remaining_environment_opcodes_and_pop() {
    // COINBASE; GASLIMIT; GASPRICE; GAS; MSIZE; POP; STOP
    let mut env = BlockEnv::default();
    env.coinbase = Address::from_u64(0x99);
    env.gas_limit = w(30_000_000);
    let tx = Transaction {
        from: Address::from_u64(1),
        to: Address::zero(),
        value: Word::zero(),
        nonce: Word::zero(),
        data: vec![0x41, 0x45, 0x3a, 0x5a, 0x59, 0x50, 0x00],
        gas_limit: w(100_000),
    };
    let mut evm = Evm::new(env, tx, Memory::new(), Stack::default(), EvmStorage::default());
    evm.execute().unwrap();
    evm.run(10_000);
    assert_eq!(evm.status, ProgramExitStatus::Success);
    // POP discarded MSIZE's result (0: data memory starts empty).
    assert_eq!(evm.stack.pop(), Some(w(30_000_000)));  // GAS
    assert_eq!(evm.stack.pop(), Some(w(100_000)));  // GASPRICE (tx gas limit)
    assert_eq!(evm.stack.pop(), Some(w(30_000_000)));  // GASLIMIT
    assert_eq!(evm.stack.pop(), Some(w(0x99)));  // COINBASE
    assert_eq!(evm.stack.pop(), None);
}

#[test]
fn blockhash_checks_the_block_number() {
    let mut env = BlockEnv::default();
    env.number = w(100);
    env.block_hash = w(0xfeed);
    // PUSH1 50; BLOCKHASH; PUSH1 101; BLOCKHASH; STOP
    let tx = Transaction {
        from: Address::from_u64(1),
        to: Address::zero(),
        value: Word::zero(),
        nonce: Word::zero(),
        data: vec![0x60, 0x32, 0x40, 0x60, 0x65, 0x40, 0x00],
        gas_limit: w(100_000),
    };
    let mut evm = Evm::new(env, tx, Memory::new(), Stack::default(), EvmStorage::default());
    evm.execute().unwrap();
    evm.run(10_000);
    assert_eq!(evm.stack.pop(), Some(w(0)));  // a future block reads zero
    assert_eq!(evm.stack.pop(), Some(w(0xfeed)));
}

#[test]
fn push_reads_wide_and_truncated_immediates() {
    // PUSH32 of a full word whose last byte is 0x2a.
    let mut code = vec![0x7f];
    code.extend(std::iter::repeat(0).take(31));
    code.push(0x2a);
    code.push(0x00);
    let mut evm = run_creation(code);
    assert_eq!(evm.stack.pop(), Some(w(0x2a)));

    // PUSH2 with only one immediate byte left: the read past the end of
    // the code sees a zero byte.
    let mut short = run_creation(vec![0x61, 0x12]);
    assert_eq!(short.status, ProgramExitStatus::Success);
    assert_eq!(short.stack.pop(), Some(w(0x1200)));
}

#[test]
fn step_budget_stops_an_endless_loop() {
    // JUMPDEST; PUSH1 0; JUMP — a loop forever; the budget returns control
    // with the machine still running.
    let mut evm = creation_evm(vec![0x5b, 0x60, 0x00, 0x56]);
    evm.execute().unwrap();
    evm.run(100);
    assert_eq!(evm.status, ProgramExitStatus::Default);
}
