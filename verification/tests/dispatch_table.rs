use evm_core::errors::EvmErrors;
use evm_core::jump_tables::build_jump_table;
use evm_core::opcodes::{is_valid_jump_dest, resolve_jump_target, Opcode};
use evm_core::word::Word;

#[test]
fn dispatch_table_is_total_and_matches_the_decoder() {
    let table = build_jump_table();
    assert_eq!(table.len(), 256);
    for b in 0..=255u8 {
        assert_eq!(table[b as usize], Opcode::from_u8(b));
    }
    // Spot checks of the byte assignments.
    assert_eq!(table[0x00], Some(Opcode::STOP));
    assert_eq!(table[0x01], Some(Opcode::ADD));
    assert_eq!(table[0x60], Some(Opcode::PUSH(1)));
    assert_eq!(table[0x7f], Some(Opcode::PUSH(32)));
    assert_eq!(table[0x80], Some(Opcode::DUP(1)));
    assert_eq!(table[0x9f], Some(Opcode::SWAP(16)));
    // An undefined byte maps to the trap, never to a silent no-op.
    assert_eq!(table[0x21], None);
    assert_eq!(table[0xfe], None);
}

#[test]
fn resolve_jump_target_accepts_only_jumpdest_bytes() {
    // A JUMPDEST at position 0 is a legal landing site.
    let code = vec![0x5b, 0x00];
    assert_eq!(resolve_jump_target(&code, &Word::from_u64(0)), Ok(0));

    // The immediate byte of a push is refused, although it holds the
    // JUMPDEST value.
    let hidden = vec![0x60, 0x5b, 0x00];
    assert!(matches!(
        resolve_jump_target(&hidden, &Word::from_u64(1)),
        Err(EvmErrors::InvalidJumpDestination)
    ));
    assert!(!is_valid_jump_dest(&hidden, 1));

    // A target past the end of the code is refused.
    assert!(matches!(
        resolve_jump_target(&code, &Word::from_u64(9)),
        Err(EvmErrors::InvalidJumpDestination)
    ));
}
