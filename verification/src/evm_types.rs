use vstd::prelude::*;

use crate::word::{p128, p64, Word};

verus! {

/// A 160-bit account address, split into plain machine integers: `lo` holds
/// the least significant 64 bits, `mid` the next 64, `hi` the top 32.
#[derive(Clone, Copy, Debug, PartialEq, Eq, Structural, Hash)]
pub struct Address {
    pub hi: u32,
    pub mid: u64,
    pub lo: u64,
}

impl Address {
    /// The unsigned value of the address.
    pub open spec fn as_nat(self) -> nat {
        (self.lo + self.mid * p64() + self.hi * p128()) as nat
    }

    /// The zero address, which by convention marks contract creation when it
    /// stands as a transaction's recipient.
    pub fn zero() -> (r: Address)
        ensures
            r.as_nat() == 0,
            r == (Address { hi: 0, mid: 0, lo: 0 }),
    {
        Address { hi: 0, mid: 0, lo: 0 }
    }

    /// An address from a small integer, for tests and harnesses.
    pub fn from_u64(v: u64) -> (r: Address)
        ensures
            r.as_nat() == v,
    {
        Address { hi: 0, mid: 0, lo: v }
    }

    /// Whether this is the zero address.
    pub fn is_zero(&self) -> (r: bool)
        ensures
            r == (*self == Address { hi: 0, mid: 0, lo: 0 }),
    {
        self.hi == 0 && self.mid == 0 && self.lo == 0
    }

    /// The address as a word: its 20 bytes left-padded with zero bytes to a
    /// full 32-byte word, so the word's value is the address's value.
    pub fn to_word(&self) -> (r: Word)
        ensures
            r.as_nat() == self.as_nat(),
    {
        Word { limb0: self.lo, limb1: self.mid, limb2: self.hi as u64, limb3: 0 }
    }
}

/// Block-scoped inputs of the environment opcodes: plain immutable data
/// supplied by the embedding layer before a run.
#[derive(Clone, Copy, Debug)]
pub struct BlockEnv {
    pub number: Word,
    pub timestamp: Word,
    pub coinbase: Address,
    pub gas_limit: Word,
    pub base_fee: Word,
    pub block_hash: Word,
    pub chain_id: Word,
}

impl Default for BlockEnv {
    /// A block environment with every field zero.
    fn default() -> (r: BlockEnv)
        ensures
            r.number.as_nat() == 0,
            r.timestamp.as_nat() == 0,
            r.coinbase.as_nat() == 0,
            r.gas_limit.as_nat() == 0,
            r.base_fee.as_nat() == 0,
            r.block_hash.as_nat() == 0,
            r.chain_id.as_nat() == 0,
    {
        let zero = Word { limb0: 0, limb1: 0, limb2: 0, limb3: 0 };
        BlockEnv {
            number: zero,
            timestamp: zero,
            coinbase: Address { hi: 0, mid: 0, lo: 0 },
            gas_limit: zero,
            base_fee: zero,
            block_hash: zero,
            chain_id: zero,
        }
    }
}

/// The transaction record: caller, recipient (the zero address signals
/// contract creation), transferred value, nonce, payload bytes and gas
/// limit.  Read-only inputs of the environment opcodes.
#[derive(Clone, Debug)]
pub struct Transaction {
    pub from: Address,
    pub to: Address,
    pub value: Word,
    pub nonce: Word,
    pub data: Vec<u8>,
    pub gas_limit: Word,
}

impl Default for Transaction {
    /// A transaction with every field zero and an empty payload.
    fn default() -> (r: Transaction)
        ensures
            r.from.as_nat() == 0,
            r.to.as_nat() == 0,
            r.value.as_nat() == 0,
            r.nonce.as_nat() == 0,
            r.data@.len() == 0,
            r.gas_limit.as_nat() == 0,
    {
        let zero = Word { limb0: 0, limb1: 0, limb2: 0, limb3: 0 };
        Transaction {
            from: Address { hi: 0, mid: 0, lo: 0 },
            to: Address { hi: 0, mid: 0, lo: 0 },
            value: zero,
            nonce: zero,
            data: Vec::new(),
            gas_limit: zero,
        }
    }
}

/// Equality of the transaction record, field by field, with the payload
/// compared as a byte sequence.
pub open spec fn tx_eq(a: Transaction, b: Transaction) -> bool {
    a.from == b.from && a.to == b.to && a.value == b.value && a.nonce == b.nonce && a.data@
        == b.data@ && a.gas_limit == b.gas_limit
}

} // verus!
