use vstd::prelude::*;

use crate::evm_types::Address;
use crate::word::Word;

verus! {

/// An account record: contract code, balance, and the persistent mapping
/// from word-sized storage keys to word-sized slot values.  The slot list
/// is an insertion log read under "the latest entry for a key wins".
#[derive(Clone, Debug)]
pub struct EvmAccount {
    pub code: Vec<u8>,
    pub balance: Word,
    pub word: Vec<(Word, Word)>,
}

impl Default for EvmAccount {
    /// An empty account: no code, zero balance, no slots.
    fn default() -> (r: EvmAccount)
        ensures
            r.code@.len() == 0,
            r.balance.as_nat() == 0,
            r.word@.len() == 0,
    {
        EvmAccount {
            code: Vec::new(),
            balance: Word { limb0: 0, limb1: 0, limb2: 0, limb3: 0 },
            word: Vec::new(),
        }
    }
}

/// The mathematical content of an account: its balance, its code bytes and
/// its slot map, in that order.
pub type AccountModel = (nat, Seq<u8>, Map<nat, nat>);

/// The slot map described by an entry log: later entries overwrite earlier
/// ones with the same key.
pub open spec fn slots_map(s: Seq<(Word, Word)>) -> Map<nat, nat>
    decreases s.len(),
{
    if s.len() == 0 {
        Map::empty()
    } else {
        slots_map(s.drop_last()).insert(s.last().0.as_nat(), s.last().1.as_nat())
    }
}

/// The mathematical content of one account record.
pub open spec fn account_model(a: EvmAccount) -> AccountModel {
    (a.balance.as_nat(), a.code@, slots_map(a.word@))
}

/// The content of an account that does not exist: implicit accounts are
/// empty rather than an error.
pub open spec fn empty_account_model() -> AccountModel {
    (0, Seq::empty(), Map::empty())
}

/// The account map described by an entry log, later entries winning.
pub open spec fn storage_map(s: Seq<(Address, EvmAccount)>) -> Map<Address, AccountModel>
    decreases s.len(),
{
    if s.len() == 0 {
        Map::empty()
    } else {
        storage_map(s.drop_last()).insert(s.last().0, account_model(s.last().1))
    }
}

/// Entries whose keys all differ from `k` do not decide membership of `k`:
/// the log from `i` on may be ignored.
proof fn lemma_slots_map_prefix(w: Seq<(Word, Word)>, i: int, k: nat)
    requires
        0 <= i <= w.len(),
        forall|j: int| i <= j < w.len() ==> w[j].0.as_nat() != k,
    ensures
        slots_map(w).contains_key(k) == slots_map(w.subrange(0, i)).contains_key(k),
        slots_map(w).contains_key(k) ==> slots_map(w)[k] == slots_map(w.subrange(0, i))[k],
    decreases w.len() - i,
{
    if i < w.len() {
        lemma_slots_map_prefix(w, i + 1, k);
        assert(w.subrange(0, i + 1).drop_last() =~= w.subrange(0, i));
        assert(w.subrange(0, i + 1).last() == w[i]);
    } else {
        assert(w.subrange(0, i) =~= w);
    }
}

/// The latest entry of the log with key `k` gives the map's value at `k`.
proof fn lemma_slots_map_found(w: Seq<(Word, Word)>, i: int, k: nat)
    requires
        0 <= i < w.len(),
        w[i].0.as_nat() == k,
        forall|j: int| i < j < w.len() ==> w[j].0.as_nat() != k,
    ensures
        slots_map(w).contains_key(k),
        slots_map(w)[k] == w[i].1.as_nat(),
    decreases w.len(),
{
    if i == w.len() - 1 {
    } else {
        assert(w.drop_last()[i] == w[i]);
        lemma_slots_map_found(w.drop_last(), i, k);
    }
}

/// Entries whose addresses all differ from `a` do not decide membership of
/// `a`: the log from `i` on may be ignored.
proof fn lemma_storage_map_prefix(s: Seq<(Address, EvmAccount)>, i: int, a: Address)
    requires
        0 <= i <= s.len(),
        forall|j: int| i <= j < s.len() ==> s[j].0 != a,
    ensures
        storage_map(s).contains_key(a) == storage_map(s.subrange(0, i)).contains_key(a),
        storage_map(s).contains_key(a) ==> storage_map(s)[a] == storage_map(s.subrange(0, i))[a],
    decreases s.len() - i,
{
    if i < s.len() {
        lemma_storage_map_prefix(s, i + 1, a);
        assert(s.subrange(0, i + 1).drop_last() =~= s.subrange(0, i));
        assert(s.subrange(0, i + 1).last() == s[i]);
    } else {
        assert(s.subrange(0, i) =~= s);
    }
}

/// The latest entry of the log with address `a` gives the map's value at
/// `a`.
proof fn lemma_storage_map_found(s: Seq<(Address, EvmAccount)>, i: int, a: Address)
    requires
        0 <= i < s.len(),
        s[i].0 == a,
        forall|j: int| i < j < s.len() ==> s[j].0 != a,
    ensures
        storage_map(s).contains_key(a),
        storage_map(s)[a] == account_model(s[i].1),
    decreases s.len(),
{
    if i == s.len() - 1 {
    } else {
        assert(s.drop_last()[i] == s[i]);
        lemma_storage_map_found(s.drop_last(), i, a);
    }
}

/// Persistent account storage: the one piece of state shared across runs.
/// A record log over addresses with a map view; reads are total, defaulting
/// to the empty account.
#[derive(Clone, Debug)]
pub struct EvmStorage {
    pub data: Vec<(Address, EvmAccount)>,
}

impl EvmStorage {
    /// The map view of the storage.
    pub open spec fn view_map(self) -> Map<Address, AccountModel> {
        storage_map(self.data@)
    }

    /// The model of the account at `a`, empty when there is no record.
    pub open spec fn account_at(self, a: Address) -> AccountModel {
        if self.view_map().contains_key(a) {
            self.view_map()[a]
        } else {
            empty_account_model()
        }
    }

    /// The value of slot `k` under address `a`: zero for unset slots and
    /// unknown addresses alike.
    pub open spec fn slot_at(self, a: Address, k: nat) -> nat {
        if self.account_at(a).2.contains_key(k) {
            self.account_at(a).2[k]
        } else {
            0
        }
    }

    /// Empty storage, with no account records.
    pub fn default() -> (r: EvmStorage)
        ensures
            r.view_map() == Map::<Address, AccountModel>::empty(),
    {
        EvmStorage { data: Vec::new() }
    }

    /// The most recent account record for `a`, if one exists.
    fn find_account(&self, address: Address) -> (r: Option<&EvmAccount>)
        ensures
            match r {
                Some(acct) => self.view_map().contains_key(address) && account_model(*acct)
                    == self.view_map()[address],
                None => !self.view_map().contains_key(address),
            },
    {
        let ghost s = self.data@;
        let n = self.data.len();
        let mut i: usize = n;
        while i > 0
            invariant
                i <= n,
                n == s.len(),
                self.data@ == s,
                forall|j: int| i <= j < n ==> s[j].0 != address,
            decreases i,
        {
            let entry = &self.data[i - 1];
            if entry.0 == address {
                proof {
                    lemma_storage_map_found(s, i - 1, address);
                }
                return Some(&entry.1);
            }
            i = i - 1;
        }
        proof {
            lemma_storage_map_prefix(s, 0, address);
            assert(s.subrange(0, 0) =~= Seq::<(Address, EvmAccount)>::empty());
        }
        None
    }

    /// Loads the value of slot `key` under `address`.  A read is total:
    /// an unknown address or an unset slot reads as zero, never a failure.
    #[verifier::loop_isolation(false)]
    pub fn s_load(&self, address: Address, key: Word) -> (r: Word)
        ensures
            r.as_nat() == self.slot_at(address, key.as_nat()),
    {
        match self.find_account(address) {
            None => Word::zero(),
            Some(acct) => {
                let ghost w = acct.word@;
                let n = acct.word.len();
                let mut i: usize = n;
                while i > 0
                    invariant
                        i <= n,
                        n == w.len(),
                        acct.word@ == w,
                        forall|j: int| i <= j < n ==> w[j].0.as_nat() != key.as_nat(),
                    decreases i,
                {
                    let entry = &acct.word[i - 1];
                    if crate::word::word_eq(&entry.0, &key) {
                        proof {
                            lemma_slots_map_found(w, i - 1, key.as_nat());
                            assert(self.account_at(address).2 == slots_map(w));
                        }
                        return entry.1;
                    }
                    i = i - 1;
                }
                proof {
                    lemma_slots_map_prefix(w, 0, key.as_nat());
                    assert(w.subrange(0, 0) =~= Seq::<(Word, Word)>::empty());
                }
                Word::zero()
            },
        }
    }

    /// Stores `value` into slot `key` under `address`, creating the account
    /// record on first write.  Every other slot of every account, every
    /// balance and every code sequence is kept.
    pub fn s_store(&mut self, address: Address, key: Word, value: Word)
        ensures
            final(self).view_map() == old(self).view_map().insert(
                address,
                (
                    old(self).account_at(address).0,
                    old(self).account_at(address).1,
                    old(self).account_at(address).2.insert(key.as_nat(), value.as_nat()),
                ),
            ),
            final(self).slot_at(address, key.as_nat()) == value.as_nat(),
    {
        let base = match self.find_account(address) {
            Some(acct) => acct.clone_account(),
            None => EvmAccount::default(),
        };
        proof {
            if !old(self).view_map().contains_key(address) {
                assert(base.word@ =~= Seq::<(Word, Word)>::empty());
                assert(base.code@ =~= Seq::<u8>::empty());
            }
            assert(account_model(base) == old(self).account_at(address));
        }
        let ghost base_word = base.word@;
        let mut updated = base;
        updated.word.push((key, value));
        proof {
            assert(updated.word@.drop_last() =~= base_word);
        }
        self.data.push((address, updated));
        proof {
            assert(self.data@.drop_last() =~= old(self).data@);
        }
    }

    /// The balance of the account at `address`: zero when no record exists.
    pub fn balance_of(&self, address: Address) -> (r: Word)
        ensures
            r.as_nat() == self.account_at(address).0,
    {
        match self.find_account(address) {
            Some(acct) => acct.balance,
            None => Word::zero(),
        }
    }

    /// Whether an account record exists for `address`.
    pub fn has_account(&self, address: Address) -> (r: bool)
        ensures
            r == self.view_map().contains_key(address),
    {
        match self.find_account(address) {
            Some(_) => true,
            None => false,
        }
    }

    /// The code of the account at `address`: empty when no record exists.
    pub fn code_of(&self, address: Address) -> (r: Vec<u8>)
        ensures
            r@ == self.account_at(address).1,
    {
        match self.find_account(address) {
            Some(acct) => {
                let mut out: Vec<u8> = Vec::new();
                let n = acct.code.len();
                let mut i: usize = 0;
                while i < n
                    invariant
                        i <= n,
                        n == acct.code@.len(),
                        out@ == acct.code@.subrange(0, i as int),
                    decreases n - i,
                {
                    let b = acct.code[i];
                    out.push(b);
                    proof {
                        assert(out@ =~= acct.code@.subrange(0, i + 1));
                    }
                    i = i + 1;
                }
                proof {
                    assert(out@ =~= acct.code@);
                }
                out
            },
            None => {
                proof {
                    assert(Seq::<u8>::empty() =~= empty_account_model().1);
                }
                Vec::new()
            },
        }
    }
}

impl EvmAccount {
    /// A copy of the record with the same model.
    fn clone_account(&self) -> (r: EvmAccount)
        ensures
            r.balance == self.balance,
            r.code@ == self.code@,
            r.word@ == self.word@,
    {
        let mut code: Vec<u8> = Vec::new();
        let n = self.code.len();
        let mut i: usize = 0;
        while i < n
            invariant
                i <= n,
                n == self.code@.len(),
                code@ == self.code@.subrange(0, i as int),
            decreases n - i,
        {
            let b = self.code[i];
            code.push(b);
            proof {
                assert(code@ =~= self.code@.subrange(0, i + 1));
            }
            i = i + 1;
        }
        let mut word: Vec<(Word, Word)> = Vec::new();
        let m = self.word.len();
        let mut j: usize = 0;
        while j < m
            invariant
                j <= m,
                m == self.word@.len(),
                word@ == self.word@.subrange(0, j as int),
            decreases m - j,
        {
            let e = self.word[j];
            word.push(e);
            proof {
                assert(word@ =~= self.word@.subrange(0, j + 1));
            }
            j = j + 1;
        }
        proof {
            assert(code@ =~= self.code@);
            assert(word@ =~= self.word@);
        }
        EvmAccount { code, balance: self.balance, word }
    }
}

} // verus!
