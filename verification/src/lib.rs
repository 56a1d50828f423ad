use vstd::prelude::*;

pub mod bytes;
pub mod errors;
pub mod evm_types;
pub mod jump_tables;
pub mod memory;
pub mod opcodes;
pub mod operations;
pub mod stack;
pub mod storage;
pub mod word;

use crate::errors::EvmErrors;
use crate::evm_types::{Address, BlockEnv, Transaction};
use crate::bytes::bytes_val;
use crate::memory::{byte_at, Memory, MEMORY_LIMIT};
use crate::opcodes::{decode, Opcode};
use crate::operations::ariths::{
    addmod_val, binop_post, bitop_post, bool_val, cdl_bytes, dup_post, env_push_post,
    env_unchanged, frame_unchanged, jump_post, jumpi_post, mcopy_post, mload_post, mstore8_post,
    mstore_post, mulmod_val, noop_post, not_post, pop_post, push_op_post, sstore_post, stack_ok,
    stop_post, swap_post, ternop_post, unop_map_post,
};
use crate::stack::Stack;
use crate::storage::EvmStorage;

verus! {

/// Program exit states for the machine.  The run loop continues while the
/// status is `Default` ("still running") and stops as soon as a handler
/// moves it to `Success` (an orderly halt, for example via `STOP`) or
/// `Failure` (a trap: stack misuse, an invalid jump, an undefined opcode,
/// or the memory ceiling).
#[derive(Clone, Copy, Debug, PartialEq, Eq, Structural)]
pub enum ProgramExitStatus {
    Success,
    Failure,
    Default,
}

/// The machine: everything the interpreter needs to fetch, decode and
/// execute code.  `block_env` and `tx` are the read-only execution context;
/// `memory` is the linear byte memory of the run's data; `code` is the code
/// region, held through the same linear-memory abstraction and seeded by
/// `execute` before the first step; `stack` is the evaluation stack;
/// `storage` the persistent account store borrowed for the run; `pc` the
/// index of the next instruction byte in the code region; `status` the run
/// status that the loop watches.
#[derive(Debug, Clone)]
pub struct Evm {
    pub block_env: BlockEnv,
    pub tx: Transaction,
    pub memory: Memory,
    pub code: Memory,
    pub stack: Stack,
    pub storage: EvmStorage,
    pub pc: usize,
    pub status: ProgramExitStatus,
}

impl Evm {
    /// A machine over the given context and state, with an empty code
    /// region, the program counter at its start and the status still
    /// running.
    pub fn new(
        block_env: BlockEnv,
        tx: Transaction,
        memory: Memory,
        stack: Stack,
        storage: EvmStorage,
    ) -> (r: Evm)
        ensures
            r.block_env == block_env,
            crate::evm_types::tx_eq(r.tx, tx),
            r.memory.data@ == memory.data@,
            r.code.data@.len() == 0,
            r.stack.data@ == stack.data@,
            r.storage.view_map() == storage.view_map(),
            r.pc == 0,
            r.status == ProgramExitStatus::Default,
    {
        Evm {
            block_env,
            tx,
            memory,
            code: Memory::new(),
            stack,
            storage,
            pc: 0,
            status: ProgramExitStatus::Default,
        }
    }
}

/// The effect of one decoded instruction, as the step relation sees it:
/// every case is the corresponding handler's contract, with the program
/// counter advanced by one for the instructions whose handler leaves it to
/// the loop.
pub open spec fn op_post(pre: Evm, post: Evm, op: Opcode) -> bool {
    let s = pre.stack.data@;
    let pc1 = pre.pc + 1;
    match op {
        Opcode::STOP => stop_post(pre, post, pc1),
        Opcode::ADD => binop_post(pre, post, op, pc1),
        Opcode::MUL => binop_post(pre, post, op, pc1),
        Opcode::SUB => binop_post(pre, post, op, pc1),
        Opcode::DIV => binop_post(pre, post, op, pc1),
        Opcode::SDIV => binop_post(pre, post, op, pc1),
        Opcode::MOD => binop_post(pre, post, op, pc1),
        Opcode::SMOD => binop_post(pre, post, op, pc1),
        Opcode::EXP => binop_post(pre, post, op, pc1),
        Opcode::SIGNEXTEND => binop_post(pre, post, op, pc1),
        Opcode::BYTE => binop_post(pre, post, op, pc1),
        Opcode::LT => binop_post(pre, post, op, pc1),
        Opcode::GT => binop_post(pre, post, op, pc1),
        Opcode::SLT => binop_post(pre, post, op, pc1),
        Opcode::SGT => binop_post(pre, post, op, pc1),
        Opcode::EQ => binop_post(pre, post, op, pc1),
        Opcode::ADDMOD => ternop_post(
            pre,
            post,
            addmod_val(s.last().as_nat(), s[s.len() - 2].as_nat(), s[s.len() - 3].as_nat()),
            pc1,
        ),
        Opcode::MULMOD => ternop_post(
            pre,
            post,
            mulmod_val(s.last().as_nat(), s[s.len() - 2].as_nat(), s[s.len() - 3].as_nat()),
            pc1,
        ),
        Opcode::ISZERO => unop_map_post(pre, post, bool_val(s.last().as_nat() == 0), pc1),
        Opcode::AND => bitop_post(pre, post, op, pc1),
        Opcode::OR => bitop_post(pre, post, op, pc1),
        Opcode::XOR => bitop_post(pre, post, op, pc1),
        Opcode::NOT => not_post(pre, post, pc1),
        Opcode::ADDRESS => env_push_post(pre, post, pre.tx.to.as_nat(), pc1),
        Opcode::BALANCE => env_push_post(pre, post, pre.storage.account_at(pre.tx.from).0, pc1),
        Opcode::ORIGIN => env_push_post(pre, post, pre.tx.from.as_nat(), pc1),
        Opcode::CALLVALUE => env_push_post(pre, post, pre.tx.value.as_nat(), pc1),
        Opcode::CALLDATALOAD => unop_map_post(
            pre,
            post,
            bytes_val(cdl_bytes(pre.tx.data@, s.last().as_nat())),
            pc1,
        ),
        Opcode::GASPRICE => env_push_post(pre, post, pre.tx.gas_limit.as_nat(), pc1),
        Opcode::BLOCKHASH => unop_map_post(
            pre,
            post,
            (if s.last().as_nat() > pre.block_env.number.as_nat() {
                0
            } else {
                pre.block_env.block_hash.as_nat()
            }),
            pc1,
        ),
        Opcode::COINBASE => env_push_post(pre, post, pre.block_env.coinbase.as_nat(), pc1),
        Opcode::TIMESTAMP => env_push_post(pre, post, pre.block_env.timestamp.as_nat(), pc1),
        Opcode::NUMBER => env_push_post(pre, post, pre.block_env.number.as_nat(), pc1),
        Opcode::GASLIMIT => env_push_post(pre, post, pre.block_env.gas_limit.as_nat(), pc1),
        Opcode::CHAINID => env_push_post(pre, post, pre.block_env.chain_id.as_nat(), pc1),
        Opcode::POP => pop_post(pre, post, pc1),
        Opcode::MLOAD => mload_post(pre, post, pc1),
        Opcode::MSTORE => mstore_post(pre, post, pc1),
        Opcode::MSTORE8 => mstore8_post(pre, post, pc1),
        Opcode::SLOAD => unop_map_post(
            pre,
            post,
            pre.storage.slot_at(pre.tx.to, s.last().as_nat()),
            pc1,
        ),
        Opcode::SSTORE => sstore_post(pre, post, pc1),
        Opcode::JUMP => jump_post(pre, post),
        Opcode::JUMPI => jumpi_post(pre, post),
        Opcode::PC => env_push_post(pre, post, pre.pc as nat, pc1),
        Opcode::MSIZE => env_push_post(pre, post, pre.memory.data@.len(), pc1),
        Opcode::GAS => env_push_post(pre, post, pre.block_env.gas_limit.as_nat(), pc1),
        Opcode::JUMPDEST => noop_post(pre, post, pc1),
        Opcode::MCOPY => mcopy_post(pre, post, pc1),
        Opcode::PUSH0 => env_push_post(pre, post, 0, pc1),
        Opcode::PUSH(n) => push_op_post(pre, post, n as nat),
        Opcode::DUP(n) => dup_post(pre, post, n as nat, pc1),
        Opcode::SWAP(n) => swap_post(pre, post, n as nat, pc1),
    }
}

/// The step relation of the running machine: a program counter past the
/// end of memory is the implicit stop and halts in success; an undefined
/// byte halts in failure; a defined instruction acts as its handler's
/// contract says.
pub open spec fn step_post(pre: Evm, post: Evm) -> bool {
    if pre.pc >= pre.code.data@.len() {
        frame_unchanged(pre, post) && post.stack.data@ == pre.stack.data@ && post.pc == pre.pc
            && post.status == ProgramExitStatus::Success
    } else {
        match decode(byte_at(pre.code.data@, pre.pc as int)) {
            None => frame_unchanged(pre, post) && post.stack.data@ == pre.stack.data@ && post.pc
                == pre.pc && post.status == ProgramExitStatus::Failure,
            Some(op) => op_post(pre, post, op),
        }
    }
}

/// A trace of the running machine: a nonempty chain of states from `pre`
/// to `post` in which each state but the last is still running and each
/// pair of neighbours is one step.
pub open spec fn is_trace(tr: Seq<Evm>, pre: Evm, post: Evm) -> bool {
    &&& tr.len() >= 1
    &&& tr.first() == pre
    &&& tr.last() == post
    &&& forall|i: int|
        0 <= i < tr.len() - 1 ==> (#[trigger] tr[i]).status == ProgramExitStatus::Default
            && step_post(tr[i], tr[i + 1])
}

/// Whether `post` is reachable from `pre` by some number of steps of the
/// running machine.
pub open spec fn reaches(pre: Evm, post: Evm) -> bool {
    exists|tr: Seq<Evm>| is_trace(tr, pre, post)
}

/// Reachability is reflexive: the one-state trace reaches the state
/// itself.  With the extension lemma below, an outside driver that calls
/// `step` directly — a debugger or tracer interposing between
/// instructions — can accumulate the same reachability fact that `run`
/// ensures.
pub proof fn lemma_reaches_refl(a: Evm)
    ensures
        reaches(a, a),
{
    assert(is_trace(seq![a], a, a));
}

/// Reachability extends by one step of the running machine.
pub proof fn lemma_reaches_step(a: Evm, b: Evm, c: Evm)
    requires
        reaches(a, b),
        b.status == ProgramExitStatus::Default,
        step_post(b, c),
    ensures
        reaches(a, c),
{
    let tr = choose|tr: Seq<Evm>| is_trace(tr, a, b);
    assert(is_trace(tr, a, b));
    let tr2 = tr.push(c);
    assert(tr2.last() == c);
    assert(forall|i: int|
        0 <= i < tr2.len() - 1 ==> (#[trigger] tr2[i]).status == ProgramExitStatus::Default
            && step_post(tr2[i], tr2[i + 1])) by {
        assert(forall|i: int| 0 <= i < tr.len() ==> tr2[i] == tr[i]);
    }
    assert(is_trace(tr2, a, c));
}

/// A byte sequence seeded with code: the code's bytes stand at the start,
/// the rest of the old contents is kept, and the length is what zero-fill
/// growth to the code's length leaves.
pub open spec fn seeded(pre_mem: Seq<u8>, code: Seq<u8>, post_mem: Seq<u8>) -> bool {
    &&& post_mem.len() == (if pre_mem.len() >= code.len() {
        pre_mem.len() as int
    } else {
        code.len() as int
    })
    &&& forall|i: int| 0 <= i < code.len() ==> post_mem[i] == code[i]
    &&& forall|i: int| code.len() <= i < pre_mem.len() ==> post_mem[i] == pre_mem[i]
}

impl Evm {
    /// Seeds memory for the run.  A transaction to the zero address is a
    /// contract creation: the transaction payload becomes the code.  Any
    /// other recipient must have an account record, whose code is loaded;
    /// a missing record is the embedding layer's error, `UnknownAccount`,
    /// and is never silently swallowed.  Code past the memory ceiling is
    /// refused as `MemoryLimitExceeded`.
    pub fn execute(&mut self) -> (r: Result<(), EvmErrors>)
        ensures
            final(self).block_env == old(self).block_env,
            crate::evm_types::tx_eq(final(self).tx, old(self).tx),
            final(self).memory.data@ == old(self).memory.data@,
            final(self).stack.data@ == old(self).stack.data@,
            final(self).storage.view_map() == old(self).storage.view_map(),
            final(self).pc == old(self).pc,
            final(self).status == old(self).status,
            ({
                let creation = old(self).tx.to == (Address { hi: 0, mid: 0, lo: 0 });
                let known = old(self).storage.view_map().contains_key(old(self).tx.to);
                let code = if creation {
                    old(self).tx.data@
                } else {
                    old(self).storage.account_at(old(self).tx.to).1
                };
                match r {
                    Ok(()) => (creation || known) && code.len() <= MEMORY_LIMIT && seeded(
                        old(self).code.data@,
                        code,
                        final(self).code.data@,
                    ),
                    Err(e) => final(self).code.data@ == old(self).code.data@ && ((e
                        == EvmErrors::UnknownAccount && !creation && !known) || (e
                        == EvmErrors::MemoryLimitExceeded && (creation || known) && code.len()
                        > MEMORY_LIMIT)),
                }
            }),
    {
        let code: Vec<u8> = if self.tx.to.is_zero() {
            let mut copy: Vec<u8> = Vec::new();
            let n = self.tx.data.len();
            let mut i: usize = 0;
            while i < n
                invariant
                    i <= n,
                    n == self.tx.data@.len(),
                    copy@ == self.tx.data@.subrange(0, i as int),
                    self == old(self),
                decreases n - i,
            {
                let b = self.tx.data[i];
                copy.push(b);
                proof {
                    assert(copy@ =~= self.tx.data@.subrange(0, i + 1));
                }
                i = i + 1;
            }
            proof {
                assert(copy@ =~= self.tx.data@);
            }
            copy
        } else {
            let to = self.tx.to;
            if !self.storage.has_account(to) {
                return Err(EvmErrors::UnknownAccount);
            }
            self.storage.code_of(to)
        };
        let n = code.len();
        if n > MEMORY_LIMIT {
            return Err(EvmErrors::MemoryLimitExceeded);
        }
        let ghost mem0 = self.code.data@;
        let mut i: usize = 0;
        while i < n
            invariant
                i <= n,
                n <= MEMORY_LIMIT,
                n == code@.len(),
                self.code.data@.len() == (if mem0.len() >= i {
                    mem0.len() as int
                } else {
                    i as int
                }),
                forall|i2: int| 0 <= i2 < i ==> self.code.data@[i2] == code@[i2],
                forall|i2: int| i <= i2 < mem0.len() ==> self.code.data@[i2] == mem0[i2],
                self.memory.data@ == old(self).memory.data@,
                self.stack.data@ == old(self).stack.data@,
                self.storage.view_map() == old(self).storage.view_map(),
                self.block_env == old(self).block_env,
                crate::evm_types::tx_eq(self.tx, old(self).tx),
                self.pc == old(self).pc,
                self.status == old(self).status,
            decreases n - i,
        {
            let b = code[i];
            match self.code.store_byte(i, b) {
                Ok(()) => {},
                Err(_) => {
                    proof {
                        assert(false);
                    }
                },
            }
            i = i + 1;
        }
        Ok(())
    }

    /// Executes a single instruction at the current program counter, per
    /// the step relation; a machine whose status has left `Default` does
    /// nothing.
    pub fn step(&mut self)
        requires
            stack_ok(*old(self)),
        ensures
            old(self).status != ProgramExitStatus::Default ==> *final(self) == *old(self),
            old(self).status == ProgramExitStatus::Default ==> step_post(*old(self), *final(self)),
            stack_ok(*final(self)),
    {
        if self.status != ProgramExitStatus::Default {
            return ;
        }
        let len = self.code.data.len();
        if self.pc >= len {
            self.status = ProgramExitStatus::Success;
            return ;
        }
        let raw_instruction = self.code.load_byte(self.pc);
        let instruction = match Opcode::from_u8(raw_instruction) {
            Some(op) => op,
            None => {
                self.status = ProgramExitStatus::Failure;
                return ;
            },
        };
        let pc0 = self.pc;
        let advances = !matches!(
            instruction,
            Opcode::JUMP | Opcode::JUMPI | Opcode::PUSH(_),
        );
        match instruction {
            Opcode::STOP => operations::ariths::stop(self),
            Opcode::ADD => operations::ariths::add(self),
            Opcode::MUL => operations::ariths::mul(self),
            Opcode::SUB => operations::ariths::sub(self),
            Opcode::DIV => operations::ariths::div(self),
            Opcode::SDIV => operations::ariths::sdiv(self),
            Opcode::MOD => operations::ariths::modulo(self),
            Opcode::SMOD => operations::ariths::smod(self),
            Opcode::ADDMOD => operations::ariths::addmod(self),
            Opcode::MULMOD => operations::ariths::mulmod(self),
            Opcode::EXP => operations::ariths::exp(self),
            Opcode::SIGNEXTEND => operations::ariths::signextend(self),
            Opcode::LT => operations::ariths::lt(self),
            Opcode::GT => operations::ariths::gt(self),
            Opcode::SLT => operations::ariths::slt(self),
            Opcode::SGT => operations::ariths::sgt(self),
            Opcode::EQ => operations::ariths::eq(self),
            Opcode::ISZERO => operations::ariths::is_zero(self),
            Opcode::AND => operations::ariths::and(self),
            Opcode::OR => operations::ariths::or(self),
            Opcode::XOR => operations::ariths::xor(self),
            Opcode::NOT => operations::ariths::not(self),
            Opcode::BYTE => operations::ariths::byte(self),
            Opcode::ADDRESS => operations::ariths::address(self),
            Opcode::BALANCE => operations::ariths::balance(self),
            Opcode::ORIGIN => operations::ariths::origin(self),
            Opcode::CALLVALUE => operations::ariths::call_value(self),
            Opcode::CALLDATALOAD => operations::ariths::call_data_load(self),
            Opcode::GASPRICE => operations::ariths::gas_price(self),
            Opcode::BLOCKHASH => operations::ariths::block_hash(self),
            Opcode::COINBASE => operations::ariths::coin_base(self),
            Opcode::TIMESTAMP => operations::ariths::timestamp(self),
            Opcode::NUMBER => operations::ariths::number(self),
            Opcode::GASLIMIT => operations::ariths::gas_limit(self),
            Opcode::CHAINID => operations::ariths::chain_id(self),
            Opcode::POP => operations::ariths::pop(self),
            Opcode::MLOAD => operations::ariths::m_load(self),
            Opcode::MSTORE => operations::ariths::m_store(self),
            Opcode::MSTORE8 => operations::ariths::m_store8(self),
            Opcode::SLOAD => operations::ariths::s_load(self),
            Opcode::SSTORE => operations::ariths::s_store(self),
            Opcode::JUMP => operations::ariths::jump(self),
            Opcode::JUMPI => operations::ariths::jumpi(self),
            Opcode::PC => operations::ariths::pc(self),
            Opcode::MSIZE => operations::ariths::m_size(self),
            Opcode::GAS => operations::ariths::gas(self),
            Opcode::JUMPDEST => operations::ariths::jump_dest(self),
            Opcode::MCOPY => operations::ariths::m_copy(self),
            Opcode::PUSH0 => operations::ariths::push_0(self),
            Opcode::PUSH(n) => operations::ariths::push_n(self, n),
            Opcode::DUP(n) => operations::ariths::dup_n(self, n),
            Opcode::SWAP(n) => operations::ariths::swap_n(self, n),
        }
        if advances {
            self.pc = pc0 + 1;
        }
    }

    /// Drives the loop: steps while the status is `Default`, for at most
    /// `max_steps` instructions.  The bound is the embedding layer's step
    /// budget, the mechanism that guarantees termination of a run whose
    /// program would loop forever.  The final state is the end of a trace
    /// of steps from the initial one, and the machine is still running at
    /// the end only when the whole budget was spent.
    pub fn run(&mut self, max_steps: usize)
        requires
            stack_ok(*old(self)),
        ensures
            reaches(*old(self), *final(self)),
            stack_ok(*final(self)),
            exists|tr: Seq<Evm>|
                #[trigger] is_trace(tr, *old(self), *final(self)) && (tr.len() == max_steps + 1
                    || final(self).status != ProgramExitStatus::Default),
    {
        let ghost start = *self;
        let ghost mut trace: Seq<Evm> = seq![start];
        proof {
            assert(is_trace(trace, start, *self));
        }
        let mut steps: usize = 0;
        while steps < max_steps && self.status == ProgramExitStatus::Default
            invariant
                steps <= max_steps,
                stack_ok(*self),
                is_trace(trace, start, *self),
                trace.len() == steps + 1,
            decreases max_steps - steps,
        {
            let ghost prev = *self;
            self.step();
            proof {
                trace = trace.push(*self);
                assert(is_trace(trace, start, *self));
            }
            steps = steps + 1;
        }
    }
}

} // verus!
