use vstd::prelude::*;

verus! {

/// Failure conditions of one execution run.  Every one of these is
/// recoverable at the run level: the interpreter reports it through its
/// status field and halts; it never aborts the host process.
#[derive(Clone, Copy, Debug, PartialEq, Eq, Structural)]
pub enum EvmErrors {
    /// A push would raise the stack above its fixed capacity.
    StackTooDeep,
    /// A pop or peek was asked of a stack that is too shallow.
    StackUnderflow,
    /// A jump target is not a `JUMPDEST` byte reachable as an instruction.
    InvalidJumpDestination,
    /// The fetched byte maps to no defined instruction.
    UndefinedOpcode,
    /// A memory access would grow memory past the configured ceiling.
    MemoryLimitExceeded,
    /// A strict lookup required an account record that does not exist.
    UnknownAccount,
}

} // verus!
