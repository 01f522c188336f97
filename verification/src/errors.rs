//! The closed error taxonomy surfaced by every fallible operation of
//! the interpreter and of the storage collaborator.

use vstd::prelude::*;

verus! {

/// Errors surfaced by the storage collaborator's write-once commit
/// protocol.
#[derive(Clone, Copy, Debug, PartialEq, Eq, Structural)]
pub enum StorageError {
    /// The apply step of a commit failed.
    CommitError,
    /// A precondition of a read was not met.
    RequireError,
    /// A write violated the storage's commitment invariants.
    InvalidCommitment,
    /// A second commit was attempted on an already-finalized slot.
    AlreadyCommitted,
}

/// Errors surfaced by the execution engine. Every opcode handler
/// returns success or one of these; the dispatch loop stops at the
/// first failure and returns it unmodified.
#[derive(Clone, Copy, Debug, PartialEq, Eq, Structural)]
pub enum VMError {
    /// An unrecognized byte was fetched at the program counter.
    UnknownOpcodeError,
    /// A required capability (memory, storage, an execution address or
    /// a call context) was not provisioned, or an offset did not fit
    /// in the host's address range.
    MemoryError,
    /// The explicit INVALID opcode was executed.
    InvalidInstruction,
    /// An operation would pop below the bottom of the operand stack.
    StackUnderflow,
    /// An operation would push past the 1024th operand-stack slot.
    StackOverflow,
    /// A nested call exceeded the configured maximum call depth.
    CallDepthExceeded,
    /// The instruction budget of a run was exhausted before a halt.
    BudgetExhausted,
    /// The storage collaborator rejected an operation; the inner value
    /// preserves its taxonomy end-to-end.
    StorageFailure(StorageError),
}

} // verus!
