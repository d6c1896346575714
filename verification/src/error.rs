//! The failure kinds that the protocol reports to its callers.

use vstd::prelude::*;

verus! {

/// Why an instruction was rejected.
#[derive(Clone, Copy, Debug, PartialEq, Eq, Structural)]
pub enum ErrorCode {
    /// The caller is not one of the configured signers.
    NotAuthorized,
    /// The caller has already signed this instruction.
    AlreadySigned,
    /// An account does not sit at the address derived for it.
    InvalidBump,
    /// The instruction payload could not be bound to a digest, or a
    /// collaborator refused the guarded action.
    InvalidInstructionHash,
    /// The record already holds state.
    AlreadyInitialized,
    /// The record breaks one of its invariants.
    InvalidParams,
    /// A value that was expected to be present was not.
    FailedUnwrap,
}

/// The result of every fallible operation of the protocol.
pub type TYieldResult<T> = Result<T, ErrorCode>;

} // verus!
