//! What can go wrong.

use vstd::prelude::*;

verus! {

/// `std::io::Error`, carried through unread.
#[verifier::external_type_specification]
#[verifier::external_body]
pub struct ExIoError(std::io::Error);

/// A breach of what callers owe the library.
#[derive(Debug, PartialEq, Eq, Clone, Copy, Structural)]
pub enum ContractViolation {
    /// A name in the tree is empty or holds a path separator.
    InvalidName,
    /// An entry tagged `Unknown` was handed to the materializer.
    UnknownEntry,
    /// The reported event does not answer the action that was requested.
    UnexpectedEvent,
}

/// Why a run of the materializer stopped before its end.
#[derive(Debug)]
pub enum CreateError {
    /// The file system refused an action; the error is the one reported.
    Io(std::io::Error),
    /// The caller broke the contract.
    Violation(ContractViolation),
}

} // verus!
