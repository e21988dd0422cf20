//! Errors of the client services.
use vstd::prelude::*;

verus! {

/// What went wrong in a service call.
#[derive(Debug, Clone, Copy, PartialEq, Eq, Structural)]
pub enum ErrorKind {
    /// The store refused a read or a write.
    StorageError,
    /// Stored bytes did not decode.
    DeserializationError,
    /// A balance change would leave the balance out of range.
    BalanceAdditionError,
}

} // verus!
