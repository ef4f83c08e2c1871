//! Kinds of input and output failure, as the storage and loading code
//! tells them apart.

use vstd::prelude::*;

verus! {

/// The reason why a read, a write or a lookup failed.
#[derive(Debug, Copy, Clone, PartialEq, Eq, Structural)]
pub enum ErrorKind {
    /// The entity was not found.
    NotFound,
    /// An argument was not acceptable.
    InvalidInput,
    /// The data that was read is malformed.
    InvalidData,
    /// The data ended before the amount that was asked for.
    UnexpectedEof,
    /// The operation was interrupted and can be retried.
    Interrupted,
    /// The operation did not finish in time.
    TimedOut,
    /// Any other failure.
    Other,
}

} // verus!
