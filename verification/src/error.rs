//! The ways in which a ring operation is refused.

use vstd::prelude::*;

verus! {

/// Why a request was refused. A refused request leaves the ring as it was.
#[derive(Clone, Copy, Debug, PartialEq, Eq, Structural)]
pub enum Error {
    /// No contiguous free region of the requested size exists right now.
    InsufficientSize,
    /// The previous grant of the same role has not been resolved yet.
    GrantInProgress,
    /// The buffer has been split into its two handles before.
    AlreadySplit,
}

impl Error {
    /// Whether the same request may succeed later without the caller
    /// changing its ways. Only `InsufficientSize` is of this kind: the other
    /// two tell of a misuse of the protocol.
    pub fn is_recoverable(&self) -> (b: bool)
        ensures
            b == (*self is InsufficientSize),
    {
        match self {
            Error::InsufficientSize => true,
            Error::GrantInProgress => false,
            Error::AlreadySplit => false,
        }
    }
}

} // verus!
