//! A fixed-capacity byte ring for one producer and one consumer.
//!
//! The producer reserves a contiguous region (a write grant), fills it in
//! place and commits the prefix it used; the consumer obtains the contiguous
//! committed region (a read grant) and releases the prefix it consumed.
//! Every operation is stated over [`state::RingState`], the mathematical
//! model of the ring, and proved against it.
//!
//! - [`state`]: the model, its invariant and its transitions.
//! - [`ring`]: the buffer, the producer's and the consumer's handle, and the
//!   grants.
//! - [`laws`]: what holds after every history of operations: the capacity
//!   bound, the byte-exact round trip, and the rules of grants and wraps.
//! - [`transfer`]: sending and checking data chunk by chunk.
//!
//! The ring is a sequential value: whoever drives both roles from two
//! threads shares it under a lock of their choice.

pub mod error;
pub mod laws;
pub mod ring;
pub mod state;
pub mod transfer;

pub use crate::error::Error;
pub use crate::ring::{Consumer, Producer, ReadGrant, RingBuffer, WriteGrant};
