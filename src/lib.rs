//! A fixed-capacity ring buffer through which one producer hands a stream of
//! elements to one consumer.
//!
//! [`create_ring_buffer`] allocates the storage once and returns its two
//! ends. Each end keeps a private cursor; the storage and the count of slots
//! that hold unread data live behind one lock that both ends share, and
//! whose invariant is that the ring is well formed (`used <= capacity`).
//! Elements move one at a time or in batches: a batch hands the caller's
//! body the slots in place, as at most two contiguous spans, the second
//! only where the first stops at the physical end of the storage.
//!
//! - [`window`]: cursor arithmetic and how a transfer is cut into runs.
//! - [`ring`]: the storage itself, [`DirectRingBuffer`], with exact
//!   contracts over its abstract state [`ring::RingView`].
//! - [`handles`]: [`Producer`], [`Consumer`] and [`create_ring_buffer`].
//! - [`laws`]: what holds across operations: capacity is conserved, data
//!   leaves in the order it came, transfers split at the storage's end and
//!   stop at the first short run.
pub mod window;
pub mod ring;
pub mod handles;
pub mod laws;

pub use handles::{Producer, Consumer, create_ring_buffer};
pub use ring::DirectRingBuffer;
