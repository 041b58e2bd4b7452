//! An in-memory, dynamically growable byte store addressed as a flat linear
//! offset space, in the style of the classic "scull" character device.
//!
//! The logical byte stream is cut into fixed-size blocks ("quanta"), grouped
//! into fixed-capacity rows of blocks ("qsets"), one row per chain node.
//! Everything is allocated lazily: a node's row appears only when a write
//! lands in its item, and a quantum only when a write lands in its slot.
//! Reads never allocate; an offset whose quantum was never written reads as
//! empty ("no data"), not as zero fill.
//!
//! The [`store::ScullDevData`] type carries the state and exposes `write`,
//! `read`, `reset`, `configure` and a small command dispatcher. Its contracts
//! are stated against the mathematical model in [`model`], and the laws the
//! store obeys are proved in [`laws`].

pub mod addressing;
pub mod laws;
pub mod model;
pub mod store;

pub use store::ScullDevData;
pub use store::ScullError;
