//! An adapter that regroups a sequence of weighted items into batches whose
//! cumulative weight meets a caller-chosen minimum.
//!
//! Each item carries a non-negative integer weight (element count, byte size,
//! transaction count). Items are absorbed in arrival order into an internal
//! buffer; once the buffered weight reaches `min_batch_weight`, the whole
//! buffer is emitted as one batch and the accumulator resets. When the source
//! is exhausted, any buffered remainder is emitted once as a final, possibly
//! under-weight batch.
//!
//! The accumulation state machine lives in [`min_batch_with_weight`]; the
//! plain variant in [`min_batch`] shares its logic and drops the reported
//! weight from each emission. The mathematical model of a whole batching run
//! and the proved conservation, threshold and non-emptiness laws live in
//! [`batching`].

pub mod batching;
pub mod min_batch;
pub mod min_batch_with_weight;
