//! A fixed-capacity append-and-annotate registry.
//!
//! A single [`record::BaseAccount`] holds an ordered list of submitted links,
//! each attributable to a submitting identity and each carrying an upvote
//! counter. The registry is created once, entries are appended to its end,
//! and upvotes increment the counters of every entry matching a
//! (link, identity) pair. The record lives in a storage slot of fixed
//! serialized byte capacity, established at creation; an append that would
//! overflow that capacity is rejected before any field is touched.
//!
//! The state-transition logic is in [`ops`]; its contracts are stated over
//! the mathematical model in [`model`], the laws relating several
//! operations are proved in [`laws`], and the persisted layout with its
//! round-trip law lives in [`codec`]. Transport, signature verification and
//! persistence belong to the hosting runtime, which hands the operations a
//! loaded record and plain argument values.

pub mod codec;
pub mod error;
pub mod laws;
pub mod model;
pub mod ops;
pub mod record;
