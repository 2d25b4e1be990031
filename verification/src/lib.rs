//! A small JSON emitter for record-like values, driven by the text fragments
//! that a pretty debug renderer produces.
//!
//! The core is a streaming state machine: fragments arrive one at a time, in
//! emission order, and the machine rebuilds compact JSON from the pieces that
//! look like object, list, string, boolean and number syntax. Fragments that
//! are not valid at the current point are dropped without an error, so
//! unsupported shapes (a non-record root, a tagged variant anywhere in the
//! value) give truncated or malformed output rather than a failure.
//!
//! `chars` holds the text helpers and the renaming policies, `machine` the
//! state machine as a specification, `json_ser` the executable aggregator
//! and entry points, and `laws` the proofs of what the transcoder
//! guarantees.
pub mod chars;
pub mod json_ser;
pub mod laws;
pub mod machine;
