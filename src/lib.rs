//! Anonymous build targets: targets synthesized at analysis time from a rule
//! and attribute values, identified by the structure of those values alone.
//!
//! - [`label`], [`file_name`]: target labels and file names, and their syntax.
//! - [`attrs`], [`anon_target`]: attribute schemas and values, the coercion of
//!   raw input against a schema, and the descriptor and key of a target.
//! - [`registry`], [`binder`]: pending requests of an analysis scope, and the
//!   binding of resolved results back to their promises.
//! - [`memo`]: single-flight memoization of resolution.
//! - [`analysis`]: the decisions of analysing one target.
//! - [`deferred_key`]: the owners of deferred computations.
//! - [`laws`]: what holds of descriptors across inputs.

pub mod analysis;
pub mod anon_target;
pub mod attrs;
pub mod binder;
pub mod deferred_key;
pub mod error;
pub mod file_name;
pub mod label;
pub mod laws;
pub mod memo;
pub mod registry;
