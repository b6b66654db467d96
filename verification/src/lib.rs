//! Resolution of `derived_from` references in the description of a
//! microcontroller, and the construction of a self-contained model of the
//! device from the result.
//!
//! - [`raw`] holds the raw device tree, with every reference as written.
//! - [`lookup`] finds the entity that a name or a dotted path refers to.
//! - [`merge`] states and applies the override rules of derivation.
//! - [`resolved`] defines what resolution yields; [`resolve`] computes it.
//! - [`builder`] turns a resolved tree into the model of [`model`].
//! - [`convert`] does both in one call.
//! - [`encode`] writes the model as a [`document`].
//! - [`laws`] states what holds of all this; [`keys`] and [`chains`] hold
//!   the lemmas that the engine and the laws rest on.

pub mod builder;
pub mod chains;
pub mod convert;
pub mod copy;
pub mod document;
pub mod encode;
pub mod error;
pub mod keys;
pub mod laws;
pub mod lookup;
pub mod merge;
pub mod model;
pub mod raw;
pub mod resolve;
pub mod resolved;
