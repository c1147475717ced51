//! Structural differencing for JSON-shaped values.
//!
//! Given two tree-shaped values the differ computes an ordered list of
//! add/remove/replace operations that, applied in order to the first value,
//! reproduce the second.

pub mod diff;
pub mod keys;
pub mod laws;
pub mod op;
pub mod pointer;
pub mod value;
