//! A builder for constraint-satisfaction / integer-programming models.
//!
//! The crate lets a caller declare bounded integer and boolean variables,
//! compose linear expressions over them, attach linear, conjunction and
//! disequality constraints plus an optional linear objective, and obtain a
//! deterministic wire-format snapshot of the finished problem for an external
//! solving engine.  A response decoder resolves per-variable values from the
//! engine's answer using the original variable handles.

use vstd::prelude::*;

pub mod cli;
pub mod domain;
pub mod expr;
pub mod feasible;
pub mod model;
pub mod response;
pub mod vars;
pub mod wire;

verus! {

/// Errors surfaced by model construction and response decoding.
///
/// Construction errors are reported at the call that caused them and never
/// leave the builder partially mutated.
#[derive(Clone, Copy, Debug, PartialEq, Eq, Structural)]
pub enum Error {
    /// Interval bounds are malformed: an empty interval list, or `lo > hi`.
    InvalidDomain,
    /// A handle was used against a builder that did not issue it.
    InvalidHandle,
    /// Coefficient or bound arithmetic left the supported integer range.
    ArithmeticOverflow,
    /// The response's status carries no assignment to decode.
    NoSolutionAvailable,
}

} // verus!
