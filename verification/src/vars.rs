//! Typed handles for model variables.
//!
//! A handle carries the identity tag of the builder that issued it together
//! with the variable's dense index, so that using it against another builder
//! is a checked, recoverable error rather than a silent misread.

use vstd::prelude::*;

verus! {

/// The kind of a model variable.
#[derive(Clone, Copy, Debug, PartialEq, Eq, Structural)]
pub enum VarKind {
    /// A boolean variable; its value decodes to exactly 0 or 1.
    Bool,
    /// A bounded integer variable.
    Int,
}

/// A reference to a boolean variable of one specific builder.
///
/// Callers treat it as opaque: its only uses are building expressions and
/// constraints and looking up solved values.
#[derive(Clone, Copy, Debug)]
pub struct BoolVar {
    /// The identity tag of the issuing builder.
    pub tag: u64,
    /// The dense index assigned at creation time.
    pub index: usize,
}

/// A reference to an integer variable of one specific builder.
///
/// Callers treat it as opaque: its only uses are building expressions and
/// constraints and looking up solved values.
#[derive(Clone, Copy, Debug)]
pub struct IntVar {
    /// The identity tag of the issuing builder.
    pub tag: u64,
    /// The dense index assigned at creation time.
    pub index: usize,
}

} // verus!
