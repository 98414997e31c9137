//! The engine's response record and the positional value decoder.

use crate::vars::{BoolVar, IntVar};
use crate::Error;
use vstd::prelude::*;

verus! {

/// The solve status reported by the external engine.
#[derive(Clone, Copy, Debug, PartialEq, Eq, Structural)]
pub enum SolverStatus {
    /// The search ended without a conclusion.
    Unknown,
    /// The problem message was rejected by the engine.
    ModelInvalid,
    /// A feasible assignment was found, optimality not established.
    Feasible,
    /// No feasible assignment exists.
    Infeasible,
    /// An optimal feasible assignment was found.
    Optimal,
}

/// The status carries an assignment that can be decoded.
pub open spec fn has_solution(s: SolverStatus) -> bool {
    s is Feasible || s is Optimal
}

/// A decoded engine response: the status, and one value per variable index,
/// positionally aligned with the problem's variable list.  The tag names the
/// builder whose problem was solved, so that decoding with a foreign handle
/// is a checked error.
#[derive(Debug)]
pub struct SolverResponse {
    /// Identity tag of the builder whose problem produced this response.
    pub tag: u64,
    /// The engine's solve status.
    pub status: SolverStatus,
    /// One value per variable, in index order; empty when no assignment.
    pub values: Vec<i64>,
}

impl SolverStatus {
    /// The status carries an assignment that can be decoded.
    pub fn is_solution(&self) -> (r: bool)
        ensures
            r == has_solution(*self),
    {
        match self {
            SolverStatus::Feasible => true,
            SolverStatus::Optimal => true,
            _ => false,
        }
    }
}

impl IntVar {
    /// Decodes this variable's solved value from a response of its builder's
    /// problem, by position.  Fails with [`Error::InvalidHandle`] when the
    /// response does not belong to this handle's builder or lacks a value at
    /// its index, and with [`Error::NoSolutionAvailable`] when the status
    /// carries no assignment.
    pub fn solution_value(&self, r: &SolverResponse) -> (v: Result<i64, Error>)
        ensures
            match v {
                Ok(x) => {
                    &&& self.tag == r.tag
                    &&& self.index < r.values@.len()
                    &&& has_solution(r.status)
                    &&& x == r.values@[self.index as int]
                },
                Err(Error::InvalidHandle) => !(self.tag == r.tag && self.index
                    < r.values@.len()),
                Err(Error::NoSolutionAvailable) => {
                    &&& self.tag == r.tag
                    &&& self.index < r.values@.len()
                    &&& !has_solution(r.status)
                },
                Err(_) => false,
            },
    {
        if self.tag != r.tag || self.index >= r.values.len() {
            return Err(Error::InvalidHandle);
        }
        if !r.status.is_solution() {
            return Err(Error::NoSolutionAvailable);
        }
        Ok(r.values[self.index])
    }
}

impl BoolVar {
    /// Decodes this boolean variable's solved value from a response of its
    /// builder's problem: true exactly when the stored value is 1.  Fails
    /// with [`Error::InvalidHandle`] when the response does not belong to
    /// this handle's builder or lacks a value at its index, and with
    /// [`Error::NoSolutionAvailable`] when the status carries no assignment.
    pub fn solution_value(&self, r: &SolverResponse) -> (v: Result<bool, Error>)
        ensures
            match v {
                Ok(x) => {
                    &&& self.tag == r.tag
                    &&& self.index < r.values@.len()
                    &&& has_solution(r.status)
                    &&& x == (r.values@[self.index as int] == 1)
                },
                Err(Error::InvalidHandle) => !(self.tag == r.tag && self.index
                    < r.values@.len()),
                Err(Error::NoSolutionAvailable) => {
                    &&& self.tag == r.tag
                    &&& self.index < r.values@.len()
                    &&& !has_solution(r.status)
                },
                Err(_) => false,
            },
    {
        if self.tag != r.tag || self.index >= r.values.len() {
            return Err(Error::InvalidHandle);
        }
        if !r.status.is_solution() {
            return Err(Error::NoSolutionAvailable);
        }
        Ok(r.values[self.index] == 1)
    }
}

} // verus!
