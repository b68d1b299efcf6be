//! What an evaluation ends in.

use crate::env::{Environment, Shell};
use crate::error::{ErrorView, RuntimeError};
use vstd::prelude::*;

verus! {

/// What an evaluation ends in.
pub enum Outcome<T> {
    /// It has a value.
    Value(T),
    /// It fails.
    Error(ErrorView),
    /// Nothing is defined: it comes upon something that has no meaning,
    /// such as a number that is too large or a construct that cannot be evaluated.
    Undefined,
}

/// Why an evaluation has no value.
pub enum Abort {
    /// It failed.
    Error(RuntimeError),
    /// It came upon something that has no meaning.
    Undefined,
}

impl Abort {
    /// The outcome of an evaluation without a value.
    pub open spec fn outcome<T>(self) -> Outcome<T> {
        match self {
            Abort::Error(e) => Outcome::Error(e@),
            Abort::Undefined => Outcome::Undefined,
        }
    }
}

impl<T> Outcome<T> {
    /// The outcome of what cannot go on after one without a value.
    pub open spec fn without_value<U>(self) -> Outcome<U> {
        match self {
            Outcome::Error(e) => Outcome::Error(e),
            _ => Outcome::Undefined,
        }
    }
}

/// The outcome that a result shows, where its value is one.
pub open spec fn outcome_of<T>(result: Result<T, Abort>) -> Outcome<T> {
    match result {
        Ok(value) => Outcome::Value(value),
        Err(abort) => abort.outcome(),
    }
}

/// Whether an evaluation had the outcome, and changed nothing of the environment
/// but what words see of it, as it says.
pub open spec fn evaluated<T, E: Environment>(
    before: E,
    after: E,
    result: Outcome<T>,
    expected: (Outcome<T>, Shell),
) -> bool {
    &&& result == expected.0
    &&& after.state() == before.state().with_shell(expected.1)
}

/// What an evaluation gives that is known to have a meaning.
pub open spec fn defined_result<T>(result: Result<T, RuntimeError>) -> Outcome<T> {
    match result {
        Ok(value) => Outcome::Value(value),
        Err(e) => Outcome::Error(e@),
    }
}

} // verus!
