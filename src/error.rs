use vstd::prelude::*;
use vstd::string::StringExecFns;

verus! {

/// Something that can describe itself to a user.
pub trait Error {
    fn message(&self) -> String;
}

/// Why the evaluation of an expression stopped without a result.
#[derive(Clone, Copy, Debug, PartialEq, Eq, Structural)]
pub enum RuntimeError {
    /// No more specific cause; also, binder numbers that would not fit in a `usize`.
    Unknown,
    /// The internal placeholder expression was evaluated.
    NothingEval,
    /// The nesting bound was exceeded: no weak head normal form was found.
    RecursionDepthExceeded,
    /// The step bound was exceeded at one level of the evaluation.
    IterationExceeded,
}

impl RuntimeError {
    pub fn new() -> (r: RuntimeError)
        ensures
            r == RuntimeError::Unknown,
    {
        RuntimeError::Unknown
    }
}

impl Default for RuntimeError {
    fn default() -> (r: RuntimeError)
        ensures
            r == RuntimeError::Unknown,
    {
        RuntimeError::Unknown
    }
}

pub open spec fn runtime_text(e: RuntimeError) -> Seq<char> {
    match e {
        RuntimeError::Unknown => "Unknown error"@,
        RuntimeError::NothingEval => "Tried to evaluate a nothing expression"@,
        RuntimeError::RecursionDepthExceeded =>
            "Recursion depth exceeded:\n\tIt is impossible to find a Weak Head Normal Form."@,
        RuntimeError::IterationExceeded =>
            "Max eval iterations exceeded:\n\tIt is possible to find a Weak Head Normal Form, but not a Normal Form."@,
    }
}

impl Error for RuntimeError {
    fn message(&self) -> (r: String)
        ensures
            r@ == runtime_text(*self),
    {
        match self {
            RuntimeError::Unknown => String::from_str("Unknown error"),
            RuntimeError::NothingEval => String::from_str("Tried to evaluate a nothing expression"),
            RuntimeError::RecursionDepthExceeded => String::from_str(
                "Recursion depth exceeded:\n\tIt is impossible to find a Weak Head Normal Form.",
            ),
            RuntimeError::IterationExceeded => String::from_str(
                "Max eval iterations exceeded:\n\tIt is possible to find a Weak Head Normal Form, but not a Normal Form.",
            ),
        }
    }
}

} // verus!
