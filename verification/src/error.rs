//! Library error type.
use vstd::prelude::*;

verus! {

/// Errors reported by the engine.
#[derive(Debug, Clone)]
pub enum WavyteError {
    /// The input does not satisfy a documented constraint.
    Validation(String),
    /// A runtime step could not be carried out.
    Evaluation(String),
}

impl WavyteError {
    /// A validation error with the given message.
    pub fn validation(msg: &str) -> (e: WavyteError)
        ensures
            e matches WavyteError::Validation(m) && m@ == msg@,
    {
        WavyteError::Validation(String::from_str(msg))
    }

    /// An evaluation error with the given message.
    pub fn evaluation(msg: &str) -> (e: WavyteError)
        ensures
            e matches WavyteError::Evaluation(m) && m@ == msg@,
    {
        WavyteError::Evaluation(String::from_str(msg))
    }

    /// An equal copy of the error.
    pub fn duplicate(&self) -> (e: WavyteError)
        ensures
            e == *self,
    {
        match self {
            WavyteError::Validation(s) => WavyteError::Validation(s.clone()),
            WavyteError::Evaluation(s) => WavyteError::Evaluation(s.clone()),
        }
    }

    /// The error message.
    pub fn message(&self) -> (m: &str)
        ensures
            m@ == match self {
                WavyteError::Validation(s) => s@,
                WavyteError::Evaluation(s) => s@,
            },
    {
        match self {
            WavyteError::Validation(s) => s.as_str(),
            WavyteError::Evaluation(s) => s.as_str(),
        }
    }
}

/// Result alias used throughout the engine.
pub type WavyteResult<T> = Result<T, WavyteError>;

} // verus!
