//! The ways in which an operation of the pager can fail.

use vstd::prelude::*;

verus! {

/// What went wrong in a navigation or search operation.
#[derive(Debug, Clone, Copy, PartialEq, Eq, Structural)]
pub enum PagerError {
    /// The eight bytes after a seek target hold no start of a code point.
    BoundaryNotFound,
    /// A move forward was asked for where no byte is left to read.
    EndOfInput,
    /// The search expression is not a regular expression.
    InvalidPattern,
    /// A display width of zero columns was given.
    InvalidWidth,
    /// The byte source could not seek or read.
    Io,
}

impl PagerError {
    /// A short text for the status line.
    pub fn message(&self) -> (text: &'static str)
        ensures
            text@ == match *self {
                PagerError::BoundaryNotFound => "no valid position found"@,
                PagerError::EndOfInput => "end of input"@,
                PagerError::InvalidPattern => "invalid search pattern"@,
                PagerError::InvalidWidth => "screen width is zero"@,
                PagerError::Io => "input failure"@,
            },
    {
        match self {
            PagerError::BoundaryNotFound => "no valid position found",
            PagerError::EndOfInput => "end of input",
            PagerError::InvalidPattern => "invalid search pattern",
            PagerError::InvalidWidth => "screen width is zero",
            PagerError::Io => "input failure",
        }
    }
}

} // verus!
