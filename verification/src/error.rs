//! The failures that the library itself can report.

use vstd::prelude::*;
use vstd::string::*;

verus! {

/// A failure of one operation. No operation is retried after one.
#[derive(Debug, Clone, Copy, PartialEq, Eq, Structural)]
pub enum Error {
    /// The parts given for an event do not describe a start, a command or an
    /// exit code.
    InvalidParams,
}

impl Error {
    /// The text of the one-line diagnostic for this failure.
    pub open spec fn message_text(self) -> Seq<char> {
        match self {
            Error::InvalidParams => "invalid parameters"@,
        }
    }

    /// The one-line diagnostic for this failure.
    pub fn message(&self) -> (r: String)
        ensures
            r@ == self.message_text(),
    {
        match self {
            Error::InvalidParams => String::from_str("invalid parameters"),
        }
    }
}

} // verus!
