//! The recoverable failures of the core.

use vstd::prelude::*;
use vstd::string::StringExecFns;

verus! {

/// A failure that the caller reports and survives: the operation that met it is
/// given up, and the application goes on.
#[derive(Debug, Clone, Copy, PartialEq, Eq, Structural)]
pub enum Error {
    /// The state was in use: an event arrived while a render pass was open.
    LockFailed,
    /// An address names nothing: no component is kept under a path, or a layout
    /// refers to a node that its tree does not hold.
    InvalidId,
    /// Components nest in one another beyond the renderer's limit.
    TooDeep,
}

impl Error {
    /// The text of [`Error::message`].
    pub open spec fn spec_message(self) -> Seq<char> {
        match self {
            Error::LockFailed => "lock failed"@,
            Error::InvalidId => "invalid id"@,
            Error::TooDeep => "nesting too deep"@,
        }
    }

    /// A short description for a log.
    pub fn message(&self) -> (text: String)
        ensures
            text@ == self.spec_message(),
    {
        match self {
            Error::LockFailed => String::from_str("lock failed"),
            Error::InvalidId => String::from_str("invalid id"),
            Error::TooDeep => String::from_str("nesting too deep"),
        }
    }
}

} // verus!
