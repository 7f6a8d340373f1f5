//! The errors that the library reports.

use vstd::prelude::*;
use vstd::string::*;

verus! {

/// An error of the pipeline.
#[derive(Debug)]
pub enum Error {
    /// A frame's format string could not be split into fragments. Holds the
    /// parser's message, or nothing where the string was turned away before
    /// the parser saw it.
    DefmtParser(Option<String>),
    /// The context manager found its own state inconsistent.
    ContextManagerInternalState,
}

impl Error {
    /// The message that describes the error.
    pub open spec fn message_text(self) -> Seq<char> {
        match self {
            Error::DefmtParser(_) => "Encountered a defmt parser error"@,
            Error::ContextManagerInternalState => "Context manager is in an inconsistent state"@,
        }
    }

    /// The message that describes the error.
    pub fn message(&self) -> (s: String)
        ensures
            s@ == self.message_text(),
    {
        match self {
            Error::DefmtParser(_) => String::from_str("Encountered a defmt parser error"),
            Error::ContextManagerInternalState => String::from_str(
                "Context manager is in an inconsistent state",
            ),
        }
    }
}

} // verus!
