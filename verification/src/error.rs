//! The reasons for which a run is given up.

use vstd::prelude::*;
use vstd::string::*;

verus! {

/// Why no Makefile was produced. Every error ends the run: there is no
/// partial output.
#[derive(Clone, Copy, Debug, PartialEq, Eq, Structural)]
pub enum MakeError {
    /// A directory of the traversal could not be listed, or held an entry
    /// that is neither a regular file nor a directory.
    UnreadableRoot,
    /// A compilation unit has no extension, or no path separator before it,
    /// so that no object file can be derived from it.
    InvalidUnitPath,
    /// No compilation unit is among the files: there is nothing to build.
    NoSourceFiles,
}

impl MakeError {
    /// The text of the error's message.
    pub open spec fn message_text(self) -> Seq<char> {
        match self {
            MakeError::UnreadableRoot => "a directory could not be read"@,
            MakeError::InvalidUnitPath => "a source file has no extension or no source root"@,
            MakeError::NoSourceFiles => "no source files were found"@,
        }
    }

    /// A message for the user.
    pub fn message(&self) -> (s: String)
        ensures
            s@ == self.message_text(),
    {
        match self {
            MakeError::UnreadableRoot => String::from_str("a directory could not be read"),
            MakeError::InvalidUnitPath => String::from_str(
                "a source file has no extension or no source root",
            ),
            MakeError::NoSourceFiles => String::from_str("no source files were found"),
        }
    }
}

} // verus!
