//! The ways an analysis can fail.

use vstd::prelude::*;

verus! {

/// Why an analysis was given up. Every error ends the operation it occurs
/// in: nothing is retried, and no partial result is handed out.
#[derive(Clone, Copy, Debug, PartialEq, Eq, Structural)]
pub enum ClocError {
    /// The path given for a single file does not name a file.
    NotAFile,
    /// The path given for a directory does not name a directory.
    NotADirectory,
    /// The file is no Rust source file.
    UnsupportedFileType,
    /// A directory could not be listed, or a file could not be read.
    IoFailure,
}

impl ClocError {
    /// A short description for the user.
    pub fn describe(&self) -> (text: &'static str)
        ensures
            text@ == match *self {
                ClocError::NotAFile => "Not a file"@,
                ClocError::NotADirectory => "Not a directory"@,
                ClocError::UnsupportedFileType => "Not a rust file"@,
                ClocError::IoFailure => "Could not read from the file system"@,
            },
    {
        match self {
            ClocError::NotAFile => "Not a file",
            ClocError::NotADirectory => "Not a directory",
            ClocError::UnsupportedFileType => "Not a rust file",
            ClocError::IoFailure => "Could not read from the file system",
        }
    }
}

} // verus!
