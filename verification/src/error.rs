//! The ways in which loading or saving a credentials file can fail.

use vstd::prelude::*;

verus! {

#[derive(Debug)]
pub enum Error {
    /// The file at this path could not be opened or read.
    FileNotFound(String),
    /// The text of the file could not be turned into profiles.
    FailedToParse,
    /// The file at this path could not be created or written.
    WriteFailed(String),
    /// The home directory of the current user could not be found.
    HomeDirNotFound,
}

impl Error {
    /// The message that describes this error.
    pub fn message(&self) -> (text: String)
        ensures
            text@ == match *self {
                Error::FileNotFound(path) => "File not found: "@ + path@,
                Error::FailedToParse => "Failed to parse"@,
                Error::WriteFailed(path) => "Failed to write: "@ + path@,
                Error::HomeDirNotFound => "Home directory not found"@,
            },
    {
        match self {
            Error::FileNotFound(path) => {
                let mut text = String::from_str("File not found: ");
                text.append(path.as_str());
                text
            },
            Error::FailedToParse => String::from_str("Failed to parse"),
            Error::WriteFailed(path) => {
                let mut text = String::from_str("Failed to write: ");
                text.append(path.as_str());
                text
            },
            Error::HomeDirNotFound => String::from_str("Home directory not found"),
        }
    }
}

} // verus!
