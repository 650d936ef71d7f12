//! Errors of the library.

use vstd::prelude::*;

verus! {

/// Why a directory could not be scanned. Paths are held as the text they
/// display as.
#[derive(Debug, Clone)]
pub enum RuddError {
    DirectoryNotFound(String),
    NotADirectory(String),
    /// An input/output failure, with the failure's own message.
    IoError(String),
    AccessDenied { path: String },
}

/// The result of an operation of the library.
pub type Result<T> = std::result::Result<T, RuddError>;

/// The text that an error displays as.
pub open spec fn error_message(e: RuddError) -> Seq<char> {
    match e {
        RuddError::DirectoryNotFound(p) => "Directory not found: "@ + p@,
        RuddError::NotADirectory(p) => "Path is not a directory: "@ + p@,
        RuddError::IoError(m) => "IO error: "@ + m@,
        RuddError::AccessDenied { path } => "Failed to access path: "@ + path@,
    }
}

impl RuddError {
    /// The text that the error displays as.
    pub fn message(&self) -> (m: String)
        ensures
            m@ == error_message(*self),
    {
        let (head, tail) = match self {
            RuddError::DirectoryNotFound(p) => ("Directory not found: ", p),
            RuddError::NotADirectory(p) => ("Path is not a directory: ", p),
            RuddError::IoError(m) => ("IO error: ", m),
            RuddError::AccessDenied { path } => ("Failed to access path: ", path),
        };
        let mut m = String::from_str(head);
        m.append(tail.as_str());
        m
    }
}

} // verus!
