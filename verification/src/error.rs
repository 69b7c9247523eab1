use vstd::prelude::*;
use vstd::string::StringExecFns;

verus! {

/// The errors of an analysis.
#[derive(Debug)]
pub enum ChurnLensError {
    ParseError(String),
    GitError(String),
    IoError(String),
}

/// The text by which an error describes itself.
pub open spec fn error_message(e: ChurnLensError) -> Seq<char> {
    match e {
        ChurnLensError::ParseError(msg) => "Parse error: "@ + msg@,
        ChurnLensError::GitError(msg) => "Git error: "@ + msg@,
        ChurnLensError::IoError(msg) => "IO error: "@ + msg@,
    }
}

impl ChurnLensError {
    /// The text by which the error describes itself: its kind, then its
    /// message.
    pub fn message(&self) -> (s: String)
        ensures
            s@ == error_message(*self),
    {
        match self {
            ChurnLensError::ParseError(msg) => String::from_str("Parse error: ").concat(msg.as_str()),
            ChurnLensError::GitError(msg) => String::from_str("Git error: ").concat(msg.as_str()),
            ChurnLensError::IoError(msg) => String::from_str("IO error: ").concat(msg.as_str()),
        }
    }
}

} // verus!
