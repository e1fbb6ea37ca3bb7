//! The crate's error type. Failures of outside collaborators (repository
//! access, persistence, clipboard) are carried as their rendered messages.

use vstd::prelude::*;

verus! {

/// Everything that can go wrong around a review session.
#[derive(Debug, Clone, PartialEq, Eq)]
pub enum TuicrError {
    Git(String),
    Io(String),
    Serialization(String),
    NotARepository,
    NoChanges,
    NoComments,
    CorruptedSession(String),
    Clipboard(String),
}

impl TuicrError {
    /// The user-facing description of this error.
    pub open spec fn spec_message(self) -> Seq<char> {
        match self {
            TuicrError::Git(s) => "Git error: "@ + s@,
            TuicrError::Io(s) => "IO error: "@ + s@,
            TuicrError::Serialization(s) => "JSON serialization error: "@ + s@,
            TuicrError::NotARepository => "Not a git repository"@,
            TuicrError::NoChanges => "No changes to review"@,
            TuicrError::NoComments => "No comments to export - skipping copy"@,
            TuicrError::CorruptedSession(s) => "Review session corrupted: "@ + s@,
            TuicrError::Clipboard(s) => "Clipboard error: "@ + s@,
        }
    }

    /// Render the user-facing description of this error.
    pub fn message(&self) -> (r: String)
        ensures
            r@ == self.spec_message(),
    {
        let mut out = String::new();
        match self {
            TuicrError::Git(s) => {
                out.append("Git error: ");
                out.append(s.as_str());
            },
            TuicrError::Io(s) => {
                out.append("IO error: ");
                out.append(s.as_str());
            },
            TuicrError::Serialization(s) => {
                out.append("JSON serialization error: ");
                out.append(s.as_str());
            },
            TuicrError::NotARepository => {
                out.append("Not a git repository");
            },
            TuicrError::NoChanges => {
                out.append("No changes to review");
            },
            TuicrError::NoComments => {
                out.append("No comments to export - skipping copy");
            },
            TuicrError::CorruptedSession(s) => {
                out.append("Review session corrupted: ");
                out.append(s.as_str());
            },
            TuicrError::Clipboard(s) => {
                out.append("Clipboard error: ");
                out.append(s.as_str());
            },
        }
        proof {
            assert(out@ =~= self.spec_message());
        }
        out
    }
}

} // verus!
