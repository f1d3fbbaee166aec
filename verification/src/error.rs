//! The ways in which a collaboration request can fail.

use vstd::prelude::*;

verus! {

/// Why a collaboration request was turned down.
#[derive(Debug, Clone, Copy, PartialEq, Eq, Structural)]
pub enum CollaborationError {
    /// The document has no session: it was never joined, or it was left.
    NoActiveSession,
    /// The connection for the document could not be set up.
    TransportError,
    /// Two operations that have to start from the same text do not.
    RevisionMismatch,
    /// The merged text would be longer than this machine can count.
    LengthOverflow,
}

impl CollaborationError {
    /// The text of `message`.
    pub open spec fn message_text(self) -> Seq<char> {
        match self {
            CollaborationError::NoActiveSession => "No active collaboration session for note"@,
            CollaborationError::TransportError => "Could not connect to the collaboration server"@,
            CollaborationError::RevisionMismatch => "Operations do not share a base revision"@,
            CollaborationError::LengthOverflow => "Merged text is too long"@,
        }
    }

    /// A sentence for the user.
    pub fn message(&self) -> (text: String)
        ensures
            text@ == self.message_text(),
    {
        match self {
            CollaborationError::NoActiveSession => "No active collaboration session for note".to_owned(),
            CollaborationError::TransportError => "Could not connect to the collaboration server".to_owned(),
            CollaborationError::RevisionMismatch => "Operations do not share a base revision".to_owned(),
            CollaborationError::LengthOverflow => "Merged text is too long".to_owned(),
        }
    }
}

} // verus!
