//! Sessions: who takes part in the editing of a document, how far its
//! revisions have come, and the edits that travel between participants.

use vstd::prelude::*;
use crate::operation::{OperationView, TextOperation};

verus! {

/// A participant as a mathematical value.
pub struct UserView {
    pub id: Seq<char>,
    pub name: Seq<char>,
    pub color: Seq<char>,
    pub cursor_position: Option<usize>,
    pub selection_range: Option<(usize, usize)>,
}

/// A participant in a session. Presence is not stored anywhere.
#[derive(Debug)]
pub struct User {
    pub id: String,
    pub name: String,
    /// Colour in which the caret and the selection of this user are shown.
    pub color: String,
    pub cursor_position: Option<usize>,
    pub selection_range: Option<(usize, usize)>,
}

impl View for User {
    type V = UserView;

    open spec fn view(&self) -> UserView {
        UserView {
            id: self.id@,
            name: self.name@,
            color: self.color@,
            cursor_position: self.cursor_position,
            selection_range: self.selection_range,
        }
    }
}

impl Clone for User {
    fn clone(&self) -> (c: Self)
        ensures
            c@ == self@,
    {
        User {
            id: self.id.clone(),
            name: self.name.clone(),
            color: self.color.clone(),
            cursor_position: self.cursor_position,
            selection_range: self.selection_range,
        }
    }
}

/// The participants that a list of users stands for.
pub open spec fn users_view(users: Seq<User>) -> Seq<UserView> {
    Seq::new(users.len(), |i: int| users[i]@)
}

/// A session as a mathematical value.
pub struct SessionView {
    pub note_id: Seq<char>,
    pub participants: Seq<UserView>,
    pub current_revision: u64,
    pub is_active: bool,
}

/// The state of the shared editing of one document.
#[derive(Debug)]
pub struct CollaborationSession {
    pub note_id: String,
    pub participants: Vec<User>,
    /// The highest revision seen so far, of local and of remote edits.
    pub current_revision: u64,
    pub is_active: bool,
}

impl View for CollaborationSession {
    type V = SessionView;

    open spec fn view(&self) -> SessionView {
        SessionView {
            note_id: self.note_id@,
            participants: users_view(self.participants@),
            current_revision: self.current_revision,
            is_active: self.is_active,
        }
    }
}

impl Clone for CollaborationSession {
    fn clone(&self) -> (c: Self)
        ensures
            c@ == self@,
    {
        let mut participants: Vec<User> = Vec::new();
        let mut i: usize = 0;
        while i < self.participants.len()
            invariant
                i <= self.participants.len(),
                participants.len() == i,
                forall|j: int| 0 <= j < i ==> (#[trigger] participants[j])@ == self.participants[j]@,
            decreases self.participants.len() - i,
        {
            participants.push(self.participants[i].clone());
            i = i + 1;
        }
        let c = CollaborationSession {
            note_id: self.note_id.clone(),
            participants,
            current_revision: self.current_revision,
            is_active: self.is_active,
        };
        assert(c@.participants =~= self@.participants);
        c
    }
}

/// An edit as a mathematical value.
pub struct EditView {
    pub id: Seq<char>,
    pub note_id: Seq<char>,
    pub user_id: Seq<char>,
    pub operation: OperationView,
    pub timestamp: i64,
    pub revision: u64,
}

/// One operation as it travels between participants.
#[derive(Debug)]
pub struct CollaborativeEdit {
    pub id: String,
    pub note_id: String,
    pub user_id: String,
    pub operation: TextOperation,
    /// When the edit was made, in milliseconds since the start of 1970 (UTC).
    pub timestamp: i64,
    /// The author's revision of the document with this edit applied.
    pub revision: u64,
}

impl View for CollaborativeEdit {
    type V = EditView;

    open spec fn view(&self) -> EditView {
        EditView {
            id: self.id@,
            note_id: self.note_id@,
            user_id: self.user_id@,
            operation: self.operation@,
            timestamp: self.timestamp,
            revision: self.revision,
        }
    }
}

impl Clone for CollaborativeEdit {
    fn clone(&self) -> (c: Self)
        ensures
            c@ == self@,
    {
        CollaborativeEdit {
            id: self.id.clone(),
            note_id: self.note_id.clone(),
            user_id: self.user_id.clone(),
            operation: self.operation.clone(),
            timestamp: self.timestamp,
            revision: self.revision,
        }
    }
}

/// The edits that a list of edits stands for.
pub open spec fn edits_view(edits: Seq<CollaborativeEdit>) -> Seq<EditView> {
    Seq::new(edits.len(), |i: int| edits[i]@)
}

/// Where the joining of a document stands.
#[derive(Debug, Clone, Copy, PartialEq, Eq, Structural)]
pub enum SessionPhase {
    /// Not joined, and no attempt to join under way.
    Inactive,
    /// The connection for the document is being set up.
    Joining,
    /// Joined: the document has a session.
    Active,
    /// Left. This is the end of the session; joining the document again
    /// starts anew from `Inactive`.
    Left,
}

/// What moves the joining of a document on.
#[derive(Debug, Clone, Copy, PartialEq, Eq, Structural)]
pub enum SessionSignal {
    /// The participant asks to join.
    Join,
    /// The connection stands.
    Connected,
    /// The connection could not be set up.
    ConnectionFailed,
    /// The participant leaves.
    Leave,
}

/// The phase that follows `phase` on `signal`. Joining leads from inactive
/// over the setting up of the connection to active, or back to inactive where
/// the connection fails; leaving ends whatever has begun and changes nothing
/// where nothing has; nothing leads out of `Left`; a signal that does not fit
/// the phase changes nothing.
pub open spec fn phase_after(phase: SessionPhase, signal: SessionSignal) -> SessionPhase {
    match (phase, signal) {
        (SessionPhase::Inactive, SessionSignal::Join) => SessionPhase::Joining,
        (SessionPhase::Joining, SessionSignal::Connected) => SessionPhase::Active,
        (SessionPhase::Joining, SessionSignal::ConnectionFailed) => SessionPhase::Inactive,
        (SessionPhase::Joining, SessionSignal::Leave) => SessionPhase::Left,
        (SessionPhase::Active, SessionSignal::Leave) => SessionPhase::Left,
        _ => phase,
    }
}

/// The phase that follows `phase` on `signal`, as `phase_after` says.
pub fn next_phase(phase: SessionPhase, signal: SessionSignal) -> (next: SessionPhase)
    ensures
        next == phase_after(phase, signal),
{
    match (phase, signal) {
        (SessionPhase::Inactive, SessionSignal::Join) => SessionPhase::Joining,
        (SessionPhase::Joining, SessionSignal::Connected) => SessionPhase::Active,
        (SessionPhase::Joining, SessionSignal::ConnectionFailed) => SessionPhase::Inactive,
        (SessionPhase::Joining, SessionSignal::Leave) => SessionPhase::Left,
        (SessionPhase::Active, SessionSignal::Leave) => SessionPhase::Left,
        _ => phase,
    }
}

/// Leaving twice is leaving once, whatever the phase; and a session that was
/// left stays left.
pub proof fn lemma_leave_is_final(phase: SessionPhase, signal: SessionSignal)
    ensures
        phase_after(phase_after(phase, SessionSignal::Leave), SessionSignal::Leave) == phase_after(
            phase,
            SessionSignal::Leave,
        ),
        phase_after(SessionPhase::Left, signal) == SessionPhase::Left,
        phase_after(SessionPhase::Inactive, SessionSignal::Leave) == SessionPhase::Inactive,
{
}

} // verus!
