//! The collaboration manager: the sessions that this participant has joined,
//! the local edits that wait for the others to see them, and the merging of
//! remote edits.

use vstd::prelude::*;
use crate::error::CollaborationError;
use crate::operation::{apply_steps, OperationView, TextOperation};
use crate::presence::{generate_user_color, user_color_text};
use crate::session::{
    edits_view, users_view, CollaborationSession, CollaborativeEdit, EditView, SessionView, User,
    UserView,
};
use crate::sync::{SyncChannel, SyncChannelView, DEFAULT_CAPACITY};
use crate::transform::{transform, transform_model};

verus! {

/// What the manager holds for one document, as a mathematical value.
pub struct DocumentView {
    pub session: SessionView,
    /// Local edits that the other participants may not have seen yet, oldest
    /// first.
    pub pending: Seq<EditView>,
}

/// The manager as a mathematical value.
pub struct ManagerView {
    /// The joined documents, by document id.
    pub documents: Map<Seq<char>, DocumentView>,
    pub websocket_url: Seq<char>,
    pub user_id: Seq<char>,
    pub user_name: Seq<char>,
}

impl ManagerView {
    /// Each session is filed under its own document id, and every pending
    /// operation is complete.
    pub open spec fn wf(self) -> bool {
        forall|id: Seq<char>| #[trigger]
            self.documents.contains_key(id) ==> {
                &&& self.documents[id].session.note_id == id
                &&& forall|k: int|
                    0 <= k < self.documents[id].pending.len()
                        ==> (#[trigger] self.documents[id].pending[k]).operation.wf()
            }
    }

    /// The pending local edits of a document; none where it is not joined.
    pub open spec fn pending_of(self, id: Seq<char>) -> Seq<EditView> {
        if self.documents.contains_key(id) {
            self.documents[id].pending
        } else {
            Seq::<EditView>::empty()
        }
    }
}

/// The session of a participant who has just joined a document alone.
pub open spec fn fresh_session(note_id: Seq<char>, user_id: Seq<char>, user_name: Seq<char>) -> SessionView {
    SessionView {
        note_id,
        participants: seq![
            UserView {
                id: user_id,
                name: user_name,
                color: user_color_text(user_id),
                cursor_position: None,
                selection_range: None,
            },
        ],
        current_revision: 0,
        is_active: true,
    }
}

/// The address of the connection for a document.
pub open spec fn session_url_text(base: Seq<char>, note_id: Seq<char>) -> Seq<char> {
    base + "/notes/"@ + note_id + "/collaborate"@
}

/// Place of the first participant with this id, or the number of
/// participants where there is none.
pub open spec fn first_with_id(users: Seq<UserView>, id: Seq<char>) -> int
    decreases users.len(),
{
    if users.len() == 0 {
        0
    } else if users[0].id == id {
        0
    } else {
        1 + first_with_id(users.drop_first(), id)
    }
}

/// The participants with the caret of the first one with this id set.
pub open spec fn with_cursor(users: Seq<UserView>, id: Seq<char>, position: usize) -> Seq<UserView> {
    let i = first_with_id(users, id);
    if i < users.len() {
        users.update(i, UserView { cursor_position: Some(position), ..users[i] })
    } else {
        users
    }
}

/// The participants with the selection of the first one with this id set.
pub open spec fn with_selection(users: Seq<UserView>, id: Seq<char>, start: usize, end: usize) -> Seq<UserView> {
    let i = first_with_id(users, id);
    if i < users.len() {
        users.update(i, UserView { selection_range: Some((start, end)), ..users[i] })
    } else {
        users
    }
}

/// The remote operation after it has been transformed, oldest first, against
/// each pending local edit whose revision is above `revision`; or the first
/// failure of a transformation.
pub open spec fn transform_against(pending: Seq<EditView>, operation: OperationView, revision: u64) -> Result<OperationView, CollaborationError>
    decreases pending.len(),
{
    if pending.len() == 0 {
        Ok(operation)
    } else if pending[0].revision > revision {
        match transform_model(pending[0].operation, operation) {
            Ok(next) => transform_against(pending.drop_first(), next, revision),
            Err(e) => Err(e),
        }
    } else {
        transform_against(pending.drop_first(), operation, revision)
    }
}

/// The text that a remote edit makes of `content`, given the pending local
/// edits of its document; or why the edit is turned down.
pub open spec fn remote_result(pending: Seq<EditView>, edit: EditView, content: Seq<char>) -> Result<Seq<char>, CollaborationError> {
    match transform_against(pending, edit.operation, edit.revision) {
        Ok(operation) => Ok(apply_steps(operation.steps, content)),
        Err(e) => Err(e),
    }
}

/// What a remote edit comes to on a manager: `NoActiveSession` where its
/// document is not joined, else what `remote_result` says of the pending
/// local edits of that document.
pub open spec fn remote_outcome(manager: ManagerView, edit: EditView, content: Seq<char>) -> Result<Seq<char>, CollaborationError> {
    if manager.documents.contains_key(edit.note_id) {
        remote_result(manager.documents[edit.note_id].pending, edit, content)
    } else {
        Err(CollaborationError::NoActiveSession)
    }
}

/// A remote edit on a joined document fails only because a transformation
/// fails: with `RevisionMismatch` or `LengthOverflow`, never for want of a
/// session.
pub proof fn lemma_remote_failures(pending: Seq<EditView>, operation: OperationView, revision: u64)
    ensures
        match transform_against(pending, operation, revision) {
            Ok(_) => true,
            Err(e) => e == CollaborationError::RevisionMismatch || e
                == CollaborationError::LengthOverflow,
        },
    decreases pending.len(),
{
    if pending.len() > 0 {
        if pending[0].revision > revision {
            match transform_model(pending[0].operation, operation) {
                Ok(next) => {
                    lemma_remote_failures(pending.drop_first(), next, revision);
                },
                Err(e) => {},
            }
        } else {
            lemma_remote_failures(pending.drop_first(), operation, revision);
        }
    }
}

/// The larger of two revisions.
pub open spec fn max_revision(a: u64, b: u64) -> u64 {
    if a >= b {
        a
    } else {
        b
    }
}

/// The manager once a local edit of a joined document is recorded: the edit
/// gets the next revision, waits at the end of the pending edits, and the
/// session moves on to that revision.
pub open spec fn with_local_edit(
    manager: ManagerView,
    note_id: Seq<char>,
    operation: OperationView,
    edit_id: Seq<char>,
    timestamp: i64,
) -> ManagerView
    recommends
        manager.documents.contains_key(note_id),
        manager.documents[note_id].session.current_revision < u64::MAX,
{
    let doc = manager.documents[note_id];
    let revision = (doc.session.current_revision + 1) as u64;
    ManagerView {
        documents: manager.documents.insert(
            note_id,
            DocumentView {
                session: SessionView { current_revision: revision, ..doc.session },
                pending: doc.pending.push(
                    EditView {
                        id: edit_id,
                        note_id,
                        user_id: manager.user_id,
                        operation,
                        timestamp,
                        revision,
                    },
                ),
            },
        ),
        ..manager
    }
}

/// The manager once a remote edit at `revision` was seen for a document: the
/// session of a joined document is at the larger of its revision and that
/// one; nothing changes for a document that is not joined.
pub open spec fn with_remote_revision(manager: ManagerView, note_id: Seq<char>, revision: u64) -> ManagerView {
    if manager.documents.contains_key(note_id) {
        let doc = manager.documents[note_id];
        ManagerView {
            documents: manager.documents.insert(
                note_id,
                DocumentView {
                    session: SessionView {
                        current_revision: max_revision(doc.session.current_revision, revision),
                        ..doc.session
                    },
                    ..doc
                },
            ),
            ..manager
        }
    } else {
        manager
    }
}

/// The manager without a document.
pub open spec fn without_document(manager: ManagerView, note_id: Seq<char>) -> ManagerView {
    ManagerView { documents: manager.documents.remove(note_id), ..manager }
}

/// Something that happens to the session of a document.
pub enum SessionEvent {
    /// A local operation was applied and recorded.
    LocalEdit { operation: OperationView, edit_id: Seq<char>, timestamp: i64 },
    /// A remote edit at this revision was seen.
    RemoteEdit { revision: u64 },
}

/// The manager after one event for a document. A local edit changes nothing
/// where the document is not joined or its revisions are used up.
pub open spec fn after_event(manager: ManagerView, note_id: Seq<char>, event: SessionEvent) -> ManagerView {
    match event {
        SessionEvent::LocalEdit { operation, edit_id, timestamp } => {
            if manager.documents.contains_key(note_id)
                && manager.documents[note_id].session.current_revision < u64::MAX {
                with_local_edit(manager, note_id, operation, edit_id, timestamp)
            } else {
                manager
            }
        },
        SessionEvent::RemoteEdit { revision } => with_remote_revision(manager, note_id, revision),
    }
}

/// The manager after a run of events for a document.
pub open spec fn after_events(manager: ManagerView, note_id: Seq<char>, events: Seq<SessionEvent>) -> ManagerView
    decreases events.len(),
{
    if events.len() == 0 {
        manager
    } else {
        after_events(after_event(manager, note_id, events[0]), note_id, events.drop_first())
    }
}

/// Whatever local and remote edits a joined document sees, in whatever
/// order, it stays joined and its revision never goes down.
pub proof fn lemma_revision_never_decreases(manager: ManagerView, note_id: Seq<char>, events: Seq<SessionEvent>)
    requires
        manager.documents.contains_key(note_id),
    ensures
        after_events(manager, note_id, events).documents.contains_key(note_id),
        after_events(manager, note_id, events).documents[note_id].session.current_revision
            >= manager.documents[note_id].session.current_revision,
    decreases events.len(),
{
    if events.len() > 0 {
        let next = after_event(manager, note_id, events[0]);
        assert(next.documents.contains_key(note_id));
        assert(next.documents[note_id].session.current_revision
            >= manager.documents[note_id].session.current_revision);
        lemma_revision_never_decreases(next, note_id, events.drop_first());
    }
}

/// A local edit takes the session exactly one revision further.
pub proof fn lemma_local_edit_advances(
    manager: ManagerView,
    note_id: Seq<char>,
    operation: OperationView,
    edit_id: Seq<char>,
    timestamp: i64,
)
    requires
        manager.documents.contains_key(note_id),
        manager.documents[note_id].session.current_revision < u64::MAX,
    ensures
        with_local_edit(
            manager,
            note_id,
            operation,
            edit_id,
            timestamp,
        ).documents[note_id].session.current_revision
            == manager.documents[note_id].session.current_revision + 1,
{
}

/// Local edits are numbered strictly in the order in which they are made:
/// however many are made in a row on a joined document, each takes the
/// revision after the one before it, they wait in that order behind the
/// edits that were pending, and the session ends at the revision of the last.
pub proof fn lemma_local_edits_in_order(manager: ManagerView, note_id: Seq<char>, events: Seq<SessionEvent>)
    requires
        manager.documents.contains_key(note_id),
        forall|k: int| 0 <= k < events.len() ==> (#[trigger] events[k]) is LocalEdit,
        manager.documents[note_id].session.current_revision + events.len() <= u64::MAX,
    ensures
        after_events(manager, note_id, events).documents.contains_key(note_id),
        after_events(manager, note_id, events).documents[note_id].session.current_revision
            == manager.documents[note_id].session.current_revision + events.len(),
        after_events(manager, note_id, events).documents[note_id].pending.len()
            == manager.documents[note_id].pending.len() + events.len(),
        forall|k: int|
            0 <= k < manager.documents[note_id].pending.len() ==> (#[trigger] after_events(
                manager,
                note_id,
                events,
            ).documents[note_id].pending[k]) == manager.documents[note_id].pending[k],
        forall|k: int|
            0 <= k < events.len() ==> {
                let edit = #[trigger] after_events(
                    manager,
                    note_id,
                    events,
                ).documents[note_id].pending[manager.documents[note_id].pending.len() + k];
                &&& edit.revision == manager.documents[note_id].session.current_revision + k + 1
                &&& edit.operation == events[k]->LocalEdit_operation
                &&& edit.id == events[k]->LocalEdit_edit_id
                &&& edit.timestamp == events[k]->LocalEdit_timestamp
                &&& edit.note_id == note_id
                &&& edit.user_id == manager.user_id
            },
    decreases events.len(),
{
    if events.len() > 0 {
        let next = after_event(manager, note_id, events[0]);
        let rest = events.drop_first();
        let before = manager.documents[note_id].pending;
        let last = after_events(manager, note_id, events).documents[note_id].pending;
        assert(events[0] is LocalEdit);
        assert(next.documents[note_id].pending == before.push(next.documents[note_id].pending.last()));
        assert forall|k: int| 0 <= k < rest.len() implies (#[trigger] rest[k]) is LocalEdit by {
            assert(rest[k] == events[k + 1]);
        }
        lemma_local_edits_in_order(next, note_id, rest);
        assert(after_events(manager, note_id, events) == after_events(next, note_id, rest));
        assert forall|k: int| 0 <= k < before.len() implies (#[trigger] last[k]) == before[k] by {
            assert(next.documents[note_id].pending[k] == before[k]);
        }
        assert forall|k: int| 0 <= k < events.len() implies {
            let edit = #[trigger] last[before.len() + k];
            &&& edit.revision == manager.documents[note_id].session.current_revision + k + 1
            &&& edit.operation == events[k]->LocalEdit_operation
            &&& edit.id == events[k]->LocalEdit_edit_id
            &&& edit.timestamp == events[k]->LocalEdit_timestamp
            &&& edit.note_id == note_id
            &&& edit.user_id == manager.user_id
        } by {
            if k == 0 {
                assert(last[before.len() as int] == next.documents[note_id].pending[before.len() as int]);
            } else {
                assert(rest[k - 1] == events[k]);
                assert(last[before.len() + k] == last[next.documents[note_id].pending.len() + (k
                    - 1)]);
            }
        }
    }
}

/// Leaving leaves no session behind; leaving a document that is not joined
/// changes nothing; and so leaving twice is leaving once.
pub proof fn lemma_leave_idempotent(manager: ManagerView, note_id: Seq<char>)
    ensures
        !without_document(manager, note_id).documents.contains_key(note_id),
        !manager.documents.contains_key(note_id) ==> without_document(manager, note_id) == manager,
        without_document(without_document(manager, note_id), note_id) == without_document(
            manager,
            note_id,
        ),
{
    if !manager.documents.contains_key(note_id) {
        assert(manager.documents.remove(note_id) =~= manager.documents);
    }
    assert(manager.documents.remove(note_id).remove(note_id) =~= manager.documents.remove(note_id));
}

struct DocumentState {
    session: CollaborationSession,
    pending: Vec<CollaborativeEdit>,
}

impl View for DocumentState {
    type V = DocumentView;

    closed spec fn view(&self) -> DocumentView {
        DocumentView { session: self.session@, pending: edits_view(self.pending@) }
    }
}

spec fn key_at(docs: Seq<DocumentState>, i: int) -> Seq<char> {
    docs[i].session.note_id@
}

spec fn has_key(docs: Seq<DocumentState>, id: Seq<char>) -> bool {
    exists|i: int| 0 <= i < docs.len() && #[trigger] key_at(docs, i) == id
}

spec fn place_of(docs: Seq<DocumentState>, id: Seq<char>) -> int {
    choose|i: int| 0 <= i < docs.len() && #[trigger] key_at(docs, i) == id
}

spec fn distinct_keys(docs: Seq<DocumentState>) -> bool {
    forall|i: int, j: int|
        0 <= i < docs.len() && 0 <= j < docs.len() && #[trigger] key_at(docs, i) == #[trigger] key_at(docs, j) ==> i == j
}

spec fn documents_of(docs: Seq<DocumentState>) -> Map<Seq<char>, DocumentView> {
    Map::new(|id: Seq<char>| has_key(docs, id), |id: Seq<char>| docs[place_of(docs, id)]@)
}

proof fn lemma_document_at(docs: Seq<DocumentState>, i: int)
    requires
        distinct_keys(docs),
        0 <= i < docs.len(),
    ensures
        documents_of(docs).contains_key(key_at(docs, i)),
        documents_of(docs)[key_at(docs, i)] == docs[i]@,
{
    let id = key_at(docs, i);
    assert(has_key(docs, id));
    let j = place_of(docs, id);
    assert(key_at(docs, j) == key_at(docs, i));
}

/// Replacing what is held at one place, under the same key.
proof fn lemma_documents_update(before: Seq<DocumentState>, after: Seq<DocumentState>, i: int)
    requires
        distinct_keys(before),
        0 <= i < before.len(),
        after.len() == before.len(),
        key_at(after, i) == key_at(before, i),
        forall|j: int| 0 <= j < before.len() && j != i ==> after[j] == before[j],
    ensures
        distinct_keys(after),
        documents_of(after) == documents_of(before).insert(key_at(before, i), after[i]@),
{
    assert forall|j: int| 0 <= j < before.len() implies #[trigger] key_at(after, j) == key_at(
        before,
        j,
    ) by {}
    assert forall|a: int, b: int|
        0 <= a < after.len() && 0 <= b < after.len() && #[trigger] key_at(after, a)
            == #[trigger] key_at(after, b) implies a == b by {
        assert(key_at(before, a) == key_at(before, b));
    }
    let m1 = documents_of(after);
    let m2 = documents_of(before).insert(key_at(before, i), after[i]@);
    assert forall|id: Seq<char>| m1.contains_key(id) <==> m2.contains_key(id) by {
        if m1.contains_key(id) {
            let j = place_of(after, id);
            assert(key_at(before, j) == id);
        }
        if m2.contains_key(id) {
            if id == key_at(before, i) {
                assert(key_at(after, i) == id);
            } else {
                let j = place_of(before, id);
                assert(key_at(after, j) == id);
            }
        }
    }
    assert forall|id: Seq<char>| m1.contains_key(id) implies m1[id] == m2[id] by {
        let j = place_of(after, id);
        lemma_document_at(after, j);
        assert(key_at(before, j) == id);
        lemma_document_at(before, j);
    }
    assert(m1 =~= m2);
}

/// Holding one more document, under a key that was not held.
proof fn lemma_documents_push(before: Seq<DocumentState>, doc: DocumentState)
    requires
        distinct_keys(before),
        forall|j: int| 0 <= j < before.len() ==> #[trigger] key_at(before, j) != doc.session.note_id@,
    ensures
        distinct_keys(before.push(doc)),
        documents_of(before.push(doc)) == documents_of(before).insert(doc.session.note_id@, doc@),
{
    let after = before.push(doc);
    let n = before.len() as int;
    assert forall|j: int| 0 <= j < n implies #[trigger] key_at(after, j) == key_at(before, j) by {}
    assert(key_at(after, n) == doc.session.note_id@);
    assert forall|a: int, b: int|
        0 <= a < after.len() && 0 <= b < after.len() && #[trigger] key_at(after, a)
            == #[trigger] key_at(after, b) implies a == b by {
        if a < n && b < n {
            assert(key_at(before, a) == key_at(before, b));
        } else if a < n {
            assert(key_at(before, a) == doc.session.note_id@);
        } else if b < n {
            assert(key_at(before, b) == doc.session.note_id@);
        }
    }
    let m1 = documents_of(after);
    let m2 = documents_of(before).insert(doc.session.note_id@, doc@);
    assert forall|id: Seq<char>| m1.contains_key(id) <==> m2.contains_key(id) by {
        if m1.contains_key(id) {
            let j = place_of(after, id);
            if j < n {
                assert(key_at(before, j) == id);
            }
        }
        if m2.contains_key(id) {
            if id == doc.session.note_id@ {
                assert(key_at(after, n) == id);
            } else {
                let j = place_of(before, id);
                assert(key_at(after, j) == id);
            }
        }
    }
    assert forall|id: Seq<char>| m1.contains_key(id) implies m1[id] == m2[id] by {
        let j = place_of(after, id);
        lemma_document_at(after, j);
        if j < n {
            assert(key_at(before, j) == id);
            lemma_document_at(before, j);
        }
    }
    assert(m1 =~= m2);
}

/// Holding one document less.
proof fn lemma_documents_remove(before: Seq<DocumentState>, i: int)
    requires
        distinct_keys(before),
        0 <= i < before.len(),
    ensures
        distinct_keys(before.remove(i)),
        documents_of(before.remove(i)) == documents_of(before).remove(key_at(before, i)),
{
    let after = before.remove(i);
    assert forall|j: int| 0 <= j < after.len() implies #[trigger] key_at(after, j) == key_at(
        before,
        if j < i {
            j
        } else {
            j + 1
        },
    ) by {}
    assert forall|a: int, b: int|
        0 <= a < after.len() && 0 <= b < after.len() && #[trigger] key_at(after, a)
            == #[trigger] key_at(after, b) implies a == b by {
        let a1 = if a < i { a } else { a + 1 };
        let b1 = if b < i { b } else { b + 1 };
        assert(key_at(before, a1) == key_at(before, b1));
    }
    let m1 = documents_of(after);
    let m2 = documents_of(before).remove(key_at(before, i));
    assert forall|id: Seq<char>| m1.contains_key(id) <==> m2.contains_key(id) by {
        if m1.contains_key(id) {
            let j = place_of(after, id);
            let j1 = if j < i { j } else { j + 1 };
            assert(key_at(before, j1) == id);
        }
        if m2.contains_key(id) {
            let j = place_of(before, id);
            assert(j != i);
            let j0 = if j < i { j } else { j - 1 };
            assert(key_at(after, j0) == id);
        }
    }
    assert forall|id: Seq<char>| m1.contains_key(id) implies m1[id] == m2[id] by {
        let j = place_of(after, id);
        lemma_document_at(after, j);
        let j1 = if j < i { j } else { j + 1 };
        assert(key_at(before, j1) == id);
        lemma_document_at(before, j1);
    }
    assert(m1 =~= m2);
}

/// Place of the first participant with this id, or the number of
/// participants where there is none.
fn first_participant(users: &Vec<User>, id: &String) -> (place: usize)
    ensures
        place == first_with_id(users_view(users@), id@),
        place <= users.len(),
{
    let ghost all = users_view(users@);
    let mut i: usize = 0;
    assert(all.skip(0) =~= all);
    while i < users.len()
        invariant
            i <= users.len(),
            all == users_view(users@),
            first_with_id(all, id@) == i + first_with_id(all.skip(i as int), id@),
        decreases users.len() - i,
    {
        proof {
            assert(all.skip(i as int)[0] == users[i as int]@);
            assert(all.skip(i as int).drop_first() =~= all.skip(i + 1));
        }
        if users[i].id == *id {
            return i;
        }
        i = i + 1;
    }
    assert(all.skip(i as int) =~= Seq::<UserView>::empty());
    i
}

/// `Uuid::new_v4` of the uuid crate, written out as text: an identifier
/// drawn at random. Nothing is promised of it.
#[verifier::external_body]
fn fresh_edit_id() -> (id: String) {
    uuid::Uuid::new_v4().to_string()
}

/// `Utc::now` of the chrono crate, as milliseconds since the start of 1970:
/// the time of the machine's clock, which must not stand before 1970. Nothing
/// is promised of it.
#[verifier::external_body]
fn current_time_millis() -> (millis: i64) {
    chrono::Utc::now().timestamp_millis()
}

/// The sessions of the documents that this participant has joined, with the
/// local edits that wait to be seen by the others.
pub struct CollaborationManager {
    documents: Vec<DocumentState>,
    websocket_url: String,
    user_id: String,
    user_name: String,
}

impl View for CollaborationManager {
    type V = ManagerView;

    closed spec fn view(&self) -> ManagerView {
        ManagerView {
            documents: documents_of(self.documents@),
            websocket_url: self.websocket_url@,
            user_id: self.user_id@,
            user_name: self.user_name@,
        }
    }
}

impl CollaborationManager {
    /// No document is held twice, and what is held is as `ManagerView::wf`
    /// says.
    pub closed spec fn wf(&self) -> bool {
        &&& distinct_keys(self.documents@)
        &&& self@.wf()
    }

    /// A manager for this participant, with no document joined.
    pub fn new(websocket_url: String, user_id: String, user_name: String) -> (manager: Self)
        ensures
            manager.wf(),
            manager@ == (ManagerView {
                documents: Map::<Seq<char>, DocumentView>::empty(),
                websocket_url: websocket_url@,
                user_id: user_id@,
                user_name: user_name@,
            }),
    {
        let manager = CollaborationManager { documents: Vec::new(), websocket_url, user_id, user_name };
        assert(manager@.documents =~= Map::<Seq<char>, DocumentView>::empty());
        manager
    }

    /// The id of the local participant.
    pub fn user_id(&self) -> (id: &String)
        ensures
            id@ == self@.user_id,
    {
        &self.user_id
    }

    /// The name of the local participant.
    pub fn user_name(&self) -> (name: &String)
        ensures
            name@ == self@.user_name,
    {
        &self.user_name
    }

    /// Where the document is held, if it is.
    fn find(&self, note_id: &str) -> (found: Option<usize>)
        requires
            self.wf(),
        ensures
            match found {
                Some(i) => i < self.documents.len() && key_at(self.documents@, i as int) == note_id@
                    && self@.documents.contains_key(note_id@) && self@.documents[note_id@]
                    == self.documents[i as int]@,
                None => !self@.documents.contains_key(note_id@),
            },
    {
        let key = note_id.to_owned();
        let mut i: usize = 0;
        while i < self.documents.len()
            invariant
                self.wf(),
                i <= self.documents.len(),
                key@ == note_id@,
                forall|j: int| 0 <= j < i ==> #[trigger] key_at(self.documents@, j) != note_id@,
            decreases self.documents.len() - i,
        {
            if self.documents[i].session.note_id == key {
                proof {
                    lemma_document_at(self.documents@, i as int);
                }
                return Some(i);
            }
            i = i + 1;
        }
        None
    }
    /// The address of the connection for a document.
    pub fn session_url(&self, note_id: &str) -> (url: String)
        ensures
            url@ == session_url_text(self@.websocket_url, note_id@),
    {
        let mut url = self.websocket_url.clone();
        url.append("/notes/");
        url.append(note_id);
        url.append("/collaborate");
        url
    }

    /// Joins a document once the attempt to connect to it is over.
    ///
    /// Where the connection stands, the document gets a new session with the
    /// local participant as its only member, at revision 0, and the caller
    /// gets the channel on which remote edits will arrive; local edits that
    /// were pending for the document stay. Where it does not, nothing changes
    /// and the answer is `TransportError`.
    pub fn join_session(&mut self, note_id: &str, connected: bool) -> (res: Result<
        SyncChannel,
        CollaborationError,
    >)
        requires
            old(self).wf(),
        ensures
            final(self).wf(),
            match res {
                Ok(channel) => connected && channel.wf() && channel@ == (SyncChannelView {
                    queued: Seq::<EditView>::empty(),
                    capacity: DEFAULT_CAPACITY,
                    dropped: 0,
                    rejected: 0,
                    closed: false,
                }) && final(self)@ == (ManagerView {
                    documents: old(self)@.documents.insert(
                        note_id@,
                        DocumentView {
                            session: fresh_session(note_id@, old(self)@.user_id, old(self)@.user_name),
                            pending: old(self)@.pending_of(note_id@),
                        },
                    ),
                    ..old(self)@
                }),
                Err(e) => !connected && e == CollaborationError::TransportError && final(self)@
                    == old(self)@,
            },
    {
        if !connected {
            return Err(CollaborationError::TransportError);
        }
        let user = User {
            id: self.user_id.clone(),
            name: self.user_name.clone(),
            color: generate_user_color(self.user_id.as_str()),
            cursor_position: None,
            selection_range: None,
        };
        let mut participants: Vec<User> = Vec::new();
        participants.push(user);
        let session = CollaborationSession {
            note_id: note_id.to_owned(),
            participants,
            current_revision: 0,
            is_active: true,
        };
        assert(session@.participants =~= fresh_session(
            note_id@,
            self@.user_id,
            self@.user_name,
        ).participants);
        match self.find(note_id) {
            Some(i) => {
                self.documents[i].session = session;
                proof {
                    lemma_documents_update(old(self).documents@, self.documents@, i as int);
                }
            },
            None => {
                let doc = DocumentState { session, pending: Vec::new() };
                proof {
                    lemma_documents_push(self.documents@, doc);
                    assert(doc@.pending =~= Seq::<EditView>::empty());
                }
                self.documents.push(doc);
            },
        }
        Ok(SyncChannel::new(DEFAULT_CAPACITY))
    }

    /// Leaves a document: its session and its pending edits are gone. Leaving
    /// a document that is not joined changes nothing; it never fails.
    pub fn leave_session(&mut self, note_id: &str) -> (res: Result<(), CollaborationError>)
        requires
            old(self).wf(),
        ensures
            final(self).wf(),
            res is Ok,
            !final(self)@.documents.contains_key(note_id@),
            final(self)@ == without_document(old(self)@, note_id@),
    {
        match self.find(note_id) {
            Some(i) => {
                proof {
                    lemma_documents_remove(self.documents@, i as int);
                }
                let _ = self.documents.remove(i);
            },
            None => {
                assert(self@.documents.remove(note_id@) =~= self@.documents);
            },
        }
        Ok(())
    }

    /// A copy of the session of a document, where it is joined.
    pub fn get_session_info(&self, note_id: &str) -> (info: Option<CollaborationSession>)
        requires
            self.wf(),
        ensures
            match info {
                Some(session) => self@.documents.contains_key(note_id@) && session@
                    == self@.documents[note_id@].session,
                None => !self@.documents.contains_key(note_id@),
            },
    {
        match self.find(note_id) {
            Some(i) => Some(self.documents[i].session.clone()),
            None => None,
        }
    }
    /// Sets the caret of the local participant in a document. Fails with
    /// `NoActiveSession`, changing nothing, where the document is not joined.
    pub fn update_cursor_position(&mut self, note_id: &str, position: usize) -> (res: Result<
        (),
        CollaborationError,
    >)
        requires
            old(self).wf(),
        ensures
            final(self).wf(),
            match res {
                Ok(_) => old(self)@.documents.contains_key(note_id@) && final(self)@ == (ManagerView {
                    documents: old(self)@.documents.insert(
                        note_id@,
                        DocumentView {
                            session: SessionView {
                                participants: with_cursor(
                                    old(self)@.documents[note_id@].session.participants,
                                    old(self)@.user_id,
                                    position,
                                ),
                                ..old(self)@.documents[note_id@].session
                            },
                            ..old(self)@.documents[note_id@]
                        },
                    ),
                    ..old(self)@
                }),
                Err(e) => e == CollaborationError::NoActiveSession && !old(
                    self,
                )@.documents.contains_key(note_id@) && final(self)@ == old(self)@,
            },
    {
        match self.find(note_id) {
            Some(i) => {
                let k = first_participant(&self.documents[i].session.participants, &self.user_id);
                if k < self.documents[i].session.participants.len() {
                    self.documents[i].session.participants[k].cursor_position = Some(position);
                }
                proof {
                    lemma_documents_update(old(self).documents@, self.documents@, i as int);
                    assert(self.documents[i as int]@.session.participants =~= with_cursor(
                        old(self)@.documents[note_id@].session.participants,
                        old(self)@.user_id,
                        position,
                    ));
                }
                Ok(())
            },
            None => Err(CollaborationError::NoActiveSession),
        }
    }

    /// Sets the selection of the local participant in a document. Fails with
    /// `NoActiveSession`, changing nothing, where the document is not joined.
    pub fn update_selection(&mut self, note_id: &str, start: usize, end: usize) -> (res: Result<
        (),
        CollaborationError,
    >)
        requires
            old(self).wf(),
        ensures
            final(self).wf(),
            match res {
                Ok(_) => old(self)@.documents.contains_key(note_id@) && final(self)@ == (ManagerView {
                    documents: old(self)@.documents.insert(
                        note_id@,
                        DocumentView {
                            session: SessionView {
                                participants: with_selection(
                                    old(self)@.documents[note_id@].session.participants,
                                    old(self)@.user_id,
                                    start,
                                    end,
                                ),
                                ..old(self)@.documents[note_id@].session
                            },
                            ..old(self)@.documents[note_id@]
                        },
                    ),
                    ..old(self)@
                }),
                Err(e) => e == CollaborationError::NoActiveSession && !old(
                    self,
                )@.documents.contains_key(note_id@) && final(self)@ == old(self)@,
            },
    {
        match self.find(note_id) {
            Some(i) => {
                let k = first_participant(&self.documents[i].session.participants, &self.user_id);
                if k < self.documents[i].session.participants.len() {
                    self.documents[i].session.participants[k].selection_range = Some((start, end));
                }
                proof {
                    lemma_documents_update(old(self).documents@, self.documents@, i as int);
                    assert(self.documents[i as int]@.session.participants =~= with_selection(
                        old(self)@.documents[note_id@].session.participants,
                        old(self)@.user_id,
                        start,
                        end,
                    ));
                }
                Ok(())
            },
            None => Err(CollaborationError::NoActiveSession),
        }
    }
    /// Applies a local operation to `content` and records it as the edit
    /// `edit_id` made at `timestamp`, as `with_local_edit` says. Fails with
    /// `NoActiveSession`, changing nothing, where the document is not joined.
    pub fn record_local_operation(
        &mut self,
        note_id: &str,
        operation: TextOperation,
        content: &str,
        edit_id: String,
        timestamp: i64,
    ) -> (res: Result<String, CollaborationError>)
        requires
            old(self).wf(),
            operation.wf(),
            old(self)@.documents.contains_key(note_id@) ==> old(
                self,
            )@.documents[note_id@].session.current_revision < u64::MAX,
        ensures
            final(self).wf(),
            match res {
                Ok(text) => old(self)@.documents.contains_key(note_id@) && text@ == apply_steps(
                    operation@.steps,
                    content@,
                ) && final(self)@ == with_local_edit(
                    old(self)@,
                    note_id@,
                    operation@,
                    edit_id@,
                    timestamp,
                ),
                Err(e) => e == CollaborationError::NoActiveSession && !old(
                    self,
                )@.documents.contains_key(note_id@) && final(self)@ == old(self)@,
            },
    {
        match self.find(note_id) {
            Some(i) => {
                let revision: u64 = self.documents[i].session.current_revision + 1;
                let new_content = operation.apply(content);
                let edit = CollaborativeEdit {
                    id: edit_id,
                    note_id: note_id.to_owned(),
                    user_id: self.user_id.clone(),
                    operation,
                    timestamp,
                    revision,
                };
                self.documents[i].pending.push(edit);
                self.documents[i].session.current_revision = revision;
                proof {
                    lemma_documents_update(old(self).documents@, self.documents@, i as int);
                    assert(self.documents[i as int]@.pending =~= old(
                        self,
                    )@.documents[note_id@].pending.push(edit@));
                }
                Ok(new_content)
            },
            None => Err(CollaborationError::NoActiveSession),
        }
    }

    /// Applies a local operation to `content`: the new text is returned, the
    /// operation is recorded as a pending edit with a new identifier and the
    /// present time, at the revision after the session's, and the session
    /// moves on to that revision. Fails with `NoActiveSession`, changing
    /// nothing, where the document is not joined.
    pub fn apply_local_operation(&mut self, note_id: &str, operation: TextOperation, content: &str) -> (res:
        Result<String, CollaborationError>)
        requires
            old(self).wf(),
            operation.wf(),
            old(self)@.documents.contains_key(note_id@) ==> old(
                self,
            )@.documents[note_id@].session.current_revision < u64::MAX,
        ensures
            final(self).wf(),
            match res {
                Ok(text) => old(self)@.documents.contains_key(note_id@) && text@ == apply_steps(
                    operation@.steps,
                    content@,
                ) && exists|edit_id: Seq<char>, timestamp: i64|
                    final(self)@ == #[trigger] with_local_edit(
                        old(self)@,
                        note_id@,
                        operation@,
                        edit_id,
                        timestamp,
                    ),
                Err(e) => e == CollaborationError::NoActiveSession && !old(
                    self,
                )@.documents.contains_key(note_id@) && final(self)@ == old(self)@,
            },
    {
        let edit_id = fresh_edit_id();
        let timestamp = current_time_millis();
        self.record_local_operation(note_id, operation, content, edit_id, timestamp)
    }

    /// Takes note of the revision of a remote edit for a document, as
    /// `with_remote_revision` says. The result tells whether the document is
    /// joined.
    pub fn observe_remote_revision(&mut self, note_id: &str, revision: u64) -> (joined: bool)
        requires
            old(self).wf(),
        ensures
            final(self).wf(),
            joined == old(self)@.documents.contains_key(note_id@),
            final(self)@ == with_remote_revision(old(self)@, note_id@, revision),
    {
        match self.find(note_id) {
            Some(i) => {
                if revision > self.documents[i].session.current_revision {
                    self.documents[i].session.current_revision = revision;
                }
                proof {
                    lemma_documents_update(old(self).documents@, self.documents@, i as int);
                    let before = old(self)@.documents[note_id@];
                    let after = self.documents[i as int]@;
                    assert(after.pending == before.pending);
                    assert(after.session.note_id == note_id@);
                    assert(self@.documents == old(self)@.documents.insert(note_id@, after));
                    assert forall|id: Seq<char>| #[trigger]
                        self@.documents.contains_key(id) implies {
                        &&& self@.documents[id].session.note_id == id
                        &&& forall|k: int|
                            0 <= k < self@.documents[id].pending.len()
                                ==> (#[trigger] self@.documents[id].pending[k]).operation.wf()
                    } by {
                        if id != note_id@ {
                            assert(old(self)@.documents.contains_key(id));
                        }
                    }
                }
                true
            },
            None => false,
        }
    }

    /// The local edits of a document that wait to be seen by the others,
    /// oldest first; none where the document is not joined.
    pub fn pending_edits(&self, note_id: &str) -> (edits: Vec<CollaborativeEdit>)
        requires
            self.wf(),
        ensures
            edits_view(edits@) == self@.pending_of(note_id@),
            forall|k: int| 0 <= k < edits.len() ==> (#[trigger] edits[k]).operation.wf(),
    {
        let mut edits: Vec<CollaborativeEdit> = Vec::new();
        match self.find(note_id) {
            Some(i) => {
                let mut k: usize = 0;
                while k < self.documents[i].pending.len()
                    invariant
                        i < self.documents.len(),
                        k <= self.documents[i as int].pending.len(),
                        edits.len() == k,
                        forall|j: int| 0 <= j < k ==> (#[trigger] edits[j])@ == self.documents[i as int].pending[j]@,
                    decreases self.documents[i as int].pending.len() - k,
                {
                    edits.push(self.documents[i].pending[k].clone());
                    k = k + 1;
                }
                assert(edits_view(edits@) =~= self@.pending_of(note_id@));
                assert forall|j: int| 0 <= j < edits.len() implies (#[trigger] edits[j]).operation.wf() by {
                    assert(edits[j]@ == self@.documents[note_id@].pending[j]);
                }
            },
            None => {
                assert(edits_view(edits@) =~= self@.pending_of(note_id@));
            },
        }
        edits
    }

    /// The text that a remote edit makes of `content`: the operation of the
    /// edit is transformed, oldest first, against each pending local edit of
    /// its document whose revision is above the edit's, and then applied.
    /// Fails with `NoActiveSession` where the document of the edit is not
    /// joined. Where a transformation fails the edit is turned down with that
    /// failure. In either case no text is made.
    pub fn apply_remote_operation(&self, edit: &CollaborativeEdit, content: &str) -> (res: Result<
        String,
        CollaborationError,
    >)
        requires
            self.wf(),
            edit@.operation.wf(),
        ensures
            match res {
                Ok(text) => remote_outcome(self@, edit@, content@) == Ok::<
                    Seq<char>,
                    CollaborationError,
                >(text@),
                Err(e) => remote_outcome(self@, edit@, content@) == Err::<
                    Seq<char>,
                    CollaborationError,
                >(e),
            },
            (res is Err && res->Err_0 == CollaborationError::NoActiveSession)
                <==> !self@.documents.contains_key(edit@.note_id),
    {
        proof {
            if self@.documents.contains_key(edit@.note_id) {
                lemma_remote_failures(
                    self@.documents[edit@.note_id].pending,
                    edit@.operation,
                    edit.revision,
                );
            }
        }
        let i = match self.find(edit.note_id.as_str()) {
            Some(i) => i,
            None => {
                return Err(CollaborationError::NoActiveSession);
            },
        };
        let mut operation = edit.operation.clone();
        let ghost all = self@.documents[edit@.note_id].pending;
        let mut k: usize = 0;
        assert(all.skip(0) =~= all);
        while k < self.documents[i].pending.len()
            invariant
                self.wf(),
                i < self.documents.len(),
                self@.documents.contains_key(edit@.note_id),
                all == edits_view(self.documents[i as int].pending@),
                all == self@.documents[edit@.note_id].pending,
                k <= all.len(),
                operation.wf(),
                transform_against(all, edit@.operation, edit.revision) == transform_against(
                    all.skip(k as int),
                    operation@,
                    edit.revision,
                ),
            decreases all.len() - k,
        {
            proof {
                assert(all.skip(k as int)[0] == all[k as int]);
                assert(all.skip(k as int).drop_first() =~= all.skip(k + 1));
                assert(all[k as int] == self.documents[i as int].pending[k as int]@);
                assert(all[k as int].operation.wf());
            }
            if self.documents[i].pending[k].revision > edit.revision {
                match transform(&self.documents[i].pending[k].operation, &operation) {
                    Ok(next) => {
                        operation = next;
                    },
                    Err(e) => {
                        return Err(e);
                    },
                }
            }
            k = k + 1;
        }
        assert(all.skip(k as int) =~= Seq::<EditView>::empty());
        Ok(operation.apply(content))
    }
}

} // verus!
