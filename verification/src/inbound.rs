//! The receiving side of a joined document: what to do with each message
//! that the transport hands over, and whether to go on receiving.

use vstd::prelude::*;
use crate::manager::{with_remote_revision, CollaborationManager, ManagerView};
use crate::session::{CollaborativeEdit, EditView};
use crate::sync::{counted, enqueued, SyncChannel, SyncChannelView};
use crate::wire::{parse_edit, parsed_edit};

verus! {

/// What became of a remote edit that arrived for a document.
#[derive(Debug, Clone, Copy, PartialEq, Eq, Structural)]
pub enum Delivery {
    /// The edit is for another document. Nothing was done.
    Ignored,
    /// The operation of the edit is not complete. The edit was counted as
    /// rejected and not handed on.
    Rejected,
    /// The edit waits in the queue.
    Queued,
    /// The edit waits in the queue, which was full: its oldest edit was
    /// dropped and the loss counted.
    QueuedDroppingOldest,
    /// The consumer has closed the channel. The edit was not handed on.
    Closed,
}

/// A message from the transport.
#[derive(Debug)]
pub enum InboundMessage {
    /// A text message.
    Text(String),
    /// The other side closed the connection.
    Close,
    /// The transport failed.
    Failure,
    /// Any other message.
    Other,
}

/// Whether to go on receiving.
#[derive(Debug, Clone, Copy, PartialEq, Eq, Structural)]
pub enum ReceiveAction {
    Continue,
    Stop,
}

/// What becomes of an edit that arrives on the connection of `note_id`.
pub open spec fn delivery_of(note_id: Seq<char>, edit: EditView, channel: SyncChannelView) -> Delivery {
    if edit.note_id != note_id {
        Delivery::Ignored
    } else if !edit.operation.wf() {
        Delivery::Rejected
    } else if channel.closed {
        Delivery::Closed
    } else if channel.queued.len() >= channel.capacity {
        Delivery::QueuedDroppingOldest
    } else {
        Delivery::Queued
    }
}

/// The channel after an edit has arrived.
pub open spec fn channel_after_edit(channel: SyncChannelView, note_id: Seq<char>, edit: EditView) -> SyncChannelView {
    match delivery_of(note_id, edit, channel) {
        Delivery::Ignored => channel,
        Delivery::Rejected => SyncChannelView { rejected: counted(channel.rejected), ..channel },
        Delivery::Closed => channel,
        Delivery::Queued => SyncChannelView {
            queued: enqueued(channel.queued, channel.capacity, edit),
            ..channel
        },
        Delivery::QueuedDroppingOldest => SyncChannelView {
            queued: enqueued(channel.queued, channel.capacity, edit),
            dropped: counted(channel.dropped),
            ..channel
        },
    }
}

/// The manager after an edit has arrived: the revision of an edit for this
/// document with a complete operation is taken note of, whether or not the
/// edit can be handed on.
pub open spec fn manager_after_edit(
    manager: ManagerView,
    channel: SyncChannelView,
    note_id: Seq<char>,
    edit: EditView,
) -> ManagerView {
    match delivery_of(note_id, edit, channel) {
        Delivery::Ignored => manager,
        Delivery::Rejected => manager,
        _ => with_remote_revision(manager, note_id, edit.revision),
    }
}

/// Takes in a remote edit that arrived on the connection of `note_id`.
///
/// An edit for another document is ignored. One whose operation is not
/// complete is counted as rejected. Otherwise the session takes note of the
/// edit's revision, and the edit is put in the queue, unless the consumer has
/// closed the channel; where the queue is full its oldest edit is dropped and
/// the loss is counted.
pub fn receive_remote_edit(
    manager: &mut CollaborationManager,
    channel: &mut SyncChannel,
    note_id: &str,
    edit: CollaborativeEdit,
) -> (delivery: Delivery)
    requires
        old(manager).wf(),
        old(channel).wf(),
    ensures
        final(manager).wf(),
        final(channel).wf(),
        delivery == delivery_of(note_id@, edit@, old(channel)@),
        final(channel)@ == channel_after_edit(old(channel)@, note_id@, edit@),
        final(manager)@ == manager_after_edit(old(manager)@, old(channel)@, note_id@, edit@),
{
    let key = note_id.to_owned();
    if !(edit.note_id == key) {
        return Delivery::Ignored;
    }
    if !edit.operation.is_well_formed() {
        channel.count_rejected();
        return Delivery::Rejected;
    }
    let _ = manager.observe_remote_revision(note_id, edit.revision);
    if channel.is_closed() {
        return Delivery::Closed;
    }
    if channel.push(edit) {
        Delivery::QueuedDroppingOldest
    } else {
        Delivery::Queued
    }
}

/// Whether to go on receiving after a message: not after the other side has
/// closed the connection, the transport has failed, or an edit could not be
/// handed on because the consumer has closed the channel.
pub open spec fn action_of(note_id: Seq<char>, message: InboundMessage, channel: SyncChannelView) -> ReceiveAction {
    match message {
        InboundMessage::Text(text) => match parsed_edit(text@) {
            Some(edit) => if delivery_of(note_id, edit, channel) == Delivery::Closed {
                ReceiveAction::Stop
            } else {
                ReceiveAction::Continue
            },
            None => ReceiveAction::Continue,
        },
        InboundMessage::Close => ReceiveAction::Stop,
        InboundMessage::Failure => ReceiveAction::Stop,
        InboundMessage::Other => ReceiveAction::Continue,
    }
}

/// The channel after a message.
pub open spec fn channel_after(channel: SyncChannelView, note_id: Seq<char>, message: InboundMessage) -> SyncChannelView {
    match message {
        InboundMessage::Text(text) => match parsed_edit(text@) {
            Some(edit) => channel_after_edit(channel, note_id, edit),
            None => SyncChannelView { rejected: counted(channel.rejected), ..channel },
        },
        _ => channel,
    }
}

/// The manager after a message.
pub open spec fn manager_after(
    manager: ManagerView,
    channel: SyncChannelView,
    note_id: Seq<char>,
    message: InboundMessage,
) -> ManagerView {
    match message {
        InboundMessage::Text(text) => match parsed_edit(text@) {
            Some(edit) => manager_after_edit(manager, channel, note_id, edit),
            None => manager,
        },
        _ => manager,
    }
}

/// Deals with one message from the transport and says whether to go on
/// receiving. A text that holds an edit is taken in as `receive_remote_edit`
/// says; a text that holds none is counted as rejected; nothing else changes
/// anything.
pub fn handle_message(
    manager: &mut CollaborationManager,
    channel: &mut SyncChannel,
    note_id: &str,
    message: InboundMessage,
) -> (action: ReceiveAction)
    requires
        old(manager).wf(),
        old(channel).wf(),
    ensures
        final(manager).wf(),
        final(channel).wf(),
        action == action_of(note_id@, message, old(channel)@),
        final(channel)@ == channel_after(old(channel)@, note_id@, message),
        final(manager)@ == manager_after(old(manager)@, old(channel)@, note_id@, message),
{
    match message {
        InboundMessage::Text(text) => match parse_edit(text.as_str()) {
            Some(edit) => match receive_remote_edit(manager, channel, note_id, edit) {
                Delivery::Closed => ReceiveAction::Stop,
                _ => ReceiveAction::Continue,
            },
            None => {
                channel.count_rejected();
                ReceiveAction::Continue
            },
        },
        InboundMessage::Close => ReceiveAction::Stop,
        InboundMessage::Failure => ReceiveAction::Stop,
        InboundMessage::Other => ReceiveAction::Continue,
    }
}

} // verus!
