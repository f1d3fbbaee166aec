//! The channel between the transport and the local consumer of remote edits:
//! a bounded queue that, when full, drops its oldest edit and counts the loss.

use vstd::prelude::*;
use std::collections::VecDeque;
use crate::session::{CollaborativeEdit, EditView};

verus! {

/// How many edits a channel holds where nothing else is asked for.
pub const DEFAULT_CAPACITY: usize = 100;

/// A channel as a mathematical value.
pub struct SyncChannelView {
    /// The edits that wait for the consumer, oldest first.
    pub queued: Seq<EditView>,
    pub capacity: usize,
    /// How many edits were dropped because the queue was full.
    pub dropped: u64,
    /// How many inbound messages were turned down as malformed.
    pub rejected: u64,
    pub closed: bool,
}

/// One more, but never past the largest count.
pub open spec fn counted(n: u64) -> u64 {
    if n < u64::MAX {
        (n + 1) as u64
    } else {
        n
    }
}

/// The queue with one more edit at its end, less its oldest edit where it
/// was full.
pub open spec fn enqueued(queued: Seq<EditView>, capacity: usize, edit: EditView) -> Seq<EditView> {
    if queued.len() >= capacity {
        queued.drop_first().push(edit)
    } else {
        queued.push(edit)
    }
}

/// Remote edits on their way to the local consumer.
#[derive(Debug)]
pub struct SyncChannel {
    queue: VecDeque<CollaborativeEdit>,
    capacity: usize,
    dropped: u64,
    rejected: u64,
    closed: bool,
}

spec fn queue_view(queue: Seq<CollaborativeEdit>) -> Seq<EditView> {
    Seq::new(queue.len(), |i: int| queue[i]@)
}

impl View for SyncChannel {
    type V = SyncChannelView;

    closed spec fn view(&self) -> SyncChannelView {
        SyncChannelView {
            queued: queue_view(self.queue@),
            capacity: self.capacity,
            dropped: self.dropped,
            rejected: self.rejected,
            closed: self.closed,
        }
    }
}

impl SyncChannelView {
    /// The queue is within its capacity, which is not zero, and every edit in
    /// it carries a complete operation.
    pub open spec fn wf(self) -> bool {
        &&& 0 < self.capacity
        &&& self.queued.len() <= self.capacity
        &&& forall|i: int| 0 <= i < self.queued.len() ==> (#[trigger] self.queued[i]).operation.wf()
    }
}

impl SyncChannel {
    /// The channel is in order, as `SyncChannelView::wf` says.
    pub open spec fn wf(&self) -> bool {
        self@.wf()
    }

    /// An open, empty channel for up to `capacity` edits.
    pub fn new(capacity: usize) -> (channel: Self)
        requires
            capacity > 0,
        ensures
            channel.wf(),
            channel@ == (SyncChannelView {
                queued: Seq::<EditView>::empty(),
                capacity,
                dropped: 0,
                rejected: 0,
                closed: false,
            }),
    {
        let channel = SyncChannel { queue: VecDeque::new(), capacity, dropped: 0, rejected: 0, closed: false };
        assert(channel@.queued =~= Seq::<EditView>::empty());
        channel
    }

    /// Puts an edit at the end of the queue. Where the queue is full its
    /// oldest edit is dropped first and the loss is counted; the result says
    /// whether that happened.
    pub fn push(&mut self, edit: CollaborativeEdit) -> (dropped_oldest: bool)
        requires
            old(self).wf(),
            edit@.operation.wf(),
        ensures
            final(self).wf(),
            dropped_oldest == (old(self)@.queued.len() >= old(self)@.capacity),
            final(self)@ == (SyncChannelView {
                queued: enqueued(old(self)@.queued, old(self)@.capacity, edit@),
                dropped: if dropped_oldest {
                    counted(old(self)@.dropped)
                } else {
                    old(self)@.dropped
                },
                ..old(self)@
            }),
    {
        let full = self.queue.len() >= self.capacity;
        if full {
            let _ = self.queue.pop_front();
            if self.dropped < u64::MAX {
                self.dropped = self.dropped + 1;
            }
        }
        self.queue.push_back(edit);
        assert(self@.queued =~= enqueued(old(self)@.queued, old(self)@.capacity, edit@));
        full
    }

    /// Takes the oldest edit out of the queue, if there is one.
    pub fn pop(&mut self) -> (edit: Option<CollaborativeEdit>)
        requires
            old(self).wf(),
        ensures
            final(self).wf(),
            match edit {
                Some(e) => old(self)@.queued.len() > 0 && e@ == old(self)@.queued[0] && e@.operation.wf()
                    && final(self)@ == (SyncChannelView {
                    queued: old(self)@.queued.drop_first(),
                    ..old(self)@
                }),
                None => old(self)@.queued.len() == 0 && final(self)@ == old(self)@,
            },
    {
        let edit = self.queue.pop_front();
        proof {
            if edit is Some {
                assert(self@.queued =~= old(self)@.queued.drop_first());
                assert(edit->0@ == old(self)@.queued[0]);
            } else {
                assert(self@.queued =~= old(self)@.queued);
            }
        }
        edit
    }

    /// Counts one inbound message that was turned down as malformed.
    pub fn count_rejected(&mut self)
        ensures
            final(self)@ == (SyncChannelView { rejected: counted(old(self)@.rejected), ..old(self)@ }),
    {
        if self.rejected < u64::MAX {
            self.rejected = self.rejected + 1;
        }
    }

    /// Closes the channel: the consumer takes no more edits.
    pub fn close(&mut self)
        ensures
            final(self)@ == (SyncChannelView { closed: true, ..old(self)@ }),
    {
        self.closed = true;
    }

    /// Whether the channel was closed.
    pub fn is_closed(&self) -> (closed: bool)
        ensures
            closed == self@.closed,
    {
        self.closed
    }

    /// How many edits wait in the queue.
    pub fn len(&self) -> (n: usize)
        ensures
            n == self@.queued.len(),
    {
        self.queue.len()
    }

    /// How many edits the queue holds at most.
    pub fn capacity(&self) -> (n: usize)
        ensures
            n == self@.capacity,
    {
        self.capacity
    }

    /// How many edits were dropped because the queue was full.
    pub fn dropped(&self) -> (n: u64)
        ensures
            n == self@.dropped,
    {
        self.dropped
    }

    /// How many inbound messages were turned down as malformed.
    pub fn rejected(&self) -> (n: u64)
        ensures
            n == self@.rejected,
    {
        self.rejected
    }
}

} // verus!
