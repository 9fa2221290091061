//! Bounded event channel between the hook thread and the frame-paced consumer.
//!
//! The producer side never blocks: on a full channel [`EventChannel::try_send`]
//! rejects the incoming message (drop-newest policy) and reports the loss to
//! the caller, because blocking in the hook callback would stall system input.
//! The consumer side never blocks either: [`EventChannel::drain_all`] returns
//! immediately, with an empty vector when nothing is queued. Messages come out
//! in exactly the order they went in (FIFO).

use vstd::prelude::*;

use crate::key_message::KeyMessage;

verus! {

/// Default channel capacity: large enough that a consumer hiccup (a slow
/// frame, a modal dialog) does not cause loss under ordinary event rates.
pub const CHANNEL_CAP: usize = 65536;

/// A bounded FIFO queue of [`KeyMessage`] values with a fixed capacity chosen
/// at construction.
///
/// This is the logical single-producer/single-consumer handoff: both
/// operations are plain O(amortized) vector operations and neither can wait.
pub struct EventChannel {
    buf: Vec<KeyMessage>,
    cap: usize,
}

impl EventChannel {
    /// The queued messages, oldest first.
    pub closed spec fn contents(self) -> Seq<KeyMessage> {
        self.buf@
    }

    /// The fixed capacity the channel was created with.
    pub closed spec fn capacity(self) -> usize {
        self.cap
    }

    /// Internal consistency: never holds more than its capacity.
    pub closed spec fn wf(self) -> bool {
        self.buf@.len() <= self.cap && self.cap >= 1
    }

    /// Creates an empty channel with the given fixed capacity.
    pub fn new(capacity: usize) -> (c: EventChannel)
        requires
            capacity >= 1,
        ensures
            c.wf(),
            c.capacity() == capacity,
            c.contents() =~= Seq::<KeyMessage>::empty(),
    {
        EventChannel { buf: Vec::new(), cap: capacity }
    }

    /// Number of messages currently queued.
    pub fn len(&self) -> (n: usize)
        ensures
            n == self.contents().len(),
    {
        self.buf.len()
    }

    /// Producer side. Never blocks: appends the message when there is room
    /// and returns `true`; on a full channel it drops the incoming (newest)
    /// message, leaves the queue unchanged and returns `false`.
    pub fn try_send(&mut self, m: KeyMessage) -> (accepted: bool)
        requires
            old(self).wf(),
        ensures
            final(self).wf(),
            final(self).capacity() == old(self).capacity(),
            accepted == (old(self).contents().len() < old(self).capacity()),
            accepted ==> final(self).contents() == old(self).contents().push(m),
            !accepted ==> final(self).contents() == old(self).contents(),
    {
        if self.buf.len() < self.cap {
            self.buf.push(m);
            true
        } else {
            false
        }
    }

    /// Consumer side, called once per frame. Never blocks: hands back every
    /// queued message in production (FIFO) order and leaves the channel
    /// empty. On an empty channel the result is simply the empty vector.
    pub fn drain_all(&mut self) -> (out: Vec<KeyMessage>)
        requires
            old(self).wf(),
        ensures
            final(self).wf(),
            final(self).capacity() == old(self).capacity(),
            out@ == old(self).contents(),
            final(self).contents() =~= Seq::<KeyMessage>::empty(),
    {
        let out = self.buf.split_off(0);
        proof {
            assert(out@ =~= old(self).contents());
        }
        out
    }
}

} // verus!
