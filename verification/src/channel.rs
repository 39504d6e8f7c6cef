//! Framed message channel.
//!
//! A bounded FIFO queue carrying encoded records from producers to a sink.
//! A full queue refuses the message, so producers feel back-pressure
//! instead of buffering without bound; closing the queue signals end of
//! stream, which a consumer observes once the queue drains.  The
//! asynchronous shell wraps this model in its own waiting.

use vstd::prelude::*;

verus! {

/// Why a message could not be queued.
#[derive(Clone, Copy, PartialEq, Eq, Structural, Debug)]
pub enum ChannelError {
    ChannelClosed,
    ChannelFull,
}

/// What a receiver sees: the oldest message, an empty but open queue, or an
/// empty queue whose senders are gone.
pub enum RecvOutcome {
    Msg(Vec<u8>),
    Empty,
    Disconnected,
}

/// A bounded FIFO queue of encoded records.
pub struct MessageQueue {
    pub buf: Vec<Vec<u8>>,
    pub capacity: usize,
    pub closed: bool,
}

/// The queued records, oldest first.
pub open spec fn queued(buf: Seq<Vec<u8>>) -> Seq<Seq<u8>> {
    buf.map_values(|b: Vec<u8>| b@)
}

impl MessageQueue {
    /// The queue never holds more than its capacity.
    pub open spec fn wf(self) -> bool {
        self.capacity >= 1 && self.buf@.len() <= self.capacity
    }

    /// Queue one record at the back, unless the queue is closed or full.
    pub fn try_send(&mut self, msg: Vec<u8>) -> (r: Result<(), ChannelError>)
        requires
            old(self).wf(),
        ensures
            final(self).wf(),
            final(self).capacity == old(self).capacity,
            final(self).closed == old(self).closed,
            (if old(self).closed {
                r == Err::<(), ChannelError>(ChannelError::ChannelClosed) && final(self).buf@
                    == old(self).buf@
            } else if old(self).buf@.len() >= old(self).capacity {
                r == Err::<(), ChannelError>(ChannelError::ChannelFull) && final(self).buf@ == old(
                    self,
                ).buf@
            } else {
                r == Ok::<(), ChannelError>(()) && queued(final(self).buf@) == queued(
                    old(self).buf@,
                ).push(msg@)
            }),
    {
        if self.closed {
            Err(ChannelError::ChannelClosed)
        } else if self.buf.len() >= self.capacity {
            Err(ChannelError::ChannelFull)
        } else {
            let ghost before = self.buf@;
            self.buf.push(msg);
            proof {
                assert(queued(self.buf@) =~= queued(before).push(msg@));
            }
            Ok(())
        }
    }

    /// Take the oldest record; an empty queue reports whether the senders
    /// are gone.
    pub fn recv(&mut self) -> (r: RecvOutcome)
        requires
            old(self).wf(),
        ensures
            final(self).wf(),
            final(self).capacity == old(self).capacity,
            final(self).closed == old(self).closed,
            (if old(self).buf@.len() > 0 {
                (match r {
                    RecvOutcome::Msg(m) => m@ == queued(old(self).buf@)[0] && queued(
                        final(self).buf@,
                    ) == queued(old(self).buf@).drop_first(),
                    _ => false,
                })
            } else {
                final(self).buf@ == old(self).buf@ && (match r {
                    RecvOutcome::Msg(_) => false,
                    RecvOutcome::Empty => !old(self).closed,
                    RecvOutcome::Disconnected => old(self).closed,
                })
            }),
    {
        if self.buf.len() > 0 {
            let ghost before = self.buf@;
            let m = self.buf.remove(0);
            proof {
                assert(queued(self.buf@) =~= queued(before).drop_first());
            }
            RecvOutcome::Msg(m)
        } else if self.closed {
            RecvOutcome::Disconnected
        } else {
            RecvOutcome::Empty
        }
    }

    /// Drop the sender side: the consumer drains what is queued and then
    /// observes end of stream.
    pub fn close(&mut self)
        ensures
            *final(self) == (MessageQueue { closed: true, ..*old(self) }),
    {
        self.closed = true;
    }
}

/// A fresh bounded channel.
pub fn message_channel(capacity: usize) -> (r: MessageQueue)
    requires
        capacity >= 1,
    ensures
        r.wf(),
        r.capacity == capacity,
        !r.closed,
        r.buf@ == Seq::<Vec<u8>>::empty(),
{
    MessageQueue { buf: Vec::new(), capacity, closed: false }
}

} // verus!
