//! Outbound messages and their serialization.
//!
//! Every outbound call to the chat endpoint goes through the `Dispatcher`,
//! which queues requests and hands them out one at a time in the order
//! they were made, whichever loop made them.  This is what keeps a
//! heartbeat edit and a change notification from overtaking one another.

use vstd::prelude::*;

verus! {

/// The abstract value of one outbound request.
pub enum OutboundView {
    /// Post a new message.
    Send { text: Seq<char> },
    /// Replace the content of the previously sent message named by
    /// `handle`; used only for the heartbeat indicator.
    Edit { handle: u64, text: Seq<char> },
    /// Reply to the inbound message that caused this request.
    Reply { text: Seq<char> },
}

/// One outbound request to the chat endpoint.
pub enum Outbound {
    Send { text: String },
    Edit { handle: u64, text: String },
    Reply { text: String },
}

impl View for Outbound {
    type V = OutboundView;

    open spec fn view(&self) -> OutboundView {
        match self {
            Outbound::Send { text } => OutboundView::Send { text: text@ },
            Outbound::Edit { handle, text } => OutboundView::Edit { handle: *handle, text: text@ },
            Outbound::Reply { text } => OutboundView::Reply { text: text@ },
        }
    }
}

/// Serializes outbound requests: at most one is in flight at a time, and
/// they leave in the order they were enqueued (first in, first out, across
/// all producers).
pub struct Dispatcher {
    queue: Vec<Outbound>,
}

impl View for Dispatcher {
    type V = Seq<OutboundView>;

    closed spec fn view(&self) -> Seq<OutboundView> {
        self.queue@.map_values(|o: Outbound| o@)
    }
}

impl Dispatcher {
    pub fn new() -> (d: Dispatcher)
        ensures
            d@ =~= Seq::<OutboundView>::empty(),
    {
        Dispatcher { queue: Vec::new() }
    }

    /// Enqueues one outbound request behind all earlier ones.
    fn enqueue(&mut self, msg: Outbound)
        ensures
            final(self)@ =~= old(self)@.push(msg@),
    {
        self.queue.push(msg);
        proof {
            assert(self.queue@.drop_last() =~= old(self).queue@);
            assert(self.queue@.map_values(|o: Outbound| o@).drop_last() =~= old(
                self,
            ).queue@.map_values(|o: Outbound| o@));
        }
    }

    /// Enqueues a change notification.
    pub fn notify(&mut self, text: String)
        ensures
            final(self)@ =~= old(self)@.push(OutboundView::Send { text: text@ }),
    {
        self.enqueue(Outbound::Send { text });
    }

    /// Enqueues an edit of the heartbeat message.
    pub fn refresh_heartbeat(&mut self, handle: u64, text: String)
        ensures
            final(self)@ =~= old(self)@.push(OutboundView::Edit { handle, text: text@ }),
    {
        self.enqueue(Outbound::Edit { handle, text });
    }

    /// Enqueues a reply to an inbound command.
    pub fn reply(&mut self, text: String)
        ensures
            final(self)@ =~= old(self)@.push(OutboundView::Reply { text: text@ }),
    {
        self.enqueue(Outbound::Reply { text });
    }

    pub fn len(&self) -> (n: usize)
        ensures
            n == self@.len(),
    {
        self.queue.len()
    }

    /// Hands out the oldest queued request, if any.
    pub fn next(&mut self) -> (r: Option<Outbound>)
        ensures
            old(self)@.len() == 0 ==> r is None && final(self)@ == old(self)@,
            old(self)@.len() > 0 ==> (r matches Some(m) && m@ == old(self)@[0] && final(self)@
                =~= old(self)@.drop_first()),
    {
        if self.queue.len() == 0 {
            None
        } else {
            let m = self.queue.remove(0);
            proof {
                assert(self.queue@ =~= old(self).queue@.drop_first());
                assert(self.queue@.map_values(|o: Outbound| o@) =~= old(self).queue@.map_values(
                    |o: Outbound| o@,
                ).drop_first());
            }
            Some(m)
        }
    }
}

/// The order in which a queue leaves the dispatcher when it is drained by
/// repeated calls of `next`: each step hands out the head and keeps the
/// tail.
pub open spec fn drain_order(q: Seq<OutboundView>) -> Seq<OutboundView>
    decreases q.len(),
{
    if q.len() == 0 {
        Seq::empty()
    } else {
        seq![q[0]] + drain_order(q.drop_first())
    }
}

/// Serialization preserves order: draining the dispatcher delivers exactly
/// the requests that were enqueued, in the order they were enqueued.  In
/// particular, two requests enqueued one after the other — by whichever
/// producers — are delivered in that same relative order.
pub proof fn lemma_fifo_no_reorder(q: Seq<OutboundView>)
    ensures
        drain_order(q) == q,
    decreases q.len(),
{
    if q.len() == 0 {
        assert(drain_order(q) =~= q);
    } else {
        lemma_fifo_no_reorder(q.drop_first());
        assert(seq![q[0]] + q.drop_first() =~= q);
    }
}

} // verus!
