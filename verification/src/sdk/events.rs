//! The queue of events waiting for the embedding application.

use vstd::prelude::*;
use crate::sdk::types::SDKEvent;

verus! {

/// Events in the order they were pushed; the oldest comes out first.
#[derive(Debug)]
pub struct EventQueue {
    events: Vec<SDKEvent>,
}

impl View for EventQueue {
    type V = Seq<SDKEvent>;

    closed spec fn view(&self) -> Seq<SDKEvent> {
        self.events@
    }
}

impl EventQueue {
    /// An empty queue.
    pub fn new() -> (r: EventQueue)
        ensures
            r@ == Seq::<SDKEvent>::empty(),
    {
        EventQueue { events: Vec::new() }
    }

    /// Adds an event at the back.
    pub fn push(&mut self, event: SDKEvent)
        ensures
            final(self)@ == old(self)@.push(event),
    {
        self.events.push(event);
    }

    /// Takes the oldest event, if any.
    pub fn poll(&mut self) -> (r: Option<SDKEvent>)
        ensures
            old(self)@.len() == 0 ==> r is None && final(self)@ == old(self)@,
            old(self)@.len() > 0 ==> r == Some(old(self)@[0]) && final(self)@ == old(self)@.drop_first(),
    {
        if self.events.len() == 0 {
            None
        } else {
            let e = self.events.remove(0);
            assert(self.events@ =~= old(self)@.drop_first());
            Some(e)
        }
    }

    /// Takes all events, oldest first, leaving the queue empty.
    pub fn drain(&mut self) -> (r: Vec<SDKEvent>)
        ensures
            r@ == old(self)@,
            final(self)@.len() == 0,
    {
        let mut out: Vec<SDKEvent> = Vec::new();
        std::mem::swap(&mut out, &mut self.events);
        out
    }

    /// The number of waiting events.
    pub fn len(&self) -> (r: usize)
        ensures
            r == self@.len(),
    {
        self.events.len()
    }
}

impl Default for EventQueue {
    fn default() -> (r: EventQueue)
        ensures
            r@ == Seq::<SDKEvent>::empty(),
    {
        EventQueue::new()
    }
}

/// Events come out of the queue in the order they went in: pushing onto a
/// queue and then polling gives what polling the queue alone would have
/// given, or the pushed event when the queue was empty.
pub proof fn lemma_queue_fifo(q: Seq<SDKEvent>, e: SDKEvent)
    ensures
        q.push(e)[0] == (if q.len() == 0 {
            e
        } else {
            q[0]
        }),
        q.len() > 0 ==> q.push(e).drop_first() == q.drop_first().push(e),
{
    if q.len() > 0 {
        assert(q.push(e).drop_first() =~= q.drop_first().push(e));
    }
}

} // verus!
