//! State-change events and the bounded buffer that fans them out.
//!
//! Publication never blocks: the buffer drops its oldest entry on overflow,
//! and listeners that fall behind can always fall back to polling.

use vstd::prelude::*;

use crate::game::WebGameState;

verus! {

/// One state-change announcement of the session manager.
#[derive(Debug, Clone)]
pub enum Event {
    /// A matchmaking batch closed and this match started.
    GameStarted(u64),
    /// A running match advanced; the snapshot is the new state.
    GameUpdate(WebGameState),
    /// A match finished; the snapshot is its final state.
    GameFinished(WebGameState),
}

/// A bounded FIFO of events with a drop-oldest overflow policy.
#[derive(Debug)]
pub struct EventQueue {
    pub items: Vec<Event>,
    pub capacity: usize,
}

impl EventQueue {
    /// The buffer never holds more than its capacity, which is positive.
    pub open spec fn wf(self) -> bool {
        &&& self.items@.len() <= self.capacity
        &&& self.capacity >= 1
    }

    pub fn new(capacity: usize) -> (q: EventQueue)
        requires
            capacity >= 1,
        ensures
            q.wf(),
            q.items@.len() == 0,
            q.capacity == capacity,
    {
        EventQueue { items: Vec::new(), capacity }
    }

    /// Publish one event: it joins at the back, and when the buffer is full
    /// the oldest event is dropped to make room.
    pub fn publish(&mut self, e: Event)
        requires
            old(self).wf(),
        ensures
            final(self).wf(),
            final(self).capacity == old(self).capacity,
            final(self).items@ == if old(self).items@.len() >= old(self).capacity {
                old(self).items@.drop_first().push(e)
            } else {
                old(self).items@.push(e)
            },
    {
        if self.items.len() >= self.capacity {
            self.items.remove(0);
        }
        self.items.push(e);
    }

    /// Hand out everything buffered so far and leave the buffer empty.
    pub fn drain(&mut self) -> (r: Vec<Event>)
        requires
            old(self).wf(),
        ensures
            final(self).wf(),
            final(self).capacity == old(self).capacity,
            final(self).items@.len() == 0,
            r@ == old(self).items@,
    {
        let mut out: Vec<Event> = Vec::new();
        core::mem::swap(&mut out, &mut self.items);
        out
    }
}

} // verus!
