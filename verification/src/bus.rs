//! The outbound event queue.
//!
//! Events wait here for the consumer, in the order they were produced.
//! The queue is bounded: when it is full a new event is dropped rather
//! than blocking the producer, so timers keep ticking even when nobody
//! drains. The consumer pulls without blocking.

use vstd::prelude::*;

use crate::errors::DriverError;
use crate::events::{Event, EventV, events_view};

verus! {

/// The queue after offering a list of events in order to a bounded queue:
/// each lands at the back while there is room and is dropped otherwise.
pub open spec fn enqueue_lossy(q: Seq<EventV>, evs: Seq<EventV>, cap: int) -> Seq<EventV>
    decreases evs.len(),
{
    if evs.len() == 0 {
        q
    } else {
        enqueue_lossy(
            if q.len() < cap {
                q.push(evs[0])
            } else {
                q
            },
            evs.skip(1),
            cap,
        )
    }
}

/// Law: offering two lists one after the other is offering their
/// concatenation.
pub proof fn lemma_enqueue_concat(q: Seq<EventV>, a: Seq<EventV>, b: Seq<EventV>, cap: int)
    ensures
        enqueue_lossy(q, a + b, cap) == enqueue_lossy(enqueue_lossy(q, a, cap), b, cap),
    decreases a.len(),
{
    if a.len() == 0 {
        assert(a + b =~= b);
    } else {
        assert((a + b)[0] == a[0]);
        assert((a + b).skip(1) =~= a.skip(1) + b);
        let q2 = if q.len() < cap {
            q.push(a[0])
        } else {
            q
        };
        lemma_enqueue_concat(q2, a.skip(1), b, cap);
    }
}

/// Law: a queue with room enough loses nothing: the offered events all
/// land at the back, in order.
pub proof fn lemma_enqueue_no_loss(q: Seq<EventV>, evs: Seq<EventV>, cap: int)
    requires
        q.len() + evs.len() <= cap,
    ensures
        enqueue_lossy(q, evs, cap) == q + evs,
    decreases evs.len(),
{
    if evs.len() == 0 {
        assert(q + evs =~= q);
    } else {
        lemma_enqueue_no_loss(q.push(evs[0]), evs.skip(1), cap);
        assert(q.push(evs[0]) + evs.skip(1) =~= q + evs);
    }
}

/// A bounded first-in, first-out queue of events.
#[derive(Debug)]
pub struct EventBus {
    pub queue: Vec<Event>,
    pub capacity: usize,
}

impl EventBus {
    pub fn new(capacity: usize) -> (r: EventBus)
        ensures
            r.queue@.len() == 0,
            r.capacity == capacity,
    {
        EventBus { queue: Vec::new(), capacity }
    }

    /// How many events wait in the queue.
    pub fn len(&self) -> (r: usize)
        ensures
            r == self.queue@.len(),
    {
        self.queue.len()
    }

    /// Appends an event, unless the queue is full; a full queue drops the
    /// event and says so.
    pub fn push(&mut self, e: Event) -> (r: Result<(), DriverError>)
        ensures
            old(self).queue@.len() < old(self).capacity ==> r is Ok && final(self).queue@ == old(
                self,
            ).queue@.push(e),
            old(self).queue@.len() >= old(self).capacity ==> (r matches Err(
                DriverError::EventBusFull,
            )) && final(self).queue@ == old(self).queue@,
            final(self).capacity == old(self).capacity,
    {
        if self.queue.len() < self.capacity {
            self.queue.push(e);
            Ok(())
        } else {
            Err(DriverError::EventBusFull)
        }
    }

    /// Offers each event in order, dropping those that find the queue
    /// full.
    pub fn push_all(&mut self, evs: Vec<Event>)
        ensures
            events_view(final(self).queue@) == enqueue_lossy(
                events_view(old(self).queue@),
                events_view(evs@),
                old(self).capacity as int,
            ),
            final(self).capacity == old(self).capacity,
    {
        let ghost orig = events_view(evs@);
        let mut evs = evs;
        proof {
            assert(events_view(evs@) =~= orig);
        }
        while evs.len() > 0
            invariant
                self.capacity == old(self).capacity,
                enqueue_lossy(
                    events_view(old(self).queue@),
                    orig,
                    self.capacity as int,
                ) == enqueue_lossy(
                    events_view(self.queue@),
                    events_view(evs@),
                    self.capacity as int,
                ),
            decreases evs@.len(),
        {
            let ghost cur = events_view(evs@);
            let ghost q_pre = events_view(self.queue@);
            let e = evs.remove(0);
            proof {
                assert(cur[0] == e@);
                assert(events_view(evs@) =~= cur.skip(1));
            }
            let dropped = self.push(e);
            proof {
                if q_pre.len() < self.capacity {
                    assert(events_view(self.queue@) =~= q_pre.push(cur[0]));
                } else {
                    assert(events_view(self.queue@) =~= q_pre);
                }
            }
        }
        proof {
            assert(events_view(evs@) =~= Seq::<EventV>::empty());
        }
    }

    /// Takes the oldest waiting event, if any.
    pub fn pop(&mut self) -> (r: Option<Event>)
        ensures
            old(self).queue@.len() == 0 ==> r is None && final(self).queue@ == old(self).queue@,
            old(self).queue@.len() > 0 ==> r is Some && r.unwrap() == old(self).queue@[0]
                && final(self).queue@ == old(self).queue@.skip(1),
            final(self).capacity == old(self).capacity,
    {
        if self.queue.len() == 0 {
            None
        } else {
            let e = self.queue.remove(0);
            proof {
                assert(self.queue@ =~= old(self).queue@.skip(1));
            }
            Some(e)
        }
    }
}

} // verus!
