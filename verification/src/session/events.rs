//! The retained log of session lifecycle events.

use crate::session::types::SessionEvent;
use std::collections::VecDeque;
use vstd::prelude::*;

verus! {

/// Maximum number of lifecycle events retained for replay.
pub const SESSION_EVENT_LOG_CAP: usize = 500;

/// The retained window of events and the number of the next one.
pub struct EventLog {
    pub events: VecDeque<SessionEvent>,
    pub next_id: u64,
}

/// The retained window as a sequence.
pub ghost struct EventWindow {
    pub events: Seq<SessionEvent>,
    pub next_id: u64,
}

impl EventWindow {
    /// The window holds at most its cap, numbered without gaps up to the
    /// latest event.
    pub open spec fn wf(self) -> bool {
        &&& self.events.len() <= SESSION_EVENT_LOG_CAP
        &&& self.events.len() < self.next_id
        &&& forall|i: int|
            0 <= i < self.events.len() ==> (#[trigger] self.events[i]).id == self.next_id
                - self.events.len() + i
    }

    /// The window behind one more event: it gets the next number, and the
    /// oldest leave where the cap is passed.
    pub open spec fn appended(self, e: SessionEvent) -> EventWindow {
        let p = self.events.push(SessionEvent { id: self.next_id, ..e });
        EventWindow {
            events: if p.len() > SESSION_EVENT_LOG_CAP {
                p.skip(p.len() - SESSION_EVENT_LOG_CAP)
            } else {
                p
            },
            next_id: (self.next_id + 1) as u64,
        }
    }

    /// The retained events behind the cursor `since`.
    pub open spec fn after(self, since: u64) -> Seq<SessionEvent> {
        later(self.events, since)
    }
}

/// The events with a number above `since`, in order.
pub open spec fn later(events: Seq<SessionEvent>, since: u64) -> Seq<SessionEvent>
    decreases events.len(),
{
    if events.len() == 0 {
        events
    } else if events.last().id > since {
        later(events.drop_last(), since).push(events.last())
    } else {
        later(events.drop_last(), since)
    }
}

impl View for EventLog {
    type V = EventWindow;

    open spec fn view(&self) -> EventWindow {
        EventWindow { events: self.events@, next_id: self.next_id }
    }
}

impl EventLog {
    /// An empty log; the first event gets number 1.
    pub fn new() -> (r: Self)
        ensures
            r@ == (EventWindow { events: Seq::empty(), next_id: 1 }),
            r@.wf(),
    {
        EventLog { events: VecDeque::new(), next_id: 1 }
    }

    /// Append an event under the next number and return that number.
    pub fn publish(&mut self, event: SessionEvent) -> (id: u64)
        requires
            old(self)@.wf(),
            old(self).next_id < u64::MAX,
        ensures
            final(self)@ == old(self)@.appended(event),
            final(self)@.wf(),
            id == old(self).next_id,
    {
        let mut event = event;
        let id: u64 = self.next_id;
        event.id = id;
        self.next_id = id + 1;
        self.events.push_back(event);
        if self.events.len() > SESSION_EVENT_LOG_CAP {
            self.events.pop_front();
        }
        proof {
            assert(self@.events =~= old(self)@.appended(event).events);
        }
        id
    }

    /// The latest number, and the retained events behind the cursor `since`.
    pub fn replay(&self, since: u64) -> (r: (u64, Vec<SessionEvent>))
        ensures
            r.0 == if self.next_id == 0 {
                0
            } else {
                (self.next_id - 1) as u64
            },
            r.1@ == self@.after(since),
    {
        let cursor: u64 = if self.next_id == 0 {
            0
        } else {
            self.next_id - 1
        };
        let mut out: Vec<SessionEvent> = Vec::new();
        let mut i: usize = 0;
        while i < self.events.len()
            invariant
                i <= self.events@.len(),
                out@ == later(self.events@.take(i as int), since),
            decreases self.events@.len() - i,
        {
            let e = &self.events[i];
            proof {
                assert(self.events@.take(i + 1).drop_last() =~= self.events@.take(i as int));
            }
            if e.id > since {
                out.push(e.copy());
            }
            i = i + 1;
        }
        proof {
            assert(self.events@.take(i as int) =~= self.events@);
        }
        (cursor, out)
    }
}

/// Where numbers rise by one, the events above a number are a suffix.
proof fn lemma_later(events: Seq<SessionEvent>, first: int, since: u64)
    requires
        forall|i: int| 0 <= i < events.len() ==> (#[trigger] events[i]).id == first + i,
    ensures
        later(events, since) == events.skip(
            if since < first {
                0
            } else if since - first + 1 > events.len() {
                events.len() as int
            } else {
                since - first + 1
            },
        ),
    decreases events.len(),
{
    if events.len() > 0 {
        let front = events.drop_last();
        assert forall|i: int| 0 <= i < front.len() implies (#[trigger] front[i]).id == first
            + i by {
            assert(front[i] == events[i]);
        }
        lemma_later(front, first, since);
        let k: int = if since < first {
            0
        } else if since - first + 1 > events.len() {
            events.len() as int
        } else {
            since - first + 1
        };
        if events.last().id > since {
            assert(front.skip(k).push(events.last()) =~= events.skip(k));
        } else {
            assert(later(events, since) =~= events.skip(k));
        }
    } else {
        assert(events.skip(0) =~= events);
    }
}

/// Replay gives every retained event behind the cursor, each once and in
/// order: the newest ones, as many as were published behind the cursor or
/// as are retained.
pub proof fn law_replay_is_the_newest(w: EventWindow, since: u64)
    requires
        w.wf(),
        since < w.next_id,
    ensures
        ({
            let behind = w.next_id - 1 - since;
            let n = if behind < w.events.len() {
                behind
            } else {
                w.events.len() as int
            };
            w.after(since) == w.events.skip(w.events.len() - n)
        }),
{
    lemma_later(w.events, w.next_id - w.events.len(), since);
}

/// A reader at the latest cursor sees exactly the next event once it is
/// published, and nothing before.
pub proof fn law_replay_follows_publish(w: EventWindow, e: SessionEvent)
    requires
        w.wf(),
        w.next_id < u64::MAX,
    ensures
        w.after((w.next_id - 1) as u64) == Seq::<SessionEvent>::empty(),
        w.appended(e).after((w.next_id - 1) as u64) == seq![SessionEvent { id: w.next_id, ..e }],
        w.appended(e).wf(),
{
    let since = (w.next_id - 1) as u64;
    law_replay_is_the_newest(w, since);
    let next = w.appended(e);
    assert(next.wf());
    law_replay_is_the_newest(next, since);
    assert(w.after(since) =~= Seq::empty());
    assert(next.after(since) =~= seq![SessionEvent { id: w.next_id, ..e }]);
}

} // verus!
