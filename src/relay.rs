//! The relay's shared state: the hub, and the registry of the sessions that it serves.
//! Each session is keyed by its subscription's id.
use vstd::prelude::*;
use crate::hub::{Delivery, Hub, HubView};
use crate::listener::{SessionRegistry, SessionView, Side, after_exit, has_session};
use crate::session::InboundAction;

verus! {

pub ghost struct RelayView {
    pub hub: HubView,
    pub sessions: Seq<SessionView>,
}

pub struct Relay {
    hub: Hub,
    sessions: SessionRegistry,
}

impl View for Relay {
    type V = RelayView;

    closed spec fn view(&self) -> RelayView {
        RelayView { hub: self.hub@, sessions: self.sessions@ }
    }
}

impl Relay {
    /// Every session's id was handed out by the hub.
    pub closed spec fn wf(&self) -> bool {
        &&& self.hub.wf()
        &&& self.sessions.wf()
        &&& forall|k: int|
            0 <= k < self.sessions@.len() ==> (#[trigger] self.sessions@[k]).id < self.hub@.next_id
    }

    pub fn new(capacity: usize) -> (r: Relay)
        requires
            capacity > 0,
        ensures
            r.wf(),
            r@.hub.capacity == capacity,
            r@.hub.history.len() == 0,
            r@.hub.subs.len() == 0,
            r@.sessions.len() == 0,
    {
        Relay { hub: Hub::new(capacity), sessions: SessionRegistry::new() }
    }

    /// A new session: a fresh subscription, registered with both actors running.
    pub fn accept(&mut self) -> (r: Option<u64>)
        requires
            old(self).wf(),
        ensures
            final(self).wf(),
            match r {
                Some(id) => {
                    &&& id == old(self)@.hub.next_id
                    &&& final(self)@.hub == old(self)@.hub.subscribed()
                    &&& final(self)@.sessions == old(self)@.sessions.push(
                        SessionView { id, inbound_live: true, outbound_live: true },
                    )
                },
                None => old(self)@.hub.next_id == u64::MAX && final(self)@ == old(self)@,
            },
    {
        let id = match self.hub.subscribe() {
            Some(id) => id,
            None => return None,
        };
        assert(!has_session(self.sessions@, id)) by {
            if has_session(self.sessions@, id) {
                let k = choose|k: int| 0 <= k < self.sessions@.len() && self.sessions@[k].id == id;
                assert(self.sessions@[k].id < old(self)@.hub.next_id);
            }
        }
        let opened = self.sessions.open(id);
        assert(opened);
        Some(id)
    }

    /// Carries out what an inbound reader decided; whether the reader goes on.
    pub fn apply_inbound(&mut self, action: InboundAction) -> (r: bool)
        requires
            old(self).wf(),
        ensures
            final(self).wf(),
            final(self)@.sessions == old(self)@.sessions,
            match action {
                InboundAction::Publish(p) => r && final(self)@.hub == old(self)@.hub.published(p@),
                InboundAction::Skip => r && final(self)@ == old(self)@,
                InboundAction::Stop => !r && final(self)@ == old(self)@,
            },
    {
        match action {
            InboundAction::Publish(p) => {
                self.hub.publish(p);
                true
            },
            InboundAction::Skip => true,
            InboundAction::Stop => false,
        }
    }

    /// The next delivery for the session `id`'s writer.
    pub fn take(&mut self, id: u64) -> (r: Delivery)
        requires
            old(self).wf(),
        ensures
            final(self).wf(),
            final(self)@.sessions == old(self)@.sessions,
            match r {
                Delivery::Unknown => !old(self)@.hub.has_id(id) && final(self)@ == old(self)@,
                Delivery::Lagged(n) => {
                    let k = old(self)@.hub.index_of(id);
                    &&& old(self)@.hub.has_id(id)
                    &&& n > 0
                    &&& n == old(self)@.hub.subs[k].lag
                    &&& final(self)@.hub == old(self)@.hub.taken(k)
                },
                Delivery::Empty => {
                    let k = old(self)@.hub.index_of(id);
                    &&& old(self)@.hub.has_id(id)
                    &&& old(self)@.hub.subs[k].lag == 0
                    &&& old(self)@.hub.queue(k).len() == 0
                    &&& final(self)@ == old(self)@
                },
                Delivery::Message(m) => {
                    let k = old(self)@.hub.index_of(id);
                    &&& old(self)@.hub.has_id(id)
                    &&& old(self)@.hub.subs[k].lag == 0
                    &&& old(self)@.hub.queue(k).len() > 0
                    &&& m@ == old(self)@.hub.queue(k)[0]
                    &&& final(self)@.hub == old(self)@.hub.taken(k)
                },
            },
    {
        self.hub.recv(id)
    }

    /// Records that one actor of session `id` exited. Once its writer is gone the
    /// session's subscription ends, so that nothing more is queued for it. Whether the
    /// session has now ended.
    pub fn actor_exited(&mut self, id: u64, side: Side) -> (r: bool)
        requires
            old(self).wf(),
        ensures
            final(self).wf(),
            final(self)@.sessions == after_exit(old(self)@.sessions, id, side),
            final(self)@.hub == match side {
                Side::Inbound => old(self)@.hub,
                Side::Outbound => old(self)@.hub.unsubscribed(id),
            },
            r == (has_session(old(self)@.sessions, id) && !has_session(final(self)@.sessions, id)),
    {
        let outbound = match side {
            Side::Inbound => false,
            Side::Outbound => true,
        };
        let ghost old_sessions = self.sessions@;
        let ended = self.sessions.actor_exited(id, side);
        assert forall|k: int| 0 <= k < self.sessions@.len() implies (
        #[trigger] self.sessions@[k]).id < old(self)@.hub.next_id by {
            let ss = old_sessions;
            if has_session(ss, id) {
                let j = crate::listener::session_index(ss, id);
                if self.sessions@ == ss.remove(j) {
                    if k < j {
                        assert(self.sessions@[k] == ss[k]);
                    } else {
                        assert(self.sessions@[k] == ss[k + 1]);
                    }
                } else {
                    assert(self.sessions@[k].id == ss[k].id);
                }
            }
        }
        if outbound {
            self.hub.unsubscribe(id);
        }
        ended
    }

    pub fn session_count(&self) -> (r: usize)
        ensures
            r == self@.sessions.len(),
    {
        self.sessions.live_count()
    }

    pub fn subscriber_count(&self) -> (r: usize)
        ensures
            r == self@.hub.subs.len(),
    {
        self.hub.subscriber_count()
    }
}

} // verus!
