//! The listener's registry of sessions. A session is registered when its connection is
//! accepted and ends once both of its actors have exited, in either order.
use vstd::prelude::*;

verus! {

/// The two actors of a session.
pub enum Side {
    Inbound,
    Outbound,
}

pub ghost struct SessionView {
    pub id: u64,
    pub inbound_live: bool,
    pub outbound_live: bool,
}

struct SessionEntry {
    id: u64,
    inbound_live: bool,
    outbound_live: bool,
}

impl View for SessionEntry {
    type V = SessionView;

    closed spec fn view(&self) -> SessionView {
        SessionView { id: self.id, inbound_live: self.inbound_live, outbound_live: self.outbound_live }
    }
}

pub open spec fn has_session(ss: Seq<SessionView>, id: u64) -> bool {
    exists|k: int| 0 <= k < ss.len() && ss[k].id == id
}

/// Position of the session with this id, or -1.
pub open spec fn session_index(ss: Seq<SessionView>, id: u64) -> int {
    if has_session(ss, id) {
        choose|k: int| 0 <= k < ss.len() && ss[k].id == id
    } else {
        -1
    }
}

/// The sessions once the `side` actor of session `id` has exited: a session whose
/// other actor is gone too leaves the registry.
pub open spec fn after_exit(ss: Seq<SessionView>, id: u64, side: Side) -> Seq<SessionView> {
    if has_session(ss, id) {
        let k = session_index(ss, id);
        let s = ss[k];
        let t = match side {
            Side::Inbound => SessionView { inbound_live: false, ..s },
            Side::Outbound => SessionView { outbound_live: false, ..s },
        };
        if !t.inbound_live && !t.outbound_live {
            ss.remove(k)
        } else {
            ss.update(k, t)
        }
    } else {
        ss
    }
}

pub struct SessionRegistry {
    sessions: Vec<SessionEntry>,
}

impl View for SessionRegistry {
    type V = Seq<SessionView>;

    closed spec fn view(&self) -> Seq<SessionView> {
        self.sessions@.map_values(|e: SessionEntry| e@)
    }
}

impl SessionRegistry {
    /// Ids are unique, and every registered session has an actor still running.
    pub open spec fn wf(&self) -> bool {
        &&& forall|k1: int, k2: int|
            0 <= k1 < self@.len() && 0 <= k2 < self@.len() && k1 != k2 ==> #[trigger] self@[k1].id
                != #[trigger] self@[k2].id
        &&& forall|k: int|
            0 <= k < self@.len() ==> (#[trigger] self@[k]).inbound_live || self@[k].outbound_live
    }

    pub fn new() -> (r: SessionRegistry)
        ensures
            r.wf(),
            r@.len() == 0,
    {
        SessionRegistry { sessions: Vec::new() }
    }

    pub fn live_count(&self) -> (r: usize)
        ensures
            r == self@.len(),
    {
        self.sessions.len()
    }

    fn find(&self, id: u64) -> (r: Option<usize>)
        requires
            self.wf(),
        ensures
            match r {
                Some(k) => k < self@.len() && has_session(self@, id) && k == session_index(
                    self@,
                    id,
                ),
                None => !has_session(self@, id),
            },
    {
        let mut k: usize = 0;
        while k < self.sessions.len()
            invariant
                self.wf(),
                k <= self@.len(),
                self@.len() == self.sessions@.len(),
                forall|j: int| 0 <= j < k ==> self@[j].id != id,
            decreases self.sessions.len() - k,
        {
            if self.sessions[k].id == id {
                assert(self@[k as int].id == id);
                assert(has_session(self@, id));
                return Some(k);
            }
            k = k + 1;
        }
        None
    }

    pub fn is_live(&self, id: u64) -> (r: bool)
        requires
            self.wf(),
        ensures
            r == has_session(self@, id),
    {
        self.find(id).is_some()
    }

    /// Registers a new session with both actors running; false, and no change, when a
    /// session with this id is already registered.
    pub fn open(&mut self, id: u64) -> (r: bool)
        requires
            old(self).wf(),
        ensures
            final(self).wf(),
            r == !has_session(old(self)@, id),
            r ==> final(self)@ == old(self)@.push(
                SessionView { id, inbound_live: true, outbound_live: true },
            ),
            !r ==> final(self)@ == old(self)@,
    {
        if self.find(id).is_some() {
            return false;
        }
        self.sessions.push(SessionEntry { id, inbound_live: true, outbound_live: true });
        assert(self@ =~= old(self)@.push(SessionView { id, inbound_live: true, outbound_live: true }));
        true
    }

    /// Records that one actor of session `id` has exited; whether the session has now
    /// ended and left the registry.
    pub fn actor_exited(&mut self, id: u64, side: Side) -> (r: bool)
        requires
            old(self).wf(),
        ensures
            final(self).wf(),
            final(self)@ == after_exit(old(self)@, id, side),
            r == (has_session(old(self)@, id) && !has_session(final(self)@, id)),
    {
        let k = match self.find(id) {
            Some(k) => k,
            None => return false,
        };
        let ghost old_view = self@;
        let inbound = match side {
            Side::Inbound => false,
            Side::Outbound => self.sessions[k].inbound_live,
        };
        let outbound = match side {
            Side::Inbound => self.sessions[k].outbound_live,
            Side::Outbound => false,
        };
        if !inbound && !outbound {
            self.sessions.remove(k);
            assert(self@ =~= old_view.remove(k as int));
            assert(!has_session(self@, id)) by {
                if has_session(self@, id) {
                    let j = choose|j: int| 0 <= j < self@.len() && self@[j].id == id;
                    if j < k {
                        assert(old_view[j].id == id);
                    } else {
                        assert(old_view[j + 1].id == id);
                    }
                }
            }
            true
        } else {
            self.sessions.set(k, SessionEntry { id, inbound_live: inbound, outbound_live: outbound });
            assert(self@ =~= after_exit(old_view, id, side));
            assert(has_session(self@, id)) by {
                assert(self@[k as int].id == id);
            }
            false
        }
    }
}

/// A session ends only once both of its actors have exited, in either order.
pub proof fn lemma_session_ends_after_both(ss: Seq<SessionView>, id: u64)
    requires
        forall|k1: int, k2: int|
            0 <= k1 < ss.len() && 0 <= k2 < ss.len() && k1 != k2 ==> #[trigger] ss[k1].id
                != #[trigger] ss[k2].id,
        has_session(ss, id),
        ss[session_index(ss, id)].inbound_live,
        ss[session_index(ss, id)].outbound_live,
    ensures
        has_session(after_exit(ss, id, Side::Inbound), id),
        has_session(after_exit(ss, id, Side::Outbound), id),
        !has_session(after_exit(after_exit(ss, id, Side::Inbound), id, Side::Outbound), id),
        !has_session(after_exit(after_exit(ss, id, Side::Outbound), id, Side::Inbound), id),
{
    let k = session_index(ss, id);
    let a = after_exit(ss, id, Side::Inbound);
    let b = after_exit(ss, id, Side::Outbound);
    assert(a[k].id == id);
    assert(b[k].id == id);
    assert(session_index(a, id) == k);
    assert(session_index(b, id) == k);
    let a2 = after_exit(a, id, Side::Outbound);
    let b2 = after_exit(b, id, Side::Inbound);
    assert(a2 == a.remove(k));
    assert(b2 == b.remove(k));
    if has_session(a2, id) {
        let j = choose|j: int| 0 <= j < a2.len() && a2[j].id == id;
        if j < k {
            assert(ss[j].id == id);
        } else {
            assert(ss[j + 1].id == id);
        }
    }
    if has_session(b2, id) {
        let j = choose|j: int| 0 <= j < b2.len() && b2[j].id == id;
        if j < k {
            assert(ss[j].id == id);
        } else {
            assert(ss[j + 1].id == id);
        }
    }
}

} // verus!
