//! The one-shot shutdown signal: a cell that goes from running to stopping once, and
//! that any number of observers, none included, may watch.
use vstd::prelude::*;

verus! {

pub ghost struct ShutdownView {
    pub stopping: bool,
    pub observers: nat,
}

impl ShutdownView {
    pub open spec fn signaled(self) -> ShutdownView {
        ShutdownView { stopping: true, ..self }
    }
}

pub struct ShutdownSignal {
    stopping: bool,
    observers: u64,
}

impl View for ShutdownSignal {
    type V = ShutdownView;

    closed spec fn view(&self) -> ShutdownView {
        ShutdownView { stopping: self.stopping, observers: self.observers as nat }
    }
}

impl ShutdownSignal {
    /// A running signal with no observer.
    pub fn new() -> (r: ShutdownSignal)
        ensures
            r@ == (ShutdownView { stopping: false, observers: 0 }),
    {
        ShutdownSignal { stopping: false, observers: 0 }
    }

    pub fn is_stopping(&self) -> (r: bool)
        ensures
            r == self@.stopping,
    {
        self.stopping
    }

    pub fn observer_count(&self) -> (r: u64)
        ensures
            r == self@.observers,
    {
        self.observers
    }

    /// Registers an observer, at any time; it learns at once whether shutdown has
    /// already begun. The count stays put at `u64::MAX`.
    pub fn observe(&mut self) -> (r: bool)
        ensures
            r == old(self)@.stopping,
            final(self)@.stopping == old(self)@.stopping,
            final(self)@.observers == if old(self)@.observers < u64::MAX {
                old(self)@.observers + 1
            } else {
                old(self)@.observers
            },
    {
        if self.observers < u64::MAX {
            self.observers = self.observers + 1;
        }
        self.stopping
    }

    /// An observer leaves; without observers this changes nothing.
    pub fn release(&mut self)
        ensures
            final(self)@.stopping == old(self)@.stopping,
            final(self)@.observers == if old(self)@.observers > 0 {
                old(self)@.observers - 1
            } else {
                0
            },
    {
        if self.observers > 0 {
            self.observers = self.observers - 1;
        }
    }

    /// Begins shutdown; whether this call made the transition. It cannot fail, whatever
    /// the number of observers, and once stopping a further call changes nothing.
    pub fn signal(&mut self) -> (r: bool)
        ensures
            final(self)@ == old(self)@.signaled(),
            r == !old(self)@.stopping,
            old(self)@.stopping ==> final(self)@ == old(self)@,
    {
        let first = !self.stopping;
        self.stopping = true;
        first
    }
}

/// Signaling is idempotent: a second signal leaves the cell as the first one did, with
/// zero, one or many observers.
pub proof fn lemma_signal_idempotent(s: ShutdownView)
    ensures
        s.signaled().signaled() == s.signaled(),
        s.signaled().stopping,
        s.signaled().observers == s.observers,
{
}

} // verus!
