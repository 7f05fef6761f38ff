//! The broadcast hub: every subscription has a bounded queue; a publish reaches every
//! subscription that exists when it is made, including the publisher's own. When a
//! queue is full its oldest payload is dropped and the subscription is told how many
//! it missed.
use vstd::prelude::*;
use crate::payload::{MessagePayload, PayloadView, is_blank};

verus! {

/// One subscription. Its queue holds the payloads of the hub's history from `next` on.
pub ghost struct SubView {
    pub id: u64,
    /// Length of the history when the subscription was made.
    pub start: nat,
    /// Position in the history of the oldest payload not yet taken or dropped.
    pub next: nat,
    /// Payloads dropped since the subscription last learned of a drop.
    pub lag: u64,
}

pub ghost struct HubView {
    pub capacity: nat,
    /// Every payload relayed so far, in order.
    pub history: Seq<PayloadView>,
    pub subs: Seq<SubView>,
    pub next_id: u64,
}

/// What a subscription takes from the hub.
pub enum Delivery {
    Message(MessagePayload),
    /// This many payloads were dropped before the next one that is still queued.
    Lagged(u64),
    Empty,
    /// No subscription has this id.
    Unknown,
}

pub open spec fn saturating_inc(x: u64) -> u64 {
    if x == u64::MAX {
        x
    } else {
        (x + 1) as u64
    }
}

/// The payloads of `ps` that the hub relays.
pub open spec fn relayed(ps: Seq<PayloadView>) -> Seq<PayloadView> {
    ps.filter(|p: PayloadView| !is_blank(p.content))
}

impl HubView {
    pub open spec fn queue(self, k: int) -> Seq<PayloadView> {
        self.history.subrange(self.subs[k].next as int, self.history.len() as int)
    }

    pub open spec fn has_id(self, id: u64) -> bool {
        exists|k: int| 0 <= k < self.subs.len() && self.subs[k].id == id
    }

    /// Position of the subscription with this id, or -1.
    pub open spec fn index_of(self, id: u64) -> int {
        if self.has_id(id) {
            choose|k: int| 0 <= k < self.subs.len() && self.subs[k].id == id
        } else {
            -1
        }
    }

    pub open spec fn wf(self) -> bool {
        &&& self.capacity > 0
        &&& forall|k: int|
            0 <= k < self.subs.len() ==> {
                let s = #[trigger] self.subs[k];
                &&& s.start <= s.next <= self.history.len()
                &&& self.history.len() - s.next <= self.capacity
                &&& s.id < self.next_id
            }
        &&& forall|k1: int, k2: int|
            0 <= k1 < self.subs.len() && 0 <= k2 < self.subs.len() && k1 != k2
                ==> #[trigger] self.subs[k1].id != #[trigger] self.subs[k2].id
        &&& forall|i: int| 0 <= i < self.history.len() ==> !is_blank(#[trigger] self.history[i].content)
    }

    /// A subscription once one more payload is relayed.
    pub open spec fn sub_after_publish(self, s: SubView) -> SubView {
        if self.history.len() - s.next >= self.capacity {
            SubView { next: s.next + 1, lag: saturating_inc(s.lag), ..s }
        } else {
            s
        }
    }

    pub open spec fn published(self, p: PayloadView) -> HubView {
        if is_blank(p.content) {
            self
        } else {
            HubView {
                history: self.history.push(p),
                subs: self.subs.map_values(|s: SubView| self.sub_after_publish(s)),
                ..self
            }
        }
    }

    /// The hub once every payload of `ps` is published, in order.
    pub open spec fn publish_all(self, ps: Seq<PayloadView>) -> HubView
        decreases ps.len(),
    {
        if ps.len() == 0 {
            self
        } else {
            self.publish_all(ps.drop_last()).published(ps.last())
        }
    }

    pub open spec fn subscribed(self) -> HubView {
        HubView {
            subs: self.subs.push(
                SubView {
                    id: self.next_id,
                    start: self.history.len(),
                    next: self.history.len(),
                    lag: 0,
                },
            ),
            next_id: (self.next_id + 1) as u64,
            ..self
        }
    }

    pub open spec fn unsubscribed(self, id: u64) -> HubView {
        if self.has_id(id) {
            HubView { subs: self.subs.remove(self.index_of(id)), ..self }
        } else {
            self
        }
    }

    /// The hub once subscription `k` takes from its queue: a pending drop count is
    /// reported (and cleared) before the next payload.
    pub open spec fn taken(self, k: int) -> HubView {
        let s = self.subs[k];
        if s.lag > 0 {
            HubView { subs: self.subs.update(k, SubView { lag: 0, ..s }), ..self }
        } else if self.queue(k).len() == 0 {
            self
        } else {
            HubView { subs: self.subs.update(k, SubView { next: s.next + 1, ..s }), ..self }
        }
    }
}

proof fn lemma_published_wf(h: HubView, p: PayloadView)
    requires
        h.wf(),
    ensures
        h.published(p).wf(),
        h.published(p).capacity == h.capacity,
        h.published(p).subs.len() == h.subs.len(),
        forall|k: int|
            0 <= k < h.subs.len() ==> (#[trigger] h.published(p).subs[k]).id == h.subs[k].id
                && h.published(p).subs[k].start == h.subs[k].start,
        h.published(p).history == if is_blank(p.content) {
            h.history
        } else {
            h.history.push(p)
        },
{
    let h2 = h.published(p);
    if !is_blank(p.content) {
        assert forall|k: int| 0 <= k < h2.subs.len() implies {
            let s = #[trigger] h2.subs[k];
            &&& s.start <= s.next <= h2.history.len()
            &&& h2.history.len() - s.next <= h2.capacity
            &&& s.id < h2.next_id
        } by {
            assert(h2.subs[k] == h.sub_after_publish(h.subs[k]));
        }
        assert forall|k1: int, k2: int|
            0 <= k1 < h2.subs.len() && 0 <= k2 < h2.subs.len() && k1 != k2 implies #[trigger] h2.subs[k1].id
            != #[trigger] h2.subs[k2].id by {
            assert(h2.subs[k1].id == h.subs[k1].id);
            assert(h2.subs[k2].id == h.subs[k2].id);
        }
        assert forall|i: int| 0 <= i < h2.history.len() implies !is_blank(
            #[trigger] h2.history[i].content,
        ) by {
            if i < h.history.len() {
                assert(h2.history[i] == h.history[i]);
            }
        }
    }
}

proof fn lemma_relayed_step(ps: Seq<PayloadView>)
    requires
        ps.len() > 0,
    ensures
        relayed(ps) == if is_blank(ps.last().content) {
            relayed(ps.drop_last())
        } else {
            relayed(ps.drop_last()).push(ps.last())
        },
        relayed(ps).len() <= ps.len(),
        relayed(ps.drop_last()).len() <= ps.drop_last().len(),
    decreases ps.len(),
{
    reveal_with_fuel(Seq::filter, 1);
    if ps.drop_last().len() > 0 {
        lemma_relayed_step(ps.drop_last());
    } else {
        assert(relayed(ps.drop_last()) == ps.drop_last());
    }
}

/// Publishing keeps the hub well formed, keeps every subscription where it stands, and
/// adds to the history exactly the payloads that are relayed.
pub proof fn lemma_publish_all(h: HubView, ps: Seq<PayloadView>)
    requires
        h.wf(),
    ensures
        h.publish_all(ps).wf(),
        h.publish_all(ps).capacity == h.capacity,
        h.publish_all(ps).history == h.history + relayed(ps),
        h.publish_all(ps).subs.len() == h.subs.len(),
        forall|k: int|
            0 <= k < h.subs.len() ==> (#[trigger] h.publish_all(ps).subs[k]).id == h.subs[k].id
                && h.publish_all(ps).subs[k].start == h.subs[k].start,
    decreases ps.len(),
{
    if ps.len() == 0 {
        reveal_with_fuel(Seq::filter, 1);
        assert(h.history + relayed(ps) =~= h.history);
    } else {
        lemma_publish_all(h, ps.drop_last());
        lemma_published_wf(h.publish_all(ps.drop_last()), ps.last());
        lemma_relayed_step(ps);
        assert(h.publish_all(ps).history =~= h.history + relayed(ps));
    }
}

/// A subscription whose queue has room for them receives every relayed payload of a
/// publish sequence, in order, after what it already held.
pub proof fn lemma_fan_out(h: HubView, ps: Seq<PayloadView>, k: int)
    requires
        h.wf(),
        0 <= k < h.subs.len(),
        h.queue(k).len() + ps.len() <= h.capacity,
    ensures
        h.publish_all(ps).queue(k) == h.queue(k) + relayed(ps),
    decreases ps.len(),
{
    if ps.len() == 0 {
        reveal_with_fuel(Seq::filter, 1);
        assert(h.queue(k) + relayed(ps) =~= h.queue(k));
    } else {
        let h1 = h.publish_all(ps.drop_last());
        lemma_fan_out(h, ps.drop_last(), k);
        lemma_publish_all(h, ps.drop_last());
        lemma_relayed_step(ps);
        if !is_blank(ps.last().content) {
            assert(h1.published(ps.last()).subs[k] == h1.sub_after_publish(h1.subs[k]));
            assert(h1.published(ps.last()).queue(k) =~= h1.queue(k).push(ps.last()));
        }
        assert(h.publish_all(ps).queue(k) =~= h.queue(k) + relayed(ps));
    }
}

/// A subscription made after some payloads were published never receives one of them:
/// what it holds is always a tail of what was relayed after it was made.
pub proof fn lemma_late_subscriber(h: HubView, ps: Seq<PayloadView>)
    requires
        h.wf(),
        h.next_id < u64::MAX,
    ensures
        ({
            let q = h.subscribed().publish_all(ps).queue(h.subs.len() as int);
            q == relayed(ps).subrange(relayed(ps).len() - q.len(), relayed(ps).len() as int)
        }),
{
    let h2 = h.subscribed();
    let k = h.subs.len() as int;
    assert(h2.wf()) by {
        assert forall|j: int| 0 <= j < h2.subs.len() implies {
            let s = #[trigger] h2.subs[j];
            &&& s.start <= s.next <= h2.history.len()
            &&& h2.history.len() - s.next <= h2.capacity
            &&& s.id < h2.next_id
        } by {
            if j < k {
                assert(h2.subs[j] == h.subs[j]);
            }
        }
    }
    lemma_publish_all(h2, ps);
    let h3 = h2.publish_all(ps);
    let s = h3.subs[k];
    assert(s.start == h.history.len());
    let q = h3.queue(k);
    assert(q =~= relayed(ps).subrange(relayed(ps).len() - q.len(), relayed(ps).len() as int));
}

/// Nothing blank ever stands in a queue, whatever is published.
pub proof fn lemma_blank_never_delivered(h: HubView, ps: Seq<PayloadView>, k: int)
    requires
        h.wf(),
        0 <= k < h.subs.len(),
    ensures
        forall|i: int|
            0 <= i < h.publish_all(ps).queue(k).len() ==> !is_blank(
                (#[trigger] h.publish_all(ps).queue(k)[i]).content,
            ),
{
    lemma_publish_all(h, ps);
    let h2 = h.publish_all(ps);
    assert forall|i: int| 0 <= i < h2.queue(k).len() implies !is_blank(
        (#[trigger] h2.queue(k)[i]).content,
    ) by {
        assert(h2.queue(k)[i] == h2.history[h2.subs[k].next + i]);
    }
}

proof fn lemma_index_of(h: HubView, id: u64, k: int)
    requires
        h.wf(),
        0 <= k < h.subs.len(),
        h.subs[k].id == id,
    ensures
        h.has_id(id),
        h.index_of(id) == k,
{
    assert(h.has_id(id));
}

proof fn lemma_unsubscribe_published(h: HubView, a: u64, p: PayloadView)
    requires
        h.wf(),
    ensures
        h.unsubscribed(a).published(p) == h.published(p).unsubscribed(a),
{
    lemma_published_wf(h, p);
    let h2 = h.published(p);
    if h.has_id(a) {
        let k = h.index_of(a);
        lemma_index_of(h2, a, k);
        if !is_blank(p.content) {
            assert(h.unsubscribed(a).published(p).subs =~= h2.unsubscribed(a).subs);
        }
    } else {
        if h2.has_id(a) {
            let k = h2.index_of(a);
            assert(h.subs[k].id == a);
        }
    }
}

/// Ending one subscription changes nothing of what every other subscription receives:
/// ending it before or after any publish sequence gives the same hub.
pub proof fn lemma_isolation(h: HubView, a: u64, ps: Seq<PayloadView>)
    requires
        h.wf(),
    ensures
        h.unsubscribed(a).publish_all(ps) == h.publish_all(ps).unsubscribed(a),
    decreases ps.len(),
{
    if ps.len() > 0 {
        lemma_isolation(h, a, ps.drop_last());
        lemma_publish_all(h, ps.drop_last());
        lemma_unsubscribe_published(h.publish_all(ps.drop_last()), a, ps.last());
    }
}

/// A subscription takes its payloads in the order they were published, each once:
/// taking one leaves exactly the rest of its queue, and reporting a drop leaves the
/// queue as it was.
pub proof fn lemma_take_in_order(h: HubView, k: int)
    requires
        h.wf(),
        0 <= k < h.subs.len(),
    ensures
        h.taken(k).wf(),
        h.subs[k].lag == 0 && h.queue(k).len() > 0 ==> h.taken(k).queue(k) == h.queue(k).drop_first(),
        h.subs[k].lag > 0 ==> h.taken(k).queue(k) == h.queue(k),
        forall|j: int| 0 <= j < h.subs.len() && j != k ==> h.taken(k).queue(j) == h.queue(j),
{
    let h2 = h.taken(k);
    assert forall|j: int| 0 <= j < h2.subs.len() implies {
        let s = #[trigger] h2.subs[j];
        &&& s.start <= s.next <= h2.history.len()
        &&& h2.history.len() - s.next <= h2.capacity
        &&& s.id < h2.next_id
    } by {
        assert(h.subs[j].start <= h.subs[j].next);
    }
    assert forall|k1: int, k2: int|
        0 <= k1 < h2.subs.len() && 0 <= k2 < h2.subs.len() && k1 != k2 implies #[trigger] h2.subs[k1].id
        != #[trigger] h2.subs[k2].id by {
        assert(h2.subs[k1].id == h.subs[k1].id);
        assert(h2.subs[k2].id == h.subs[k2].id);
    }
    if h.subs[k].lag == 0 && h.queue(k).len() > 0 {
        assert(h2.queue(k) =~= h.queue(k).drop_first());
    }
}

struct Subscriber {
    id: u64,
    queue: Vec<MessagePayload>,
    lag: u64,
    start: Ghost<nat>,
    next: Ghost<nat>,
}

impl View for Subscriber {
    type V = SubView;

    closed spec fn view(&self) -> SubView {
        SubView { id: self.id, start: self.start@, next: self.next@, lag: self.lag }
    }
}

pub open spec fn payload_views(q: Seq<MessagePayload>) -> Seq<PayloadView> {
    q.map_values(|m: MessagePayload| m@)
}

pub struct Hub {
    capacity: usize,
    subs: Vec<Subscriber>,
    next_id: u64,
    history: Ghost<Seq<PayloadView>>,
}

impl View for Hub {
    type V = HubView;

    closed spec fn view(&self) -> HubView {
        HubView {
            capacity: self.capacity as nat,
            history: self.history@,
            subs: self.subs@.map_values(|s: Subscriber| s@),
            next_id: self.next_id,
        }
    }
}

impl Hub {
    /// The hub's view is well formed and every queue holds what the view says.
    pub closed spec fn wf(&self) -> bool {
        &&& self@.wf()
        &&& forall|k: int|
            0 <= k < self.subs@.len() ==> payload_views(#[trigger] self.subs@[k].queue@)
                == self@.queue(k)
    }

    /// A hub whose queues hold at most `capacity` payloads each.
    pub fn new(capacity: usize) -> (r: Hub)
        requires
            capacity > 0,
        ensures
            r.wf(),
            r@.capacity == capacity,
            r@.history.len() == 0,
            r@.subs.len() == 0,
            r@.next_id == 0,
    {
        Hub { capacity, subs: Vec::new(), next_id: 0, history: Ghost(Seq::empty()) }
    }

    /// Position of the subscription with this id.
    fn find(&self, id: u64) -> (r: Option<usize>)
        requires
            self.wf(),
        ensures
            match r {
                Some(k) => k < self.subs@.len() && self@.has_id(id) && k == self@.index_of(id),
                None => !self@.has_id(id),
            },
    {
        let mut k: usize = 0;
        while k < self.subs.len()
            invariant
                self.wf(),
                k <= self.subs@.len(),
                forall|j: int| 0 <= j < k ==> self@.subs[j].id != id,
            decreases self.subs.len() - k,
        {
            if self.subs[k].id == id {
                assert(self@.subs[k as int].id == id);
                assert(self@.has_id(id));
                return Some(k);
            }
            k = k + 1;
        }
        None
    }

    /// A new subscription, which receives the payloads published from now on; `None`
    /// once every id has been handed out.
    pub fn subscribe(&mut self) -> (r: Option<u64>)
        requires
            old(self).wf(),
        ensures
            final(self).wf(),
            old(self)@.next_id < u64::MAX ==> r == Some(old(self)@.next_id) && final(self)@
                == old(self)@.subscribed(),
            old(self)@.next_id == u64::MAX ==> r is None && final(self)@ == old(self)@,
    {
        if self.next_id == u64::MAX {
            return None;
        }
        let id = self.next_id;
        let ghost len = self.history@.len();
        self.subs.push(
            Subscriber { id, queue: Vec::new(), lag: 0, start: Ghost(len), next: Ghost(len) },
        );
        self.next_id = id + 1;
        proof {
            assert(self@.subs =~= old(self)@.subscribed().subs);
            assert(self@ == old(self)@.subscribed());
            let k = self.subs@.len() - 1;
            assert(payload_views(self.subs@[k].queue@) =~= self@.queue(k));
        }
        Some(id)
    }

    /// Ends the subscription with this id; whether there was one.
    pub fn unsubscribe(&mut self, id: u64) -> (r: bool)
        requires
            old(self).wf(),
        ensures
            final(self).wf(),
            r == old(self)@.has_id(id),
            final(self)@ == old(self)@.unsubscribed(id),
    {
        match self.find(id) {
            Some(k) => {
                self.subs.remove(k);
                proof {
                    assert(self@.subs =~= old(self)@.subs.remove(k as int));
                    assert forall|j: int| 0 <= j < self.subs@.len() implies payload_views(
                        #[trigger] self.subs@[j].queue@,
                    ) == self@.queue(j) by {
                        if j < k {
                            assert(self.subs@[j] == old(self).subs@[j]);
                        } else {
                            assert(self.subs@[j] == old(self).subs@[j + 1]);
                        }
                    }
                }
                true
            },
            None => false,
        }
    }

    /// Relays `p` to every subscription, dropping the oldest payload of each full queue;
    /// how many subscriptions it reached. Blank content is not relayed at all.
    pub fn publish(&mut self, p: MessagePayload) -> (r: usize)
        requires
            old(self).wf(),
        ensures
            final(self).wf(),
            final(self)@ == old(self)@.published(p@),
            r == if is_blank(p@.content) {
                0
            } else {
                old(self)@.subs.len()
            },
    {
        if p.has_blank_content() {
            return 0;
        }
        let ghost old_view = self@;
        let ghost old_subs = self.subs@;
        let ghost new_hist = self.history@.push(p@);
        self.history = Ghost(new_hist);
        let n = self.subs.len();
        let mut i: usize = 0;
        while i < n
            invariant
                n == self.subs@.len() == old_subs.len(),
                i <= n,
                self.capacity == old_view.capacity,
                self.next_id == old_view.next_id,
                self.history@ == new_hist,
                new_hist == old_view.history.push(p@),
                old_view == old(self)@,
                old(self).wf(),
                old_subs == old(self).subs@,
                forall|j: int|
                    0 <= j < i ==> {
                        let s = #[trigger] self.subs@[j];
                        &&& s@ == old_view.sub_after_publish(old_subs[j]@)
                        &&& payload_views(s.queue@) == new_hist.subrange(
                            s@.next as int,
                            new_hist.len() as int,
                        )
                    },
                forall|j: int| i <= j < n ==> #[trigger] self.subs@[j] == old_subs[j],
            decreases n - i,
        {
            let mut s = Subscriber {
                id: 0,
                queue: Vec::new(),
                lag: 0,
                start: Ghost(0),
                next: Ghost(0),
            };
            self.subs.set_and_swap(i, &mut s);
            let ghost s0 = s;
            assert(old_view.subs[i as int] == s0@);
            assert(payload_views(s0.queue@) == old_view.queue(i as int));
            let ghost sv = old_view.subs[i as int];
            assert(sv.start <= sv.next <= old_view.history.len());
            if s.queue.len() >= self.capacity {
                let ghost q0 = s.queue@;
                s.queue.remove(0);
                assert(s.queue@ =~= q0.subrange(1, q0.len() as int));
                s.lag = if s.lag == u64::MAX {
                    s.lag
                } else {
                    s.lag + 1
                };
                s.next = Ghost(s.next@ + 1);
            }
            let ghost q1 = s.queue@;
            assert(payload_views(q1) == old_view.history.subrange(s.next@ as int, old_view.history.len() as int)) by {
                if s0.queue@.len() >= old_view.capacity {
                    assert forall|j: int| 0 <= j < q1.len() implies payload_views(q1)[j]
                        == old_view.history.subrange(s.next@ as int, old_view.history.len() as int)[j] by {
                        assert(payload_views(s0.queue@)[j + 1] == s0.queue@[j + 1]@);
                    }
                    assert(payload_views(q1) =~= old_view.history.subrange(s.next@ as int, old_view.history.len() as int));
                }
            }
            let c = p.clone();
            assert(c@ == p@);
            s.queue.push(c);
            assert forall|j: int| 0 <= j < s.queue@.len() implies payload_views(s.queue@)[j]
                == new_hist.subrange(s.next@ as int, new_hist.len() as int)[j] by {
                if j < q1.len() {
                    assert(payload_views(q1)[j] == q1[j]@);
                }
            }
            assert(payload_views(s.queue@) =~= new_hist.subrange(
                s@.next as int,
                new_hist.len() as int,
            ));
            self.subs.set(i, s);
            i = i + 1;
        }
        proof {
            assert(self@.subs =~= old_view.subs.map_values(
                |s: SubView| old_view.sub_after_publish(s),
            ));
            assert(self@ == old_view.published(p@));
        }
        n
    }

    /// Takes the next delivery of the subscription with this id.
    pub fn recv(&mut self, id: u64) -> (r: Delivery)
        requires
            old(self).wf(),
        ensures
            final(self).wf(),
            match r {
                Delivery::Unknown => !old(self)@.has_id(id) && final(self)@ == old(self)@,
                Delivery::Lagged(n) => {
                    let k = old(self)@.index_of(id);
                    &&& old(self)@.has_id(id)
                    &&& n > 0
                    &&& n == old(self)@.subs[k].lag
                    &&& final(self)@ == old(self)@.taken(k)
                },
                Delivery::Empty => {
                    let k = old(self)@.index_of(id);
                    &&& old(self)@.has_id(id)
                    &&& old(self)@.subs[k].lag == 0
                    &&& old(self)@.queue(k).len() == 0
                    &&& final(self)@ == old(self)@
                },
                Delivery::Message(m) => {
                    let k = old(self)@.index_of(id);
                    &&& old(self)@.has_id(id)
                    &&& old(self)@.subs[k].lag == 0
                    &&& old(self)@.queue(k).len() > 0
                    &&& m@ == old(self)@.queue(k)[0]
                    &&& final(self)@ == old(self)@.taken(k)
                },
            },
    {
        let k = match self.find(id) {
            Some(k) => k,
            None => return Delivery::Unknown,
        };
        let ghost old_view = self@;
        let ghost old_subs = self.subs@;
        if self.subs[k].lag == 0 && self.subs[k].queue.len() == 0 {
            assert(payload_views(self.subs@[k as int].queue@) == self@.queue(k as int));
            return Delivery::Empty;
        }
        let mut s = Subscriber { id: 0, queue: Vec::new(), lag: 0, start: Ghost(0), next: Ghost(0) };
        self.subs.set_and_swap(k, &mut s);
        assert(old_view.subs[k as int] == s@);
        assert(payload_views(s.queue@) == old_view.queue(k as int));
        let ghost sv = old_view.subs[k as int];
        assert(sv.start <= sv.next <= old_view.history.len());
        let r = if s.lag > 0 {
            let n = s.lag;
            s.lag = 0;
            Delivery::Lagged(n)
        } else {
            assert(s.queue@.len() == payload_views(s.queue@).len());
            assert(s.queue@.len() > 0);
            assert(s.next@ < self.history@.len());
            let ghost q0 = s.queue@;
            let m = s.queue.remove(0);
            assert(s.queue@ =~= q0.subrange(1, q0.len() as int));
            s.next = Ghost(s.next@ + 1);
            assert forall|j: int| 0 <= j < s.queue@.len() implies payload_views(s.queue@)[j]
                == self.history@.subrange(s.next@ as int, self.history@.len() as int)[j] by {
                assert(payload_views(q0)[j + 1] == q0[j + 1]@);
                assert(payload_views(q0)[j + 1] == old_view.queue(k as int)[j + 1]);
            }
            assert(m@ == payload_views(old_subs[k as int].queue@)[0]);
            assert(payload_views(s.queue@) =~= self.history@.subrange(
                s@.next as int,
                self.history@.len() as int,
            ));
            Delivery::Message(m)
        };
        self.subs.set(k, s);
        proof {
            assert(self@.subs =~= old_view.taken(k as int).subs);
            assert forall|j: int| 0 <= j < self.subs@.len() implies payload_views(
                #[trigger] self.subs@[j].queue@,
            ) == self@.queue(j) by {
                if j != k {
                    assert(self.subs@[j] == old_subs[j]);
                }
            }
        }
        r
    }

    pub fn subscriber_count(&self) -> (r: usize)
        ensures
            r == self@.subs.len(),
    {
        self.subs.len()
    }
}

} // verus!
