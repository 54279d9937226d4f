use vstd::prelude::*;
use vstd::slice::slice_to_vec;

use crate::message_bus::{outcome_view, process_delivery, delivery_outcome, BusError, MessageBus};
use crate::topology::{
    routing_key_name, MessageBrokerExchanges, MessageBrokerQueues, MessageBrokerRoutingKeys,
};

verus! {

/// A queue bound to an exchange for one routing key.
#[derive(Clone, Copy, Debug, PartialEq, Eq, Structural)]
pub struct Binding {
    pub queue: MessageBrokerQueues,
    pub exchange: MessageBrokerExchanges,
    pub routing_key: MessageBrokerRoutingKeys,
}

/// A declared queue, and whether a consumer has been started on it.
#[derive(Clone, Copy, Debug, PartialEq, Eq, Structural)]
pub struct QueueState {
    pub queue: MessageBrokerQueues,
    pub consuming: bool,
}

/// A delivery waiting in a queue: the wire routing key it came with and its payload.
pub struct Pending {
    pub queue: MessageBrokerQueues,
    pub routing_key: String,
    pub payload: Vec<u8>,
}

/// A waiting delivery seen as plain values.
pub struct PendingView {
    pub queue: MessageBrokerQueues,
    pub routing_key: Seq<char>,
    pub payload: Seq<u8>,
}

impl View for Pending {
    type V = PendingView;

    open spec fn view(&self) -> PendingView {
        PendingView { queue: self.queue, routing_key: self.routing_key@, payload: self.payload@ }
    }
}

/// The whole state of an in-memory transport.
pub struct MemoryBusView {
    /// The bindings, each once, in the order they were made.
    pub bindings: Seq<Binding>,
    /// The declared queues, each once, in the order they were declared.
    pub queues: Seq<QueueState>,
    /// The waiting deliveries of all queues, oldest first.
    pub pending: Seq<PendingView>,
    pub closed: bool,
    /// Whether the transport confirms what is published to it.
    pub confirming: bool,
}

/// An in-memory transport: it routes each published message to every declared
/// queue bound to its exchange and routing key, and hands deliveries out queue by
/// queue in the order they arrived.
pub struct MemoryBus {
    bindings: Vec<Binding>,
    queues: Vec<QueueState>,
    pending: Vec<Pending>,
    closed: bool,
    confirming: bool,
}

/// Whether `bindings` binds queue `q` to exchange `e` for the wire key `key`.
pub open spec fn is_bound(
    bindings: Seq<Binding>,
    q: MessageBrokerQueues,
    e: MessageBrokerExchanges,
    key: Seq<char>,
) -> bool {
    exists|i: int|
        0 <= i < bindings.len() && #[trigger] bindings[i].queue == q && bindings[i].exchange == e
            && routing_key_name(bindings[i].routing_key) == key
}

/// Whether queue `q` is declared in `queues`.
pub open spec fn is_declared(queues: Seq<QueueState>, q: MessageBrokerQueues) -> bool {
    exists|i: int| 0 <= i < queues.len() && #[trigger] queues[i].queue == q
}

/// Whether queue `q` is declared in `queues` with a consumer started on it.
pub open spec fn is_consuming(queues: Seq<QueueState>, q: MessageBrokerQueues) -> bool {
    exists|i: int| 0 <= i < queues.len() && #[trigger] queues[i].queue == q && queues[i].consuming
}

/// The deliveries that a message with wire key `key` and payload `payload`,
/// published to `e`, adds: one for each of the first `n` declared queues that
/// is bound to `(e, key)`, in the order of declaration.
pub open spec fn routed(
    v: MemoryBusView,
    n: int,
    e: MessageBrokerExchanges,
    key: Seq<char>,
    payload: Seq<u8>,
) -> Seq<PendingView>
    decreases n,
{
    if n <= 0 {
        Seq::empty()
    } else {
        let rest = routed(v, n - 1, e, key, payload);
        let q = v.queues[n - 1].queue;
        if is_bound(v.bindings, q, e, key) {
            rest.push(PendingView { queue: q, routing_key: key, payload })
        } else {
            rest
        }
    }
}

/// The bindings after binding `q` to `e` for each of `keys`.
pub open spec fn listen_bindings(
    s: Set<Binding>,
    q: MessageBrokerQueues,
    e: MessageBrokerExchanges,
    keys: Seq<MessageBrokerRoutingKeys>,
) -> Set<Binding> {
    s.union(Set::new(|b: Binding| b.queue == q && b.exchange == e && keys.contains(b.routing_key)))
}

/// The position of the oldest delivery waiting in queue `q`, or the length of
/// `s` if there is none.
pub open spec fn first_index(s: Seq<PendingView>, q: MessageBrokerQueues) -> int
    decreases s.len(),
{
    if s.len() == 0 {
        0
    } else if s[0].queue == q {
        0
    } else {
        1 + first_index(s.drop_first(), q)
    }
}

/// What publishing a message with wire key `key` and payload `payload` to `e`
/// does to a transport in state `v`, ending in `w` and returning `r`: a closed
/// transport refuses it; one that does not confirm fails with a publish error
/// and routes nothing; otherwise it is confirmed and routed.
pub open spec fn publish_step(
    v: MemoryBusView,
    w: MemoryBusView,
    e: MessageBrokerExchanges,
    key: Seq<char>,
    payload: Seq<u8>,
    r: Result<(), BusError>,
) -> bool {
    &&& v.closed ==> r == Err::<(), BusError>(BusError::Closed) && w == v
    &&& !v.closed && !v.confirming ==> r == Err::<(), BusError>(BusError::PublishError) && w == v
    &&& !v.closed && v.confirming ==> r is Ok && w == (MemoryBusView {
        pending: v.pending + routed(v, v.queues.len() as int, e, key, payload),
        ..v
    })
}

/// What listening on `q` for `keys` of exchange `e` does to a transport in
/// state `v`, ending in `w` and returning `r`.
pub open spec fn listen_step(
    v: MemoryBusView,
    w: MemoryBusView,
    q: MessageBrokerQueues,
    e: MessageBrokerExchanges,
    keys: Seq<MessageBrokerRoutingKeys>,
    r: Result<(), BusError>,
) -> bool {
    &&& v.closed ==> r == Err::<(), BusError>(BusError::Closed) && w == v
    &&& !v.closed ==> {
        &&& r is Ok
        &&& w.bindings.to_set() == listen_bindings(v.bindings.to_set(), q, e, keys)
        &&& w.pending == v.pending
        &&& w.closed == v.closed
        &&& w.confirming == v.confirming
        &&& forall|q2: MessageBrokerQueues|
            is_declared(w.queues, q2) <==> (is_declared(v.queues, q2) || q2 == q)
        &&& forall|q2: MessageBrokerQueues|
            is_consuming(w.queues, q2) <==> (is_consuming(v.queues, q2) || q2 == q)
    }
}

/// What closing does to a transport in state `v`, ending in `w` and
/// returning `r`: the first close succeeds, a second is refused.
pub open spec fn close_step(v: MemoryBusView, w: MemoryBusView, r: Result<(), BusError>) -> bool {
    &&& v.closed ==> r == Err::<(), BusError>(BusError::Closed) && w == v
    &&& !v.closed ==> r is Ok && w == (MemoryBusView { closed: true, ..v })
}

/// What one dispatch step on queue `q` does to a transport in state `v`,
/// ending in `w` and returning `r`: the oldest delivery waiting in `q` is
/// taken out and its handling outcome returned; with nothing to dispatch,
/// nothing changes.
pub open spec fn consume_step(
    v: MemoryBusView,
    w: MemoryBusView,
    q: MessageBrokerQueues,
    r: Option<Result<(MessageBrokerRoutingKeys, String), BusError>>,
) -> bool {
    let j = first_index(v.pending, q);
    if v.closed || !is_consuming(v.queues, q) || j == v.pending.len() {
        r is None && w == v
    } else {
        &&& 0 <= j < v.pending.len()
        &&& r is Some
        &&& outcome_view(r->0) == delivery_outcome(v.pending[j].routing_key, v.pending[j].payload)
        &&& w == (MemoryBusView { pending: v.pending.remove(j), ..v })
    }
}

proof fn lemma_first_index(s: Seq<PendingView>, q: MessageBrokerQueues, j: int)
    requires
        0 <= j <= s.len(),
        forall|k: int| 0 <= k < j ==> s[k].queue != q,
        j == s.len() || s[j].queue == q,
    ensures
        first_index(s, q) == j,
    decreases j,
{
    if j > 0 {
        lemma_first_index(s.drop_first(), q, j - 1);
    }
}

impl View for MemoryBus {
    type V = MemoryBusView;

    closed spec fn view(&self) -> MemoryBusView {
        MemoryBusView {
            bindings: self.bindings@,
            queues: self.queues@,
            pending: self.pending@.map_values(|p: Pending| p@),
            closed: self.closed,
            confirming: self.confirming,
        }
    }
}

impl MemoryBus {
    /// Bindings unique, queues declared once each, and every binding and every
    /// waiting delivery on a declared queue.
    pub open spec fn wf(&self) -> bool {
        let v = self@;
        &&& v.bindings.no_duplicates()
        &&& forall|i: int, j: int|
            0 <= i < j < v.queues.len() ==> #[trigger] v.queues[i].queue != #[trigger] v.queues[j].queue
        &&& forall|i: int|
            0 <= i < v.bindings.len() ==> is_declared(v.queues, #[trigger] v.bindings[i].queue)
        &&& forall|i: int|
            0 <= i < v.pending.len() ==> is_declared(v.queues, #[trigger] v.pending[i].queue)
    }

    /// An open transport that confirms what it is sent, with every known
    /// exchange declared and no queue.
    pub fn new() -> (r: Self)
        ensures
            r.wf(),
            r@.bindings.len() == 0,
            r@.queues.len() == 0,
            r@.pending.len() == 0,
            !r@.closed,
            r@.confirming,
    {
        let r = MemoryBus {
            bindings: Vec::new(),
            queues: Vec::new(),
            pending: Vec::new(),
            closed: false,
            confirming: true,
        };
        proof {
            assert(r@.pending =~= Seq::<PendingView>::empty());
        }
        r
    }

    /// Whether queue `q` is bound to `e` for the wire key `key`.
    fn has_binding(&self, q: MessageBrokerQueues, e: MessageBrokerExchanges, key: &str) -> (r:
        bool)
        ensures
            r == is_bound(self@.bindings, q, e, key@),
    {
        let mut i: usize = 0;
        while i < self.bindings.len()
            invariant
                i <= self.bindings@.len(),
                forall|j: int|
                    0 <= j < i ==> !(#[trigger] self.bindings@[j].queue == q
                        && self.bindings@[j].exchange == e
                        && routing_key_name(self.bindings@[j].routing_key) == key@),
            decreases self.bindings@.len() - i,
        {
            let b = self.bindings[i];
            if b.queue == q && b.exchange == e && crate::topology::str_eq(b.routing_key.as_str(), key) {
                return true;
            }
            i = i + 1;
        }
        false
    }

    /// The position of queue `q` among the declared queues, if it is declared.
    fn queue_position(&self, q: MessageBrokerQueues) -> (r: Option<usize>)
        ensures
            match r {
                Some(i) => i < self@.queues.len() && self@.queues[i as int].queue == q,
                None => !is_declared(self@.queues, q),
            },
    {
        let mut i: usize = 0;
        while i < self.queues.len()
            invariant
                i <= self.queues@.len(),
                forall|j: int| 0 <= j < i ==> #[trigger] self.queues@[j].queue != q,
            decreases self.queues@.len() - i,
        {
            if self.queues[i].queue == q {
                return Some(i);
            }
            i = i + 1;
        }
        None
    }

    /// Publishes `message` to `exchange` under a wire routing key given as text.
    /// A closed transport refuses it; one that does not confirm fails with a
    /// publish error and routes nothing; otherwise the message is confirmed and
    /// a delivery is queued on every declared queue bound to `(exchange, key)`.
    pub fn publish_raw(&mut self, exchange: MessageBrokerExchanges, routing_key: &str, message: &[u8]) -> (r: Result<(), BusError>)
        ensures
            old(self).wf() ==> final(self).wf(),
            publish_step(old(self)@, final(self)@, exchange, routing_key@, message@, r),
    {
        if self.closed {
            return Err(BusError::Closed);
        }
        if !self.confirming {
            return Err(BusError::PublishError);
        }
        let ghost old_view = self@;
        let mut i: usize = 0;
        while i < self.queues.len()
            invariant
                old_view == old(self)@,
                old_view.queues.len() == self.queues@.len(),
                i <= self.queues@.len(),
                self.bindings@ == old_view.bindings,
                self.queues@ == old_view.queues,
                self.closed == old_view.closed,
                self.confirming == old_view.confirming,
                self@.pending == old_view.pending + routed(old_view, i as int, exchange, routing_key@, message@),
                old_view == old(self)@ && old(self).wf() ==> forall|j: int| 0 <= j < self@.pending.len() ==> is_declared(old_view.queues, #[trigger] self@.pending[j].queue),
            decreases self.queues@.len() - i,
        {
            let q = self.queues[i].queue;
            if self.has_binding(q, exchange, routing_key) {
                let p = Pending { queue: q, routing_key: routing_key.to_owned(), payload: slice_to_vec(message) };
                let ghost before = self.pending@;
                self.pending.push(p);
                proof {
                    assert(self.pending@.map_values(|p: Pending| p@) =~= before.map_values(|p: Pending| p@).push(p@));
                    assert(is_declared(old_view.queues, self.queues@[i as int].queue));
                }
            }
            i = i + 1;
        }
        Ok(())
    }

    /// Publishes `message` to `exchange` under a known routing key; the same as
    /// `publish_raw` with the key's wire name.
    pub fn publish(
        &mut self,
        exchange: MessageBrokerExchanges,
        routing_key: MessageBrokerRoutingKeys,
        message: &[u8],
    ) -> (r: Result<(), BusError>)
        ensures
            old(self).wf() ==> final(self).wf(),
            publish_step(old(self)@, final(self)@, exchange, routing_key_name(routing_key), message@, r),
    {
        self.publish_raw(exchange, routing_key.as_str(), message)
    }

    /// Whether `b` is among the bindings.
    fn contains_binding(&self, b: Binding) -> (r: bool)
        ensures
            r == self@.bindings.contains(b),
    {
        let mut i: usize = 0;
        while i < self.bindings.len()
            invariant
                i <= self.bindings@.len(),
                forall|j: int| 0 <= j < i ==> #[trigger] self.bindings@[j] != b,
            decreases self.bindings@.len() - i,
        {
            if self.bindings[i] == b {
                return true;
            }
            i = i + 1;
        }
        false
    }

    /// Declares `queue` if it is not yet declared, binds it to `exchange` for
    /// each of `routing_keys` that it is not yet bound for, and starts a
    /// consumer on it. Calling it again with the same arguments leaves the
    /// bindings as they are; the queue keeps a single consumer, so two calls
    /// never make two dispatch loops compete for one queue.
    pub fn listen(
        &mut self,
        queue: MessageBrokerQueues,
        exchange: MessageBrokerExchanges,
        routing_keys: &Vec<MessageBrokerRoutingKeys>,
    ) -> (r: Result<(), BusError>)
        ensures
            old(self).wf() ==> final(self).wf(),
            listen_step(old(self)@, final(self)@, queue, exchange, routing_keys@, r),
    {
        if self.closed {
            return Err(BusError::Closed);
        }
        let ghost old_view = self@;
        let st = QueueState { queue, consuming: true };
        match self.queue_position(queue) {
            Some(i) => {
                self.queues.set(i, st);
                proof {
                    assert forall|q: MessageBrokerQueues|
                        is_declared(self.queues@, q) <==> (is_declared(old_view.queues, q) || q == queue) by {
                        if is_declared(old_view.queues, q) {
                            let w = choose|w: int| 0 <= w < old_view.queues.len() && #[trigger] old_view.queues[w].queue == q;
                            assert(self.queues@[w].queue == q);
                        }
                    }
                    assert forall|q: MessageBrokerQueues|
                        is_consuming(self.queues@, q) <==> (is_consuming(old_view.queues, q) || q == queue) by {
                        if is_consuming(old_view.queues, q) {
                            let w = choose|w: int| 0 <= w < old_view.queues.len() && #[trigger] old_view.queues[w].queue == q && old_view.queues[w].consuming;
                            assert(self.queues@[w].queue == q);
                        }
                        if is_consuming(self.queues@, q) && q != queue {
                            let w = choose|w: int| 0 <= w < self.queues@.len() && #[trigger] self.queues@[w].queue == q && self.queues@[w].consuming;
                            assert(old_view.queues[w].queue == q);
                        }
                        if q == queue {
                            assert(self.queues@[i as int].queue == q);
                        }
                    }
                }
            },
            None => {
                self.queues.push(st);
                proof {
                    assert forall|q: MessageBrokerQueues|
                        is_declared(self.queues@, q) <==> (is_declared(old_view.queues, q) || q == queue) by {
                        if is_declared(old_view.queues, q) {
                            let w = choose|w: int| 0 <= w < old_view.queues.len() && #[trigger] old_view.queues[w].queue == q;
                            assert(self.queues@[w].queue == q);
                        }
                        if q == queue {
                            assert(self.queues@[old_view.queues.len() as int].queue == q);
                        }
                    }
                    assert forall|q: MessageBrokerQueues|
                        is_consuming(self.queues@, q) <==> (is_consuming(old_view.queues, q) || q == queue) by {
                        if is_consuming(old_view.queues, q) {
                            let w = choose|w: int| 0 <= w < old_view.queues.len() && #[trigger] old_view.queues[w].queue == q && old_view.queues[w].consuming;
                            assert(self.queues@[w].queue == q);
                        }
                        if q == queue {
                            assert(self.queues@[old_view.queues.len() as int].queue == q);
                        }
                    }
                }
            },
        }
        proof {
            assert(self@.pending =~= old_view.pending);
            assert(listen_bindings(old_view.bindings.to_set(), queue, exchange, routing_keys@.subrange(0, 0)) =~= old_view.bindings.to_set());
        }
        let ghost queues_after = self.queues@;
        assert(is_declared(queues_after, queue));
        let mut k: usize = 0;
        while k < routing_keys.len()
            invariant
                k <= routing_keys@.len(),
                self.closed == old_view.closed,
                self.confirming == old_view.confirming,
                self@.pending == old_view.pending,
                self.queues@ == queues_after,
                is_declared(queues_after, queue),
                forall|q: MessageBrokerQueues|
                    is_declared(queues_after, q) <==> (is_declared(old_view.queues, q) || q == queue),
                forall|q: MessageBrokerQueues|
                    is_consuming(queues_after, q) <==> (is_consuming(old_view.queues, q) || q == queue),
                old(self).wf() ==> self.wf(),
                self@.bindings.to_set() == listen_bindings(old_view.bindings.to_set(), queue, exchange, routing_keys@.subrange(0, k as int)),
            decreases routing_keys@.len() - k,
        {
            let b = Binding { queue, exchange, routing_key: routing_keys[k] };
            let ghost before = self@.bindings;
            if !self.contains_binding(b) {
                self.bindings.push(b);
                proof {
                    assert forall|x: Binding| self@.bindings.contains(x) <==> (before.contains(x) || x == b) by {
                        if before.contains(x) {
                            let w = choose|w: int| 0 <= w < before.len() && before[w] == x;
                            assert(self@.bindings[w] == x);
                        }
                        if x == b {
                            assert(self@.bindings[before.len() as int] == x);
                        }
                    }
                    assert(self@.bindings.to_set() =~= before.to_set().insert(b));
                }
            }
            proof {
                let ks = routing_keys@.subrange(0, k + 1);
                assert(ks =~= routing_keys@.subrange(0, k as int).push(routing_keys@[k as int]));
                assert forall|x: MessageBrokerRoutingKeys| ks.contains(x) <==> (routing_keys@.subrange(0, k as int).contains(x) || x == routing_keys@[k as int]) by {
                    if routing_keys@.subrange(0, k as int).contains(x) {
                        let w = choose|w: int| 0 <= w < k && routing_keys@.subrange(0, k as int)[w] == x;
                        assert(ks[w] == x);
                    }
                    if x == routing_keys@[k as int] {
                        assert(ks[k as int] == x);
                    }
                }
                assert(self@.bindings.to_set().contains(b));
                assert(routing_keys@.subrange(0, k + 1) =~= routing_keys@.subrange(0, k as int).push(routing_keys@[k as int]));
                assert(self@.bindings.to_set() =~= listen_bindings(old_view.bindings.to_set(), queue, exchange, routing_keys@.subrange(0, k + 1)));
            }
            k = k + 1;
        }
        proof {
            assert(routing_keys@.subrange(0, routing_keys@.len() as int) =~= routing_keys@);
        }
        Ok(())
    }

    /// Whether a consumer has been started on queue `q`.
    fn consuming_on(&self, q: MessageBrokerQueues) -> (r: bool)
        ensures
            r == is_consuming(self@.queues, q),
    {
        let mut i: usize = 0;
        while i < self.queues.len()
            invariant
                i <= self.queues@.len(),
                forall|j: int| 0 <= j < i ==> !(#[trigger] self.queues@[j].queue == q && self.queues@[j].consuming),
            decreases self.queues@.len() - i,
        {
            if self.queues[i].queue == q && self.queues[i].consuming {
                return true;
            }
            i = i + 1;
        }
        false
    }

    /// Runs the dispatch step of the consumer on `queue`: takes its oldest
    /// waiting delivery, decodes it, and settles it, acknowledged when it
    /// decodes and rejected when it does not; either way it leaves the queue and
    /// is not delivered again. Returns `None`, changing nothing, when the
    /// transport is closed, no consumer runs on `queue`, or nothing waits there.
    pub fn consume_next(&mut self, queue: MessageBrokerQueues) -> (r: Option<
        Result<(MessageBrokerRoutingKeys, String), BusError>,
    >)
        ensures
            old(self).wf() ==> final(self).wf(),
            consume_step(old(self)@, final(self)@, queue, r),
    {
        if self.closed || !self.consuming_on(queue) {
            return None;
        }
        let ghost v = self@;
        let mut j: usize = 0;
        while j < self.pending.len() && self.pending[j].queue != queue
            invariant
                v == self@,
                j <= self.pending@.len(),
                forall|k: int| 0 <= k < j ==> #[trigger] v.pending[k].queue != queue,
            decreases self.pending@.len() - j,
        {
            j = j + 1;
        }
        proof {
            lemma_first_index(v.pending, queue, j as int);
        }
        if j == self.pending.len() {
            return None;
        }
        let p = self.pending.remove(j);
        proof {
            assert(self@.pending =~= v.pending.remove(j as int));
            assert forall|k: int| 0 <= k < self@.pending.len() implies is_declared(self@.queues, #[trigger] self@.pending[k].queue) by {
                if k < j {
                    assert(self@.pending[k] == v.pending[k]);
                } else {
                    assert(self@.pending[k] == v.pending[k + 1]);
                }
            }
        }
        Some(process_delivery(p.routing_key.as_str(), p.payload.as_slice()))
    }

    /// Places a delivery with any wire routing key straight into a declared
    /// queue, as a transport may hand one over that no binding chose.
    pub fn inject(&mut self, queue: MessageBrokerQueues, routing_key: &str, payload: &[u8]) -> (r: Result<(), BusError>)
        ensures
            old(self).wf() ==> final(self).wf(),
            old(self)@.closed ==> r == Err::<(), BusError>(BusError::Closed) && final(self)@ == old(self)@,
            !old(self)@.closed && !is_declared(old(self)@.queues, queue) ==> r == Err::<(), BusError>(BusError::DeclarationError) && final(self)@ == old(self)@,
            !old(self)@.closed && is_declared(old(self)@.queues, queue) ==> r is Ok && final(self)@ == (MemoryBusView {
                pending: old(self)@.pending.push(PendingView { queue, routing_key: routing_key@, payload: payload@ }),
                ..old(self)@
            }),
    {
        if self.closed {
            return Err(BusError::Closed);
        }
        if self.queue_position(queue).is_none() {
            return Err(BusError::DeclarationError);
        }
        let p = Pending { queue, routing_key: routing_key.to_owned(), payload: slice_to_vec(payload) };
        let ghost before = self.pending@;
        self.pending.push(p);
        proof {
            assert(self.pending@.map_values(|p: Pending| p@) =~= before.map_values(|p: Pending| p@).push(p@));
        }
        Ok(())
    }

    /// Closes the transport; from then on nothing is published, bound or
    /// dispatched. Closing it a second time is an error and changes nothing.
    pub fn close(&mut self) -> (r: Result<(), BusError>)
        ensures
            old(self).wf() ==> final(self).wf(),
            close_step(old(self)@, final(self)@, r),
    {
        if self.closed {
            return Err(BusError::Closed);
        }
        self.closed = true;
        Ok(())
    }

    /// Chooses whether the transport confirms what is published to it.
    pub fn set_confirming(&mut self, confirming: bool)
        ensures
            old(self).wf() ==> final(self).wf(),
            final(self)@ == (MemoryBusView { confirming, ..old(self)@ }),
    {
        self.confirming = confirming;
    }

    /// Whether the transport has been closed.
    pub fn is_closed(&self) -> (r: bool)
        ensures
            r == self@.closed,
    {
        self.closed
    }

    /// The number of bindings made.
    pub fn binding_count(&self) -> (r: usize)
        ensures
            r == self@.bindings.len(),
    {
        self.bindings.len()
    }

    /// Whether queue `queue` is bound to `exchange` for `routing_key`.
    pub fn is_bound(
        &self,
        queue: MessageBrokerQueues,
        exchange: MessageBrokerExchanges,
        routing_key: MessageBrokerRoutingKeys,
    ) -> (r: bool)
        ensures
            r == self@.bindings.contains(Binding { queue, exchange, routing_key }),
    {
        self.contains_binding(Binding { queue, exchange, routing_key })
    }
}

impl MessageBus for MemoryBus {
    open spec fn publish_post(
        before: Self,
        after: Self,
        exchange: MessageBrokerExchanges,
        routing_key: MessageBrokerRoutingKeys,
        message: Seq<u8>,
        r: Result<(), BusError>,
    ) -> bool {
        &&& before.wf() ==> after.wf()
        &&& publish_step(before@, after@, exchange, routing_key_name(routing_key), message, r)
    }

    open spec fn listen_post(
        before: Self,
        after: Self,
        queue: MessageBrokerQueues,
        exchange: MessageBrokerExchanges,
        routing_keys: Seq<MessageBrokerRoutingKeys>,
        r: Result<(), BusError>,
    ) -> bool {
        &&& before.wf() ==> after.wf()
        &&& listen_step(before@, after@, queue, exchange, routing_keys, r)
    }

    open spec fn close_post(before: Self, after: Self, r: Result<(), BusError>) -> bool {
        &&& before.wf() ==> after.wf()
        &&& close_step(before@, after@, r)
    }

    fn publish(
        &mut self,
        exchange: MessageBrokerExchanges,
        routing_key: MessageBrokerRoutingKeys,
        message: &[u8],
    ) -> (r: Result<(), BusError>) {
        MemoryBus::publish(self, exchange, routing_key, message)
    }

    fn listen(
        &mut self,
        queue: MessageBrokerQueues,
        exchange: MessageBrokerExchanges,
        routing_keys: &Vec<MessageBrokerRoutingKeys>,
    ) -> (r: Result<(), BusError>) {
        MemoryBus::listen(self, queue, exchange, routing_keys)
    }

    fn close(&mut self) -> (r: Result<(), BusError>) {
        MemoryBus::close(self)
    }
}

} // verus!

verus! {

/// Listening a second time with the same queue, exchange and routing keys
/// leaves the bindings as the first call made them.
pub proof fn lemma_listen_twice(
    s: Set<Binding>,
    q: MessageBrokerQueues,
    e: MessageBrokerExchanges,
    keys: Seq<MessageBrokerRoutingKeys>,
)
    ensures
        listen_bindings(listen_bindings(s, q, e, keys), q, e, keys) == listen_bindings(s, q, e, keys),
{
    assert(listen_bindings(listen_bindings(s, q, e, keys), q, e, keys) =~= listen_bindings(s, q, e, keys));
}

/// Two duplicate-free binding lists that make the same set of bindings are
/// equally long: a repeated binding can never be observed.
pub proof fn lemma_same_bindings_same_count(a: Seq<Binding>, b: Seq<Binding>)
    requires
        a.no_duplicates(),
        b.no_duplicates(),
        a.to_set() == b.to_set(),
    ensures
        a.len() == b.len(),
{
    a.unique_seq_to_set();
    b.unique_seq_to_set();
}

/// A message published to `e` with wire key `key` reaches exactly the declared
/// queues bound to `(e, key)`: a delivery for queue `q` is among those it adds
/// if and only if `q` is declared and bound to `(e, key)`, and each of them
/// carries the key and the payload as published.
pub proof fn lemma_routed_reaches_bound_queues(
    v: MemoryBusView,
    e: MessageBrokerExchanges,
    key: Seq<char>,
    payload: Seq<u8>,
    q: MessageBrokerQueues,
)
    ensures
        (exists|i: int|
            0 <= i < routed(v, v.queues.len() as int, e, key, payload).len()
                && #[trigger] routed(v, v.queues.len() as int, e, key, payload)[i].queue == q)
            <==> (is_declared(v.queues, q) && is_bound(v.bindings, q, e, key)),
        forall|i: int|
            0 <= i < routed(v, v.queues.len() as int, e, key, payload).len() ==> {
                &&& (#[trigger] routed(v, v.queues.len() as int, e, key, payload)[i]).routing_key == key
                &&& routed(v, v.queues.len() as int, e, key, payload)[i].payload == payload
            },
{
    lemma_routed_prefix(v, v.queues.len() as int, e, key, payload, q);
}

proof fn lemma_routed_prefix(
    v: MemoryBusView,
    n: int,
    e: MessageBrokerExchanges,
    key: Seq<char>,
    payload: Seq<u8>,
    q: MessageBrokerQueues,
)
    requires
        0 <= n <= v.queues.len(),
    ensures
        (exists|i: int| 0 <= i < routed(v, n, e, key, payload).len() && #[trigger] routed(v, n, e, key, payload)[i].queue == q)
            <==> ((exists|j: int| 0 <= j < n && #[trigger] v.queues[j].queue == q) && is_bound(v.bindings, q, e, key)),
        forall|i: int|
            0 <= i < routed(v, n, e, key, payload).len() ==> {
                &&& (#[trigger] routed(v, n, e, key, payload)[i]).routing_key == key
                &&& routed(v, n, e, key, payload)[i].payload == payload
            },
    decreases n,
{
    if n > 0 {
        lemma_routed_prefix(v, n - 1, e, key, payload, q);
        let rest = routed(v, n - 1, e, key, payload);
        let cur = routed(v, n, e, key, payload);
        let qn = v.queues[n - 1].queue;
        if (exists|i: int| 0 <= i < cur.len() && #[trigger] cur[i].queue == q) {
            let i = choose|i: int| 0 <= i < cur.len() && #[trigger] cur[i].queue == q;
            if i < rest.len() {
                assert(rest[i].queue == q);
                let j = choose|j: int| 0 <= j < n - 1 && #[trigger] v.queues[j].queue == q;
                assert(0 <= j < n && v.queues[j].queue == q);
            } else {
                assert(v.queues[n - 1].queue == q);
            }
        }
        if (exists|j: int| 0 <= j < n && #[trigger] v.queues[j].queue == q) && is_bound(v.bindings, q, e, key) {
            let j = choose|j: int| 0 <= j < n && #[trigger] v.queues[j].queue == q;
            if j < n - 1 {
                let i = choose|i: int| 0 <= i < rest.len() && #[trigger] rest[i].queue == q;
                assert(cur[i].queue == q);
            } else {
                assert(qn == q);
                assert(cur[rest.len() as int].queue == q);
            }
        }
    }
}

/// The position of the oldest delivery for `q` lies within `s`; every delivery
/// before it is for another queue, and it is for `q` when it is not the end.
proof fn lemma_first_index_bounds(s: Seq<PendingView>, q: MessageBrokerQueues)
    ensures
        0 <= first_index(s, q) <= s.len(),
        first_index(s, q) < s.len() ==> s[first_index(s, q)].queue == q,
        forall|k: int| 0 <= k < first_index(s, q) ==> #[trigger] s[k].queue != q,
    decreases s.len(),
{
    if s.len() > 0 && s[0].queue != q {
        lemma_first_index_bounds(s.drop_first(), q);
        assert forall|k: int| 0 <= k < first_index(s, q) implies #[trigger] s[k].queue != q by {
            if k > 0 {
                assert(s[k] == s.drop_first()[k - 1]);
            }
        }
    }
}

/// A publish that the transport does not confirm never succeeds: success is
/// only reported by an open transport that confirms, and an open transport that
/// does not confirm answers with a publish error.
pub proof fn lemma_unconfirmed_publish_fails(
    v: MemoryBusView,
    w: MemoryBusView,
    e: MessageBrokerExchanges,
    key: Seq<char>,
    payload: Seq<u8>,
    r: Result<(), BusError>,
)
    requires
        publish_step(v, w, e, key, payload, r),
    ensures
        r is Ok ==> !v.closed && v.confirming,
        !v.closed && !v.confirming ==> r == Err::<(), BusError>(BusError::PublishError),
{
}

/// A delivery that fails to decode does not stop dispatch on its queue: the
/// transport stays open with its consumer, every other delivery still waits in
/// the same order, and when another delivery was waiting on the queue the next
/// step has one to hand out.
pub proof fn lemma_dispatch_continues_after_failure(
    v: MemoryBusView,
    w: MemoryBusView,
    q: MessageBrokerQueues,
    r: Option<Result<(MessageBrokerRoutingKeys, String), BusError>>,
    i: int,
)
    requires
        consume_step(v, w, q, r),
        r == Some(Err::<(MessageBrokerRoutingKeys, String), BusError>(BusError::DecodingError)),
        0 <= i < v.pending.len(),
        v.pending[i].queue == q,
        i != first_index(v.pending, q),
    ensures
        !w.closed,
        is_consuming(w.queues, q),
        w.pending == v.pending.remove(first_index(v.pending, q)),
        first_index(w.pending, q) < w.pending.len(),
{
    let j = first_index(v.pending, q);
    lemma_first_index_bounds(v.pending, q);
    lemma_first_index_bounds(w.pending, q);
    assert(j < i);
    assert(w.pending[i - 1] == v.pending[i]);
    if first_index(w.pending, q) >= w.pending.len() {
        assert(w.pending[i - 1].queue != q);
    }
}

} // verus!
