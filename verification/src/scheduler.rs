//! The scheduler core: per-function request queues, the function registry,
//! the response router, and the decision logic of the scheduler loop and of
//! the per-function runtime supervisors.
//!
//! Everything here is sequential logic over plain values.  The surrounding
//! runtime holds each shared structure behind a lock and calls in while the
//! lock is held, so the contracts below describe one atomic step each.

use vstd::prelude::*;

verus! {

/// One pending invocation: an identity token, the target function's name and
/// an opaque payload.  A record is created once, enqueued once, popped once,
/// and never mutated.
#[derive(Debug)]
pub struct InvokeRequest {
    pub req_id: String,
    pub function_name: String,
    pub payload: String,
}

/// First-in-first-out buffer of pending invocations for one function.
pub struct RequestQueue {
    inner: Vec<InvokeRequest>,
}

/// What a pop returns when the queue holds `q`: the earliest record, if any.
pub open spec fn queue_pop_result(q: Seq<InvokeRequest>) -> Option<InvokeRequest> {
    if q.len() == 0 {
        None
    } else {
        Some(q[0])
    }
}

/// The queue contents after a pop.
pub open spec fn queue_after_pop(q: Seq<InvokeRequest>) -> Seq<InvokeRequest> {
    if q.len() == 0 {
        q
    } else {
        q.drop_first()
    }
}

impl RequestQueue {
    /// The queue's contents, earliest first.
    pub closed spec fn view(&self) -> Seq<InvokeRequest> {
        self.inner@
    }

    pub fn new() -> (q: RequestQueue)
        ensures
            q@ == Seq::<InvokeRequest>::empty(),
    {
        RequestQueue { inner: Vec::new() }
    }

    /// Appends a record at the tail.
    pub fn push(&mut self, req: InvokeRequest)
        ensures
            final(self)@ == queue_after_push(old(self)@, req),
    {
        self.inner.push(req);
    }

    /// Removes and returns the head; an empty pop is a valid empty result,
    /// not a failure.
    pub fn pop(&mut self) -> (r: Option<InvokeRequest>)
        ensures
            r == queue_pop_result(old(self)@),
            final(self)@ == queue_after_pop(old(self)@),
    {
        if self.inner.len() == 0 {
            None
        } else {
            Some(self.inner.remove(0))
        }
    }
}

/// The queue contents after a push.
pub open spec fn queue_after_push(q: Seq<InvokeRequest>, r: InvokeRequest) -> Seq<InvokeRequest> {
    q.push(r)
}

/// One abstract operation on a per-function queue, used to state the FIFO law
/// over arbitrary interleavings.
pub enum QueueOp {
    Push(InvokeRequest),
    Pop,
}

/// The records pushed by `ops`, in order.
pub open spec fn pushed_records(ops: Seq<QueueOp>) -> Seq<InvokeRequest>
    decreases ops.len(),
{
    if ops.len() == 0 {
        Seq::empty()
    } else {
        match ops.last() {
            QueueOp::Push(r) => pushed_records(ops.drop_last()).push(r),
            QueueOp::Pop => pushed_records(ops.drop_last()),
        }
    }
}

/// Replays `ops` against an initially empty queue, yielding the records the
/// pops returned (in pop order) and the records still queued.  Each step is
/// exactly what `RequestQueue::push` and `RequestQueue::pop` promise.
pub open spec fn replay_queue(ops: Seq<QueueOp>) -> (Seq<InvokeRequest>, Seq<InvokeRequest>)
    decreases ops.len(),
{
    if ops.len() == 0 {
        (Seq::empty(), Seq::empty())
    } else {
        let prev = replay_queue(ops.drop_last());
        match ops.last() {
            QueueOp::Push(r) => (prev.0, queue_after_push(prev.1, r)),
            QueueOp::Pop => match queue_pop_result(prev.1) {
                Some(r) => (prev.0.push(r), queue_after_pop(prev.1)),
                None => prev,
            },
        }
    }
}

/// FIFO law: for every sequence of pushes interleaved with pops, the records
/// popped come out in push order — the popped records followed by the records
/// still queued are exactly the pushed records — and the number of successful
/// pops never exceeds the number of pushes.
pub proof fn lemma_queue_fifo(ops: Seq<QueueOp>)
    ensures
        replay_queue(ops).0 + replay_queue(ops).1 == pushed_records(ops),
        replay_queue(ops).0.len() <= pushed_records(ops).len(),
    decreases ops.len(),
{
    if ops.len() == 0 {
        assert(replay_queue(ops).0 + replay_queue(ops).1 =~= pushed_records(ops));
    } else {
        lemma_queue_fifo(ops.drop_last());
        let prev = replay_queue(ops.drop_last());
        match ops.last() {
            QueueOp::Push(r) => {
                assert(prev.0 + queue_after_push(prev.1, r) =~= (prev.0 + prev.1).push(r));
            }
            QueueOp::Pop => {
                if prev.1.len() > 0 {
                    assert(prev.0.push(prev.1[0]) + queue_after_pop(prev.1) =~= prev.0 + prev.1);
                }
            }
        }
    }
}

/// True when the registry `m` has never seen `req`'s function name: such an
/// upsert creates the queue and asks for a process to be spawned.
pub open spec fn upsert_newly_created(
    m: Map<Seq<char>, Seq<InvokeRequest>>,
    req: InvokeRequest,
) -> bool {
    !m.dom().contains(req.function_name@)
}

/// The registry contents after `upsert(req)`: a fresh one-element queue for a
/// never-seen name, otherwise the record appended to the existing queue.
pub open spec fn upsert_after(
    m: Map<Seq<char>, Seq<InvokeRequest>>,
    req: InvokeRequest,
) -> Map<Seq<char>, Seq<InvokeRequest>> {
    if upsert_newly_created(m, req) {
        m.insert(req.function_name@, seq![req])
    } else {
        m.insert(req.function_name@, m[req.function_name@].push(req))
    }
}

/// The function registry: at most one queue per function name at any time.
/// A function name with no process running has no entry.  The surrounding
/// runtime guards the whole structure with one lock, so each method below is
/// one atomic step.
pub struct RequestCache {
    server_addr: String,
    entries: Vec<(String, RequestQueue)>,
}

impl RequestCache {
    /// Well-formed: no function name appears twice.
    pub closed spec fn wf(&self) -> bool {
        forall|i: int, j: int|
            0 <= i < j < self.entries@.len() ==> self.entries@[i].0@ != self.entries@[j].0@
    }

    /// The address every spawned process is told to poll (the function name
    /// is appended to it, separated by a slash).
    pub closed spec fn server_addr_spec(&self) -> Seq<char> {
        self.server_addr@
    }

    spec fn has_function(&self, name: Seq<char>) -> bool {
        exists|i: int| 0 <= i < self.entries@.len() && self.entries@[i].0@ == name
    }

    spec fn entry_index(&self, name: Seq<char>) -> int {
        choose|i: int| 0 <= i < self.entries@.len() && self.entries@[i].0@ == name
    }

    /// The registry as a map from function name to queued records.
    pub closed spec fn view(&self) -> Map<Seq<char>, Seq<InvokeRequest>> {
        Map::new(
            |n: Seq<char>| self.has_function(n),
            |n: Seq<char>| self.entries@[self.entry_index(n)].1@,
        )
    }

    pub fn new(server_addr: String) -> (c: RequestCache)
        ensures
            c.wf(),
            c@ == Map::<Seq<char>, Seq<InvokeRequest>>::empty(),
            c.server_addr_spec() == server_addr@,
    {
        let c = RequestCache { server_addr, entries: Vec::new() };
        proof {
            assert(c@ =~= Map::<Seq<char>, Seq<InvokeRequest>>::empty());
        }
        c
    }

    /// Index of the entry for `name`, if one exists.
    fn find_entry(&self, name: &String) -> (r: Option<usize>)
        requires
            self.wf(),
        ensures
            r is Some <==> self.has_function(name@),
            r matches Some(i) ==> i < self.entries@.len() && self.entries@[i as int].0@ == name@
                && self.entry_index(name@) == i as int,
    {
        let n = self.entries.len();
        let mut i: usize = 0;
        while i < n
            invariant
                n == self.entries@.len(),
                i <= n,
                self.wf(),
                forall|j: int| 0 <= j < i ==> self.entries@[j].0@ != name@,
            decreases n - i,
        {
            if self.entries[i].0 == *name {
                proof {
                    let k = self.entry_index(name@);
                    assert(0 <= k < self.entries@.len() && self.entries@[k].0@ == name@);
                    assert(k == i as int);
                }
                return Some(i);
            }
            i += 1;
        }
        None
    }

    /// Creates the queue for a never-seen function name (returning the name
    /// and the address its new process must poll), or appends to the existing
    /// queue.  The caller holds the registry lock for the whole call, so the
    /// check and the insertion are one atomic step: two racing upserts for
    /// the same new name yield exactly one "newly created" signal.
    pub fn upsert(&mut self, req: InvokeRequest) -> (r: Option<(String, String)>)
        requires
            old(self).wf(),
        ensures
            final(self).wf(),
            final(self).server_addr_spec() == old(self).server_addr_spec(),
            final(self)@ == upsert_after(old(self)@, req),
            r is Some <==> upsert_newly_created(old(self)@, req),
            r matches Some(p) ==> p.0@ == req.function_name@ && p.1@
                == old(self).server_addr_spec() + seq!['/'] + req.function_name@,
    {
        let ghost old_self = *self;
        let name = req.function_name.clone();
        match self.find_entry(&name) {
            None => {
                let result_name = name.clone();
                let runtime_api = self.server_addr.clone().concat("/").concat(name.as_str());
                proof {
                    reveal_strlit("/");
                    assert(runtime_api@ =~= old(self).server_addr_spec() + seq!['/']
                        + req.function_name@);
                }
                let mut queue = RequestQueue::new();
                queue.push(req);
                let ghost req_g = queue@[0];
                self.entries.push((name, queue));
                proof {
                    let es = self.entries@;
                    let n = es.len() - 1;
                    assert(forall|j: int| 0 <= j < n ==> es[j] == old_self.entries@[j]);
                    assert(forall|j: int| 0 <= j < n ==> es[j].0@ != req_g.function_name@);
                    assert(self.wf());
                    assert forall|nm: Seq<char>| self.has_function(nm) implies
                        old_self.has_function(nm) || nm == req_g.function_name@ by {
                        let i = choose|i: int| 0 <= i < es.len() && es[i].0@ == nm;
                        if i < n {
                            assert(old_self.entries@[i].0@ == nm);
                        }
                    }
                    assert forall|nm: Seq<char>| old_self.has_function(nm) implies
                        self.has_function(nm) by {
                        let i = choose|i: int|
                            0 <= i < old_self.entries@.len() && old_self.entries@[i].0@ == nm;
                        assert(es[i].0@ == nm);
                    }
                    assert(self.has_function(req_g.function_name@)) by {
                        assert(es[n].0@ == req_g.function_name@);
                    }
                    assert forall|nm: Seq<char>| self.has_function(nm) implies
                        self.entries@[self.entry_index(nm)].1@ == (if nm == req_g.function_name@ {
                            seq![req_g]
                        } else {
                            old_self@[nm]
                        }) by {
                        let i = self.entry_index(nm);
                        assert(0 <= i < es.len() && es[i].0@ == nm);
                        if nm == req_g.function_name@ {
                            assert(i == n);
                            assert(es[i].1@ =~= seq![req_g]);
                        } else {
                            assert(i < n);
                            let k = old_self.entry_index(nm);
                            assert(0 <= k < n && old_self.entries@[k].0@ == nm);
                            assert(i == k);
                        }
                    }
                    assert(self@ =~= upsert_after(old_self@, req_g));
                }
                Some((result_name, runtime_api))
            }
            Some(i) => {
                let (key, mut queue) = self.entries.remove(i);
                queue.push(req);
                let ghost req_g = queue@[queue@.len() - 1];
                self.entries.insert(i, (key, queue));
                proof {
                    let es = self.entries@;
                    assert(es =~= old_self.entries@.update(
                        i as int,
                        (old_self.entries@[i as int].0, es[i as int].1),
                    ));
                    assert(forall|j: int| 0 <= j < es.len() && j != i ==> es[j]
                        == old_self.entries@[j]);
                    assert(es[i as int].0@ == req_g.function_name@);
                    assert(self.wf());
                    assert forall|nm: Seq<char>| self.has_function(nm) <==>
                        old_self.has_function(nm) by {
                        if self.has_function(nm) {
                            let k = choose|k: int| 0 <= k < es.len() && es[k].0@ == nm;
                            assert(old_self.entries@[k].0@ == nm);
                        }
                        if old_self.has_function(nm) {
                            let k = choose|k: int|
                                0 <= k < old_self.entries@.len()
                                    && old_self.entries@[k].0@ == nm;
                            assert(es[k].0@ == nm);
                        }
                    }
                    assert forall|nm: Seq<char>| self.has_function(nm) implies
                        self.entries@[self.entry_index(nm)].1@ == (if nm == req_g.function_name@ {
                            old_self@[nm].push(req_g)
                        } else {
                            old_self@[nm]
                        }) by {
                        let k = self.entry_index(nm);
                        assert(0 <= k < es.len() && es[k].0@ == nm);
                        let k0 = old_self.entry_index(nm);
                        assert(0 <= k0 < old_self.entries@.len()
                            && old_self.entries@[k0].0@ == nm);
                        if nm == req_g.function_name@ {
                            assert(k == i as int);
                            assert(k0 == i as int);
                            assert(es[k].1@ =~= old_self.entries@[k0].1@.push(req_g));
                        } else {
                            assert(k != i as int);
                            assert(k == k0);
                        }
                    }
                    assert(!upsert_newly_created(old_self@, req_g));
                    assert(self@ =~= upsert_after(old_self@, req_g));
                }
                None
            }
        }
    }

    /// Removes and returns the earliest queued record for `function_name`;
    /// `None` when the function is unknown or its queue is empty.
    pub fn pop(&mut self, function_name: &String) -> (r: Option<InvokeRequest>)
        requires
            old(self).wf(),
        ensures
            final(self).wf(),
            final(self).server_addr_spec() == old(self).server_addr_spec(),
            !old(self)@.dom().contains(function_name@) ==> r is None && final(self)@
                == old(self)@,
            old(self)@.dom().contains(function_name@) ==> r == queue_pop_result(
                old(self)@[function_name@],
            ) && final(self)@ == old(self)@.insert(
                function_name@,
                queue_after_pop(old(self)@[function_name@]),
            ),
    {
        let ghost old_self = *self;
        match self.find_entry(function_name) {
            None => None,
            Some(i) => {
                let (key, mut queue) = self.entries.remove(i);
                let r = queue.pop();
                self.entries.insert(i, (key, queue));
                proof {
                    let es = self.entries@;
                    assert(es =~= old_self.entries@.update(
                        i as int,
                        (old_self.entries@[i as int].0, es[i as int].1),
                    ));
                    assert(self.wf());
                    assert forall|nm: Seq<char>| self.has_function(nm) <==>
                        old_self.has_function(nm) by {
                        if self.has_function(nm) {
                            let k = choose|k: int| 0 <= k < es.len() && es[k].0@ == nm;
                            assert(old_self.entries@[k].0@ == nm);
                        }
                        if old_self.has_function(nm) {
                            let k = choose|k: int|
                                0 <= k < old_self.entries@.len()
                                    && old_self.entries@[k].0@ == nm;
                            assert(es[k].0@ == nm);
                        }
                    }
                    assert forall|nm: Seq<char>| self.has_function(nm) implies
                        self.entries@[self.entry_index(nm)].1@ == (if nm == function_name@ {
                            queue_after_pop(old_self@[nm])
                        } else {
                            old_self@[nm]
                        }) by {
                        let k = self.entry_index(nm);
                        assert(0 <= k < es.len() && es[k].0@ == nm);
                        let k0 = old_self.entry_index(nm);
                        assert(0 <= k0 < old_self.entries@.len()
                            && old_self.entries@[k0].0@ == nm);
                        if nm == function_name@ {
                            assert(k == i as int);
                            assert(k0 == i as int);
                        } else {
                            assert(k != i as int);
                            assert(k == k0);
                        }
                    }
                    assert(self@ =~= old_self@.insert(
                        function_name@,
                        queue_after_pop(old_self@[function_name@]),
                    ));
                }
                r
            }
        }
    }

    /// Deletes the entry for `function_name` unconditionally; removing an
    /// already-absent entry is not an error.  This is the only place a
    /// per-function queue is destroyed: records still queued are dropped.
    pub fn clean(&mut self, function_name: &String)
        requires
            old(self).wf(),
        ensures
            final(self).wf(),
            final(self).server_addr_spec() == old(self).server_addr_spec(),
            final(self)@ == old(self)@.remove(function_name@),
    {
        let ghost old_self = *self;
        match self.find_entry(function_name) {
            None => {
                proof {
                    assert(self@ =~= old_self@.remove(function_name@));
                }
            }
            Some(i) => {
                self.entries.remove(i);
                proof {
                    let es = self.entries@;
                    assert(forall|j: int| 0 <= j < i ==> es[j] == old_self.entries@[j]);
                    assert(forall|j: int| i <= j < es.len() ==> es[j]
                        == old_self.entries@[j + 1]);
                    assert(self.wf());
                    assert forall|nm: Seq<char>| self.has_function(nm) implies
                        old_self.has_function(nm) && nm != function_name@ by {
                        let k = choose|k: int| 0 <= k < es.len() && es[k].0@ == nm;
                        if k < i {
                            assert(old_self.entries@[k].0@ == nm);
                        } else {
                            assert(old_self.entries@[k + 1].0@ == nm);
                        }
                    }
                    assert forall|nm: Seq<char>|
                        old_self.has_function(nm) && nm != function_name@ implies
                        self.has_function(nm) by {
                        let k = choose|k: int|
                            0 <= k < old_self.entries@.len() && old_self.entries@[k].0@ == nm;
                        assert(k != i as int);
                        if k < i {
                            assert(es[k].0@ == nm);
                        } else {
                            assert(es[k - 1].0@ == nm);
                        }
                    }
                    assert forall|nm: Seq<char>| self.has_function(nm) implies
                        self.entries@[self.entry_index(nm)].1@ == old_self@[nm] by {
                        let k = self.entry_index(nm);
                        assert(0 <= k < es.len() && es[k].0@ == nm);
                        let k0 = old_self.entry_index(nm);
                        assert(0 <= k0 < old_self.entries@.len()
                            && old_self.entries@[k0].0@ == nm);
                        if k < i {
                            assert(k0 == k);
                        } else {
                            assert(k0 == k + 1);
                        }
                    }
                    assert(self@ =~= old_self@.remove(function_name@));
                }
            }
        }
    }
}

/// What `complete(id, response)` delivers when the router holds `m`: exactly
/// the response, through the sender registered for `id`, or nothing when no
/// sender is registered.
pub open spec fn complete_delivery<S, R>(m: Map<Seq<char>, S>, id: Seq<char>, response: R) -> Option<
    (S, R),
> {
    if m.dom().contains(id) {
        Some((m[id], response))
    } else {
        None
    }
}

/// The router contents after a completion attempt for `id`.
pub open spec fn router_after_complete<S>(m: Map<Seq<char>, S>, id: Seq<char>) -> Map<
    Seq<char>,
    S,
> {
    m.remove(id)
}

/// Response delivery law: registering a sender for `id` and then completing
/// `id` with response `response` delivers exactly `response`, through exactly
/// that sender; completing an identity that was never registered delivers
/// nothing.
pub proof fn lemma_complete_delivers_registered<S, R>(
    m: Map<Seq<char>, S>,
    id: Seq<char>,
    sender: S,
    response: R,
)
    ensures
        complete_delivery(m.insert(id, sender), id, response) == Some((sender, response)),
        !m.dom().contains(id) ==> complete_delivery(m, id, response) is None,
{
}

/// The response router: a mapping from invocation identity to the single-use
/// sender a response is delivered through.  The sender type is opaque to this
/// logic; the runtime around it instantiates it with a one-shot channel and
/// performs the actual send.
pub struct ResponseCache<S> {
    entries: Vec<(String, S)>,
}

impl<S> ResponseCache<S> {
    /// Well-formed: an identity appears at most once.
    pub closed spec fn wf(&self) -> bool {
        forall|i: int, j: int|
            0 <= i < j < self.entries@.len() ==> self.entries@[i].0@ != self.entries@[j].0@
    }

    spec fn has_id(&self, id: Seq<char>) -> bool {
        exists|i: int| 0 <= i < self.entries@.len() && self.entries@[i].0@ == id
    }

    spec fn id_index(&self, id: Seq<char>) -> int {
        choose|i: int| 0 <= i < self.entries@.len() && self.entries@[i].0@ == id
    }

    /// The router as a map from identity to the stored sender.
    pub closed spec fn view(&self) -> Map<Seq<char>, S> {
        Map::new(|id: Seq<char>| self.has_id(id), |id: Seq<char>| self.entries@[self.id_index(id)].1)
    }

    pub fn new() -> (c: ResponseCache<S>)
        ensures
            c.wf(),
            c@ == Map::<Seq<char>, S>::empty(),
    {
        let c = ResponseCache { entries: Vec::new() };
        proof {
            assert(c@ =~= Map::<Seq<char>, S>::empty());
        }
        c
    }

    /// Index of the entry for `id`, if one exists.
    fn find_id(&self, id: &String) -> (r: Option<usize>)
        requires
            self.wf(),
        ensures
            r is Some <==> self.has_id(id@),
            r matches Some(i) ==> i < self.entries@.len() && self.entries@[i as int].0@ == id@
                && self.id_index(id@) == i as int,
    {
        let n = self.entries.len();
        let mut i: usize = 0;
        while i < n
            invariant
                n == self.entries@.len(),
                i <= n,
                self.wf(),
                forall|j: int| 0 <= j < i ==> self.entries@[j].0@ != id@,
            decreases n - i,
        {
            if self.entries[i].0 == *id {
                proof {
                    let k = self.id_index(id@);
                    assert(0 <= k < self.entries@.len() && self.entries@[k].0@ == id@);
                    assert(k == i as int);
                }
                return Some(i);
            }
            i += 1;
        }
        None
    }

    /// Registers the sender a caller waits on, keyed by the invocation's
    /// identity.  A second registration for the same identity replaces the
    /// stored sender, as an insertion into a map does.
    pub fn push(&mut self, req_id: &String, resp_tx: S)
        requires
            old(self).wf(),
        ensures
            final(self).wf(),
            final(self)@ == old(self)@.insert(req_id@, resp_tx),
    {
        let ghost old_self = *self;
        let ghost tx = resp_tx;
        match self.find_id(req_id) {
            Some(i) => {
                let (key, _) = self.entries.remove(i);
                self.entries.insert(i, (key, resp_tx));
                proof {
                    let es = self.entries@;
                    assert(es =~= old_self.entries@.update(
                        i as int,
                        (old_self.entries@[i as int].0, tx),
                    ));
                    assert(self.wf());
                    self.lemma_update_view(old_self, i as int, req_id@, tx);
                }
            }
            None => {
                self.entries.push((req_id.clone(), resp_tx));
                proof {
                    let es = self.entries@;
                    let n = es.len() - 1;
                    assert(forall|j: int| 0 <= j < n ==> es[j] == old_self.entries@[j]);
                    assert(self.wf());
                    self.lemma_update_view(old_self, n, req_id@, tx);
                }
            }
        }
    }

    /// Common view argument for `push`: after placing `(id, tx)` at index `i`
    /// of an otherwise unchanged entry list, the view is the old view with
    /// `id` mapped to `tx`.
    proof fn lemma_update_view(&self, old_self: ResponseCache<S>, i: int, id: Seq<char>, tx: S)
        requires
            self.wf(),
            old_self.wf(),
            0 <= i < self.entries@.len(),
            self.entries@[i].0@ == id,
            self.entries@[i].1 == tx,
            forall|j: int|
                0 <= j < self.entries@.len() && j != i ==> #[trigger] self.entries@[j]
                    == old_self.entries@[j],
            self.entries@.len() == old_self.entries@.len() || (self.entries@.len()
                == old_self.entries@.len() + 1 && i == old_self.entries@.len()),
            self.entries@.len() == old_self.entries@.len() ==> old_self.entries@[i].0@ == id,
        ensures
            self@ == old_self@.insert(id, tx),
    {
        let es = self.entries@;
        let n0 = old_self.entries@.len() as int;
        assert forall|x: Seq<char>| self.has_id(x) implies old_self.has_id(x) || x == id by {
            let k = choose|k: int| 0 <= k < es.len() && es[k].0@ == x;
            if k != i {
                assert(old_self.entries@[k].0@ == x);
            }
        }
        assert forall|x: Seq<char>| old_self.has_id(x) && x != id implies self.has_id(x) by {
            let k = choose|k: int| 0 <= k < n0 && old_self.entries@[k].0@ == x;
            assert(k != i);
            assert(es[k].0@ == x);
        }
        assert forall|x: Seq<char>| self.has_id(x) implies es[self.id_index(x)].1 == (if x == id {
            tx
        } else {
            old_self@[x]
        }) by {
            let k = self.id_index(x);
            assert(0 <= k < es.len() && es[k].0@ == x);
            if x == id {
                assert(k == i);
            } else {
                assert(k != i);
                let k0 = old_self.id_index(x);
                assert(0 <= k0 < n0 && old_self.entries@[k0].0@ == x);
                assert(k0 != i);
                assert(k == k0);
            }
        }
        assert(self@ =~= old_self@.insert(id, tx));
    }

    /// Looks up and removes the sender stored for `req_id`; `None` when the
    /// identity was never registered, or was already completed.
    pub fn pop(&mut self, req_id: &String) -> (r: Option<S>)
        requires
            old(self).wf(),
        ensures
            final(self).wf(),
            old(self)@.dom().contains(req_id@) ==> r == Some(old(self)@[req_id@]) && final(self)@
                == old(self)@.remove(req_id@),
            !old(self)@.dom().contains(req_id@) ==> r is None && final(self)@ == old(self)@,
    {
        let ghost old_self = *self;
        match self.find_id(req_id) {
            None => None,
            Some(i) => {
                let (_, tx) = self.entries.remove(i);
                proof {
                    let es = self.entries@;
                    assert(forall|j: int| 0 <= j < i ==> es[j] == old_self.entries@[j]);
                    assert(forall|j: int| i <= j < es.len() ==> es[j]
                        == old_self.entries@[j + 1]);
                    assert(self.wf());
                    assert forall|x: Seq<char>| self.has_id(x) implies old_self.has_id(x) && x
                        != req_id@ by {
                        let k = choose|k: int| 0 <= k < es.len() && es[k].0@ == x;
                        if k < i {
                            assert(old_self.entries@[k].0@ == x);
                        } else {
                            assert(old_self.entries@[k + 1].0@ == x);
                        }
                    }
                    assert forall|x: Seq<char>| old_self.has_id(x) && x != req_id@ implies
                        self.has_id(x) by {
                        let k = choose|k: int|
                            0 <= k < old_self.entries@.len() && old_self.entries@[k].0@ == x;
                        assert(k != i as int);
                        if k < i {
                            assert(es[k].0@ == x);
                        } else {
                            assert(es[k - 1].0@ == x);
                        }
                    }
                    assert forall|x: Seq<char>| self.has_id(x) implies es[self.id_index(x)].1
                        == old_self@[x] by {
                        let k = self.id_index(x);
                        assert(0 <= k < es.len() && es[k].0@ == x);
                        let k0 = old_self.id_index(x);
                        assert(0 <= k0 < old_self.entries@.len() && old_self.entries@[k0].0@
                            == x);
                        if k < i {
                            assert(k0 == k);
                        } else {
                            assert(k0 == k + 1);
                        }
                    }
                    assert(self@ =~= old_self@.remove(req_id@));
                }
                Some(tx)
            }
        }
    }

    /// Completion step: removes the sender registered for `req_id` and hands
    /// it back with the response to deliver through it.  With no registered
    /// sender (the caller already gave up, or a duplicate completion) this is
    /// a silent no-op, not an error.
    pub fn complete<R>(&mut self, req_id: &String, response: R) -> (r: Option<(S, R)>)
        requires
            old(self).wf(),
        ensures
            final(self).wf(),
            r == complete_delivery(old(self)@, req_id@, response),
            old(self)@.dom().contains(req_id@) ==> final(self)@ == router_after_complete(
                old(self)@,
                req_id@,
            ),
            !old(self)@.dom().contains(req_id@) ==> final(self)@ == old(self)@,
    {
        match self.pop(req_id) {
            Some(tx) => Some((tx, response)),
            None => None,
        }
    }
}

/// One event the scheduler loop races for: a newly arrived invocation, a
/// garbage-collection notification naming a terminated function, or the
/// system-wide shutdown signal.
#[derive(Debug)]
pub enum SchedulerEvent {
    Invoke(InvokeRequest),
    GarbageCollect(String),
    Shutdown,
}

/// What the loop's runtime must do after one step: spawn a supervisor for a
/// newly seen function (with the address its process must poll), keep
/// looping, or exit.
#[derive(Debug)]
pub enum SchedulerAction {
    SpawnFunction(String, String),
    Continue,
    Exit,
}

/// One iteration of the scheduler loop, as a function from registry state and
/// event to new state and action.  The runtime around it performs the action:
/// spawning never blocks the loop, and on `Exit` the loop returns without
/// further processing.
pub fn scheduler_step(cache: &mut RequestCache, event: SchedulerEvent) -> (a: SchedulerAction)
    requires
        old(cache).wf(),
    ensures
        final(cache).wf(),
        final(cache).server_addr_spec() == old(cache).server_addr_spec(),
        match event {
            SchedulerEvent::Invoke(req) => {
                &&& final(cache)@ == upsert_after(old(cache)@, req)
                &&& upsert_newly_created(old(cache)@, req) ==> (a matches
                    SchedulerAction::SpawnFunction(name, api) && name@ == req.function_name@
                    && api@ == old(cache).server_addr_spec() + seq!['/'] + req.function_name@)
                &&& !upsert_newly_created(old(cache)@, req) ==> a is Continue
            },
            SchedulerEvent::GarbageCollect(name) => {
                &&& final(cache)@ == old(cache)@.remove(name@)
                &&& a is Continue
            },
            SchedulerEvent::Shutdown => {
                &&& final(cache)@ == old(cache)@
                &&& a is Exit
            },
        },
{
    match event {
        SchedulerEvent::Invoke(req) => match cache.upsert(req) {
            Some((name, api)) => SchedulerAction::SpawnFunction(name, api),
            None => SchedulerAction::Continue,
        },
        SchedulerEvent::GarbageCollect(name) => {
            cache.clean(&name);
            SchedulerAction::Continue
        },
        SchedulerEvent::Shutdown => SchedulerAction::Exit,
    }
}

/// Cleanup after a failed spawn: the registry entry was created before the
/// spawn was attempted, so the caller that triggered the spawn clears it
/// again, and a later request for the same function retries from scratch.
pub fn handle_spawn_failure(cache: &mut RequestCache, function_name: &String)
    requires
        old(cache).wf(),
    ensures
        final(cache).wf(),
        final(cache).server_addr_spec() == old(cache).server_addr_spec(),
        final(cache)@ == old(cache)@.remove(function_name@),
        !final(cache)@.dom().contains(function_name@),
{
    cache.clean(function_name);
}

/// Registry creation law: the first upsert for a function name yields the
/// one "newly created" signal; every later upsert for the same name yields
/// "no action needed" for as long as the queue stays in the registry.
pub proof fn lemma_upsert_created_once(
    m: Map<Seq<char>, Seq<InvokeRequest>>,
    r1: InvokeRequest,
    r2: InvokeRequest,
)
    requires
        r1.function_name@ == r2.function_name@,
    ensures
        !m.dom().contains(r1.function_name@) ==> upsert_newly_created(m, r1),
        !upsert_newly_created(upsert_after(m, r1), r2),
{
}

/// Registry persistence law: an upsert never removes an entry, so once a
/// function's queue exists, every further upsert for that name — whatever
/// other names arrive in between — still finds it and yields "no action
/// needed".
pub proof fn lemma_registry_entry_persists(
    m: Map<Seq<char>, Seq<InvokeRequest>>,
    r: InvokeRequest,
    name: Seq<char>,
)
    requires
        m.dom().contains(name),
    ensures
        upsert_after(m, r).dom().contains(name),
        r.function_name@ == name ==> !upsert_newly_created(m, r),
{
}

/// Registry retirement law: once the garbage-collection step has removed a
/// function's entry, the next upsert for that name is again "newly created".
pub proof fn lemma_upsert_after_gc(m: Map<Seq<char>, Seq<InvokeRequest>>, r: InvokeRequest)
    ensures
        upsert_newly_created(m.remove(r.function_name@), r),
{
}

/// One event a function runtime supervisor races for: its child process
/// exited on its own, or the system-wide shutdown signal fired.
#[derive(Debug)]
pub enum SupervisorEvent {
    ChildExited,
    Shutdown,
}

/// What the supervisor must do next: report the function's termination on the
/// garbage-collection channel (natural exit), or kill the child process and
/// return without reporting (shutdown tears the whole system down anyway).
#[derive(Debug)]
pub enum SupervisorAction {
    ReportTermination(String),
    KillChild,
}

/// The supervisor's one decision, taken after the race between child exit and
/// shutdown.  A natural exit is reported exactly once; a shutdown kills the
/// child and reports nothing.
pub fn supervisor_step(function_name: &String, event: &SupervisorEvent) -> (a: SupervisorAction)
    ensures
        event is ChildExited ==> (a matches SupervisorAction::ReportTermination(name) && name@
            == function_name@),
        event is Shutdown ==> a is KillChild,
{
    match event {
        SupervisorEvent::ChildExited => SupervisorAction::ReportTermination(
            function_name.clone(),
        ),
        SupervisorEvent::Shutdown => SupervisorAction::KillChild,
    }
}

/// The environment a function's child process is started with: the address
/// it must poll for work and a synthetic execution identity (function name,
/// a fixed version, a fixed memory size), so the process can self-report
/// exactly as the real platform's handler runtime would.
pub fn function_startup_env(
    function_name: &String,
    runtime_api: &String,
    rust_log: &String,
) -> (env: Vec<(String, String)>)
    ensures
        env@.len() == 5,
        env@[0].0@ == "RUST_LOG"@ && env@[0].1@ == rust_log@,
        env@[1].0@ == "AWS_LAMBDA_RUNTIME_API"@ && env@[1].1@ == runtime_api@,
        env@[2].0@ == "AWS_LAMBDA_FUNCTION_NAME"@ && env@[2].1@ == function_name@,
        env@[3].0@ == "AWS_LAMBDA_FUNCTION_VERSION"@ && env@[3].1@ == "1"@,
        env@[4].0@ == "AWS_LAMBDA_FUNCTION_MEMORY_SIZE"@ && env@[4].1@ == "4096"@,
{
    let mut env: Vec<(String, String)> = Vec::new();
    env.push((String::from_str("RUST_LOG"), rust_log.clone()));
    env.push((String::from_str("AWS_LAMBDA_RUNTIME_API"), runtime_api.clone()));
    env.push((String::from_str("AWS_LAMBDA_FUNCTION_NAME"), function_name.clone()));
    env.push((String::from_str("AWS_LAMBDA_FUNCTION_VERSION"), String::from_str("1")));
    env.push((String::from_str("AWS_LAMBDA_FUNCTION_MEMORY_SIZE"), String::from_str("4096")));
    env
}

/// The arguments of the `cargo` command a supervisor runs: the watcher that
/// rebuilds and reruns the one binary named like the function.
pub fn watch_command_args(function_name: &String) -> (args: Vec<String>)
    ensures
        args@.len() == 6,
        args@[0]@ == "watch"@,
        args@[1]@ == "--"@,
        args@[2]@ == "cargo"@,
        args@[3]@ == "run"@,
        args@[4]@ == "--bin"@,
        args@[5]@ == function_name@,
{
    let mut args: Vec<String> = Vec::new();
    args.push(String::from_str("watch"));
    args.push(String::from_str("--"));
    args.push(String::from_str("cargo"));
    args.push(String::from_str("run"));
    args.push(String::from_str("--bin"));
    args.push(function_name.clone());
    args
}

} // verus!
