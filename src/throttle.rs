//! Admission control: a bounded number of concurrent permits per scope, an
//! optional bounded wait queue and an optional token bucket.

use vstd::prelude::*;

verus! {

/// What a permit is counted against.
#[derive(Clone, Copy, Debug, PartialEq, Eq, Structural)]
pub enum Scope {
    /// Outbound requests to one source.
    Source(u64),
    /// OCR workers.
    OcrWorker,
}

/// Result of asking for a permit.
#[derive(Clone, Copy, Debug, PartialEq, Eq, Structural)]
pub enum Admit {
    /// A slot was taken.
    Granted,
    /// No slot was free: the caller waits for a release to hand it one.
    Queued,
}

#[derive(Clone, Copy, Debug, PartialEq, Eq, Structural)]
pub enum ThrottleError {
    /// No slot was free and the wait queue is full.
    Throttled,
}

/// Concurrency gate of one scope.
pub struct Throttler {
    scope: Scope,
    max_concurrent: u64,
    /// Zero for a wait queue without bound.
    max_queue_depth: u64,
    /// Requests per second; zero for no rate ceiling.
    rate: u64,
    tokens: u64,
    last_refill: u64,
    active: u64,
    waiting: u64,
}

impl Throttler {
    pub closed spec fn scope_view(&self) -> Scope {
        self.scope
    }

    pub closed spec fn active_view(&self) -> nat {
        self.active as nat
    }

    pub closed spec fn waiting_view(&self) -> nat {
        self.waiting as nat
    }

    pub closed spec fn max_concurrent_view(&self) -> nat {
        self.max_concurrent as nat
    }

    pub closed spec fn max_queue_depth_view(&self) -> nat {
        self.max_queue_depth as nat
    }

    pub closed spec fn rate_view(&self) -> nat {
        self.rate as nat
    }

    pub closed spec fn tokens_view(&self) -> nat {
        self.tokens as nat
    }

    pub closed spec fn last_refill_view(&self) -> u64 {
        self.last_refill
    }

    /// Never more permits out than the bound.
    pub closed spec fn wf(&self) -> bool {
        &&& self.max_concurrent >= 1
        &&& self.active <= self.max_concurrent
        &&& self.rate > 0 ==> self.tokens <= self.rate
    }

    pub open spec fn same_config(&self, o: &Throttler) -> bool {
        &&& self.scope_view() == o.scope_view()
        &&& self.max_concurrent_view() == o.max_concurrent_view()
        &&& self.max_queue_depth_view() == o.max_queue_depth_view()
        &&& self.rate_view() == o.rate_view()
    }

    /// Whether a slot can be taken now.
    pub open spec fn slot_free(&self) -> bool {
        self.active_view() < self.max_concurrent_view() && (self.rate_view() == 0
            || self.tokens_view() > 0)
    }

    /// A gate of `max_concurrent` slots (at least one). `max_queue_depth`
    /// bounds the waiters (zero: no bound); `rate` is the requests-per-second
    /// ceiling (zero: none), with a full bucket at `now`.
    pub fn new(scope: Scope, max_concurrent: u64, max_queue_depth: u64, rate: u64, now: u64) -> (r:
        Self)
        requires
            max_concurrent >= 1,
        ensures
            r.wf(),
            r.scope_view() == scope,
            r.max_concurrent_view() == max_concurrent,
            r.max_queue_depth_view() == max_queue_depth,
            r.rate_view() == rate,
            r.tokens_view() == rate,
            r.last_refill_view() == now,
            r.active_view() == 0,
            r.waiting_view() == 0,
    {
        Throttler {
            scope,
            max_concurrent,
            max_queue_depth,
            rate,
            tokens: rate,
            last_refill: now,
            active: 0,
            waiting: 0,
        }
    }

    /// Adds the tokens earned since the last refill, at most a full bucket.
    /// Time counts in whole seconds, and a second earns `rate` tokens, so
    /// any time passed fills the bucket.
    pub fn refill(&mut self, now: u64)
        requires
            old(self).wf(),
        ensures
            final(self).wf(),
            final(self).same_config(old(self)),
            final(self).active_view() == old(self).active_view(),
            final(self).waiting_view() == old(self).waiting_view(),
            old(self).rate_view() == 0 || now <= old(self).last_refill_view() ==> final(self).tokens_view() == old(self).tokens_view()
                && final(self).last_refill_view() == old(self).last_refill_view(),
            old(self).rate_view() > 0 && now > old(self).last_refill_view() ==> final(self).last_refill_view() == now
                && final(self).tokens_view() == old(self).rate_view(),
    {
        if self.rate == 0 || now <= self.last_refill {
            return ;
        }
        self.tokens = self.rate;
        self.last_refill = now;
    }

    /// What `acquire` does: grants where a slot is free, queues while the
    /// wait queue has room, else refuses with `Throttled`.
    pub open spec fn acquire_effect(&self, n: &Throttler, r: Result<Admit, ThrottleError>) -> bool {
        &&& n.wf()
        &&& n.same_config(self)
        &&& n.last_refill_view() == self.last_refill_view()
        &&& self.slot_free() ==> r == Ok::<Admit, ThrottleError>(Admit::Granted)
            && n.active_view() == self.active_view() + 1 && n.waiting_view() == self.waiting_view()
            && n.tokens_view() == if self.rate_view() > 0 {
            (self.tokens_view() - 1) as nat
        } else {
            self.tokens_view()
        }
        &&& !self.slot_free() && (self.max_queue_depth_view() == 0 || self.waiting_view()
            < self.max_queue_depth_view()) ==> r == Ok::<Admit, ThrottleError>(Admit::Queued)
            && n.waiting_view() == self.waiting_view() + 1 && n.active_view() == self.active_view()
            && n.tokens_view() == self.tokens_view()
        &&& !self.slot_free() && self.max_queue_depth_view() != 0 && self.waiting_view()
            >= self.max_queue_depth_view() ==> r == Err::<Admit, ThrottleError>(
            ThrottleError::Throttled,
        ) && n.waiting_view() == self.waiting_view() && n.active_view() == self.active_view()
            && n.tokens_view() == self.tokens_view()
    }

    /// Asks for a permit: granted where a slot is free, else queued while the
    /// wait queue has room, else refused with `Throttled`.
    pub fn acquire(&mut self) -> (r: Result<Admit, ThrottleError>)
        requires
            old(self).wf(),
            old(self).waiting_view() < u64::MAX,
        ensures
            old(self).acquire_effect(final(self), r),
    {
        if self.active < self.max_concurrent && (self.rate == 0 || self.tokens > 0) {
            self.active = self.active + 1;
            if self.rate > 0 {
                self.tokens = self.tokens - 1;
            }
            Ok(Admit::Granted)
        } else if self.max_queue_depth == 0 || self.waiting < self.max_queue_depth {
            self.waiting = self.waiting + 1;
            Ok(Admit::Queued)
        } else {
            Err(ThrottleError::Throttled)
        }
    }

    /// A waiter gave up before it was handed a slot.
    pub fn cancel_wait(&mut self)
        requires
            old(self).wf(),
            old(self).waiting_view() > 0,
        ensures
            final(self).wf(),
            final(self).same_config(old(self)),
            final(self).waiting_view() == old(self).waiting_view() - 1,
            final(self).active_view() == old(self).active_view(),
            final(self).tokens_view() == old(self).tokens_view(),
            final(self).last_refill_view() == old(self).last_refill_view(),
    {
        self.waiting = self.waiting - 1;
    }

    /// Returns a permit. Where someone waits and the rate ceiling leaves a
    /// token, the slot passes to the first waiter (`true`), stays taken and
    /// uses the token; else it is freed (`false`) and the waiters stay.
    pub fn release(&mut self) -> (handed_over: bool)
        requires
            old(self).wf(),
            old(self).active_view() > 0,
        ensures
            final(self).wf(),
            final(self).same_config(old(self)),
            handed_over == (old(self).waiting_view() > 0 && (old(self).rate_view() == 0 || old(self).tokens_view() > 0)),
            handed_over ==> final(self).waiting_view() == old(self).waiting_view() - 1
                && final(self).active_view() == old(self).active_view()
                && final(self).tokens_view() == if old(self).rate_view() > 0 {
                (old(self).tokens_view() - 1) as nat
            } else {
                old(self).tokens_view()
            },
            !handed_over ==> final(self).waiting_view() == old(self).waiting_view()
                && final(self).active_view() == old(self).active_view() - 1
                && final(self).tokens_view() == old(self).tokens_view(),
            final(self).last_refill_view() == old(self).last_refill_view(),
    {
        if self.waiting > 0 && (self.rate == 0 || self.tokens > 0) {
            self.waiting = self.waiting - 1;
            if self.rate > 0 {
                self.tokens = self.tokens - 1;
            }
            true
        } else {
            self.active = self.active - 1;
            false
        }
    }

    pub fn scope(&self) -> (r: Scope)
        ensures
            r == self.scope_view(),
    {
        self.scope
    }

    pub fn active(&self) -> (r: u64)
        ensures
            r == self.active_view(),
    {
        self.active
    }

    pub fn waiting(&self) -> (r: u64)
        ensures
            r == self.waiting_view(),
    {
        self.waiting
    }
}

/// Gates of all scopes, created on first use with one shared configuration.
pub struct ThrottleRegistry {
    gates: Vec<Throttler>,
    max_concurrent: u64,
    max_queue_depth: u64,
    rate: u64,
}

pub open spec fn gate_of(gates: Seq<Throttler>, scope: Scope, i: int) -> bool {
    0 <= i < gates.len() && gates[i].scope_view() == scope
}

impl ThrottleRegistry {
    pub closed spec fn gates_view(&self) -> Seq<Throttler> {
        self.gates@
    }

    /// Every gate is well formed and has the shared configuration; one gate per scope.
    pub closed spec fn wf(&self) -> bool {
        &&& self.max_concurrent >= 1
        &&& forall|i: int|
            0 <= i < self.gates@.len() ==> (#[trigger] self.gates@[i]).wf()
                && self.gates@[i].max_concurrent_view() == self.max_concurrent
                && self.gates@[i].max_queue_depth_view() == self.max_queue_depth
                && self.gates@[i].rate_view() == self.rate
        &&& forall|i: int, j: int|
            0 <= i < self.gates@.len() && 0 <= j < self.gates@.len() && i != j ==> (
            #[trigger] self.gates@[i]).scope_view() != (#[trigger] self.gates@[j]).scope_view()
    }

    pub fn new(max_concurrent: u64, max_queue_depth: u64, rate: u64) -> (r: Self)
        requires
            max_concurrent >= 1,
        ensures
            r.wf(),
            r.gates_view().len() == 0,
    {
        ThrottleRegistry { gates: Vec::new(), max_concurrent, max_queue_depth, rate }
    }

    fn find(&self, scope: Scope) -> (r: Option<usize>)
        ensures
            r.is_none() ==> forall|i: int| !#[trigger] gate_of(self.gates@, scope, i),
            r.is_some() ==> gate_of(self.gates@, scope, r.unwrap() as int),
    {
        let mut i: usize = 0;
        while i < self.gates.len()
            invariant
                i <= self.gates@.len(),
                forall|k: int| 0 <= k < i ==> !#[trigger] gate_of(self.gates@, scope, k),
            decreases self.gates@.len() - i,
        {
            if self.gates[i].scope() == scope {
                return Some(i);
            }
            i = i + 1;
        }
        None
    }

    /// Asks for a permit of `scope`. A scope seen before goes through its
    /// gate; a new scope gets a gate with a full bucket at `now`, which grants.
    pub fn acquire(&mut self, scope: Scope, now: u64) -> (r: Result<Admit, ThrottleError>)
        requires
            old(self).wf(),
            forall|i: int|
                0 <= i < old(self).gates_view().len() ==> (#[trigger] old(self).gates_view()[i]).waiting_view() < u64::MAX,
        ensures
            final(self).wf(),
            (exists|i: int| #[trigger] gate_of(old(self).gates_view(), scope, i)) ==> exists|i: int|
                #[trigger] gate_of(old(self).gates_view(), scope, i) && old(self).gates_view()[i].acquire_effect(&final(self).gates_view()[i], r) && final(self).gates_view().len() == old(self).gates_view().len() && forall|k: int|
                    0 <= k < old(self).gates_view().len() && k != i ==> final(self).gates_view()[k]
                        == old(self).gates_view()[k],
            (forall|i: int| !#[trigger] gate_of(old(self).gates_view(), scope, i)) ==> {
                &&& r == Ok::<Admit, ThrottleError>(Admit::Granted)
                &&& final(self).gates_view().len() == old(self).gates_view().len() + 1
                &&& final(self).gates_view().drop_last() == old(self).gates_view()
                &&& final(self).gates_view().last().scope_view() == scope
                &&& final(self).gates_view().last().active_view() == 1
                &&& final(self).gates_view().last().waiting_view() == 0
            },
    {
        match self.find(scope) {
            Some(i) => {
                let ghost before = self.gates@;
                let mut gate = self.gates.remove(i);
                assert(gate == before[i as int]);
                assert(old(self).gates_view()[i as int].waiting_view() < u64::MAX);
                let r = gate.acquire();
                self.gates.insert(i, gate);
                assert(self.gates@ =~= before.update(i as int, gate));
                assert forall|a: int, b: int|
                    0 <= a < self.gates@.len() && 0 <= b < self.gates@.len() && a != b implies (
                    #[trigger] self.gates@[a]).scope_view() != (#[trigger] self.gates@[b]).scope_view() by {
                    assert(gate.scope_view() == before[i as int].scope_view());
                    if a != i && b != i {
                        assert(self.gates@[a] == before[a] && self.gates@[b] == before[b]);
                    }
                }
                assert(gate_of(before, scope, i as int));
                r
            },
            None => {
                let mut gate = Throttler::new(scope, self.max_concurrent, self.max_queue_depth, self.rate, now);
                let r = gate.acquire();
                let ghost before = self.gates@;
                self.gates.push(gate);
                assert(self.gates@.drop_last() =~= before);
                assert forall|a: int, b: int|
                    0 <= a < self.gates@.len() && 0 <= b < self.gates@.len() && a != b implies (
                    #[trigger] self.gates@[a]).scope_view() != (#[trigger] self.gates@[b]).scope_view() by {
                    if a < before.len() && b < before.len() {
                        assert(self.gates@[a] == before[a] && self.gates@[b] == before[b]);
                    } else if a < before.len() {
                        assert(self.gates@[a] == before[a]);
                        assert(!gate_of(before, scope, a));
                    } else {
                        assert(self.gates@[b] == before[b]);
                        assert(!gate_of(before, scope, b));
                    }
                }
                r
            },
        }
    }

    /// Returns a permit of `scope`: `None` where the scope holds no permit,
    /// else whether the slot passed to a waiter.
    pub fn release(&mut self, scope: Scope) -> (r: Option<bool>)
        requires
            old(self).wf(),
        ensures
            final(self).wf(),
            final(self).gates_view().len() == old(self).gates_view().len(),
            r.is_none() ==> final(self).gates_view() == old(self).gates_view(),
            r.is_none() == forall|i: int|
                #[trigger] gate_of(old(self).gates_view(), scope, i) ==> old(self).gates_view()[i].active_view() == 0,
            r.is_some() ==> exists|i: int|
                #[trigger] gate_of(old(self).gates_view(), scope, i) && (r.unwrap() == (old(self).gates_view()[i].waiting_view() > 0 && (old(self).gates_view()[i].rate_view() == 0 || old(self).gates_view()[i].tokens_view() > 0))) && final(self).gates_view()[i].active_view()
                    == if r.unwrap() {
                    old(self).gates_view()[i].active_view()
                } else {
                    (old(self).gates_view()[i].active_view() - 1) as nat
                },
    {
        match self.find(scope) {
            Some(i) => {
                if self.gates[i].active() == 0 {
                    assert forall|k: int| #[trigger] gate_of(self.gates@, scope, k) implies self.gates@[k].active_view() == 0 by {
                        if k != i {
                            assert(self.gates@[k].scope_view() != self.gates@[i as int].scope_view());
                        }
                    }
                    return None;
                }
                let ghost before = self.gates@;
                let mut gate = self.gates.remove(i);
                let handed = gate.release();
                self.gates.insert(i, gate);
                assert(self.gates@ =~= before.update(i as int, gate));
                assert forall|a: int, b: int|
                    0 <= a < self.gates@.len() && 0 <= b < self.gates@.len() && a != b implies (
                    #[trigger] self.gates@[a]).scope_view() != (#[trigger] self.gates@[b]).scope_view() by {
                    if a != i && b != i {
                        assert(self.gates@[a] == before[a] && self.gates@[b] == before[b]);
                    }
                }
                assert(gate_of(before, scope, i as int));
                Some(handed)
            },
            None => None,
        }
    }
}

} // verus!
