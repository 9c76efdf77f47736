//! Source scheduler: when each source's next synchronisation pass runs, with
//! no overlapping passes for one source and coalesced manual triggers.

use vstd::prelude::*;

verus! {

/// Schedule of one source.
#[derive(Clone, Copy, Debug, PartialEq, Eq, Structural)]
pub struct SourceSlot {
    pub source_id: u64,
    /// Seconds between passes.
    pub interval: u64,
    /// Whether passes recur; false once stopped.
    pub running: bool,
    /// Whether a pass is under way.
    pub in_flight: bool,
    /// Whether a trigger came while a pass was under way.
    pub rerun: bool,
    /// When the next pass is due, if one is planned.
    pub next_due: Option<u64>,
}

/// Outcome of a manual trigger.
#[derive(Clone, Copy, Debug, PartialEq, Eq, Structural)]
pub enum TriggerOutcome {
    /// A pass is due now.
    Scheduled,
    /// A pass is under way; one more runs after it.
    Coalesced,
    /// The source is not known to the scheduler.
    UnknownSource,
}

pub open spec fn unique_sources(slots: Seq<SourceSlot>) -> bool {
    forall|i: int, j: int|
        0 <= i < slots.len() && 0 <= j < slots.len() && i != j ==> #[trigger] slots[i].source_id
            != #[trigger] slots[j].source_id
}

/// Whether the slot holds a source.
pub open spec fn slot_of(slots: Seq<SourceSlot>, source_id: u64, i: int) -> bool {
    0 <= i < slots.len() && slots[i].source_id == source_id
}

pub open spec fn knows(slots: Seq<SourceSlot>, source_id: u64) -> bool {
    exists|i: int| #[trigger] slot_of(slots, source_id, i)
}

/// `a + b`, held to `u64::MAX`.
pub open spec fn sat_add(a: u64, b: u64) -> u64 {
    if a + b <= u64::MAX {
        (a + b) as u64
    } else {
        u64::MAX
    }
}

/// Whether a slot's pass is due at `now`.
pub open spec fn due(s: SourceSlot, now: u64) -> bool {
    !s.in_flight && s.next_due.is_some() && s.next_due.unwrap() <= now
}

/// The slot after its pass ended at `now`: a coalesced trigger runs at once,
/// a running source is due again after its interval, a stopped one not at all.
pub open spec fn after_pass(s: SourceSlot, now: u64) -> SourceSlot {
    SourceSlot {
        in_flight: false,
        rerun: false,
        next_due: if s.rerun {
            Some(now)
        } else if s.running {
            Some(sat_add(now, s.interval))
        } else {
            None
        },
        ..s
    }
}

pub struct SourceScheduler {
    slots: Vec<SourceSlot>,
}

impl SourceScheduler {
    pub closed spec fn slots_view(&self) -> Seq<SourceSlot> {
        self.slots@
    }

    pub closed spec fn wf(&self) -> bool {
        unique_sources(self.slots@)
    }

    pub fn new() -> (r: Self)
        ensures
            r.wf(),
            r.slots_view().len() == 0,
    {
        SourceScheduler { slots: Vec::new() }
    }

    fn find(&self, source_id: u64) -> (r: Option<usize>)
        requires
            self.wf(),
        ensures
            r.is_none() == !knows(self.slots@, source_id),
            r.is_some() ==> slot_of(self.slots@, source_id, r.unwrap() as int),
    {
        let mut i: usize = 0;
        while i < self.slots.len()
            invariant
                i <= self.slots@.len(),
                forall|k: int| 0 <= k < i ==> !#[trigger] slot_of(self.slots@, source_id, k),
            decreases self.slots@.len() - i,
        {
            if self.slots[i].source_id == source_id {
                assert(slot_of(self.slots@, source_id, i as int));
                return Some(i);
            }
            i = i + 1;
        }
        None
    }

    /// Starts recurring passes of a source: one is due at once, then one per
    /// `interval` after each pass ends. A known source keeps its slot and a
    /// pass under way.
    pub fn start(&mut self, source_id: u64, interval: u64, now: u64)
        requires
            old(self).wf(),
        ensures
            final(self).wf(),
            knows(old(self).slots_view(), source_id) ==> exists|i: int|
                #[trigger] slot_of(old(self).slots_view(), source_id, i) && final(self).slots_view()
                    == old(self).slots_view().update(
                    i,
                    SourceSlot {
                        interval: interval,
                        running: true,
                        next_due: Some(now),
                        ..old(self).slots_view()[i]
                    },
                ),
            !knows(old(self).slots_view(), source_id) ==> final(self).slots_view() == old(self).slots_view().push(
                SourceSlot {
                    source_id: source_id,
                    interval: interval,
                    running: true,
                    in_flight: false,
                    rerun: false,
                    next_due: Some(now),
                },
            ),
    {
        match self.find(source_id) {
            Some(i) => {
                let mut s = self.slots[i];
                s.interval = interval;
                s.running = true;
                s.next_due = Some(now);
                self.slots.set(i, s);
            },
            None => {
                let ghost before = self.slots@;
                self.slots.push(
                    SourceSlot {
                        source_id,
                        interval,
                        running: true,
                        in_flight: false,
                        rerun: false,
                        next_due: Some(now),
                    },
                );
                assert forall|a: int, b: int|
                    0 <= a < self.slots@.len() && 0 <= b < self.slots@.len() && a != b implies #[trigger] self.slots@[a].source_id
                    != #[trigger] self.slots@[b].source_id by {
                    if a < before.len() && b < before.len() {
                    } else if a < before.len() {
                        assert(!slot_of(before, source_id, a));
                    } else {
                        assert(!slot_of(before, source_id, b));
                    }
                }
            },
        }
    }

    /// Asks for a pass now. Under way: one more runs after it. Otherwise a
    /// pass is due at once, merged with any pass already planned.
    pub fn trigger_now(&mut self, source_id: u64, now: u64) -> (r: TriggerOutcome)
        requires
            old(self).wf(),
        ensures
            final(self).wf(),
            !knows(old(self).slots_view(), source_id) ==> r == TriggerOutcome::UnknownSource
                && final(self).slots_view() == old(self).slots_view(),
            knows(old(self).slots_view(), source_id) ==> exists|i: int|
                #[trigger] slot_of(old(self).slots_view(), source_id, i) && if old(self).slots_view()[i].in_flight {
                    r == TriggerOutcome::Coalesced && final(self).slots_view() == old(self).slots_view().update(i, SourceSlot { rerun: true, ..old(self).slots_view()[i] })
                } else {
                    r == TriggerOutcome::Scheduled && final(self).slots_view() == old(self).slots_view().update(
                        i,
                        SourceSlot { next_due: Some(now), ..old(self).slots_view()[i] },
                    )
                },
    {
        match self.find(source_id) {
            Some(i) => {
                let mut s = self.slots[i];
                if s.in_flight {
                    s.rerun = true;
                    self.slots.set(i, s);
                    TriggerOutcome::Coalesced
                } else {
                    s.next_due = Some(now);
                    self.slots.set(i, s);
                    TriggerOutcome::Scheduled
                }
            },
            None => TriggerOutcome::UnknownSource,
        }
    }

    /// Cancels future passes of a source; a pass under way runs to its end.
    /// Returns whether the source was known.
    pub fn stop(&mut self, source_id: u64) -> (r: bool)
        requires
            old(self).wf(),
        ensures
            final(self).wf(),
            r == knows(old(self).slots_view(), source_id),
            !r ==> final(self).slots_view() == old(self).slots_view(),
            r ==> exists|i: int|
                #[trigger] slot_of(old(self).slots_view(), source_id, i) && final(self).slots_view()
                    == old(self).slots_view().update(
                    i,
                    SourceSlot {
                        running: false,
                        rerun: false,
                        next_due: None,
                        ..old(self).slots_view()[i]
                    },
                ),
    {
        match self.find(source_id) {
            Some(i) => {
                let mut s = self.slots[i];
                let ghost before = self.slots@;
                s.running = false;
                s.rerun = false;
                s.next_due = None;
                self.slots.set(i, s);
                assert(self.slots@ =~= before.update(
                    i as int,
                    SourceSlot { running: false, rerun: false, next_due: None, ..before[i as int] },
                ));
                assert(slot_of(before, source_id, i as int));
                true
            },
            None => false,
        }
    }

    /// Stops a source and forgets it; the caller discards its committed state.
    pub fn remove(&mut self, source_id: u64) -> (r: bool)
        requires
            old(self).wf(),
        ensures
            final(self).wf(),
            r == knows(old(self).slots_view(), source_id),
            !r ==> final(self).slots_view() == old(self).slots_view(),
            r ==> exists|i: int|
                #[trigger] slot_of(old(self).slots_view(), source_id, i) && final(self).slots_view()
                    == old(self).slots_view().remove(i),
            !knows(final(self).slots_view(), source_id),
    {
        match self.find(source_id) {
            Some(i) => {
                let ghost before = self.slots@;
                self.slots.remove(i);
                assert(self.slots@ =~= before.remove(i as int));
                assert forall|k: int| !#[trigger] slot_of(self.slots@, source_id, k) by {
                    if 0 <= k < self.slots@.len() {
                        if k < i {
                            assert(self.slots@[k] == before[k]);
                        } else {
                            assert(self.slots@[k] == before[k + 1]);
                        }
                    }
                }
                true
            },
            None => false,
        }
    }

    /// Starts every pass that is due at `now`, marking it under way, and
    /// returns the sources, in slot order.
    pub fn take_due(&mut self, now: u64) -> (r: Vec<u64>)
        requires
            old(self).wf(),
        ensures
            final(self).wf(),
            final(self).slots_view().len() == old(self).slots_view().len(),
            forall|i: int|
                0 <= i < old(self).slots_view().len() ==> #[trigger] final(self).slots_view()[i]
                    == if due(old(self).slots_view()[i], now) {
                    SourceSlot { in_flight: true, next_due: None, ..old(self).slots_view()[i] }
                } else {
                    old(self).slots_view()[i]
                },
            r@ == old(self).slots_view().filter(|s: SourceSlot| due(s, now)).map_values(
                |s: SourceSlot| s.source_id,
            ),
    {
        let ghost before = self.slots@;
        let mut out: Vec<u64> = Vec::new();
        let mut i: usize = 0;
        while i < self.slots.len()
            invariant
                i <= self.slots@.len(),
                self.slots@.len() == before.len(),
                unique_sources(before),
                forall|k: int| #![trigger self.slots@[k]]
                    0 <= k < before.len() ==> self.slots@[k].source_id == before[k].source_id,
                forall|k: int| i <= k < before.len() ==> #[trigger] self.slots@[k] == before[k],
                forall|k: int|
                    0 <= k < i ==> #[trigger] self.slots@[k] == if due(before[k], now) {
                        SourceSlot { in_flight: true, next_due: None, ..before[k] }
                    } else {
                        before[k]
                    },
                out@ == before.take(i as int).filter(|s: SourceSlot| due(s, now)).map_values(
                    |s: SourceSlot| s.source_id,
                ),
            decreases before.len() - i,
        {
            let s = self.slots[i];
            assert(before.take(i as int + 1).drop_last() =~= before.take(i as int));
            assert(before.take(i as int + 1).last() == before[i as int]);
            reveal(Seq::filter);
            let is_due = !s.in_flight && match s.next_due {
                Some(t) => t <= now,
                None => false,
            };
            if is_due {
                let mut n = s;
                n.in_flight = true;
                n.next_due = None;
                self.slots.set(i, n);
                out.push(s.source_id);
                assert(out@ =~= before.take(i as int + 1).filter(|s: SourceSlot| due(s, now)).map_values(
                    |s: SourceSlot| s.source_id,
                ));
            } else {
                assert(out@ =~= before.take(i as int + 1).filter(|s: SourceSlot| due(s, now)).map_values(
                    |s: SourceSlot| s.source_id,
                ));
            }
            i = i + 1;
        }
        assert(before.take(i as int) =~= before);
        out
    }

    /// Ends the pass of a source at `now`, successful or failed alike: a
    /// failed pass does not disable the source.
    pub fn pass_finished(&mut self, source_id: u64, now: u64) -> (r: bool)
        requires
            old(self).wf(),
        ensures
            final(self).wf(),
            r == knows(old(self).slots_view(), source_id),
            !r ==> final(self).slots_view() == old(self).slots_view(),
            r ==> exists|i: int|
                #[trigger] slot_of(old(self).slots_view(), source_id, i) && final(self).slots_view()
                    == old(self).slots_view().update(i, after_pass(old(self).slots_view()[i], now)),
    {
        match self.find(source_id) {
            Some(i) => {
                let s = self.slots[i];
                let next = if s.rerun {
                    Some(now)
                } else if s.running {
                    if s.interval > u64::MAX - now {
                        Some(u64::MAX)
                    } else {
                        Some(now + s.interval)
                    }
                } else {
                    None
                };
                let n = SourceSlot { in_flight: false, rerun: false, next_due: next, ..s };
                let ghost before = self.slots@;
                self.slots.set(i, n);
                assert(n == after_pass(before[i as int], now));
                assert(self.slots@ =~= before.update(i as int, after_pass(before[i as int], now)));
                assert(slot_of(before, source_id, i as int));
                true
            },
            None => false,
        }
    }

    /// The schedule of a source, if known.
    pub fn slot(&self, source_id: u64) -> (r: Option<SourceSlot>)
        requires
            self.wf(),
        ensures
            r.is_some() == knows(self.slots_view(), source_id),
            r.is_some() ==> exists|i: int|
                #[trigger] slot_of(self.slots_view(), source_id, i) && r.unwrap()
                    == self.slots_view()[i],
    {
        match self.find(source_id) {
            Some(i) => Some(self.slots[i]),
            None => None,
        }
    }
}

} // verus!
