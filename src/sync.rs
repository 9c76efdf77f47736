//! Source synchronisation: classifying a fresh listing against the last
//! committed state, and the phases of one pass.

use vstd::prelude::*;

verus! {

/// Content fingerprint of a discovered file.
#[derive(Clone, Debug)]
pub enum Fingerprint {
    /// The entity tag reported by the server.
    Tag(String),
    /// Size and modification time, used where no tag was reported.
    SizeTime(u64, u64),
}

/// Whether two fingerprints denote the same content version.
pub open spec fn fp_same(a: Fingerprint, b: Fingerprint) -> bool {
    match (a, b) {
        (Fingerprint::Tag(x), Fingerprint::Tag(y)) => x@ == y@,
        (Fingerprint::SizeTime(s1, t1), Fingerprint::SizeTime(s2, t2)) => s1 == s2 && t1 == t2,
        _ => false,
    }
}

/// Decides `fp_same`.
pub fn fingerprints_match(a: &Fingerprint, b: &Fingerprint) -> (r: bool)
    ensures
        r == fp_same(*a, *b),
{
    match (a, b) {
        (Fingerprint::Tag(x), Fingerprint::Tag(y)) => crate::text::str_eq(x.as_str(), y.as_str()),
        (Fingerprint::SizeTime(s1, t1), Fingerprint::SizeTime(s2, t2)) => *s1 == *s2 && *t1 == *t2,
        _ => false,
    }
}

/// One file or directory found by a discovery pass.
#[derive(Clone, Debug)]
pub struct DiscoveredEntry {
    /// Path relative to the source root.
    pub path: String,
    pub size: u64,
    /// Seconds since the epoch; the epoch where the server's value was unreadable.
    pub last_modified: u64,
    pub fingerprint: Fingerprint,
    /// False where the timestamp could not be read: such an entry is
    /// re-examined on every pass.
    pub reliable: bool,
    pub is_directory: bool,
}

/// Kind of change found for a path.
#[derive(Clone, Copy, Debug, PartialEq, Eq, Structural)]
pub enum ChangeKind {
    New,
    Modified,
    Deleted,
}

/// One ingestion event of a pass.
#[derive(Clone, Debug)]
pub struct ChangeEvent {
    pub kind: ChangeKind,
    pub path: String,
}

/// Mathematical form of a change event.
pub open spec fn event_view(e: ChangeEvent) -> (ChangeKind, Seq<char>) {
    (e.kind, e.path@)
}

/// The fingerprint last recorded for `p`: later entries of the state win.
pub open spec fn lookup(state: Seq<DiscoveredEntry>, p: Seq<char>) -> Option<Fingerprint>
    decreases state.len(),
{
    if state.len() == 0 {
        None
    } else if state.last().path@ == p {
        Some(state.last().fingerprint)
    } else {
        lookup(state.drop_last(), p)
    }
}

/// Whether some fresh entry has path `p`.
pub open spec fn listed(fresh: Seq<DiscoveredEntry>, p: Seq<char>) -> bool {
    exists|i: int| 0 <= i < fresh.len() && #[trigger] fresh[i].path@ == p
}

/// How one fresh entry compares with the committed state.
pub open spec fn classify_entry(state: Seq<DiscoveredEntry>, e: DiscoveredEntry) -> Option<ChangeKind> {
    match lookup(state, e.path@) {
        None => Some(ChangeKind::New),
        Some(f) => if !e.reliable || !fp_same(f, e.fingerprint) {
            Some(ChangeKind::Modified)
        } else {
            None
        },
    }
}

/// Events for the fresh entries, in listing order.
pub open spec fn fresh_changes(state: Seq<DiscoveredEntry>, fresh: Seq<DiscoveredEntry>) -> Seq<
    (ChangeKind, Seq<char>),
>
    decreases fresh.len(),
{
    if fresh.len() == 0 {
        Seq::empty()
    } else {
        let prior = fresh_changes(state, fresh.drop_last());
        match classify_entry(state, fresh.last()) {
            Some(k) => prior.push((k, fresh.last().path@)),
            None => prior,
        }
    }
}

/// Deletion events for the recorded paths that the listing no longer has,
/// in state order.
pub open spec fn deletions(state: Seq<DiscoveredEntry>, fresh: Seq<DiscoveredEntry>) -> Seq<
    (ChangeKind, Seq<char>),
>
    decreases state.len(),
{
    if state.len() == 0 {
        Seq::empty()
    } else {
        let prior = deletions(state.drop_last(), fresh);
        if listed(fresh, state.last().path@) {
            prior
        } else {
            prior.push((ChangeKind::Deleted, state.last().path@))
        }
    }
}

/// The change set of a pass: fresh entries first, then deletions.
pub open spec fn diff(state: Seq<DiscoveredEntry>, fresh: Seq<DiscoveredEntry>) -> Seq<
    (ChangeKind, Seq<char>),
> {
    fresh_changes(state, fresh) + deletions(state, fresh)
}

/// Finds the fingerprint recorded for a path.
pub fn find_recorded(state: &Vec<DiscoveredEntry>, p: &String) -> (r: Option<usize>)
    ensures
        match r {
            None => lookup(state@, p@).is_none(),
            Some(j) => j < state@.len() && lookup(state@, p@) == Some(state@[j as int].fingerprint),
        },
{
    let mut found: Option<usize> = None;
    let mut i: usize = 0;
    while i < state.len()
        invariant
            i <= state@.len(),
            match found {
                None => lookup(state@.take(i as int), p@).is_none(),
                Some(j) => j < i && lookup(state@.take(i as int), p@) == Some(
                    state@[j as int].fingerprint,
                ),
            },
        decreases state@.len() - i,
    {
        assert(state@.take(i as int + 1).drop_last() =~= state@.take(i as int));
        if state[i].path == *p {
            found = Some(i);
        }
        i = i + 1;
    }
    assert(state@.take(i as int) =~= state@);
    found
}

/// Whether some fresh entry has the path.
pub fn is_listed(fresh: &Vec<DiscoveredEntry>, p: &String) -> (r: bool)
    ensures
        r == listed(fresh@, p@),
{
    let mut i: usize = 0;
    while i < fresh.len()
        invariant
            i <= fresh@.len(),
            forall|k: int| 0 <= k < i ==> fresh@[k].path@ != p@,
        decreases fresh@.len() - i,
    {
        if fresh[i].path == *p {
            return true;
        }
        i = i + 1;
    }
    false
}

/// Classifies a fresh listing against the committed state: `New` for a path
/// not recorded, `Modified` for a recorded path whose fingerprint differs or
/// is unreliable, `Deleted` for a recorded path no longer listed; unchanged
/// paths give no event.
pub fn compute_changes(state: &Vec<DiscoveredEntry>, fresh: &Vec<DiscoveredEntry>) -> (r: Vec<
    ChangeEvent,
>)
    ensures
        r@.map_values(|e: ChangeEvent| event_view(e)) == diff(state@, fresh@),
{
    let mut out: Vec<ChangeEvent> = Vec::new();
    let mut i: usize = 0;
    while i < fresh.len()
        invariant
            i <= fresh@.len(),
            out@.map_values(|e: ChangeEvent| event_view(e)) == fresh_changes(
                state@,
                fresh@.take(i as int),
            ),
        decreases fresh@.len() - i,
    {
        let e = &fresh[i];
        assert(fresh@.take(i as int + 1).drop_last() =~= fresh@.take(i as int));
        assert(fresh@.take(i as int + 1).last() == fresh@[i as int]);
        let kind: Option<ChangeKind> = match find_recorded(state, &e.path) {
            None => Some(ChangeKind::New),
            Some(j) => {
                if !e.reliable || !fingerprints_match(&state[j].fingerprint, &e.fingerprint) {
                    Some(ChangeKind::Modified)
                } else {
                    None
                }
            },
        };
        match kind {
            Some(k) => {
                let ev = ChangeEvent { kind: k, path: e.path.clone() };
                out.push(ev);
                assert(out@.map_values(|e: ChangeEvent| event_view(e)) =~= fresh_changes(
                    state@,
                    fresh@.take(i as int + 1),
                ));
            },
            None => {},
        }
        i = i + 1;
    }
    assert(fresh@.take(i as int) =~= fresh@);
    let ghost front = out@.map_values(|e: ChangeEvent| event_view(e));
    let mut j: usize = 0;
    while j < state.len()
        invariant
            j <= state@.len(),
            front == fresh_changes(state@, fresh@),
            out@.map_values(|e: ChangeEvent| event_view(e)) == front + deletions(
                state@.take(j as int),
                fresh@,
            ),
        decreases state@.len() - j,
    {
        assert(state@.take(j as int + 1).drop_last() =~= state@.take(j as int));
        assert(state@.take(j as int + 1).last() == state@[j as int]);
        if !is_listed(fresh, &state[j].path) {
            let ev = ChangeEvent { kind: ChangeKind::Deleted, path: state[j].path.clone() };
            let ghost before = out@;
            out.push(ev);
            assert(deletions(state@.take(j as int + 1), fresh@) == deletions(
                state@.take(j as int),
                fresh@,
            ).push((ChangeKind::Deleted, state@[j as int].path@)));
            assert(out@.map_values(|e: ChangeEvent| event_view(e)) =~= before.map_values(
                |e: ChangeEvent| event_view(e),
            ).push((ChangeKind::Deleted, state@[j as int].path@)));
            assert(out@.map_values(|e: ChangeEvent| event_view(e)) =~= front + deletions(
                state@.take(j as int + 1),
                fresh@,
            ));
        }
        j = j + 1;
    }
    assert(state@.take(j as int) =~= state@);
    out
}

/// Whether no two entries share a path.
pub open spec fn unique_paths(entries: Seq<DiscoveredEntry>) -> bool {
    forall|i: int, j: int|
        0 <= i < entries.len() && 0 <= j < entries.len() && i != j ==> #[trigger] entries[i].path@
            != #[trigger] entries[j].path@
}

/// Whether every entry's fingerprint can be trusted.
pub open spec fn all_reliable(entries: Seq<DiscoveredEntry>) -> bool {
    forall|i: int| 0 <= i < entries.len() ==> #[trigger] entries[i].reliable
}

/// Whether a later entry of the listing has the same path as entry `j`.
pub open spec fn listed_later(s: Seq<DiscoveredEntry>, j: int) -> bool {
    exists|m: int| j < m < s.len() && #[trigger] s[m].path@ == s[j].path@
}

/// The first `k` entries of a listing without those listed again later: one
/// entry per path, the last one, in listing order.
pub open spec fn last_per_path(s: Seq<DiscoveredEntry>, k: nat) -> Seq<DiscoveredEntry>
    decreases k,
{
    if k == 0 || k > s.len() {
        Seq::empty()
    } else {
        let prior = last_per_path(s, (k - 1) as nat);
        if listed_later(s, k - 1) {
            prior
        } else {
            prior.push(s[k - 1])
        }
    }
}

/// A listing with one entry per path.
pub open spec fn dedup(s: Seq<DiscoveredEntry>) -> Seq<DiscoveredEntry> {
    last_per_path(s, s.len())
}

/// `idx` gives, for each kept entry, its increasing position in the listing.
pub open spec fn kept_positions(s: Seq<DiscoveredEntry>, k: nat, idx: Seq<int>) -> bool {
    &&& idx.len() == last_per_path(s, k).len()
    &&& forall|a: int|
        0 <= a < idx.len() ==> 0 <= #[trigger] idx[a] < k && last_per_path(s, k)[a] == s[idx[a]]
            && !listed_later(s, idx[a])
    &&& forall|a: int, b: int| 0 <= a < b < idx.len() ==> #[trigger] idx[a] < #[trigger] idx[b]
}

/// Each kept entry stands at an increasing position of the listing and is
/// not listed again later.
proof fn lemma_last_per_path_shape(s: Seq<DiscoveredEntry>, k: nat)
    requires
        k <= s.len(),
    ensures
        exists|idx: Seq<int>|
            #[trigger] kept_positions(s, k, idx),
    decreases k,
{
    if k == 0 {
        let idx = Seq::<int>::empty();
        assert(kept_positions(s, k, idx));
    } else {
        lemma_last_per_path_shape(s, (k - 1) as nat);
        let idx0 = choose|idx: Seq<int>|
            #[trigger] kept_positions(s, (k - 1) as nat, idx);
        if listed_later(s, k - 1) {
            assert(last_per_path(s, k) == last_per_path(s, (k - 1) as nat));
            assert(kept_positions(s, k, idx0));
        } else {
            let idx = idx0.push(k - 1);
            assert(idx.len() == last_per_path(s, k).len());
            assert forall|a: int|
                0 <= a < idx.len() implies 0 <= #[trigger] idx[a] < k && last_per_path(s, k)[a]
                    == s[idx[a]] && !listed_later(s, idx[a]) by {
                if a < idx0.len() {
                    assert(idx[a] == idx0[a]);
                }
            }
            assert forall|a: int, b: int| 0 <= a < b < idx.len() implies #[trigger] idx[a]
                < #[trigger] idx[b] by {
                if b < idx0.len() {
                    assert(idx[a] == idx0[a] && idx[b] == idx0[b]);
                } else {
                    assert(idx[a] == idx0[a]);
                }
            }
            assert(kept_positions(s, k, idx));
        }
    }
}

/// A deduplicated listing has distinct paths and keeps only listed entries.
pub proof fn lemma_dedup_unique(s: Seq<DiscoveredEntry>)
    ensures
        unique_paths(dedup(s)),
        all_reliable(s) ==> all_reliable(dedup(s)),
{
    lemma_last_per_path_shape(s, s.len());
    let d = dedup(s);
    let idx = choose|idx: Seq<int>|
        #[trigger] kept_positions(s, s.len(), idx);
    assert forall|a: int, b: int|
        0 <= a < d.len() && 0 <= b < d.len() && a != b implies #[trigger] d[a].path@
        != #[trigger] d[b].path@ by {
        let (x, y) = if a < b {
            (a, b)
        } else {
            (b, a)
        };
        assert(idx[x] < idx[y]);
        assert(!listed_later(s, idx[x]));
        if d[x].path@ == d[y].path@ {
            assert(s[idx[y]].path@ == s[idx[x]].path@);
        }
    }
    if all_reliable(s) {
        assert forall|a: int| 0 <= a < d.len() implies #[trigger] d[a].reliable by {
            assert(d[a] == s[idx[a]]);
        }
    }
}

/// Collapses repeated paths of a listing to their last entry, keeping order.
pub fn dedup_listing(fresh: Vec<DiscoveredEntry>) -> (r: Vec<DiscoveredEntry>)
    ensures
        r@ == dedup(fresh@),
{
    let ghost orig = fresh@;
    let n = fresh.len();
    let mut rest = fresh;
    let mut out: Vec<DiscoveredEntry> = Vec::new();
    let mut i: usize = 0;
    while i < n
        invariant
            n == orig.len(),
            i <= n,
            rest@ == orig.subrange(i as int, n as int),
            out@ == last_per_path(orig, i as nat),
        decreases n - i,
    {
        let mut later = false;
        let mut m: usize = 1;
        while m < rest.len()
            invariant
                rest@ == orig.subrange(i as int, n as int),
                n == orig.len(),
                i < n,
                1 <= m <= rest@.len(),
                later == exists|t: int| (i as int) + 1 <= t < (i as int) + (m as int) && #[trigger] orig[t].path@ == orig[i as int].path@,
            decreases rest@.len() - m,
        {
            assert(rest@[0] == orig[i as int]);
            assert(rest@[m as int] == orig[(i as int) + (m as int)]);
            if rest[m].path == rest[0].path {
                assert(orig[(i as int) + (m as int)].path@ == orig[i as int].path@);
                later = true;
            } else {
                assert(rest@[m as int] == orig[(i as int) + (m as int)]);
            }
            proof {
                if !later {
                    assert forall|t: int| (i as int) + 1 <= t < (i as int) + (m as int) + 1 implies #[trigger] orig[t].path@ != orig[i as int].path@ by {
                        if t == (i as int) + (m as int) {
                            assert(rest@[m as int] == orig[t]);
                        }
                    }
                }
            }
            m = m + 1;
        }
        assert(later == listed_later(orig, i as int));
        let e = rest.remove(0);
        assert(rest@ =~= orig.subrange(i as int + 1, n as int));
        if !later {
            out.push(e);
        }
        i = i + 1;
    }
    out
}

/// Phase of a synchronisation pass.
#[derive(Clone, Copy, Debug, PartialEq, Eq, Structural)]
pub enum PassPhase {
    Idle,
    Discovering,
    Diffing,
    Committing,
    Failed,
}

/// How a pass ended.
#[derive(Clone, Copy, Debug, PartialEq, Eq, Structural)]
pub enum PassOutcome {
    /// Events were emitted and the fresh listing was stored.
    Committed,
    /// The listing could not be obtained.
    DiscoveryFailed,
    /// Event emission stopped part way.
    EmissionInterrupted,
    /// Storing the new state failed.
    CommitFailed,
}

/// The committed state after a pass: only a committed pass replaces it.
pub open spec fn state_after_pass(
    state: Seq<DiscoveredEntry>,
    fresh: Seq<DiscoveredEntry>,
    outcome: PassOutcome,
) -> Seq<DiscoveredEntry> {
    if outcome == PassOutcome::Committed {
        fresh
    } else {
        state
    }
}

/// Synchronisation engine of one source: the committed state and the phase
/// of the current pass.
pub struct SyncEngine {
    source_id: u64,
    state: Vec<DiscoveredEntry>,
    staged: Vec<DiscoveredEntry>,
    phase: PassPhase,
    rerun_requested: bool,
}

impl SyncEngine {
    /// The committed state: the listing of the last committed pass.
    pub closed spec fn state_view(&self) -> Seq<DiscoveredEntry> {
        self.state@
    }

    /// The listing of the pass under way.
    pub closed spec fn staged_view(&self) -> Seq<DiscoveredEntry> {
        self.staged@
    }

    pub closed spec fn source_view(&self) -> u64 {
        self.source_id
    }

    pub closed spec fn phase_view(&self) -> PassPhase {
        self.phase
    }

    pub closed spec fn rerun_view(&self) -> bool {
        self.rerun_requested
    }

    /// An idle engine over a previously committed state.
    pub fn new(source_id: u64, committed: Vec<DiscoveredEntry>) -> (r: Self)
        ensures
            r.source_view() == source_id,
            r.state_view() == committed@,
            r.phase_view() == PassPhase::Idle,
            !r.rerun_view(),
    {
        SyncEngine {
            source_id,
            state: committed,
            staged: Vec::new(),
            phase: PassPhase::Idle,
            rerun_requested: false,
        }
    }

    pub fn source_id(&self) -> (r: u64)
        ensures
            r == self.source_view(),
    {
        self.source_id
    }

    pub fn phase(&self) -> (r: PassPhase)
        ensures
            r == self.phase_view(),
    {
        self.phase
    }

    /// The committed state.
    pub fn state(&self) -> (r: &Vec<DiscoveredEntry>)
        ensures
            r@ == self.state_view(),
    {
        &self.state
    }

    /// Asks for a pass. Where none is under way one starts (`true`); else the
    /// request is coalesced into one more pass after the current one (`false`).
    pub fn request_pass(&mut self) -> (started: bool)
        ensures
            started == (old(self).phase_view() == PassPhase::Idle || old(self).phase_view()
                == PassPhase::Failed),
            started ==> final(self).phase_view() == PassPhase::Discovering
                && final(self).rerun_view() == old(self).rerun_view(),
            !started ==> final(self).phase_view() == old(self).phase_view()
                && final(self).rerun_view(),
            final(self).state_view() == old(self).state_view(),
            final(self).source_view() == old(self).source_view(),
    {
        match self.phase {
            PassPhase::Idle | PassPhase::Failed => {
                self.phase = PassPhase::Discovering;
                true
            },
            _ => {
                self.rerun_requested = true;
                false
            },
        }
    }

    /// The listing failed: the pass fails and the committed state stays.
    pub fn discovery_failed(&mut self)
        requires
            old(self).phase_view() == PassPhase::Discovering,
        ensures
            final(self).phase_view() == PassPhase::Failed,
            final(self).state_view() == state_after_pass(
                old(self).state_view(),
                old(self).staged_view(),
                PassOutcome::DiscoveryFailed,
            ),
            final(self).rerun_view() == old(self).rerun_view(),
            final(self).source_view() == old(self).source_view(),
    {
        self.phase = PassPhase::Failed;
    }

    /// The listing arrived: returns the change set, which the caller emits,
    /// and moves to `Committing`. A path listed more than once counts by its
    /// last entry.
    pub fn discovery_succeeded(&mut self, fresh: Vec<DiscoveredEntry>) -> (r: Vec<ChangeEvent>)
        requires
            old(self).phase_view() == PassPhase::Discovering,
        ensures
            r@.map_values(|e: ChangeEvent| event_view(e)) == diff(
                old(self).state_view(),
                dedup(fresh@),
            ),
            final(self).phase_view() == PassPhase::Committing,
            final(self).staged_view() == dedup(fresh@),
            final(self).state_view() == old(self).state_view(),
            final(self).rerun_view() == old(self).rerun_view(),
            final(self).source_view() == old(self).source_view(),
    {
        self.phase = PassPhase::Diffing;
        let fresh = dedup_listing(fresh);
        let events = compute_changes(&self.state, &fresh);
        self.staged = fresh;
        self.phase = PassPhase::Committing;
        events
    }

    /// Ends the commit phase. Only `Committed` replaces the state with the
    /// staged listing; every other outcome leaves it as it was.
    pub fn finish_commit(&mut self, outcome: PassOutcome)
        requires
            old(self).phase_view() == PassPhase::Committing,
            outcome != PassOutcome::DiscoveryFailed,
        ensures
            final(self).state_view() == state_after_pass(
                old(self).state_view(),
                old(self).staged_view(),
                outcome,
            ),
            final(self).phase_view() == if outcome == PassOutcome::Committed {
                PassPhase::Idle
            } else {
                PassPhase::Failed
            },
            final(self).staged_view().len() == 0,
            final(self).rerun_view() == old(self).rerun_view(),
            final(self).source_view() == old(self).source_view(),
    {
        let mut staged: Vec<DiscoveredEntry> = Vec::new();
        std::mem::swap(&mut staged, &mut self.staged);
        match outcome {
            PassOutcome::Committed => {
                self.state = staged;
                self.phase = PassPhase::Idle;
            },
            _ => {
                self.phase = PassPhase::Failed;
            },
        }
    }

    /// After a pass has ended, reports and clears a coalesced request.
    pub fn take_rerun(&mut self) -> (r: bool)
        ensures
            r == old(self).rerun_view(),
            !final(self).rerun_view(),
            final(self).phase_view() == old(self).phase_view(),
            final(self).state_view() == old(self).state_view(),
            final(self).staged_view() == old(self).staged_view(),
            final(self).source_view() == old(self).source_view(),
    {
        let r = self.rerun_requested;
        self.rerun_requested = false;
        r
    }
}

/// In a state with distinct paths, the lookup of an entry's path finds that entry.
pub proof fn lemma_lookup_own_entry(state: Seq<DiscoveredEntry>, i: int)
    requires
        unique_paths(state),
        0 <= i < state.len(),
    ensures
        lookup(state, state[i].path@) == Some(state[i].fingerprint),
    decreases state.len(),
{
    if i != state.len() - 1 {
        let d = state.drop_last();
        assert(state[state.len() - 1].path@ != state[i].path@);
        assert(unique_paths(d)) by {
            assert forall|a: int, b: int|
                0 <= a < d.len() && 0 <= b < d.len() && a != b implies #[trigger] d[a].path@
                != #[trigger] d[b].path@ by {
                assert(d[a] == state[a] && d[b] == state[b]);
            }
        }
        assert(d[i] == state[i]);
        lemma_lookup_own_entry(d, i);
    }
}

proof fn lemma_no_fresh_changes(fresh: Seq<DiscoveredEntry>, k: int)
    requires
        unique_paths(fresh),
        all_reliable(fresh),
        0 <= k <= fresh.len(),
    ensures
        fresh_changes(fresh, fresh.take(k)).len() == 0,
    decreases k,
{
    if k > 0 {
        assert(fresh.take(k).drop_last() =~= fresh.take(k - 1));
        lemma_no_fresh_changes(fresh, k - 1);
        lemma_lookup_own_entry(fresh, k - 1);
        assert(fresh.take(k).last() == fresh[k - 1]);
        assert(fresh[k - 1].reliable);
        match fresh[k - 1].fingerprint {
            Fingerprint::Tag(t) => {},
            Fingerprint::SizeTime(a, b) => {},
        }
    }
}

proof fn lemma_no_deletions(fresh: Seq<DiscoveredEntry>, k: int)
    requires
        0 <= k <= fresh.len(),
    ensures
        deletions(fresh.take(k), fresh).len() == 0,
    decreases k,
{
    if k > 0 {
        assert(fresh.take(k).drop_last() =~= fresh.take(k - 1));
        lemma_no_deletions(fresh, k - 1);
        assert(fresh.take(k).last() == fresh[k - 1]);
        assert(listed(fresh, fresh[k - 1].path@));
    }
}

/// Running a pass again over an unchanged listing emits nothing: once a pass
/// has committed a listing whose fingerprints are reliable, the same listing
/// gives no New, Modified or Deleted event.
pub proof fn lemma_resync_is_idempotent(state: Seq<DiscoveredEntry>, fresh: Seq<DiscoveredEntry>)
    requires
        all_reliable(fresh),
    ensures
        diff(state_after_pass(state, dedup(fresh), PassOutcome::Committed), dedup(fresh)).len()
            == 0,
{
    lemma_dedup_unique(fresh);
    let d = dedup(fresh);
    lemma_no_fresh_changes(d, d.len() as int);
    lemma_no_deletions(d, d.len() as int);
    assert(d.take(d.len() as int) =~= d);
}

/// A pass that did not commit leaves the state as it was, so the next pass
/// over the same listing reproduces the same change set: nothing is lost.
pub proof fn lemma_uncommitted_pass_replays(
    state: Seq<DiscoveredEntry>,
    fresh: Seq<DiscoveredEntry>,
    outcome: PassOutcome,
)
    requires
        outcome != PassOutcome::Committed,
    ensures
        diff(state_after_pass(state, fresh, outcome), fresh) == diff(state, fresh),
{
}

} // verus!
