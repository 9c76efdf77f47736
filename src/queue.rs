//! The OCR job queue: admission, priority order, retries and terminal states.

use vstd::prelude::*;

verus! {

/// Scheduling priority; within a level jobs leave in arrival order.
#[derive(Clone, Copy, Debug, PartialEq, Eq, Structural)]
pub enum Priority {
    High,
    Normal,
    Low,
}

pub open spec fn rank(p: Priority) -> nat {
    match p {
        Priority::High => 0,
        Priority::Normal => 1,
        Priority::Low => 2,
    }
}

/// Life cycle of a job.
#[derive(Clone, Copy, Debug, PartialEq, Eq, Structural)]
pub enum JobState {
    Pending,
    Processing,
    Retrying,
    Completed,
    Failed,
}

/// Failure reported by the text extraction capability.
#[derive(Clone, Copy, Debug, PartialEq, Eq, Structural)]
pub enum ExtractError {
    /// The format cannot be read.
    NotSupported,
    /// The engine is temporarily unavailable.
    EngineUnavailable,
    /// The file is damaged.
    Corrupt,
    /// The call exceeded its deadline.
    Timeout,
}

/// Transient failures are retried; the others end the job.
pub open spec fn is_transient_spec(e: ExtractError) -> bool {
    e == ExtractError::EngineUnavailable || e == ExtractError::Timeout
}

pub fn is_transient(e: ExtractError) -> (r: bool)
    ensures
        r == is_transient_spec(e),
{
    match e {
        ExtractError::EngineUnavailable | ExtractError::Timeout => true,
        _ => false,
    }
}

/// Why the queue refused an operation.
#[derive(Clone, Copy, Debug, PartialEq, Eq, Structural)]
pub enum QueueError {
    /// An active job already exists for the same source and path.
    DuplicateJob,
    /// The number of active jobs has reached the bound.
    QueueFull,
    /// No job has that identifier, or it is not in the state the operation needs.
    InvalidJob,
}

/// One unit of OCR work.
#[derive(Debug)]
pub struct IngestionJob {
    /// Index of the job in the queue's arena.
    pub id: usize,
    pub source_id: u64,
    pub path: String,
    pub mime_type: String,
    pub priority: Priority,
    pub state: JobState,
    pub attempts: u32,
    pub last_error: Option<ExtractError>,
    pub enqueued_at: u64,
    /// When a retrying job becomes due again.
    pub retry_at: Option<u64>,
    /// Position in arrival order, renewed when a retry is re-queued.
    pub seq: u64,
}

pub open spec fn is_active(j: IngestionJob) -> bool {
    j.state == JobState::Pending || j.state == JobState::Processing || j.state
        == JobState::Retrying
}

/// Whether an active job exists for the source and path.
pub open spec fn has_active(jobs: Seq<IngestionJob>, source_id: u64, path: Seq<char>) -> bool {
    exists|i: int|
        0 <= i < jobs.len() && is_active(#[trigger] jobs[i]) && jobs[i].source_id == source_id
            && jobs[i].path@ == path
}

/// At most one active job for each source and path.
pub open spec fn one_active_per_key(jobs: Seq<IngestionJob>) -> bool {
    forall|i: int, j: int|
        0 <= i < jobs.len() && 0 <= j < jobs.len() && i != j && is_active(#[trigger] jobs[i])
            && is_active(#[trigger] jobs[j]) ==> !(jobs[i].source_id == jobs[j].source_id
            && jobs[i].path@ == jobs[j].path@)
}

/// Number of active jobs.
pub open spec fn active_count(jobs: Seq<IngestionJob>) -> nat
    decreases jobs.len(),
{
    if jobs.len() == 0 {
        0
    } else {
        active_count(jobs.drop_last()) + if is_active(jobs.last()) {
            1nat
        } else {
            0nat
        }
    }
}

/// Number of jobs being processed.
pub open spec fn processing_count(jobs: Seq<IngestionJob>) -> nat
    decreases jobs.len(),
{
    if jobs.len() == 0 {
        0
    } else {
        processing_count(jobs.drop_last()) + if jobs.last().state == JobState::Processing {
            1nat
        } else {
            0nat
        }
    }
}

/// What an enqueue of a job for `source_id` and `path` does.
#[derive(Clone, Copy, Debug, PartialEq, Eq, Structural)]
pub enum Admission {
    Accepted,
    Duplicate,
    Full,
}

pub open spec fn admission(jobs: Seq<IngestionJob>, bound: nat, source_id: u64, path: Seq<char>) -> Admission {
    if has_active(jobs, source_id, path) {
        Admission::Duplicate
    } else if active_count(jobs) >= bound {
        Admission::Full
    } else {
        Admission::Accepted
    }
}

/// Whether job `i` is the next to leave: pending, and first by priority,
/// then by arrival.
pub open spec fn is_next(jobs: Seq<IngestionJob>, i: int) -> bool {
    &&& 0 <= i < jobs.len()
    &&& jobs[i].state == JobState::Pending
    &&& forall|k: int|
        0 <= k < jobs.len() && #[trigger] jobs[k].state == JobState::Pending ==> rank(
            jobs[i].priority,
        ) < rank(jobs[k].priority) || (rank(jobs[i].priority) == rank(jobs[k].priority)
            && jobs[i].seq <= jobs[k].seq)
}

pub open spec fn has_pending(jobs: Seq<IngestionJob>) -> bool {
    exists|k: int| 0 <= k < jobs.len() && #[trigger] jobs[k].state == JobState::Pending
}

/// State and attempt count after a failed attempt, from the attempts made before it.
pub open spec fn after_failure(attempts: nat, transient: bool, max_retries: nat) -> (JobState, nat) {
    if transient && attempts + 1 <= max_retries {
        (JobState::Retrying, attempts + 1)
    } else {
        (JobState::Failed, attempts + 1)
    }
}

/// Delay before retry number `n` (counting from 1): the base doubled for each
/// earlier attempt, never above the cap.
pub open spec fn backoff(base: nat, cap: nat, n: nat) -> nat
    decreases n,
{
    if n <= 1 {
        if base <= cap {
            base
        } else {
            cap
        }
    } else {
        let d = 2 * backoff(base, cap, (n - 1) as nat);
        if d <= cap {
            d
        } else {
            cap
        }
    }
}

/// The backoff scaled by `80 + jitter_pct` percent, so that `jitter_pct`
/// from 0 to 40 spreads it by 20% either way.
pub open spec fn jittered(delay: nat, jitter_pct: nat) -> nat {
    delay * (80 + jitter_pct) / 100
}

proof fn lemma_backoff_le_cap(base: nat, cap: nat, n: nat)
    ensures
        backoff(base, cap, n) <= cap,
    decreases n,
{
    if n > 1 {
        lemma_backoff_le_cap(base, cap, (n - 1) as nat);
    }
}

/// The jittered backoff after attempt `attempts`, held to `u64::MAX`.
pub open spec fn retry_delay_spec(base: u64, cap: u64, attempts: u32, jitter_pct: u64) -> nat {
    let j = jittered(backoff(base as nat, cap as nat, attempts as nat), jitter_pct as nat);
    if j <= u64::MAX {
        j
    } else {
        u64::MAX as nat
    }
}

/// `a + b`, held to `u64::MAX`.
pub open spec fn sat_add(a: u64, b: nat) -> u64 {
    if a + b <= u64::MAX {
        (a + b) as u64
    } else {
        u64::MAX
    }
}

/// Delay before the retry that follows attempt `attempts`, with jitter.
pub fn retry_delay(base: u64, cap: u64, attempts: u32, jitter_pct: u64) -> (r: u64)
    requires
        jitter_pct <= 40,
    ensures
        r == retry_delay_spec(base, cap, attempts, jitter_pct),
{
    let mut d: u64 = if base <= cap {
        base
    } else {
        cap
    };
    let mut n: u32 = 1;
    while n < attempts
        invariant
            1 <= n,
            attempts > 1 ==> n <= attempts,
            attempts <= 1 ==> n == 1,
            d == backoff(base as nat, cap as nat, n as nat),
            d <= cap,
        decreases attempts - n,
    {
        proof {
            lemma_backoff_le_cap(base as nat, cap as nat, n as nat);
        }
        let doubled: u64 = if d > cap / 2 {
            cap
        } else {
            2 * d
        };
        assert(doubled == backoff(base as nat, cap as nat, (n + 1) as nat));
        d = doubled;
        n = n + 1;
    }
    if attempts <= 1 {
        assert(backoff(base as nat, cap as nat, attempts as nat) == backoff(
            base as nat,
            cap as nat,
            1,
        ));
    } else {
        assert(n == attempts);
    }
    assert(d == backoff(base as nat, cap as nat, attempts as nat));
    let a: u128 = d as u128;
    let b: u128 = (80 + jitter_pct) as u128;
    assert(a * b <= 0xffff_ffff_ffff_ffffu128 * 120) by (nonlinear_arith)
        requires
            a <= 0xffff_ffff_ffff_ffffu128,
            b <= 120,
    ;
    let scaled: u128 = a * b;
    let q: u128 = scaled / 100;
    if q > u64::MAX as u128 {
        u64::MAX
    } else {
        q as u64
    }
}

/// A job with another state.
pub open spec fn with_state(j: IngestionJob, st: JobState) -> IngestionJob {
    IngestionJob { state: st, ..j }
}

/// A job after a failed attempt with error `e` at time `now`.
pub open spec fn failed_job(
    j: IngestionJob,
    e: ExtractError,
    now: u64,
    jitter_pct: u64,
    max_retries: u32,
    base: u64,
    cap: u64,
) -> IngestionJob {
    let (st, a) = after_failure(j.attempts as nat, is_transient_spec(e), max_retries as nat);
    IngestionJob {
        state: st,
        attempts: a as u32,
        last_error: Some(e),
        retry_at: if st == JobState::Retrying {
            Some(sat_add(now, retry_delay_spec(base, cap, a as u32, jitter_pct)))
        } else {
            None
        },
        ..j
    }
}

/// Whether a retrying job is due at `now`.
pub open spec fn is_due(j: IngestionJob, now: u64) -> bool {
    j.state == JobState::Retrying && j.retry_at.is_some() && j.retry_at.unwrap() <= now
}

/// A due job put back in the queue with a new arrival position.
pub open spec fn requeued(j: IngestionJob, seq: u64) -> IngestionJob {
    IngestionJob { state: JobState::Pending, retry_at: None, seq: seq, ..j }
}

pub fn rank_of(p: Priority) -> (r: u8)
    ensures
        r == rank(p),
{
    match p {
        Priority::High => 0,
        Priority::Normal => 1,
        Priority::Low => 2,
    }
}

fn count_active(jobs: &Vec<IngestionJob>) -> (r: usize)
    ensures
        r == active_count(jobs@),
{
    let mut c: usize = 0;
    let mut i: usize = 0;
    while i < jobs.len()
        invariant
            i <= jobs@.len(),
            c == active_count(jobs@.take(i as int)),
            c <= i,
        decreases jobs@.len() - i,
    {
        assert(jobs@.take(i as int + 1).drop_last() =~= jobs@.take(i as int));
        match jobs[i].state {
            JobState::Pending | JobState::Processing | JobState::Retrying => {
                c = c + 1;
            },
            _ => {},
        }
        i = i + 1;
    }
    assert(jobs@.take(i as int) =~= jobs@);
    c
}

fn count_processing(jobs: &Vec<IngestionJob>) -> (r: usize)
    ensures
        r == processing_count(jobs@),
{
    let mut c: usize = 0;
    let mut i: usize = 0;
    while i < jobs.len()
        invariant
            i <= jobs@.len(),
            c == processing_count(jobs@.take(i as int)),
            c <= i,
        decreases jobs@.len() - i,
    {
        assert(jobs@.take(i as int + 1).drop_last() =~= jobs@.take(i as int));
        match jobs[i].state {
            JobState::Processing => {
                c = c + 1;
            },
            _ => {},
        }
        i = i + 1;
    }
    assert(jobs@.take(i as int) =~= jobs@);
    c
}

fn find_active(jobs: &Vec<IngestionJob>, source_id: u64, path: &String) -> (r: bool)
    ensures
        r == has_active(jobs@, source_id, path@),
{
    let mut i: usize = 0;
    while i < jobs.len()
        invariant
            i <= jobs@.len(),
            forall|k: int|
                0 <= k < i && is_active(#[trigger] jobs@[k]) ==> !(jobs@[k].source_id == source_id
                    && jobs@[k].path@ == path@),
        decreases jobs@.len() - i,
    {
        let j = &jobs[i];
        let active = match j.state {
            JobState::Pending | JobState::Processing | JobState::Retrying => true,
            _ => false,
        };
        if active && j.source_id == source_id && j.path == *path {
            return true;
        }
        i = i + 1;
    }
    false
}

/// The bounded job queue, with its jobs held in an arena indexed by id.
pub struct OcrQueue {
    jobs: Vec<IngestionJob>,
    max_active: usize,
    workers: usize,
    max_retries: u32,
    base_delay: u64,
    max_delay: u64,
    next_seq: u64,
}

impl OcrQueue {
    pub closed spec fn jobs_view(&self) -> Seq<IngestionJob> {
        self.jobs@
    }

    /// Most active jobs the queue holds at once.
    pub closed spec fn max_active_view(&self) -> nat {
        self.max_active as nat
    }

    /// Most jobs processed at once.
    pub closed spec fn workers_view(&self) -> nat {
        self.workers as nat
    }

    pub closed spec fn max_retries_view(&self) -> u32 {
        self.max_retries
    }

    pub closed spec fn base_delay_view(&self) -> u64 {
        self.base_delay
    }

    pub closed spec fn max_delay_view(&self) -> u64 {
        self.max_delay
    }

    /// Next arrival position to hand out.
    pub closed spec fn next_seq_view(&self) -> u64 {
        self.next_seq
    }

    pub open spec fn same_config(&self, other: &OcrQueue) -> bool {
        &&& self.max_active_view() == other.max_active_view()
        &&& self.workers_view() == other.workers_view()
        &&& self.max_retries_view() == other.max_retries_view()
        &&& self.base_delay_view() == other.base_delay_view()
        &&& self.max_delay_view() == other.max_delay_view()
    }

    /// Well-formedness: ids are arena indices, one active job per source and
    /// path, an active job has retries left, positions are below the next one.
    pub closed spec fn wf(&self) -> bool {
        &&& self.max_retries < u32::MAX
        &&& one_active_per_key(self.jobs@)
        &&& forall|i: int| 0 <= i < self.jobs@.len() ==> (#[trigger] self.jobs@[i]).id == i
        &&& forall|i: int|
            0 <= i < self.jobs@.len() && is_active(#[trigger] self.jobs@[i])
                ==> self.jobs@[i].attempts <= self.max_retries
        &&& forall|i: int| 0 <= i < self.jobs@.len() ==> (#[trigger] self.jobs@[i]).seq < self.next_seq
        &&& forall|i: int|
            0 <= i < self.jobs@.len() ==> (#[trigger] self.jobs@[i]).attempts <= self.max_retries + 1
    }

    /// What a well-formed queue guarantees to its users: at most one active
    /// job per source and path, no active job past its last retry, and
    /// attempts never above `max_retries + 1`.
    pub proof fn lemma_wf_facts(&self)
        requires
            self.wf(),
        ensures
            one_active_per_key(self.jobs_view()),
            self.max_retries_view() < u32::MAX,
            forall|i: int|
                0 <= i < self.jobs_view().len() && is_active(#[trigger] self.jobs_view()[i])
                    ==> self.jobs_view()[i].attempts <= self.max_retries_view(),
            forall|i: int|
                0 <= i < self.jobs_view().len() ==> (#[trigger] self.jobs_view()[i]).attempts
                    <= self.max_retries_view() + 1,
            forall|i: int|
                0 <= i < self.jobs_view().len() ==> (#[trigger] self.jobs_view()[i]).id == i,
    {
    }

    /// An empty queue. `max_active` bounds the active jobs, `workers` the jobs
    /// processed at once; a job is tried at most `max_retries + 1` times, and
    /// retries wait `base_delay` doubled per attempt up to `max_delay`.
    pub fn new(
        max_active: usize,
        workers: usize,
        max_retries: u32,
        base_delay: u64,
        max_delay: u64,
    ) -> (r: Self)
        requires
            max_retries < u32::MAX,
        ensures
            r.wf(),
            r.jobs_view().len() == 0,
            r.max_active_view() == max_active,
            r.workers_view() == workers,
            r.max_retries_view() == max_retries,
            r.base_delay_view() == base_delay,
            r.max_delay_view() == max_delay,
            r.next_seq_view() == 0,
    {
        OcrQueue { jobs: Vec::new(), max_active, workers, max_retries, base_delay, max_delay, next_seq: 0 }
    }

    /// Admits a job for `path` of `source_id`. Refused with `DuplicateJob`
    /// while an active job exists for the same source and path, else with
    /// `QueueFull` once the active jobs reach the bound.
    pub fn enqueue(
        &mut self,
        source_id: u64,
        path: String,
        mime_type: String,
        priority: Priority,
        now: u64,
    ) -> (r: Result<usize, QueueError>)
        requires
            old(self).wf(),
            old(self).next_seq_view() < u64::MAX,
        ensures
            final(self).wf(),
            final(self).same_config(old(self)),
            match r {
                Ok(id) => {
                    &&& admission(
                        old(self).jobs_view(),
                        old(self).max_active_view(),
                        source_id,
                        path@,
                    ) == Admission::Accepted
                    &&& id == old(self).jobs_view().len()
                    &&& final(self).jobs_view() == old(self).jobs_view().push(
                        (IngestionJob {
                            id: id,
                            source_id: source_id,
                            path: path,
                            mime_type: mime_type,
                            priority: priority,
                            state: JobState::Pending,
                            attempts: 0,
                            last_error: None,
                            enqueued_at: now,
                            retry_at: None,
                            seq: old(self).next_seq_view(),
                        }),
                    )
                    &&& final(self).next_seq_view() == old(self).next_seq_view() + 1
                    &&& active_count(final(self).jobs_view()) <= final(self).max_active_view()
                },
                Err(e) => {
                    &&& final(self).jobs_view() == old(self).jobs_view()
                    &&& final(self).next_seq_view() == old(self).next_seq_view()
                    &&& e == QueueError::DuplicateJob ==> admission(
                        old(self).jobs_view(),
                        old(self).max_active_view(),
                        source_id,
                        path@,
                    ) == Admission::Duplicate
                    &&& e == QueueError::QueueFull ==> admission(
                        old(self).jobs_view(),
                        old(self).max_active_view(),
                        source_id,
                        path@,
                    ) == Admission::Full
                    &&& e != QueueError::InvalidJob
                },
            },
    {
        if find_active(&self.jobs, source_id, &path) {
            return Err(QueueError::DuplicateJob);
        }
        let active = count_active(&self.jobs);
        if active >= self.max_active {
            return Err(QueueError::QueueFull);
        }
        let id = self.jobs.len();
        let job = IngestionJob {
            id,
            source_id,
            path,
            mime_type,
            priority,
            state: JobState::Pending,
            attempts: 0,
            last_error: None,
            enqueued_at: now,
            retry_at: None,
            seq: self.next_seq,
        };
        let ghost old_jobs = self.jobs@;
        self.jobs.push(job);
        self.next_seq = self.next_seq + 1;
        assert(self.jobs@.drop_last() =~= old_jobs);
        assert(one_active_per_key(self.jobs@)) by {
            assert forall|i: int, j: int|
                0 <= i < self.jobs@.len() && 0 <= j < self.jobs@.len() && i != j && is_active(
                    #[trigger] self.jobs@[i],
                ) && is_active(#[trigger] self.jobs@[j]) implies !(self.jobs@[i].source_id
                == self.jobs@[j].source_id && self.jobs@[i].path@ == self.jobs@[j].path@) by {
                if i < old_jobs.len() && j < old_jobs.len() {
                    assert(old_jobs[i] == self.jobs@[i] && old_jobs[j] == self.jobs@[j]);
                } else if i < old_jobs.len() {
                    assert(old_jobs[i] == self.jobs@[i]);
                } else {
                    assert(old_jobs[j] == self.jobs@[j]);
                }
            }
        }
        Ok(id)
    }

    /// Hands the next job to a free worker: the pending job first by
    /// priority, then by arrival. `None` when nothing is pending or every
    /// worker is busy.
    pub fn dequeue(&mut self) -> (r: Option<usize>)
        requires
            old(self).wf(),
        ensures
            final(self).wf(),
            final(self).same_config(old(self)),
            final(self).next_seq_view() == old(self).next_seq_view(),
            r.is_none() <==> (!has_pending(old(self).jobs_view()) || processing_count(
                old(self).jobs_view(),
            ) >= old(self).workers_view()),
            r.is_none() ==> final(self).jobs_view() == old(self).jobs_view(),
            r.is_some() ==> {
                &&& is_next(old(self).jobs_view(), r.unwrap() as int)
                &&& final(self).jobs_view() == old(self).jobs_view().update(
                    r.unwrap() as int,
                    with_state(old(self).jobs_view()[r.unwrap() as int], JobState::Processing),
                )
            },
    {
        let busy = count_processing(&self.jobs);
        let mut best: Option<usize> = None;
        let mut i: usize = 0;
        while i < self.jobs.len()
            invariant
                i <= self.jobs@.len(),
                match best {
                    None => forall|k: int|
                        0 <= k < i ==> (#[trigger] self.jobs@[k]).state != JobState::Pending,
                    Some(b) => {
                        &&& b < i
                        &&& self.jobs@[b as int].state == JobState::Pending
                        &&& forall|k: int|
                            0 <= k < i && #[trigger] self.jobs@[k].state == JobState::Pending
                                ==> rank(self.jobs@[b as int].priority) < rank(
                                self.jobs@[k].priority,
                            ) || (rank(self.jobs@[b as int].priority) == rank(
                                self.jobs@[k].priority,
                            ) && self.jobs@[b as int].seq <= self.jobs@[k].seq)
                    },
                },
            decreases self.jobs@.len() - i,
        {
            if self.jobs[i].state == JobState::Pending {
                match best {
                    None => {
                        best = Some(i);
                    },
                    Some(b) => {
                        let rb = rank_of(self.jobs[b].priority);
                        let ri = rank_of(self.jobs[i].priority);
                        if ri < rb || (ri == rb && self.jobs[i].seq < self.jobs[b].seq) {
                            best = Some(i);
                        }
                    },
                }
            }
            i = i + 1;
        }
        if busy >= self.workers {
            return None;
        }
        match best {
            None => None,
            Some(b) => {
                let ghost old_jobs = self.jobs@;
                self.jobs[b].state = JobState::Processing;
                assert(self.jobs@ =~= old_jobs.update(
                    b as int,
                    with_state(old_jobs[b as int], JobState::Processing),
                ));
                assert forall|k: int| 0 <= k < self.jobs@.len() implies #[trigger] self.jobs@[k] == if k == b {
                    with_state(old_jobs[k], JobState::Processing)
                } else {
                    old_jobs[k]
                } by {}
                Some(b)
            },
        }
    }

    /// Marks a job in processing as completed.
    pub fn complete(&mut self, id: usize) -> (r: Result<(), QueueError>)
        requires
            old(self).wf(),
        ensures
            final(self).wf(),
            final(self).same_config(old(self)),
            final(self).next_seq_view() == old(self).next_seq_view(),
            r.is_ok() == (id < old(self).jobs_view().len() && old(self).jobs_view()[id as int].state
                == JobState::Processing),
            r.is_ok() ==> final(self).jobs_view() == old(self).jobs_view().update(
                id as int,
                with_state(old(self).jobs_view()[id as int], JobState::Completed),
            ),
            r.is_err() ==> final(self).jobs_view() == old(self).jobs_view() && r == Err::<
                (),
                QueueError,
            >(QueueError::InvalidJob),
    {
        if id >= self.jobs.len() || self.jobs[id].state != JobState::Processing {
            return Err(QueueError::InvalidJob);
        }
        let ghost old_jobs = self.jobs@;
        self.jobs[id].state = JobState::Completed;
        assert(self.jobs@ =~= old_jobs.update(
            id as int,
            with_state(old_jobs[id as int], JobState::Completed),
        ));
        Ok(())
    }

    /// Records a failed attempt of a job in processing. A transient error
    /// with retries left makes it `Retrying`, due after the jittered backoff;
    /// otherwise it is `Failed`. Returns the job's new state.
    pub fn fail(&mut self, id: usize, error: ExtractError, now: u64, jitter_pct: u64) -> (r: Result<
        JobState,
        QueueError,
    >)
        requires
            old(self).wf(),
            jitter_pct <= 40,
        ensures
            final(self).wf(),
            final(self).same_config(old(self)),
            final(self).next_seq_view() == old(self).next_seq_view(),
            r.is_ok() == (id < old(self).jobs_view().len() && old(self).jobs_view()[id as int].state
                == JobState::Processing),
            r.is_ok() ==> {
                &&& final(self).jobs_view() == old(self).jobs_view().update(
                    id as int,
                    failed_job(
                        old(self).jobs_view()[id as int],
                        error,
                        now,
                        jitter_pct,
                        old(self).max_retries_view(),
                        old(self).base_delay_view(),
                        old(self).max_delay_view(),
                    ),
                )
                &&& r == Ok::<JobState, QueueError>(final(self).jobs_view()[id as int].state)
            },
            r.is_err() ==> final(self).jobs_view() == old(self).jobs_view() && r == Err::<
                JobState,
                QueueError,
            >(QueueError::InvalidJob),
    {
        if id >= self.jobs.len() || self.jobs[id].state != JobState::Processing {
            return Err(QueueError::InvalidJob);
        }
        let ghost old_jobs = self.jobs@;
        let attempts = self.jobs[id].attempts + 1;
        let state = if is_transient(error) && attempts <= self.max_retries {
            JobState::Retrying
        } else {
            JobState::Failed
        };
        let retry_at = if state == JobState::Retrying {
            let delay = retry_delay(self.base_delay, self.max_delay, attempts, jitter_pct);
            if delay > u64::MAX - now {
                Some(u64::MAX)
            } else {
                Some(now + delay)
            }
        } else {
            None
        };
        self.jobs[id].attempts = attempts;
        self.jobs[id].state = state;
        self.jobs[id].last_error = Some(error);
        self.jobs[id].retry_at = retry_at;
        assert(self.jobs@ =~= old_jobs.update(
            id as int,
            failed_job(
                old_jobs[id as int],
                error,
                now,
                jitter_pct,
                self.max_retries,
                self.base_delay,
                self.max_delay,
            ),
        ));
        Ok(state)
    }

    /// Puts every retrying job whose retry time has come back in the queue,
    /// behind the jobs already there. Returns how many moved.
    pub fn reap_due(&mut self, now: u64) -> (r: usize)
        requires
            old(self).wf(),
            old(self).next_seq_view() + old(self).jobs_view().len() <= u64::MAX,
        ensures
            final(self).wf(),
            final(self).same_config(old(self)),
            final(self).jobs_view().len() == old(self).jobs_view().len(),
            final(self).next_seq_view() == old(self).next_seq_view() + r,
            forall|i: int|
                0 <= i < old(self).jobs_view().len() ==> if is_due(
                    #[trigger] old(self).jobs_view()[i],
                    now,
                ) {
                    &&& final(self).jobs_view()[i] == requeued(
                        old(self).jobs_view()[i],
                        final(self).jobs_view()[i].seq,
                    )
                    &&& old(self).next_seq_view() <= final(self).jobs_view()[i].seq
                    &&& final(self).jobs_view()[i].seq < final(self).next_seq_view()
                } else {
                    final(self).jobs_view()[i] == old(self).jobs_view()[i]
                },
    {
        let ghost old_jobs = self.jobs@;
        let ghost old_next = self.next_seq;
        let mut moved: usize = 0;
        let mut i: usize = 0;
        while i < self.jobs.len()
            invariant
                self.wf(),
                self.max_retries == old(self).max_retries,
                self.max_active == old(self).max_active,
                self.workers == old(self).workers,
                self.base_delay == old(self).base_delay,
                self.max_delay == old(self).max_delay,
                i <= self.jobs@.len(),
                self.jobs@.len() == old_jobs.len(),
                moved <= i,
                self.next_seq == old_next + moved,
                old_next + old_jobs.len() <= u64::MAX,
                forall|k: int|
                    i <= k < old_jobs.len() ==> #[trigger] self.jobs@[k] == old_jobs[k],
                forall|k: int|
                    0 <= k < i ==> if is_due(#[trigger] old_jobs[k], now) {
                        &&& self.jobs@[k] == requeued(old_jobs[k], self.jobs@[k].seq)
                        &&& old_next <= self.jobs@[k].seq
                        &&& self.jobs@[k].seq < self.next_seq
                    } else {
                        self.jobs@[k] == old_jobs[k]
                    },
            decreases old_jobs.len() - i,
        {
            assert(self.jobs@[i as int] == old_jobs[i as int]);
            let due = match self.jobs[i].state {
                JobState::Retrying => match self.jobs[i].retry_at {
                    Some(t) => t <= now,
                    None => false,
                },
                _ => false,
            };
            if due {
                let ghost before = self.jobs@;
                let seq = self.next_seq;
                self.jobs[i].state = JobState::Pending;
                self.jobs[i].retry_at = None;
                self.jobs[i].seq = seq;
                self.next_seq = self.next_seq + 1;
                moved = moved + 1;
                assert(self.jobs@ =~= before.update(i as int, requeued(before[i as int], seq)));
                assert(one_active_per_key(self.jobs@)) by {
                    assert forall|a: int, b: int|
                        0 <= a < self.jobs@.len() && 0 <= b < self.jobs@.len() && a != b
                            && is_active(#[trigger] self.jobs@[a]) && is_active(
                            #[trigger] self.jobs@[b],
                        ) implies !(self.jobs@[a].source_id == self.jobs@[b].source_id
                        && self.jobs@[a].path@ == self.jobs@[b].path@) by {
                        assert(is_active(before[a]) && is_active(before[b]));
                    }
                }
            }
            i = i + 1;
        }
        moved
    }

    /// The job with that id, if any.
    pub fn job(&self, id: usize) -> (r: Option<&IngestionJob>)
        ensures
            r.is_some() == (id < self.jobs_view().len()),
            r.is_some() ==> *r.unwrap() == self.jobs_view()[id as int],
    {
        if id < self.jobs.len() {
            Some(&self.jobs[id])
        } else {
            None
        }
    }

    /// Number of jobs held, terminal ones included.
    pub fn len(&self) -> (r: usize)
        ensures
            r == self.jobs_view().len(),
    {
        self.jobs.len()
    }

    /// Next arrival position to hand out.
    pub fn next_seq(&self) -> (r: u64)
        ensures
            r == self.next_seq_view(),
    {
        self.next_seq
    }

    /// Number of active jobs.
    pub fn depth(&self) -> (r: usize)
        ensures
            r == active_count(self.jobs_view()),
    {
        count_active(&self.jobs)
    }
}

/// A second enqueue for the same source and path while the first job is
/// active is refused as a duplicate, and the queue then holds exactly one
/// active job for that path: the one first admitted.
pub proof fn lemma_second_enqueue_is_duplicate(
    jobs: Seq<IngestionJob>,
    bound: nat,
    job: IngestionJob,
)
    requires
        one_active_per_key(jobs),
        admission(jobs, bound, job.source_id, job.path@) == Admission::Accepted,
        is_active(job),
    ensures
        admission(jobs.push(job), bound, job.source_id, job.path@) == Admission::Duplicate,
        one_active_per_key(jobs.push(job)),
        forall|i: int|
            0 <= i < jobs.len() + 1 && is_active(#[trigger] jobs.push(job)[i]) && jobs.push(
                job,
            )[i].source_id == job.source_id && jobs.push(job)[i].path@ == job.path@ ==> i
                == jobs.len(),
{
    let after = jobs.push(job);
    assert(after[jobs.len() as int] == job);
    assert(has_active(after, job.source_id, job.path@));
    assert forall|i: int|
        0 <= i < jobs.len() + 1 && is_active(#[trigger] after[i]) && after[i].source_id
            == job.source_id && after[i].path@ == job.path@ implies i == jobs.len() by {
        if i < jobs.len() {
            assert(after[i] == jobs[i]);
            assert(has_active(jobs, job.source_id, job.path@));
        }
    }
    assert forall|i: int, j: int|
        0 <= i < after.len() && 0 <= j < after.len() && i != j && is_active(#[trigger] after[i])
            && is_active(#[trigger] after[j]) implies !(after[i].source_id == after[j].source_id
        && after[i].path@ == after[j].path@) by {
        if i < jobs.len() && j < jobs.len() {
            assert(after[i] == jobs[i] && after[j] == jobs[j]);
        } else if i < jobs.len() {
            assert(after[i] == jobs[i]);
            if after[i].source_id == after[j].source_id && after[i].path@ == after[j].path@ {
                assert(has_active(jobs, job.source_id, job.path@));
            }
        } else {
            assert(after[j] == jobs[j]);
            if after[i].source_id == after[j].source_id && after[i].path@ == after[j].path@ {
                assert(has_active(jobs, job.source_id, job.path@));
            }
        }
    }
}

/// State and attempts of a job after `n` attempts that all failed
/// transiently, each retry taken up again when due.
pub open spec fn transient_run(max_retries: nat, n: nat) -> (JobState, nat)
    decreases n,
{
    if n == 0 {
        (JobState::Pending, 0)
    } else {
        let (st, a) = transient_run(max_retries, (n - 1) as nat);
        if st == JobState::Failed {
            (st, a)
        } else {
            after_failure(a, true, max_retries)
        }
    }
}

/// A job whose extraction always fails transiently is retried while
/// attempts remain and fails for good after exactly `max_retries + 1`
/// attempts; no run of failures takes it past that count.
pub proof fn lemma_retry_ceiling(max_retries: nat, n: nat)
    ensures
        transient_run(max_retries, n) == if n == 0 {
            (JobState::Pending, 0nat)
        } else if n <= max_retries {
            (JobState::Retrying, n)
        } else {
            (JobState::Failed, max_retries + 1)
        },
    decreases n,
{
    if n > 0 {
        lemma_retry_ceiling(max_retries, (n - 1) as nat);
    }
}

/// While a job is active, whether pending, processing or retrying, any
/// enqueue for its source and path is refused as a duplicate, and it is the
/// only active job for that path.
pub proof fn lemma_active_job_blocks_duplicates(jobs: Seq<IngestionJob>, bound: nat, i: int)
    requires
        one_active_per_key(jobs),
        0 <= i < jobs.len(),
        is_active(jobs[i]),
    ensures
        admission(jobs, bound, jobs[i].source_id, jobs[i].path@) == Admission::Duplicate,
        forall|k: int|
            0 <= k < jobs.len() && is_active(#[trigger] jobs[k]) && jobs[k].source_id
                == jobs[i].source_id && jobs[k].path@ == jobs[i].path@ ==> k == i,
{
    assert(has_active(jobs, jobs[i].source_id, jobs[i].path@));
}

} // verus!
