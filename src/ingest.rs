//! Wiring a pass's change events into the job queue.

use vstd::prelude::*;
use crate::queue::{active_count, has_active, OcrQueue, Priority, QueueError};
use crate::sync::{ChangeEvent, ChangeKind};

verus! {

proof fn lemma_active_kept(jobs: Seq<crate::queue::IngestionJob>, j: crate::queue::IngestionJob, source_id: u64, p: Seq<char>)
    requires
        has_active(jobs, source_id, p),
    ensures
        has_active(jobs.push(j), source_id, p),
{
    let i = choose|i: int|
        0 <= i < jobs.len() && crate::queue::is_active(#[trigger] jobs[i]) && jobs[i].source_id
            == source_id && jobs[i].path@ == p;
    assert(jobs.push(j)[i] == jobs[i]);
}

/// Turns each `New` or `Modified` event into a job of `source_id`, with the
/// MIME type at the same position; `Deleted` events need no work. A path
/// already tracked by an active job counts as done. Stops with `QueueFull`
/// at the first event the queue cannot take: the pass must then not commit,
/// so that the next pass reports the same changes. On success every changed
/// path has an active job; returns how many jobs were added. Success is
/// owed whenever the queue has room for every event, and `QueueFull` comes
/// only once the active jobs have reached the bound.
pub fn enqueue_changes(
    queue: &mut OcrQueue,
    source_id: u64,
    events: &Vec<ChangeEvent>,
    mime_types: &Vec<String>,
    priority: Priority,
    now: u64,
) -> (r: Result<usize, QueueError>)
    requires
        old(queue).wf(),
        mime_types@.len() == events@.len(),
        old(queue).next_seq_view() + events@.len() < u64::MAX,
    ensures
        final(queue).wf(),
        final(queue).same_config(old(queue)),
        final(queue).jobs_view().len() >= old(queue).jobs_view().len(),
        r.is_ok() ==> forall|k: int|
            0 <= k < events@.len() && (#[trigger] events@[k]).kind != ChangeKind::Deleted
                ==> has_active(final(queue).jobs_view(), source_id, events@[k].path@),
        r.is_err() ==> r == Err::<usize, QueueError>(QueueError::QueueFull),
        r matches Ok(n) ==> final(queue).jobs_view().len() == old(queue).jobs_view().len() + n,
        active_count(old(queue).jobs_view()) + events@.len() <= old(queue).max_active_view()
            ==> r.is_ok(),
        r.is_err() ==> active_count(final(queue).jobs_view()) >= final(queue).max_active_view(),
        active_count(final(queue).jobs_view()) == active_count(old(queue).jobs_view())
            + final(queue).jobs_view().len() - old(queue).jobs_view().len(),
{
    let mut added: usize = 0;
    let mut i: usize = 0;
    while i < events.len()
        invariant
            queue.wf(),
            queue.same_config(old(queue)),
            i <= events@.len(),
            mime_types@.len() == events@.len(),
            added <= i,
            queue.jobs_view().len() == old(queue).jobs_view().len() + added,
            active_count(queue.jobs_view()) == active_count(old(queue).jobs_view()) + added,
            queue.next_seq_view() <= old(queue).next_seq_view() + i,
            old(queue).next_seq_view() + events@.len() < u64::MAX,
            forall|k: int|
                0 <= k < i && (#[trigger] events@[k]).kind != ChangeKind::Deleted ==> has_active(
                    queue.jobs_view(),
                    source_id,
                    events@[k].path@,
                ),
        decreases events@.len() - i,
    {
        let ev = &events[i];
        match ev.kind {
            ChangeKind::Deleted => {},
            _ => {
                let ghost before = queue.jobs_view();
                let res = queue.enqueue(
                    source_id,
                    ev.path.clone(),
                    mime_types[i].clone(),
                    priority,
                    now,
                );
                match res {
                    Ok(id) => {
                        added = added + 1;
                        proof {
                            let j = queue.jobs_view().last();
                            assert(queue.jobs_view() == before.push(j));
                            assert(queue.jobs_view().drop_last() =~= before);
                            assert forall|k: int|
                                0 <= k < i && (#[trigger] events@[k]).kind != ChangeKind::Deleted
                                    implies has_active(
                                    queue.jobs_view(),
                                    source_id,
                                    events@[k].path@,
                                ) by {
                                lemma_active_kept(before, j, source_id, events@[k].path@);
                            }
                            assert(queue.jobs_view()[id as int] == j);
                            assert(crate::queue::is_active(queue.jobs_view()[id as int]));
                        }
                    },
                    Err(QueueError::DuplicateJob) => {},
                    Err(_) => {
                        return Err(QueueError::QueueFull);
                    },
                }
            },
        }
        i = i + 1;
    }
    Ok(added)
}

} // verus!
