//! The events a queued task reports, and the size of the pool that runs tasks.

use vstd::prelude::*;
use crate::model::SyncStatus;

verus! {

/// What a worker sends back for a task: progress reports, then one result.
pub enum TaskEvent<T> {
    Progress { completed: usize, total: usize },
    Finished(Result<T, String>),
}

/// A progress report with the total at least one and the count no greater than it.
pub fn progress_event<T>(completed: usize, total: usize) -> (r: TaskEvent<T>)
    ensures
        r == (TaskEvent::<T>::Progress {
            completed: if completed <= (if total == 0 { 1 } else { total }) { completed } else { if total == 0 { 1 } else { total } },
            total: if total == 0 { 1 } else { total },
        }),
{
    let total = if total == 0 { 1 } else { total };
    let completed = if completed <= total { completed } else { total };
    TaskEvent::Progress { completed, total }
}

/// The status a running session moves to on an event from its execution: running
/// with the reported progress, then completed or failed with the error's reason.
pub fn status_after<T>(event: &TaskEvent<T>) -> (r: SyncStatus)
    ensures
        match event {
            TaskEvent::Progress { completed, total } => r == (SyncStatus::Running { completed: *completed, total: *total }),
            TaskEvent::Finished(Ok(_)) => r == SyncStatus::Completed,
            TaskEvent::Finished(Err(e)) => r is Failed && r->reason@ == e@,
        },
{
    match event {
        TaskEvent::Progress { completed, total } => SyncStatus::Running { completed: *completed, total: *total },
        TaskEvent::Finished(Ok(_)) => SyncStatus::Completed,
        TaskEvent::Finished(Err(e)) => SyncStatus::Failed { reason: e.clone() },
    }
}

pub const MIN_WORKERS: usize = 2;

pub const MAX_WORKERS: usize = 4;

/// How many workers the pool runs: the parallelism the machine offers, held between
/// two and four, or two where it cannot tell.
pub fn worker_count(available: Option<usize>) -> (r: usize)
    ensures
        MIN_WORKERS <= r <= MAX_WORKERS,
        match available {
            Some(n) => r == if n < MIN_WORKERS { MIN_WORKERS } else if n > MAX_WORKERS { MAX_WORKERS } else { n },
            None => r == MIN_WORKERS,
        },
{
    match available {
        Some(n) => if n < MIN_WORKERS {
            MIN_WORKERS
        } else if n > MAX_WORKERS {
            MAX_WORKERS
        } else {
            n
        },
        None => MIN_WORKERS,
    }
}

/// How many progress events a response channel holds before a worker waits.
pub const RESPONSE_CAPACITY: usize = 16;

} // verus!
