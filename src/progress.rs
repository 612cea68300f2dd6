//! Where running tasks report how far they have come.

use vstd::prelude::*;

verus! {

/// Receives `(completed, total)` reports from a running task.
pub trait ProgressSink {
    /// The reports received so far. A sink that does not describe them leaves them
    /// unspecified.
    closed spec fn reported(&self) -> Seq<(usize, usize)> {
        arbitrary()
    }

    fn report(&mut self, completed: usize, total: usize)
        ensures
            final(self).reported() == old(self).reported().push((completed, total)),
    ;
}

/// A sink that keeps every report, in order.
pub struct ProgressLog {
    pub reports: Vec<(usize, usize)>,
}

impl ProgressLog {
    pub fn new() -> (r: Self)
        ensures
            r.reported() == Seq::<(usize, usize)>::empty(),
    {
        ProgressLog { reports: Vec::new() }
    }
}

impl ProgressSink for ProgressLog {
    open spec fn reported(&self) -> Seq<(usize, usize)> {
        self.reports@
    }

    fn report(&mut self, completed: usize, total: usize) {
        self.reports.push((completed, total));
    }
}

/// A total as reported: at least one.
pub open spec fn shown_total(n: nat) -> usize {
    if n == 0 { 1 } else { n as usize }
}

/// The reports `(0, m), (1, m), ..., (n, m)`.
pub open spec fn counted_reports(n: nat, m: usize) -> Seq<(usize, usize)> {
    Seq::new(n + 1, |k: int| (k as usize, m))
}

/// One more report extends the count by one.
pub proof fn lemma_counted_push(n: nat, m: usize)
    ensures
        counted_reports(n + 1, m) == counted_reports(n, m).push(((n + 1) as usize, m)),
{
    assert(counted_reports(n + 1, m) =~= counted_reports(n, m).push(((n + 1) as usize, m)));
}

} // verus!
