use vstd::prelude::*;

verus! {

/// Monotonic progress bookkeeping for one orchestration run.
///
/// `pending` counts tasks that began their fetch-or-cache check, `done`
/// counts tasks that finished regardless of match outcome, and `total` is
/// the size of the identifier list, set once per run. No method ever
/// decreases a field.
pub struct Counter {
    pub pending: usize,
    pub done: usize,
    pub total: usize,
}

impl Counter {
    /// A fresh counter, all three tallies at zero.
    pub fn new() -> (c: Counter)
        ensures
            c.pending == 0,
            c.done == 0,
            c.total == 0,
    {
        Counter { pending: 0, done: 0, total: 0 }
    }

    /// Record that one more task has started its fetch-or-cache check.
    pub fn pending(&mut self)
        requires
            old(self).pending < usize::MAX,
        ensures
            final(self).pending == old(self).pending + 1,
            final(self).done == old(self).done,
            final(self).total == old(self).total,
    {
        self.pending = self.pending + 1;
    }

    /// Record that one more task has finished, whatever its outcome.
    pub fn done(&mut self)
        requires
            old(self).done < usize::MAX,
        ensures
            final(self).done == old(self).done + 1,
            final(self).pending == old(self).pending,
            final(self).total == old(self).total,
    {
        self.done = self.done + 1;
    }

    /// Set the run's total number of work items. Write-once: a second call
    /// within the same run leaves the first value in place.
    pub fn set_total(&mut self, n: usize)
        ensures
            final(self).total == if old(self).total == 0 { n } else { old(self).total },
            final(self).pending == old(self).pending,
            final(self).done == old(self).done,
    {
        if self.total == 0 {
            self.total = n;
        }
    }

    /// A consistent point-in-time view of `(pending, done, total)`.
    pub fn counter(&self) -> (r: (usize, usize, usize))
        ensures
            r == (self.pending, self.done, self.total),
    {
        (self.pending, self.done, self.total)
    }
}

} // verus!
