use vstd::prelude::*;

verus! {

/// Insertions after which a moving RMS recomputes its running sum from the
/// whole window, bounding the rounding drift of incremental updates.
pub const REFRESH_INTERVAL: usize = 1048576;

/// Counts insertions into a moving RMS window and says when its running
/// sum is to be recomputed.
#[derive(Clone, Debug)]
pub struct RefreshSchedule {
    counter: usize,
}

impl RefreshSchedule {
    /// Insertions since the last recomputation.
    pub closed spec fn spec_counter(&self) -> nat {
        self.counter as nat
    }

    pub closed spec fn wf(&self) -> bool {
        self.counter <= REFRESH_INTERVAL + 1
    }

    pub fn new() -> (r: Self)
        ensures
            r.wf(),
            r.spec_counter() == 0,
    {
        RefreshSchedule { counter: 0 }
    }

    /// Counts one insertion. True once more than `REFRESH_INTERVAL`
    /// insertions were counted: the sum is then recomputed instead of
    /// updated, and the count restarts.
    pub fn tick(&mut self) -> (refresh: bool)
        requires
            old(self).wf(),
        ensures
            final(self).wf(),
            refresh == (old(self).spec_counter() > REFRESH_INTERVAL),
            final(self).spec_counter() == if refresh { 0 } else { old(self).spec_counter() + 1 },
    {
        if self.counter > REFRESH_INTERVAL {
            self.counter = 0;
            true
        } else {
            self.counter = self.counter + 1;
            false
        }
    }

    /// Restarts the count after a recomputation forced by rounding drift.
    pub fn restart(&mut self)
        ensures
            final(self).wf(),
            final(self).spec_counter() == 0,
    {
        self.counter = 0;
    }
}

} // verus!
