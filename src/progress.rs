use vstd::prelude::*;

verus! {

/// Counts processed items and says when a progress report is due: once
/// every hundredth of the expected total (every item for totals below 100).
pub struct Progress {
    count: usize,
    total_count: usize,
    update_every: usize,
    message: String,
}

impl Progress {
    pub closed spec fn spec_count(&self) -> nat {
        self.count as nat
    }

    pub closed spec fn spec_total_count(&self) -> nat {
        self.total_count as nat
    }

    /// Number of items between two reports.
    pub closed spec fn spec_update_every(&self) -> nat {
        self.update_every as nat
    }

    pub closed spec fn spec_message(&self) -> Seq<char> {
        self.message@
    }

    pub closed spec fn wf(&self) -> bool {
        self.update_every >= 1
    }

    pub fn new<S>(total_count: usize, message: S) -> (r: Self)
        where
            S: Into<String>,
        ensures
            r.wf(),
            r.spec_count() == 0,
            r.spec_total_count() == total_count,
            r.spec_update_every() == if total_count >= 100 { total_count / 100 } else { 1 },
    {
        Self {
            count: 0,
            total_count,
            update_every: if total_count >= 100 { total_count / 100 } else { 1 },
            message: message.into(),
        }
    }

    /// Counts one more item; true when a report is due for it.
    pub fn next(&mut self) -> (report: bool)
        requires
            old(self).wf(),
            old(self).spec_count() < usize::MAX,
        ensures
            final(self).wf(),
            final(self).spec_count() == old(self).spec_count() + 1,
            final(self).spec_total_count() == old(self).spec_total_count(),
            final(self).spec_update_every() == old(self).spec_update_every(),
            final(self).spec_message() == old(self).spec_message(),
            report == (final(self).spec_count() % old(self).spec_update_every() == 0),
    {
        self.count = self.count + 1;
        self.count % self.update_every == 0
    }

    pub fn count(&self) -> (r: usize)
        ensures
            r == self.spec_count(),
    {
        self.count
    }

    pub fn total_count(&self) -> (r: usize)
        ensures
            r == self.spec_total_count(),
    {
        self.total_count
    }

    pub fn message(&self) -> (r: &String)
        ensures
            r@ == self.spec_message(),
    {
        &self.message
    }
}

} // verus!
