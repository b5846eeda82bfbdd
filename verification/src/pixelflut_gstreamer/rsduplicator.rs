use vstd::prelude::*;

verus! {

/// What to do next with an incoming buffer.
pub enum ForwardStep {
    /// Push one more copy downstream.
    Push,
    /// All copies are pushed.
    Finished,
}

/// The decisions of forwarding one buffer `num_copies` times: one push per copy, then done
/// (a failed push ends the forwarding with its error, which the caller returns).
pub struct CopyForwarder {
    num_copies: u32,
    pushed: u32,
}

impl CopyForwarder {
    /// The number of copies to push.
    pub closed spec fn num_copies(&self) -> nat {
        self.num_copies as nat
    }

    /// The number of copies pushed so far.
    pub closed spec fn pushed(&self) -> nat {
        self.pushed as nat
    }

    pub open spec fn wf(&self) -> bool {
        self.pushed() <= self.num_copies()
    }

    /// Starts forwarding a buffer `num_copies` times (0 drops it).
    pub fn new(num_copies: u32) -> (r: Self)
        ensures
            r.wf(),
            r.num_copies() == num_copies,
            r.pushed() == 0,
    {
        CopyForwarder { num_copies, pushed: 0 }
    }

    /// `Push` while fewer than `num_copies` copies are pushed (counting this one), then
    /// `Finished`.
    pub fn step(&mut self) -> (r: ForwardStep)
        requires
            old(self).wf(),
        ensures
            final(self).wf(),
            final(self).num_copies() == old(self).num_copies(),
            old(self).pushed() < old(self).num_copies() ==> r is Push && final(self).pushed()
                == old(self).pushed() + 1,
            old(self).pushed() == old(self).num_copies() ==> r is Finished && final(self).pushed()
                == old(self).pushed(),
    {
        if self.pushed < self.num_copies {
            self.pushed = self.pushed + 1;
            ForwardStep::Push
        } else {
            ForwardStep::Finished
        }
    }
}

} // verus!
