//! The acceptor's polling order: a round-robin cursor over the configured
//! listeners.  The sockets themselves are polled outside; this fixes the
//! order, so that one full pass visits every listener exactly once before
//! the loop sleeps and starts over.

use vstd::prelude::*;

verus! {

/// A cursor that walks listener indices `0, 1, ..., count - 1` and wraps.
pub struct RoundRobin {
    count: usize,
    next: usize,
}

impl RoundRobin {
    /// Which listener the cursor stands on.
    pub closed spec fn spec_next(&self) -> int {
        self.next as int
    }

    /// How many listeners the cursor walks.
    pub closed spec fn spec_count(&self) -> int {
        self.count as int
    }

    /// The cursor is within its range; an empty listener set has no cursor
    /// to keep in range.
    pub open spec fn wf(&self) -> bool {
        self.spec_count() > 0 ==> 0 <= self.spec_next() < self.spec_count()
    }

    /// A cursor over `count` listeners, starting at the first.
    pub fn new(count: usize) -> (r: RoundRobin)
        ensures
            r.wf(),
            r.spec_count() == count,
            r.spec_next() == 0,
    {
        RoundRobin { count, next: 0 }
    }

    /// Hands out the next listener index and advances, wrapping at the end:
    /// each listener comes up exactly once in any window of `count` calls.
    pub fn advance(&mut self) -> (r: usize)
        requires
            old(self).wf(),
            old(self).spec_count() > 0,
        ensures
            final(self).wf(),
            final(self).spec_count() == old(self).spec_count(),
            r as int == old(self).spec_next(),
            final(self).spec_next() == (old(self).spec_next() + 1) % old(self).spec_count(),
    {
        let r = self.next;
        if self.next + 1 < self.count {
            self.next = self.next + 1;
        } else {
            self.next = 0;
        }
        proof {
            let n = old(self).spec_count();
            let i = old(self).spec_next();
            if i + 1 < n {
                assert((i + 1) % n == i + 1) by (nonlinear_arith)
                    requires
                        0 <= i && i + 1 < n,
                ;
            } else {
                assert(i + 1 == n);
                assert(n % n == 0) by (nonlinear_arith)
                    requires
                        n > 0,
                ;
            }
        }
        r
    }
}

} // verus!
