//! How many connections are served at once.
use vstd::prelude::*;

verus! {

/// How many connections may be served at once. Past it a connection is refused
/// rather than queued.
pub const MAX_CONCURRENT_CONNS: usize = 32;

/// A bounded gate on the connections being served.
pub struct ConnGate {
    busy: usize,
}

impl ConnGate {
    /// How many connections are being served.
    pub closed spec fn served(&self) -> nat {
        self.busy as nat
    }

    #[verifier::type_invariant]
    spec fn bounded(self) -> bool {
        self.busy <= MAX_CONCURRENT_CONNS
    }

    /// No connection is being served.
    pub fn new() -> (r: ConnGate)
        ensures
            r.served() == 0,
    {
        ConnGate { busy: 0 }
    }

    /// Take a slot, where one is free.
    pub fn try_enter(&mut self) -> (r: bool)
        ensures
            old(self).served() <= MAX_CONCURRENT_CONNS,
            r == (old(self).served() < MAX_CONCURRENT_CONNS),
            final(self).served() == old(self).served() + (if r {
                1int
            } else {
                0
            }),
    {
        proof {
            use_type_invariant(&*self);
        }
        if self.busy >= MAX_CONCURRENT_CONNS {
            return false;
        }
        self.busy = self.busy + 1;
        true
    }

    /// Give a slot back.
    pub fn leave(&mut self)
        requires
            old(self).served() > 0,
        ensures
            final(self).served() == old(self).served() - 1,
    {
        proof {
            use_type_invariant(&*self);
        }
        self.busy = self.busy - 1;
    }
}

} // verus!
