//! The cap on background waiters.

use vstd::prelude::*;

use crate::error::LockError;

verus! {

/// Counts the background waiters that are in use, up to a limit.
#[derive(Debug)]
pub struct WaiterLimiter {
    limit: usize,
    active: usize,
}

impl WaiterLimiter {
    pub closed spec fn spec_limit(self) -> usize {
        self.limit
    }

    pub closed spec fn spec_active(self) -> usize {
        self.active
    }

    /// No more waiters are in use than the limit allows.
    #[verifier::type_invariant]
    spec fn capped(self) -> bool {
        self.active <= self.limit
    }

    /// A limiter with no waiter in use.
    pub fn new(limit: usize) -> (limiter: WaiterLimiter)
        ensures
            limiter.spec_limit() == limit,
            limiter.spec_active() == 0,
    {
        WaiterLimiter { limit, active: 0 }
    }

    /// Take one permit, unless all are in use.
    pub fn reserve(&mut self) -> (reserved: Result<(), LockError>)
        ensures
            final(self).spec_limit() == old(self).spec_limit(),
            match reserved {
                Ok(()) => {
                    &&& old(self).spec_active() < old(self).spec_limit()
                    &&& final(self).spec_active() == old(self).spec_active() + 1
                },
                Err(LockError::WaiterLimit { active, limit }) => {
                    &&& old(self).spec_active() == old(self).spec_limit()
                    &&& final(self).spec_active() == old(self).spec_active()
                    &&& active == old(self).spec_active()
                    &&& limit == old(self).spec_limit()
                },
                Err(_) => false,
            },
    {
        proof {
            use_type_invariant(&*self);
        }
        if self.active >= self.limit {
            return Err(LockError::WaiterLimit { active: self.active, limit: self.limit });
        }
        self.active = self.active + 1;
        Ok(())
    }

    /// Give one permit back.
    pub fn release(&mut self)
        requires
            old(self).spec_active() > 0,
        ensures
            final(self).spec_limit() == old(self).spec_limit(),
            final(self).spec_active() == old(self).spec_active() - 1,
    {
        proof {
            use_type_invariant(&*self);
        }
        self.active = self.active - 1;
    }

    pub fn active(&self) -> (active: usize)
        ensures
            active == self.spec_active(),
            active <= self.spec_limit(),
    {
        proof {
            use_type_invariant(self);
        }
        self.active
    }

    pub fn limit(&self) -> (limit: usize)
        ensures
            limit == self.spec_limit(),
    {
        self.limit
    }
}

} // verus!
