//! Credit accounting: capacity that does not depend on kernel buffering.
//!
//! OS stream transports accept bytes into platform buffers whose size is
//! unspecified. Capacity is therefore enforced here: the producer may only
//! write while fewer bytes than the capacity are outstanding, and every
//! consumed byte is returned as a credit. A forged credit return is refused,
//! so no peer can push the accounting out of bounds.

use vstd::prelude::*;

verus! {

#[derive(Debug)]
pub struct CreditTracker {
    capacity: usize,
    outstanding: usize,
}

/// Why an input was rejected.
#[derive(Debug, Clone, Copy, PartialEq, Eq, Structural)]
pub enum CreditError {
    /// Accept attempt exceeded remaining capacity.
    WouldExceedCapacity,
    /// Peer returned more credit than it had consumed (protocol violation).
    ForgedCredit,
    /// Zero where a positive value is required.
    InvalidDelta,
}

impl CreditTracker {
    /// The capacity.
    pub closed spec fn cap(&self) -> nat {
        self.capacity as nat
    }

    /// The bytes written and not yet consumed.
    pub closed spec fn out(&self) -> nat {
        self.outstanding as nat
    }

    /// There is some capacity, and never more outstanding than that.
    pub closed spec fn wf(&self) -> bool {
        &&& self.capacity > 0
        &&& self.outstanding <= self.capacity
    }

    /// A well-formed tracker never has more outstanding than its capacity.
    pub proof fn lemma_wf(&self)
        requires
            self.wf(),
        ensures
            0 < self.cap() <= usize::MAX,
            self.out() <= self.cap(),
    {
    }

    /// A tracker with nothing outstanding.
    pub fn new(capacity: usize) -> (r: Result<Self, CreditError>)
        ensures
            match r {
                Ok(t) => capacity > 0 && t.wf() && t.cap() == capacity && t.out() == 0,
                Err(e) => capacity == 0 && e == CreditError::InvalidDelta,
            },
    {
        if capacity == 0 {
            return Err(CreditError::InvalidDelta);
        }
        Ok(CreditTracker { capacity, outstanding: 0 })
    }

    /// The capacity.
    pub fn capacity(&self) -> (r: usize)
        ensures
            r == self.cap(),
    {
        self.capacity
    }

    /// The bytes written and not yet consumed.
    pub fn outstanding(&self) -> (r: usize)
        ensures
            r == self.out(),
    {
        self.outstanding
    }

    /// The bytes that may still be written.
    pub fn available_credit(&self) -> (r: usize)
        requires
            self.wf(),
        ensures
            r == self.cap() - self.out(),
    {
        self.capacity - self.outstanding
    }

    /// How many bytes of `want` may be accepted right now.
    pub fn try_accept(&mut self, want: usize) -> (r: Result<usize, CreditError>)
        requires
            old(self).wf(),
        ensures
            *final(self) == *old(self),
            r == Ok::<usize, CreditError>(
                if want < old(self).cap() - old(self).out() {
                    want
                } else {
                    (old(self).cap() - old(self).out()) as usize
                },
            ),
    {
        let n: usize = self.available_credit();
        if want < n {
            Ok(want)
        } else {
            Ok(n)
        }
    }

    /// Records that `k` accepted bytes were physically written.
    pub fn commit_accepted(&mut self, k: usize) -> (r: Result<(), CreditError>)
        requires
            old(self).wf(),
        ensures
            final(self).wf(),
            final(self).cap() == old(self).cap(),
            if old(self).out() + k > old(self).cap() {
                r == Err::<(), CreditError>(CreditError::WouldExceedCapacity) && final(self).out()
                    == old(self).out()
            } else {
                r is Ok && final(self).out() == old(self).out() + k
            },
    {
        if k > self.capacity - self.outstanding {
            return Err(CreditError::WouldExceedCapacity);
        }
        self.outstanding = self.outstanding + k;
        Ok(())
    }

    /// The consumer read `k` bytes and returns the credit. A return larger
    /// than what is outstanding is refused without any change, so that the
    /// caller can tear the connection down.
    pub fn return_credit(&mut self, k: usize) -> (r: Result<usize, CreditError>)
        requires
            old(self).wf(),
        ensures
            final(self).wf(),
            final(self).cap() == old(self).cap(),
            if k > old(self).out() {
                r == Err::<usize, CreditError>(CreditError::ForgedCredit) && final(self).out()
                    == old(self).out()
            } else {
                r == Ok::<usize, CreditError>(k) && final(self).out() == old(self).out() - k
            },
    {
        if k > self.outstanding {
            return Err(CreditError::ForgedCredit);
        }
        self.outstanding = self.outstanding - k;
        Ok(k)
    }
}

} // verus!
