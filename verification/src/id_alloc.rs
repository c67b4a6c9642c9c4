//! Allocation of unique, strictly increasing huddle identifiers.

use vstd::prelude::*;

use crate::types::Error;

verus! {

/// Issues strictly increasing huddle identifiers.  `next_id` only peeks;
/// the counter advances when the caller commits the issued identifier,
/// so a failed operation never consumes one.
#[derive(Clone, Copy, PartialEq, Eq, Debug, Structural)]
pub struct IdAllocator {
    /// The last identifier ever issued; 0 when none was.
    pub last: u64,
}

impl IdAllocator {
    /// The last identifier issued so far.
    pub open spec fn last_id(self) -> u64 {
        self.last
    }

    /// Starts from a persisted counter value.
    pub fn new(last: u64) -> (r: IdAllocator)
        ensures
            r.last_id() == last,
    {
        IdAllocator { last }
    }

    /// The last identifier issued so far.
    pub fn current(&self) -> (r: u64)
        ensures
            r == self.last_id(),
    {
        self.last
    }

    /// The identifier the next successful insertion will use, or an
    /// overflow error once the identifier space is exhausted.
    pub fn next_id(&self) -> (r: Result<u64, Error>)
        ensures
            match r {
                Ok(id) => self.last_id() < u64::MAX && id == self.last_id() + 1,
                Err(e) => self.last_id() == u64::MAX && e == Error::OverflowHuddleId,
            },
    {
        if self.last == u64::MAX {
            Err(Error::OverflowHuddleId)
        } else {
            Ok(self.last + 1)
        }
    }

    /// Records that `id` was consumed by a successful insertion.
    pub fn commit(&mut self, id: u64)
        requires
            id == old(self).last_id() + 1,
        ensures
            final(self).last_id() == id,
    {
        self.last = id;
    }
}

} // verus!
