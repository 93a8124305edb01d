//! Fresh identities for runs and prepared actions.
use vstd::prelude::*;

verus! {

/// A source of identities: it hands out each number once, counting up from one.
#[derive(Debug)]
pub struct IdSource {
    next: u64,
}

impl IdSource {
    /// The identity the source hands out next.
    pub closed spec fn spec_next(&self) -> u64 {
        self.next
    }

    /// A source whose first identity is one.
    pub fn new() -> (source: IdSource)
        ensures
            source.spec_next() == 1,
    {
        IdSource { next: 1 }
    }

    /// Whether every identity has been handed out.
    pub fn exhausted(&self) -> (done: bool)
        ensures
            done == (self.spec_next() == u64::MAX),
    {
        self.next == u64::MAX
    }

    /// Hand out the next identity.
    pub fn take(&mut self) -> (id: u64)
        requires
            old(self).spec_next() < u64::MAX,
        ensures
            id == old(self).spec_next(),
            final(self).spec_next() == id + 1,
    {
        let id = self.next;
        self.next = id + 1;
        id
    }
}

/// An identity handed out before a source reached `later` differs from every
/// identity the source hands out from `later` on: identities never repeat.
pub proof fn identities_never_repeat(earlier: u64, later: IdSource, id: u64)
    requires
        earlier < later.spec_next(),
        later.spec_next() <= id,
    ensures
        earlier != id,
{
}

} // verus!
