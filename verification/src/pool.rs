//! The connection pool's bookkeeping: a capacity-bounded set of idle
//! connections plus a count of connections checked out. The embedding
//! program serializes access and performs the actual connect; every
//! decision — reuse, create, or wait, and whether a returned connection
//! may rejoin the idle set — is made and proved here.

use vstd::prelude::*;
use crate::nntp::Connection;

verus! {

/// What an acquisition attempt decides: hand back an idle connection,
/// allow the caller to create a fresh one (capacity was reserved), or
/// make the caller wait until a release frees capacity.
pub enum Acquire<S> {
    Reuse(Connection<S>),
    Create,
    Wait,
}

/// The pool's state: `in_use` connections are checked out by callers,
/// `idle` ones await reuse, and together they never exceed `max`.
pub struct PoolState<S> {
    pub max: usize,
    pub in_use: usize,
    pub idle: Vec<Connection<S>>,
}

impl<S> PoolState<S> {
    /// The pool invariant: the capacity bound holds, and no connection
    /// in the idle set is disconnected.
    pub open spec fn wf(&self) -> bool {
        self.in_use + self.idle@.len() <= self.max && forall|k: int|
            0 <= k < self.idle@.len() ==> !self.idle@[k].disconnected
    }

    /// An empty pool with the configured capacity bound.
    pub fn new(max: usize) -> (r: PoolState<S>)
        ensures
            r.wf(),
            r.max == max,
            r.in_use == 0,
            r.idle@.len() == 0,
    {
        PoolState { max, in_use: 0, idle: Vec::new() }
    }

    /// Try to check a connection out: reuse the most recently released
    /// idle one, or reserve capacity for a fresh one, or — at the
    /// capacity bound — make the caller wait for a release.
    pub fn try_acquire(&mut self) -> (r: Acquire<S>)
        requires
            old(self).wf(),
        ensures
            final(self).wf(),
            final(self).max == old(self).max,
            match r {
                Acquire::Reuse(c) => old(self).idle@.len() > 0 && c == old(self).idle@.last()
                    && !c.disconnected && final(self).idle@ == old(self).idle@.drop_last() && final(self).in_use == old(self).in_use + 1,
                Acquire::Create => old(self).idle@.len() == 0 && old(self).in_use < old(self).max
                    && final(self).idle@ == old(self).idle@ && final(self).in_use == old(self).in_use
                    + 1,
                Acquire::Wait => old(self).idle@.len() == 0 && old(self).in_use >= old(self).max
                    && final(self).idle@ == old(self).idle@ && final(self).in_use == old(
                self).in_use,
            },
    {
        match self.idle.pop() {
            Some(c) => {
                proof {
                    assert(self.idle@ =~= old(self).idle@.drop_last());
                    assert(!old(self).idle@[old(self).idle@.len() - 1].disconnected);
                }
                self.in_use = self.in_use + 1;
                Acquire::Reuse(c)
            },
            None => {
                if self.in_use < self.max {
                    self.in_use = self.in_use + 1;
                    Acquire::Create
                } else {
                    Acquire::Wait
                }
            },
        }
    }

    /// Return a checked-out connection. A disconnected connection is
    /// dropped, never put back in the idle set; a sound one rejoins it.
    /// Either way the checked-out count falls, freeing capacity.
    pub fn release(&mut self, conn: Connection<S>)
        requires
            old(self).wf(),
            old(self).in_use > 0,
        ensures
            final(self).wf(),
            final(self).max == old(self).max,
            final(self).in_use == old(self).in_use - 1,
            conn.disconnected ==> final(self).idle@ == old(self).idle@,
            !conn.disconnected ==> final(self).idle@ == old(self).idle@.push(conn),
    {
        self.in_use = self.in_use - 1;
        if !conn.disconnected {
            self.idle.push(conn);
        }
    }

    /// Give reserved capacity back when creating a fresh connection
    /// failed before it was ever handed to the caller.
    pub fn creation_failed(&mut self)
        requires
            old(self).wf(),
            old(self).in_use > 0,
        ensures
            final(self).wf(),
            final(self).max == old(self).max,
            final(self).in_use == old(self).in_use - 1,
            final(self).idle@ == old(self).idle@,
    {
        self.in_use = self.in_use - 1;
    }
}

/// Pool capacity bound: in every well-formed pool state the number of
/// connections checked out never exceeds the configured maximum — and
/// `try_acquire` at that bound answers `Wait`, making the caller suspend
/// until a release.
pub proof fn lemma_pool_capacity_bound<S>(p: PoolState<S>)
    requires
        p.wf(),
    ensures
        p.in_use <= p.max,
{
}

/// Disconnection eviction: a connection marked disconnected is never in
/// the idle set of a well-formed pool, so a later acquire can only hand
/// out sound connections or create fresh ones.
pub proof fn lemma_disconnected_never_idle<S>(p: PoolState<S>, k: int)
    requires
        p.wf(),
        0 <= k < p.idle@.len(),
    ensures
        !p.idle@[k].disconnected,
{
}

} // verus!
