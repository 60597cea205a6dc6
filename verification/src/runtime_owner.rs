//! Stable native-side ownership tokens. Delayed work is drained by the owning
//! runtime at safe boundaries.
use vstd::prelude::*;
use crate::diagnostic::{fault, Diagnostic, Result};

verus! {

/// Where runtimes get their identities.
#[derive(Debug)]
pub struct RuntimeIds {
    next: u64,
}

impl RuntimeIds {
    /// The identity that the next runtime gets.
    pub closed spec fn upcoming(&self) -> u64 {
        self.next
    }

    pub fn starting_at(next: u64) -> (r: RuntimeIds)
        ensures
            r.upcoming() == next,
    {
        RuntimeIds { next }
    }
}

/// The token of a runtime, with the releases that wait for it.
#[derive(Debug)]
pub struct RuntimeOwner {
    id: u64,
    alive: bool,
    persistent_releases: Vec<u64>,
    foreign_reference_releases: Vec<u64>,
}

/// See [`RuntimeOwner`].
#[verifier::ext_equal]
pub struct OwnerView {
    pub id: u64,
    pub alive: bool,
    pub persistent: Seq<u64>,
    pub foreign: Seq<u64>,
}

impl View for RuntimeOwner {
    type V = OwnerView;

    closed spec fn view(&self) -> OwnerView {
        OwnerView {
            id: self.id,
            alive: self.alive,
            persistent: self.persistent_releases@,
            foreign: self.foreign_reference_releases@,
        }
    }
}

impl RuntimeOwner {
    /// A token with an identity that no other has.
    pub fn new(ids: &mut RuntimeIds) -> (r: Result<RuntimeOwner>)
        ensures
            if old(ids).upcoming() == u64::MAX {
                *final(ids) == *old(ids) && (r matches Err(error) && error@ == fault(
                    "RuntimeError",
                    "runtime identity space exhausted",
                ))
            } else {
                final(ids).upcoming() == old(ids).upcoming() + 1 && (r matches Ok(owner) && owner@
                    == (OwnerView {
                    id: old(ids).upcoming(),
                    alive: true,
                    persistent: Seq::empty(),
                    foreign: Seq::empty(),
                }))
            },
    {
        if ids.next == u64::MAX {
            return Err(Diagnostic::new("RuntimeError", "runtime identity space exhausted"));
        }
        let id = ids.next;
        ids.next = id + 1;
        let owner = RuntimeOwner {
            id,
            alive: true,
            persistent_releases: Vec::new(),
            foreign_reference_releases: Vec::new(),
        };
        assert(owner@.persistent =~= Seq::empty());
        assert(owner@.foreign =~= Seq::empty());
        Ok(owner)
    }

    pub fn id(&self) -> (r: u64)
        ensures
            r == self@.id,
    {
        self.id
    }

    /// Queues a release, while the runtime is alive.
    pub fn queue_persistent_release(&mut self, handle: u64) -> (r: bool)
        ensures
            r == old(self)@.alive,
            final(self)@ == if r {
                OwnerView { persistent: old(self)@.persistent.push(handle), ..old(self)@ }
            } else {
                old(self)@
            },
    {
        if !self.alive {
            return false;
        }
        self.persistent_releases.push(handle);
        true
    }

    /// The queued releases in the order that they came in, each once.
    pub fn take_persistent_releases(&mut self) -> (r: Vec<u64>)
        ensures
            r@ == old(self)@.persistent,
            final(self)@ == (OwnerView { persistent: Seq::empty(), ..old(self)@ }),
    {
        let mut taken: Vec<u64> = Vec::new();
        core::mem::swap(&mut taken, &mut self.persistent_releases);
        assert(self@.persistent =~= Seq::empty());
        taken
    }

    /// Queues a release, while the runtime is alive.
    pub fn queue_foreign_reference_release(&mut self, handle: u64) -> (r: bool)
        ensures
            r == old(self)@.alive,
            final(self)@ == if r {
                OwnerView { foreign: old(self)@.foreign.push(handle), ..old(self)@ }
            } else {
                old(self)@
            },
    {
        if !self.alive {
            return false;
        }
        self.foreign_reference_releases.push(handle);
        true
    }

    /// The queued releases in the order that they came in, each once.
    pub fn take_foreign_reference_releases(&mut self) -> (r: Vec<u64>)
        ensures
            r@ == old(self)@.foreign,
            final(self)@ == (OwnerView { foreign: Seq::empty(), ..old(self)@ }),
    {
        let mut taken: Vec<u64> = Vec::new();
        core::mem::swap(&mut taken, &mut self.foreign_reference_releases);
        assert(self@.foreign =~= Seq::empty());
        taken
    }

    /// Ends the runtime: nothing is queued for it any more.
    pub fn mark_dead(&mut self)
        ensures
            final(self)@ == (OwnerView { alive: false, ..old(self)@ }),
    {
        self.alive = false;
    }

    /// Whether two tokens are of one runtime.
    pub fn same_runtime(&self, other: &RuntimeOwner) -> (r: bool)
        ensures
            r == (self@.id == other@.id),
    {
        self.id == other.id
    }
}

} // verus!
