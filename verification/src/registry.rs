//! Registration bookkeeping for the kernel notification instance.
//!
//! The kernel holds one registration per descriptor: a (descriptor, token,
//! interest) triple. Registering an invalid descriptor or the same
//! descriptor twice fails. This module is that contract as a verified
//! ledger; the caller performs the matching kernel call next to it.

use vstd::prelude::*;
use crate::errors::ReactorError;

verus! {

/// Interest flag: the caller wants to hear when the descriptor is readable.
pub const READABLE: u32 = 0x1;

/// Interest flag: notify only on a transition to ready (edge-triggered), so
/// the caller must drain fully on every notification.
pub const EDGE_TRIGGERED: u32 = 0x80000000;

/// One registration held on behalf of the notification instance.
#[derive(Clone, Copy, Debug, PartialEq, Eq, Structural)]
pub struct Registration {
    /// The registered descriptor, a non-negative kernel handle.
    pub fd: i32,
    /// The caller-chosen opaque token reported back on readiness.
    pub token: usize,
    /// The interest bitmask the descriptor was registered with.
    pub interest: u32,
}

/// The watch set of one notification instance, in registration order.
pub struct Registry {
    regs: Vec<Registration>,
}

impl Registry {
    /// The registrations, in the order they were accepted.
    pub closed spec fn spec_regs(self) -> Seq<Registration> {
        self.regs@
    }

    /// Whether `fd` is currently registered.
    pub open spec fn is_registered(self, fd: int) -> bool {
        exists|k: int| 0 <= k < self.spec_regs().len() && self.spec_regs()[k].fd == fd
    }

    /// Every registration is for a valid descriptor, and no descriptor is
    /// registered twice.
    pub open spec fn inv(self) -> bool {
        &&& forall|k: int|
            0 <= k < self.spec_regs().len() ==> (#[trigger] self.spec_regs()[k]).fd >= 0
        &&& forall|j: int, k: int|
            0 <= j < k < self.spec_regs().len() ==> self.spec_regs()[j].fd
                != self.spec_regs()[k].fd
    }

    /// Each token equals its registration's position, the driver's lookup
    /// invariant for correlating events back to its connection collection.
    pub open spec fn tokens_are_indices(self) -> bool {
        forall|k: int|
            0 <= k < self.spec_regs().len() ==> (#[trigger] self.spec_regs()[k]).token == k
    }

    /// An empty watch set, as a freshly created notification instance has.
    pub fn new() -> (r: Registry)
        ensures
            r.inv(),
            r.spec_regs() == Seq::<Registration>::empty(),
    {
        Registry { regs: Vec::new() }
    }

    /// How many descriptors are registered.
    pub fn len(&self) -> (n: usize)
        ensures
            n == self.spec_regs().len(),
    {
        self.regs.len()
    }

    /// Whether `fd` is currently registered.
    pub fn contains_fd(&self, fd: i32) -> (b: bool)
        ensures
            b == self.is_registered(fd as int),
    {
        let mut k: usize = 0;
        while k < self.regs.len()
            invariant
                k <= self.regs@.len(),
                forall|j: int| 0 <= j < k ==> (#[trigger] self.regs@[j]).fd != fd,
            decreases self.regs@.len() - k,
        {
            if self.regs[k].fd == fd {
                assert(self.spec_regs()[k as int].fd == fd);
                return true;
            }
            k = k + 1;
        }
        false
    }

    /// Adds `fd` to the watch set with the given token and interest.
    ///
    /// Fails with `SystemResource`, leaving the set unchanged, exactly when
    /// the descriptor is invalid (negative) or already registered; this is
    /// what the kernel facility reports in those cases, and the caller's
    /// fan-out aborts on it.
    pub fn register(&mut self, fd: i32, token: usize, interest: u32) -> (r: Result<(), ReactorError>)
        requires
            old(self).inv(),
        ensures
            final(self).inv(),
            r is Ok <==> fd >= 0 && !old(self).is_registered(fd as int),
            r is Ok ==> final(self).spec_regs() == old(self).spec_regs().push(
                Registration { fd, token, interest },
            ),
            r is Err ==> final(self).spec_regs() == old(self).spec_regs() && r == Err::<
                (),
                ReactorError,
            >(ReactorError::SystemResource),
            old(self).tokens_are_indices() && token == old(self).spec_regs().len()
                ==> final(self).tokens_are_indices(),
    {
        if fd < 0 || self.contains_fd(fd) {
            return Err(ReactorError::SystemResource);
        }
        self.regs.push(Registration { fd, token, interest });
        Ok(())
    }
}

} // verus!
