//! Allocator for the host ports that containers are published on.
//!
//! Ports are handed out from a fixed inclusive range, smallest first, and
//! must be released exactly once when the container goes away.

use std::collections::HashSet;
use vstd::prelude::*;

verus! {

/// Ways the port allocator can refuse a request.
#[derive(Debug, Clone, Copy, PartialEq, Eq, Structural)]
pub enum PortManagerError {
    /// Every port in the range is reserved.
    OutOfPorts,
    /// The range was constructed with its end below its start.
    InvalidPortRange,
    /// The given port cannot be released because it is not reserved.
    CanNotReleaseUnreservedPort(u16),
}

/// Hands out host ports from the inclusive range `[start_port, end_port]`.
pub struct PortManager {
    start_port: u16,
    end_port: u16,
    reserved_ports: HashSet<u16>,
}

impl PortManager {
    /// First port of the range.
    pub closed spec fn start(&self) -> u16 {
        self.start_port
    }

    /// Last port of the range.
    pub closed spec fn end(&self) -> u16 {
        self.end_port
    }

    /// The set of ports currently reserved.
    pub closed spec fn reserved(&self) -> Set<u16> {
        self.reserved_ports@
    }

    /// Whether a port lies in the allocator's range.
    pub open spec fn in_range(&self, p: u16) -> bool {
        self.start() <= p <= self.end()
    }

    /// Well-formedness: a non-empty range whose reservations all lie inside it.
    pub open spec fn wf(&self) -> bool {
        &&& self.start() <= self.end()
        &&& forall|p: u16| self.reserved().contains(p) ==> self.in_range(p)
    }

    /// Creates an allocator over `[start_port, end_port]`, both defaulted
    /// when absent, with nothing reserved; rejects an inverted range.
    pub fn new(start_port: Option<u16>, end_port: Option<u16>) -> (r: Result<Self, PortManagerError>)
        ensures
            ({
                let s = if start_port is Some { start_port->0 } else { 49152u16 };
                let e = if end_port is Some { end_port->0 } else { 65535u16 };
                if e < s {
                    r matches Err(PortManagerError::InvalidPortRange)
                } else {
                    &&& r matches Ok(pm)
                    &&& (r matches Ok(pm) ==> pm.start() == s && pm.end() == e && pm.reserved()
                        == Set::<u16>::empty() && pm.wf())
                }
            }),
    {
        let s = match start_port {
            Some(p) => p,
            None => 49152,
        };
        let e = match end_port {
            Some(p) => p,
            None => 65535,
        };
        if e < s {
            return Err(PortManagerError::InvalidPortRange);
        }
        Ok(PortManager { start_port: s, end_port: e, reserved_ports: HashSet::new() })
    }

    /// Reserves and returns the smallest unreserved port of the range, or
    /// fails with `OutOfPorts` leaving the allocator unchanged.
    pub fn reserve_port(&mut self) -> (r: Result<u16, PortManagerError>)
        requires
            old(self).wf(),
        ensures
            final(self).wf(),
            reserve_transition(*old(self), *final(self), r),
    {
        let mut port: u16 = self.start_port;
        loop
            invariant
                *self == *old(self),
                self.wf(),
                self.start_port <= port <= self.end_port,
                forall|q: u16| self.start_port <= q < port ==> self.reserved().contains(q),
            decreases self.end_port - port,
        {
            if !self.reserved_ports.contains(&port) {
                let ghost pre = *self;
                self.reserved_ports.insert(port);
                proof {
                    assert(self.reserved() == pre.reserved().insert(port));
                    assert forall|q: u16| self.reserved().contains(q) implies self.in_range(
                        q,
                    ) by {
                        if q != port {
                            assert(pre.reserved().contains(q));
                            assert(pre.in_range(q));
                        } else {
                            assert(pre.start_port <= port <= pre.end_port);
                        }
                        assert(self.start() == pre.start() && self.end() == pre.end());
                    }
                }
                return Ok(port);
            }
            if port == self.end_port {
                return Err(PortManagerError::OutOfPorts);
            }
            port = port + 1;
        }
    }

    /// Releases a reserved port; fails with `CanNotReleaseUnreservedPort`
    /// and leaves the allocator unchanged when the port is not reserved.
    pub fn release_port(&mut self, port: u16) -> (r: Result<(), PortManagerError>)
        requires
            old(self).wf(),
        ensures
            final(self).wf(),
            release_transition(*old(self), *final(self), port, r),
    {
        if !self.reserved_ports.contains(&port) {
            return Err(PortManagerError::CanNotReleaseUnreservedPort(port));
        }
        self.reserved_ports.remove(&port);
        proof {
            assert(self.start_port == old(self).start_port);
            assert(self.end_port == old(self).end_port);
            assert(self.reserved() == old(self).reserved().remove(port));
            assert forall|q: u16| self.reserved().contains(q) implies self.in_range(q) by {
                assert(old(self).reserved().contains(q));
                assert(old(self).in_range(q));
                assert(self.start() == old(self).start());
                assert(self.end() == old(self).end());
            }
        }
        Ok(())
    }
}

/// Everything `reserve_port` promises about the allocator before and after
/// the call and about its result.
pub open spec fn reserve_transition(
    pre: PortManager,
    post: PortManager,
    r: Result<u16, PortManagerError>,
) -> bool {
    &&& post.start() == pre.start()
    &&& post.end() == pre.end()
    &&& match r {
        Ok(p) => {
            &&& pre.in_range(p)
            &&& !pre.reserved().contains(p)
            &&& forall|q: u16| pre.start() <= q < p ==> pre.reserved().contains(q)
            &&& post.reserved() == pre.reserved().insert(p)
        },
        Err(e) => {
            &&& e == PortManagerError::OutOfPorts
            &&& post == pre
            &&& forall|q: u16| pre.in_range(q) ==> pre.reserved().contains(q)
        },
    }
}

/// Everything `release_port` promises about the allocator before and after
/// the call and about its result.
pub open spec fn release_transition(
    pre: PortManager,
    post: PortManager,
    port: u16,
    r: Result<(), PortManagerError>,
) -> bool {
    &&& post.start() == pre.start()
    &&& post.end() == pre.end()
    &&& if pre.reserved().contains(port) {
        &&& r is Ok
        &&& post.reserved() == pre.reserved().remove(port)
    } else {
        &&& r == Err::<(), PortManagerError>(PortManagerError::CanNotReleaseUnreservedPort(port))
        &&& post == pre
    }
}

/// A full allocator refuses to reserve; releasing any one port then permits
/// exactly one more reservation, which returns that same port, after which
/// the allocator is full again.
pub proof fn lemma_exhausted_reserve_cycle(
    full: PortManager,
    p: u16,
    after_failed: PortManager,
    failed: Result<u16, PortManagerError>,
    after_release: PortManager,
    released: Result<(), PortManagerError>,
    after_reserve: PortManager,
    reserved_again: Result<u16, PortManagerError>,
)
    requires
        full.wf(),
        forall|q: u16| full.in_range(q) ==> full.reserved().contains(q),
        full.in_range(p),
        reserve_transition(full, after_failed, failed),
        release_transition(full, after_release, p, released),
        reserve_transition(after_release, after_reserve, reserved_again),
    ensures
        failed == Err::<u16, PortManagerError>(PortManagerError::OutOfPorts),
        after_failed == full,
        released is Ok,
        reserved_again == Ok::<u16, PortManagerError>(p),
        forall|q: u16| after_reserve.in_range(q) ==> after_reserve.reserved().contains(q),
{
    assert(after_release.reserved() == full.reserved().remove(p));
    match reserved_again {
        Ok(q) => {
            assert(full.in_range(q) && !after_release.reserved().contains(q));
            if q != p {
                assert(full.reserved().contains(q));
                assert(after_release.reserved().contains(q));
                assert(false);
            }
            assert(after_reserve.reserved() == after_release.reserved().insert(p));
            assert forall|w: u16|
                after_reserve.in_range(w) implies after_reserve.reserved().contains(w) by {
                assert(full.in_range(w));
                assert(full.reserved().contains(w));
            }
        },
        Err(_) => {
            assert(after_release.in_range(p));
            assert(after_release.reserved().contains(p));
            assert(!full.reserved().remove(p).contains(p));
            assert(false);
        },
    }
}

/// Releasing a port that was never reserved reports `CanNotReleaseUnreservedPort`
/// and moves nothing.
pub proof fn lemma_release_unreserved_is_rejected(
    pre: PortManager,
    post: PortManager,
    port: u16,
    r: Result<(), PortManagerError>,
)
    requires
        !pre.reserved().contains(port),
        release_transition(pre, post, port, r),
    ensures
        r == Err::<(), PortManagerError>(PortManagerError::CanNotReleaseUnreservedPort(port)),
        post == pre,
{
}

} // verus!
