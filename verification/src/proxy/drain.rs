//! Graceful drain coordination.
//!
//! Draining fails readiness and tells accept loops to stop accepting;
//! in-flight connections finish on their own, bounded by the drain deadline.

use super::ProxyShared;
use vstd::prelude::*;

verus! {

/// Owns the shutdown signal for all accept loops.
#[derive(Debug, Clone, Copy, PartialEq, Eq, Structural)]
pub struct DrainController {
    triggered: bool,
}

impl DrainController {
    /// Whether draining has begun.
    pub closed spec fn signalled(self) -> bool {
        self.triggered
    }

    /// A controller that has not been triggered.
    pub fn new() -> (r: Self)
        ensures
            !r.signalled(),
    {
        DrainController { triggered: false }
    }

    /// The signal for an accept loop or engine to watch.
    pub fn signal(&self) -> (r: bool)
        ensures
            r == self.signalled(),
    {
        self.triggered
    }

    /// Begin draining: fail readiness and tell accept loops to stop.
    pub fn trigger(&mut self, shared: &mut ProxyShared)
        ensures
            final(self).signalled(),
            *final(shared) == (ProxyShared { draining: true, ..*old(shared) }),
    {
        shared.draining = true;
        self.triggered = true;
    }
}

impl Default for DrainController {
    fn default() -> (r: Self)
        ensures
            !r.signalled(),
    {
        DrainController::new()
    }
}

/// What a draining engine does next.
#[derive(Debug, Clone, Copy, PartialEq, Eq, Structural)]
pub enum DrainStep {
    /// No connection is open any more.
    Done,
    /// The deadline elapsed with connections still open.
    GiveUp,
    /// Look again later.
    Wait,
}

/// What a draining engine does next: it waits for in-flight connections to
/// complete, bounded by the drain deadline.
pub fn drain_step(active: i64, deadline_passed: bool) -> (r: DrainStep)
    ensures
        r == if active <= 0 {
            DrainStep::Done
        } else if deadline_passed {
            DrainStep::GiveUp
        } else {
            DrainStep::Wait
        },
{
    if active <= 0 {
        DrainStep::Done
    } else if deadline_passed {
        DrainStep::GiveUp
    } else {
        DrainStep::Wait
    }
}

}
