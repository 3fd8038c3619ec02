//! Connection-limit enforcement and the end of accept loops.

use crate::metrics::RejectLabel;
use crate::text::owned;
use vstd::prelude::*;
use vstd::string::*;

verus! {

/// A bound on concurrent connections and how many are open.
#[derive(Debug)]
pub struct Gate {
    limit: usize,
    open: usize,
}

impl Gate {
    /// The most connections that may be open at once.
    pub closed spec fn limit(self) -> usize {
        self.limit
    }

    /// The connections that are open.
    pub closed spec fn open(self) -> usize {
        self.open
    }

    /// The validity of a gate: no more connections than it allows.
    pub open spec fn wf(self) -> bool {
        self.open() <= self.limit()
    }

    /// A gate with no open connection.
    pub fn new(limit: usize) -> (r: Self)
        ensures
            r.wf(),
            r.limit() == limit,
            r.open() == 0,
    {
        Gate { limit, open: 0 }
    }

    /// Takes a place, if there is one.
    pub fn try_enter(&mut self) -> (r: bool)
        requires
            old(self).wf(),
        ensures
            final(self).wf(),
            final(self).limit() == old(self).limit(),
            r == (old(self).open() < old(self).limit()),
            final(self).open() == if r {
                (old(self).open() + 1) as usize
            } else {
                old(self).open()
            },
    {
        if self.open < self.limit {
            self.open = self.open + 1;
            true
        } else {
            false
        }
    }

    /// Gives a place back.
    pub fn leave(&mut self)
        requires
            old(self).wf(),
        ensures
            final(self).wf(),
            final(self).limit() == old(self).limit(),
            final(self).open() == if old(self).open() > 0 {
                (old(self).open() - 1) as usize
            } else {
                0
            },
    {
        if self.open > 0 {
            self.open = self.open - 1;
        }
    }
}

/// Admits a connection if both the node and the listener have a place for it;
/// a connection that is turned away takes no place.
pub fn enter_both(global: &mut Gate, listener: &mut Gate) -> (r: bool)
    requires
        old(global).wf(),
        old(listener).wf(),
    ensures
        final(global).wf(),
        final(listener).wf(),
        final(global).limit() == old(global).limit(),
        final(listener).limit() == old(listener).limit(),
        r == (old(global).open() < old(global).limit() && old(listener).open() < old(
            listener,
        ).limit()),
        r ==> final(global).open() == old(global).open() + 1 && final(listener).open() == old(
            listener,
        ).open() + 1,
        !r ==> final(global).open() == old(global).open() && final(listener).open() == old(
            listener,
        ).open(),
{
    if !global.try_enter() {
        return false;
    }
    if !listener.try_enter() {
        global.leave();
        return false;
    }
    true
}

/// The end of a connection gives both places back.
pub fn leave_both(global: &mut Gate, listener: &mut Gate)
    requires
        old(global).wf(),
        old(listener).wf(),
    ensures
        final(global).wf(),
        final(listener).wf(),
        final(global).limit() == old(global).limit(),
        final(listener).limit() == old(listener).limit(),
        old(global).open() > 0 ==> final(global).open() == old(global).open() - 1,
        old(global).open() == 0 ==> final(global).open() == 0,
        old(listener).open() > 0 ==> final(listener).open() == old(listener).open() - 1,
        old(listener).open() == 0 ==> final(listener).open() == 0,
{
    global.leave();
    listener.leave();
}

/// The label of a connection turned away at the limit.
pub fn limit_label() -> (r: RejectLabel)
    ensures
        r.reason@ == "limit"@,
{
    RejectLabel { reason: owned("limit") }
}

/// Whether an accept loop ends on a change of the shutdown signal: the signal
/// is gone, or it is set.
pub fn stops_accepting(signal: Option<bool>) -> (r: bool)
    ensures
        r == (signal != Some(false)),
{
    match signal {
        Some(set) => set,
        None => true,
    }
}

}
