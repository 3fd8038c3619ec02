//! Config file watching with debounce.
//!
//! The watcher observes the config file's *parent directory* (robust against
//! editors and deploy tooling that replace the file via rename), keeps only
//! events on the config file itself, and reloads after a quiet window.

use crate::text::str_eq;
use vstd::prelude::*;

verus! {

/// Whether two optional names are the same.
pub open spec fn same_name(a: Option<String>, b: Option<String>) -> bool {
    match (a, b) {
        (Some(x), Some(y)) => x@ == y@,
        (None, None) => true,
        _ => false,
    }
}

/// Whether an event touches the config file: one of its paths has the file
/// name of the config file. Other files in the same directory, such as the
/// last-known-good cache, do not count.
pub fn touches_config(event_names: &Vec<Option<String>>, target: &Option<String>) -> (r: bool)
    ensures
        r == exists|i: int|
            0 <= i < event_names@.len() && same_name(#[trigger] event_names@[i], *target),
{
    let mut i: usize = 0;
    while i < event_names.len()
        invariant
            i <= event_names@.len(),
            forall|j: int| 0 <= j < i ==> !same_name(#[trigger] event_names@[j], *target),
        decreases event_names@.len() - i,
    {
        let same = match (&event_names[i], target) {
            (Some(x), Some(y)) => str_eq(x.as_str(), y.as_str()),
            (None, None) => true,
            _ => false,
        };
        if same {
            assert(same_name(event_names@[i as int], *target));
            return true;
        }
        i += 1;
    }
    false
}

/// What a watcher sees.
#[derive(Debug, Clone, Copy, PartialEq, Eq, Structural)]
pub enum WatchEvent {
    /// The config file changed.
    Change,
    /// The debounce window passed without a change.
    Quiet,
    /// No more events will come.
    Closed,
}

/// What a watcher does.
#[derive(Debug, Clone, Copy, PartialEq, Eq, Structural)]
pub enum WatchAction {
    /// Wait for the next event.
    Wait,
    /// Wait for the next event or for the debounce window to pass.
    WaitWindow,
    /// Reload the configuration.
    Reload,
    /// End.
    Stop,
}

/// The state of a watcher.
#[derive(Debug, Clone, Copy, PartialEq, Eq, Structural)]
pub enum WatchState {
    Idle,
    Pending,
    Ended,
}

/// The state after an event and what to do: changes are collected until the
/// window has been quiet, and then lead to one reload.
pub open spec fn watch_step(state: WatchState, event: WatchEvent) -> (WatchState, WatchAction) {
    match (state, event) {
        (WatchState::Ended, _) => (WatchState::Ended, WatchAction::Stop),
        (_, WatchEvent::Closed) => (WatchState::Ended, WatchAction::Stop),
        (_, WatchEvent::Change) => (WatchState::Pending, WatchAction::WaitWindow),
        (WatchState::Pending, WatchEvent::Quiet) => (WatchState::Idle, WatchAction::Reload),
        (WatchState::Idle, WatchEvent::Quiet) => (WatchState::Idle, WatchAction::Wait),
    }
}

/// The state after a run of events.
pub open spec fn watch_run(state: WatchState, events: Seq<WatchEvent>) -> WatchState
    decreases events.len(),
{
    if events.len() == 0 {
        state
    } else {
        watch_step(watch_run(state, events.drop_last()), events.last()).0
    }
}

/// The number of reloads in a run of events.
pub open spec fn reloads(state: WatchState, events: Seq<WatchEvent>) -> nat
    decreases events.len(),
{
    if events.len() == 0 {
        0
    } else {
        reloads(state, events.drop_last()) + if watch_step(
            watch_run(state, events.drop_last()),
            events.last(),
        ).1 == WatchAction::Reload {
            1nat
        } else {
            0
        }
    }
}

/// Coalesces rapid successive changes into one reload.
#[derive(Debug, Clone, Copy, PartialEq, Eq, Structural)]
pub struct Debouncer {
    state: WatchState,
}

impl Debouncer {
    /// The state of the watcher.
    pub closed spec fn state(self) -> WatchState {
        self.state
    }

    /// A watcher that has seen nothing.
    pub fn new() -> (r: Self)
        ensures
            r.state() == WatchState::Idle,
    {
        Debouncer { state: WatchState::Idle }
    }

    /// Takes one event.
    pub fn on_event(&mut self, event: WatchEvent) -> (r: WatchAction)
        ensures
            (final(self).state(), r) == watch_step(old(self).state(), event),
    {
        match (self.state, event) {
            (WatchState::Ended, _) => WatchAction::Stop,
            (_, WatchEvent::Closed) => {
                self.state = WatchState::Ended;
                WatchAction::Stop
            },
            (_, WatchEvent::Change) => {
                self.state = WatchState::Pending;
                WatchAction::WaitWindow
            },
            (WatchState::Pending, WatchEvent::Quiet) => {
                self.state = WatchState::Idle;
                WatchAction::Reload
            },
            (WatchState::Idle, WatchEvent::Quiet) => WatchAction::Wait,
        }
    }
}

/// A burst of changes leads to no reload before the window is quiet, and to
/// exactly one then.
pub proof fn law_burst_reloads_once(changes: Seq<WatchEvent>)
    requires
        changes.len() > 0,
        forall|i: int| 0 <= i < changes.len() ==> changes[i] == WatchEvent::Change,
    ensures
        reloads(WatchState::Idle, changes) == 0,
        reloads(WatchState::Idle, changes.push(WatchEvent::Quiet)) == 1,
        watch_run(WatchState::Idle, changes.push(WatchEvent::Quiet)) == WatchState::Idle,
{
    lemma_burst(changes);
    assert(changes.push(WatchEvent::Quiet).drop_last() =~= changes);
}

proof fn lemma_burst(changes: Seq<WatchEvent>)
    requires
        forall|i: int| 0 <= i < changes.len() ==> changes[i] == WatchEvent::Change,
    ensures
        reloads(WatchState::Idle, changes) == 0,
        changes.len() > 0 ==> watch_run(WatchState::Idle, changes) == WatchState::Pending,
        changes.len() == 0 ==> watch_run(WatchState::Idle, changes) == WatchState::Idle,
    decreases changes.len(),
{
    if changes.len() > 0 {
        let before = changes.drop_last();
        assert forall|i: int| 0 <= i < before.len() implies before[i] == WatchEvent::Change by {
            assert(before[i] == changes[i]);
        }
        lemma_burst(before);
        assert(changes.last() == WatchEvent::Change);
    }
}

/// Without a change there is no reload.
pub proof fn law_no_reload_without_change(events: Seq<WatchEvent>)
    requires
        forall|i: int| 0 <= i < events.len() ==> events[i] != WatchEvent::Change,
    ensures
        reloads(WatchState::Idle, events) == 0,
        watch_run(WatchState::Idle, events) != WatchState::Pending,
    decreases events.len(),
{
    if events.len() > 0 {
        let before = events.drop_last();
        assert forall|i: int| 0 <= i < before.len() implies before[i] != WatchEvent::Change by {
            assert(before[i] == events[i]);
        }
        law_no_reload_without_change(before);
        assert(events.last() != WatchEvent::Change);
    }
}

/// A reload comes exactly when the window has been quiet after a change. A
/// closed source ends the watcher for good; a change opens the window, again
/// where it is open; quiet without a change leads to nothing.
pub proof fn law_watch_steps(state: WatchState, event: WatchEvent)
    ensures
        watch_step(state, event).1 == WatchAction::Reload <==> state == WatchState::Pending && event
            == WatchEvent::Quiet,
        watch_step(state, event).1 == WatchAction::Stop <==> state == WatchState::Ended || event
            == WatchEvent::Closed,
        watch_step(state, event).1 == WatchAction::WaitWindow <==> state != WatchState::Ended
            && event == WatchEvent::Change,
        watch_step(state, event).0 == WatchState::Ended <==> state == WatchState::Ended || event
            == WatchEvent::Closed,
        watch_step(state, event).0 == WatchState::Pending <==> state != WatchState::Ended && event
            == WatchEvent::Change,
{
}

/// The reloads of a run are the quiet windows that follow a change directly,
/// while the source is open.
pub proof fn law_reloads_count_windows(
    state: WatchState,
    events: Seq<WatchEvent>,
    event: WatchEvent,
)
    ensures
        reloads(state, Seq::empty()) == 0,
        watch_run(state, Seq::empty()) == state,
        watch_run(state, events.push(event)) == watch_step(watch_run(state, events), event).0,
        reloads(state, events.push(event)) == reloads(state, events) + if watch_run(state, events)
            == WatchState::Pending && event == WatchEvent::Quiet {
            1nat
        } else {
            0
        },
{
    assert(events.push(event).drop_last() =~= events);
}

/// A path has the name of the config file where both have a name and the names
/// are equal, or where neither has one.
pub proof fn law_same_names(a: String, b: String)
    ensures
        same_name(Some(a), Some(b)) <==> a@ == b@,
        same_name(None, None),
        !same_name(Some(a), None),
        !same_name(None, Some(b)),
{
}

}
