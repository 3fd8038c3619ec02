//! Per-backend health state machine with success and failure thresholds.

use super::probe::ProbeResult;
use crate::types::HealthStatus;
use vstd::prelude::*;

verus! {

/// Tracks consecutive probe outcomes and decides committed state transitions.
#[derive(Debug)]
pub struct BackendHealth {
    status: HealthStatus,
    consecutive_success: u32,
    consecutive_failure: u32,
}

/// The state of the machine.
pub struct HealthState {
    pub status: HealthStatus,
    /// Passes since the last other outcome, up to the largest count kept.
    pub successes: int,
    /// Failures since the last other outcome, up to the largest count kept.
    pub failures: int,
}

/// The successor of a count, which stops at the largest `u32`.
pub open spec fn count_up(n: int) -> int {
    if n < u32::MAX {
        n + 1
    } else {
        u32::MAX as int
    }
}

/// The state after one probe outcome.
pub open spec fn health_step(
    s: HealthState,
    outcome: ProbeResult,
    healthy_threshold: u32,
    unhealthy_threshold: u32,
) -> HealthState {
    match outcome {
        ProbeResult::Drain => HealthState {
            status: HealthStatus::Draining,
            successes: 0,
            failures: 0,
        },
        ProbeResult::Pass => HealthState {
            status: if count_up(s.successes) >= healthy_threshold {
                HealthStatus::Healthy
            } else {
                s.status
            },
            successes: count_up(s.successes),
            failures: 0,
        },
        ProbeResult::Fail => HealthState {
            status: if count_up(s.failures) >= unhealthy_threshold {
                HealthStatus::Unhealthy
            } else {
                s.status
            },
            successes: 0,
            failures: count_up(s.failures),
        },
    }
}

/// The state after a run of probe outcomes.
pub open spec fn health_run(
    s: HealthState,
    outcomes: Seq<ProbeResult>,
    healthy_threshold: u32,
    unhealthy_threshold: u32,
) -> HealthState
    decreases outcomes.len(),
{
    if outcomes.len() == 0 {
        s
    } else {
        health_step(
            health_run(s, outcomes.drop_last(), healthy_threshold, unhealthy_threshold),
            outcomes.last(),
            healthy_threshold,
            unhealthy_threshold,
        )
    }
}

/// The number of increments of a `u32` count that stops at its maximum.
fn up(n: u32) -> (r: u32)
    ensures
        r == count_up(n as int),
{
    if n < u32::MAX {
        n + 1
    } else {
        n
    }
}

impl BackendHealth {
    /// The state of the machine.
    pub closed spec fn state(self) -> HealthState {
        HealthState {
            status: self.status,
            successes: self.consecutive_success as int,
            failures: self.consecutive_failure as int,
        }
    }

    /// The committed status.
    pub fn status(&self) -> (r: HealthStatus)
        ensures
            r == self.state().status,
    {
        self.status
    }

    /// Record a probe outcome. Returns `Some(new_status)` when the committed
    /// status transitions, `None` otherwise.
    ///
    /// A `Drain` outcome takes effect immediately (lame duck must stop new
    /// traffic promptly); `Pass` and `Fail` are debounced by the thresholds.
    pub fn record(
        &mut self,
        outcome: ProbeResult,
        healthy_threshold: u32,
        unhealthy_threshold: u32,
    ) -> (r: Option<HealthStatus>)
        ensures
            final(self).state() == health_step(
                old(self).state(),
                outcome,
                healthy_threshold,
                unhealthy_threshold,
            ),
            r == if final(self).state().status != old(self).state().status {
                Some(final(self).state().status)
            } else {
                None
            },
    {
        match outcome {
            ProbeResult::Drain => {
                self.consecutive_success = 0;
                self.consecutive_failure = 0;
                if self.status != HealthStatus::Draining {
                    self.status = HealthStatus::Draining;
                    return Some(self.status);
                }
                None
            },
            ProbeResult::Pass => {
                self.consecutive_success = up(self.consecutive_success);
                self.consecutive_failure = 0;
                if self.status != HealthStatus::Healthy && self.consecutive_success
                    >= healthy_threshold {
                    self.status = HealthStatus::Healthy;
                    return Some(self.status);
                }
                None
            },
            ProbeResult::Fail => {
                self.consecutive_failure = up(self.consecutive_failure);
                self.consecutive_success = 0;
                if self.status != HealthStatus::Unhealthy && self.consecutive_failure
                    >= unhealthy_threshold {
                    self.status = HealthStatus::Unhealthy;
                    return Some(self.status);
                }
                None
            },
        }
    }
}

impl Default for BackendHealth {
    fn default() -> (r: Self)
        ensures
            r.state() == (HealthState {
                status: HealthStatus::Unknown,
                successes: 0,
                failures: 0,
            }),
    {
        BackendHealth {
            status: HealthStatus::Unknown,
            consecutive_success: 0,
            consecutive_failure: 0,
        }
    }
}

impl Clone for BackendHealth {
    fn clone(&self) -> (r: Self)
        ensures
            r == *self,
    {
        BackendHealth {
            status: self.status,
            consecutive_success: self.consecutive_success,
            consecutive_failure: self.consecutive_failure,
        }
    }
}

proof fn lemma_run_counts(
    s: HealthState,
    outcomes: Seq<ProbeResult>,
    outcome: ProbeResult,
    healthy_threshold: u32,
    unhealthy_threshold: u32,
)
    requires
        forall|i: int| 0 <= i < outcomes.len() ==> outcomes[i] == outcome,
        0 <= s.successes <= u32::MAX,
        0 <= s.failures <= u32::MAX,
        outcomes.len() > 0,
        outcome != ProbeResult::Drain,
    ensures
        ({
            let t = health_run(s, outcomes, healthy_threshold, unhealthy_threshold);
            let from = if outcome == ProbeResult::Pass {
                s.successes
            } else {
                s.failures
            };
            let n = if from + outcomes.len() <= u32::MAX {
                from + outcomes.len()
            } else {
                u32::MAX as int
            };
            &&& outcome == ProbeResult::Pass ==> t.successes == n && t.failures == 0
            &&& outcome == ProbeResult::Fail ==> t.failures == n && t.successes == 0
            &&& outcome == ProbeResult::Pass ==> t.status == if n >= healthy_threshold {
                HealthStatus::Healthy
            } else {
                s.status
            }
            &&& outcome == ProbeResult::Fail ==> t.status == if n >= unhealthy_threshold {
                HealthStatus::Unhealthy
            } else {
                s.status
            }
        }),
    decreases outcomes.len(),
{
    let before = outcomes.drop_last();
    assert forall|i: int| 0 <= i < before.len() implies before[i] == outcome by {
        assert(before[i] == outcomes[i]);
    }
    assert(outcomes.last() == outcome);
    if before.len() > 0 {
        lemma_run_counts(s, before, outcome, healthy_threshold, unhealthy_threshold);
    } else {
        assert(health_run(s, before, healthy_threshold, unhealthy_threshold) == s);
    }
}

/// From any state a backend is healthy after as many passes in a row as the
/// threshold asks for, and after at least one.
pub proof fn law_passes_make_healthy(
    s: HealthState,
    outcomes: Seq<ProbeResult>,
    healthy_threshold: u32,
    unhealthy_threshold: u32,
)
    requires
        forall|i: int| 0 <= i < outcomes.len() ==> outcomes[i] == ProbeResult::Pass,
        0 <= s.successes <= u32::MAX,
        0 <= s.failures <= u32::MAX,
        0 < outcomes.len(),
        outcomes.len() >= healthy_threshold,
    ensures
        health_run(s, outcomes, healthy_threshold, unhealthy_threshold).status
            == HealthStatus::Healthy,
{
    lemma_run_counts(s, outcomes, ProbeResult::Pass, healthy_threshold, unhealthy_threshold);
}

/// From any state a backend is unhealthy after as many failures in a row as
/// the threshold asks for, and after at least one.
pub proof fn law_failures_make_unhealthy(
    s: HealthState,
    outcomes: Seq<ProbeResult>,
    healthy_threshold: u32,
    unhealthy_threshold: u32,
)
    requires
        forall|i: int| 0 <= i < outcomes.len() ==> outcomes[i] == ProbeResult::Fail,
        0 <= s.successes <= u32::MAX,
        0 <= s.failures <= u32::MAX,
        0 < outcomes.len(),
        outcomes.len() >= unhealthy_threshold,
    ensures
        health_run(s, outcomes, healthy_threshold, unhealthy_threshold).status
            == HealthStatus::Unhealthy,
{
    lemma_run_counts(s, outcomes, ProbeResult::Fail, healthy_threshold, unhealthy_threshold);
}

/// A run of failures shorter than the threshold changes no status when it
/// follows another outcome: a pass or a drain signal resets the failure count.
pub proof fn law_short_failure_runs_are_ignored(
    s: HealthState,
    pass: ProbeResult,
    outcomes: Seq<ProbeResult>,
    healthy_threshold: u32,
    unhealthy_threshold: u32,
)
    requires
        pass != ProbeResult::Fail,
        forall|i: int| 0 <= i < outcomes.len() ==> outcomes[i] == ProbeResult::Fail,
        0 <= s.successes <= u32::MAX,
        outcomes.len() < unhealthy_threshold,
    ensures
        health_run(
            health_step(s, pass, healthy_threshold, unhealthy_threshold),
            outcomes,
            healthy_threshold,
            unhealthy_threshold,
        ).status == health_step(s, pass, healthy_threshold, unhealthy_threshold).status,
{
    let t = health_step(s, pass, healthy_threshold, unhealthy_threshold);
    if outcomes.len() > 0 {
        lemma_run_counts(t, outcomes, ProbeResult::Fail, healthy_threshold, unhealthy_threshold);
    }
}

/// A run of passes shorter than the threshold changes no status when it
/// follows another outcome: a failure or a drain signal resets the pass count.
pub proof fn law_short_pass_runs_are_ignored(
    s: HealthState,
    other: ProbeResult,
    outcomes: Seq<ProbeResult>,
    healthy_threshold: u32,
    unhealthy_threshold: u32,
)
    requires
        other != ProbeResult::Pass,
        forall|i: int| 0 <= i < outcomes.len() ==> outcomes[i] == ProbeResult::Pass,
        0 <= s.failures <= u32::MAX,
        outcomes.len() < healthy_threshold,
    ensures
        health_run(
            health_step(s, other, healthy_threshold, unhealthy_threshold),
            outcomes,
            healthy_threshold,
            unhealthy_threshold,
        ).status == health_step(s, other, healthy_threshold, unhealthy_threshold).status,
{
    let t = health_step(s, other, healthy_threshold, unhealthy_threshold);
    if outcomes.len() > 0 {
        lemma_run_counts(t, outcomes, ProbeResult::Pass, healthy_threshold, unhealthy_threshold);
    }
}

/// A drain signal takes effect at once, from any state.
pub proof fn law_drain_is_immediate(
    s: HealthState,
    healthy_threshold: u32,
    unhealthy_threshold: u32,
)
    ensures
        health_step(s, ProbeResult::Drain, healthy_threshold, unhealthy_threshold).status
            == HealthStatus::Draining,
{
}

/// One outcome: a pass counts a success and clears the failures, a failure the
/// other way round, and a drain signal clears both. The status changes to
/// healthy or unhealthy exactly where the count has reached its threshold.
pub proof fn law_one_outcome(s: HealthState, healthy_threshold: u32, unhealthy_threshold: u32)
    requires
        0 <= s.successes < u32::MAX,
        0 <= s.failures < u32::MAX,
    ensures
        health_step(s, ProbeResult::Pass, healthy_threshold, unhealthy_threshold) == (HealthState {
            status: if s.successes + 1 >= healthy_threshold {
                HealthStatus::Healthy
            } else {
                s.status
            },
            successes: s.successes + 1,
            failures: 0,
        }),
        health_step(s, ProbeResult::Fail, healthy_threshold, unhealthy_threshold) == (HealthState {
            status: if s.failures + 1 >= unhealthy_threshold {
                HealthStatus::Unhealthy
            } else {
                s.status
            },
            successes: 0,
            failures: s.failures + 1,
        }),
        health_step(s, ProbeResult::Drain, healthy_threshold, unhealthy_threshold) == (HealthState {
            status: HealthStatus::Draining,
            successes: 0,
            failures: 0,
        }),
{
}

/// The largest count is kept: further outcomes of the same kind leave it and
/// the status that it stands for.
pub proof fn law_counts_stop_at_the_largest(n: int)
    ensures
        n >= u32::MAX ==> count_up(n) == u32::MAX,
        n < u32::MAX ==> count_up(n) == n + 1,
{
}

}
