//! Active health checking: probe outcomes, the per-backend state machine and
//! the reconciliation of probe loops with the configured pools.

pub mod checker;
pub mod probe;
pub mod state_machine;

pub use checker::{HealthChecker, ProbeJob, ProbeLoop, ReconcilePlan, StatusChange};
pub use probe::{make_probe, AnyProbe, HttpProbe, Probe, ProbeReply, ProbeRequest, ProbeResult, TcpProbe};
pub use state_machine::BackendHealth;
