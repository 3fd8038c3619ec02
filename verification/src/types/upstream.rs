//! Upstream pools and backend health.

use super::config::HealthCheckConfig;
use crate::number::{decimal, decimal_string};
use vstd::prelude::*;
use vstd::string::*;

verus! {

/// Unique identifier for an upstream pool, referenced by routes.
#[derive(Debug, PartialEq, Eq, Hash)]
pub struct PoolId(pub String);

impl Clone for PoolId {
    fn clone(&self) -> (r: Self)
        ensures
            r == *self,
    {
        PoolId(self.0.clone())
    }
}

/// The scheme used on the upstream leg (independent of the client-facing
/// listener protocol).
#[derive(Debug, Clone, Copy, PartialEq, Eq, Structural, Hash)]
pub enum Scheme {
    Http,
    Https,
}

impl Default for Scheme {
    fn default() -> (r: Self)
        ensures
            r == Scheme::Http,
    {
        Scheme::Http
    }
}

/// Load-balancing policy for distributing requests across healthy upstreams.
#[derive(Debug, Clone, Copy, PartialEq, Eq, Structural)]
pub enum LbPolicy {
    /// Even distribution across equal backends.
    RoundRobin,
    /// Prefer the backend with the fewest in-flight requests.
    LeastRequest,
    /// Consistent-hash on a key for session affinity.
    RingHash,
}

impl Default for LbPolicy {
    fn default() -> (r: Self)
        ensures
            r == LbPolicy::RoundRobin,
    {
        LbPolicy::RoundRobin
    }
}

/// A single application backend within a pool.
#[derive(Debug, PartialEq, Eq)]
pub struct Upstream {
    pub host: String,
    pub port: u16,
    pub weight: u32,
}

/// The weight of a backend that names none.
pub fn default_weight() -> (r: u32)
    ensures
        r == 1,
{
    1
}

/// The `host:port` text of a backend address.
pub open spec fn authority_text(host: Seq<char>, port: u16) -> Seq<char> {
    host + ":"@ + decimal(port as nat)
}

/// The `host:port` text of a backend address.
pub fn authority_of(host: &str, port: u16) -> (r: String)
    ensures
        r@ == authority_text(host@, port),
{
    let mut out = host.to_owned();
    out.append(":");
    out.append(decimal_string(port as u128).as_str());
    out
}

impl Upstream {
    /// `host:port` authority string, used as the connection-pool key and for
    /// the upstream request `Host` header.
    pub fn authority(&self) -> (r: String)
        ensures
            r@ == authority_text(self.host@, self.port),
    {
        authority_of(self.host.as_str(), self.port)
    }
}

impl Clone for Upstream {
    fn clone(&self) -> (r: Self)
        ensures
            r == *self,
    {
        Upstream { host: self.host.clone(), port: self.port, weight: self.weight }
    }
}

/// A named set of backends serving the same role.
#[derive(Debug, PartialEq, Eq)]
pub struct UpstreamPool {
    pub id: PoolId,
    pub scheme: Scheme,
    pub lb_policy: LbPolicy,
    pub upstreams: Vec<Upstream>,
    /// Per-pool health check override. When absent, the node's
    /// `health_check_defaults` apply.
    pub health_check: Option<HealthCheckConfig>,
}

/// Health state of a single backend, tracked by the control plane and read by
/// the data plane on each upstream selection.
#[derive(Debug, Clone, Copy, PartialEq, Eq, Structural)]
pub enum HealthStatus {
    /// Not yet probed enough times to decide.
    Unknown,
    /// Receiving traffic.
    Healthy,
    /// Failing checks; excluded from selection.
    Unhealthy,
    /// Lame-duck: excluded from *new* requests, existing ones drain.
    Draining,
}

impl Default for HealthStatus {
    fn default() -> (r: Self)
        ensures
            r == HealthStatus::Unknown,
    {
        HealthStatus::Unknown
    }
}

impl HealthStatus {
    /// Whether a backend in this state may receive new requests.
    pub fn is_selectable(&self) -> (r: bool)
        ensures
            r == (*self == HealthStatus::Healthy),
    {
        match self {
            HealthStatus::Healthy => true,
            _ => false,
        }
    }
}

/// An address is written as the host, a colon and the port in decimal.
pub proof fn law_authorities(host: Seq<char>, port: u16)
    ensures
        authority_text(host, port) == host.push(':') + decimal(port as nat),
{
    reveal_strlit(":");
    assert(authority_text(host, port) =~= host.push(':') + decimal(port as nat));
}

}
