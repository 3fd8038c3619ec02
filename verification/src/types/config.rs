//! Bootstrap node configuration and the hot-reloadable dynamic configuration.

use super::duration::Duration;
use super::error::GfeError;
use super::listener::{IpAddr, Listener, SocketAddr};
use super::route::Route;
use super::tls::{CertEntry, TlsConfig};
use super::upstream::UpstreamPool;
use crate::text::owned;
use vstd::prelude::*;
use vstd::string::*;

verus! {

// ---------------------------------------------------------------------------
// Bootstrap node configuration
// ---------------------------------------------------------------------------

/// Top-level node configuration, read once at startup.
#[derive(Debug)]
pub struct NodeConfig {
    pub node: NodeSection,
    pub control_plane: ControlPlaneConfig,
    pub tls: TlsConfig,
    pub limits: LimitsConfig,
    pub timeouts: TimeoutsConfig,
    pub upstream: UpstreamConfig,
    pub health_check_defaults: HealthCheckConfig,
}

/// Upstream-leg connection settings.
#[derive(Debug)]
pub struct UpstreamConfig {
    /// Idle pooled connections kept per backend authority. `None` means 32.
    pub idle_per_host: Option<usize>,
    /// Client certificate (PEM) presented to upstreams for mTLS.
    pub client_cert_file: Option<String>,
    /// Client private key (PEM) for mTLS. Required if `client_cert_file` is set.
    pub client_key_file: Option<String>,
    /// Additional CA bundle (PEM) trusted for upstream TLS, on top of the
    /// built-in roots.
    pub extra_ca_file: Option<String>,
}

impl UpstreamConfig {
    /// The bound on idle pooled connections, 32 where none is configured.
    pub fn idle_bound(&self) -> (r: usize)
        ensures
            r == match self.idle_per_host {
                Some(n) => n,
                None => 32,
            },
    {
        match self.idle_per_host {
            Some(n) => n,
            None => 32,
        }
    }

    /// Checks that a client certificate comes with its key.
    pub fn check(&self) -> (r: Result<(), GfeError>)
        ensures
            match r {
                Ok(_) => self.client_cert_file is None || self.client_key_file is Some,
                Err(e) => {
                    &&& self.client_cert_file is Some
                    &&& self.client_key_file is None
                    &&& e matches GfeError::Config(m)
                    &&& m@ == "client_key_file is required if client_cert_file is set"@
                },
            },
    {
        match (&self.client_cert_file, &self.client_key_file) {
            (Some(_), None) => Err(
                GfeError::Config(
                    owned("client_key_file is required if client_cert_file is set"),
                ),
            ),
            _ => Ok(()),
        }
    }
}

impl Default for UpstreamConfig {
    fn default() -> (r: Self)
        ensures
            r.idle_per_host is None,
            r.client_cert_file is None,
            r.client_key_file is None,
            r.extra_ca_file is None,
    {
        UpstreamConfig {
            idle_per_host: None,
            client_cert_file: None,
            client_key_file: None,
            extra_ca_file: None,
        }
    }
}

/// Identity and process settings of one node.
#[derive(Debug)]
pub struct NodeSection {
    pub id: String,
    /// The service VIP configured on this node's loopback. Informational for
    /// logging and metrics; listeners bind the address in the dynamic config.
    pub loopback_vip: IpAddr,
    /// Address for the operations HTTP server (`/healthz`, `/readyz`,
    /// `/metrics`). Defaults to `127.0.0.1:9101`.
    pub metrics_addr: SocketAddr,
    /// Worker thread count. `0` (the default) means one per CPU.
    pub worker_threads: usize,
}

/// The operations server address of a node that names none: `127.0.0.1:9101`.
pub fn default_metrics_addr() -> (r: SocketAddr)
    ensures
        r == (SocketAddr { ip: IpAddr::V4(0x7f00_0001), port: 9101 }),
{
    SocketAddr { ip: IpAddr::V4(0x7f00_0001), port: 9101 }
}

/// Where the dynamic configuration lives and how it is reloaded.
#[derive(Debug)]
pub struct ControlPlaneConfig {
    /// Path to the dynamic config (listeners, routes, pools, certificates),
    /// watched and hot-reloaded.
    pub config_file: String,
    /// Last-known-good cache written on every successful reload.
    pub local_cache: Option<String>,
    /// Coalesce rapid successive file writes into one reload.
    pub reload_debounce: Duration,
}

/// The debounce window of a node that names none: 250 ms.
pub fn default_reload_debounce() -> (r: Duration)
    ensures
        r.wf(),
        r.total_nanos() == 250_000_000,
{
    Duration::from_millis(250)
}

/// Connection, header and stream limits that bound resource use under load.
#[derive(Debug, Clone, Copy, PartialEq, Eq, Structural)]
pub struct LimitsConfig {
    pub max_connections: usize,
    pub max_connections_listener: usize,
    pub max_header_bytes: usize,
    pub max_h2_concurrent_streams: u32,
    pub max_upstream_connections: usize,
}

impl Default for LimitsConfig {
    fn default() -> (r: Self)
        ensures
            r.max_connections == 100_000,
            r.max_connections_listener == 50_000,
            r.max_header_bytes == 65_536,
            r.max_h2_concurrent_streams == 256,
            r.max_upstream_connections == 20_000,
    {
        LimitsConfig {
            max_connections: default_max_connections(),
            max_connections_listener: default_max_connections_listener(),
            max_header_bytes: default_max_header_bytes(),
            max_h2_concurrent_streams: default_max_h2_streams(),
            max_upstream_connections: default_max_upstream_connections(),
        }
    }
}

/// Default bound on concurrent connections of the node.
pub fn default_max_connections() -> (r: usize)
    ensures
        r == 100_000,
{
    100_000
}

/// Default bound on concurrent connections of one listener.
pub fn default_max_connections_listener() -> (r: usize)
    ensures
        r == 50_000,
{
    50_000
}

/// Default bound on the bytes of a request head.
pub fn default_max_header_bytes() -> (r: usize)
    ensures
        r == 65_536,
{
    65_536
}

/// Default bound on concurrent HTTP/2 streams.
pub fn default_max_h2_streams() -> (r: u32)
    ensures
        r == 256,
{
    256
}

/// Default bound on upstream connections.
pub fn default_max_upstream_connections() -> (r: usize)
    ensures
        r == 20_000,
{
    20_000
}

/// Timeouts applied across the connection and request lifecycle.
#[derive(Debug, Clone, Copy, PartialEq, Eq, Structural)]
pub struct TimeoutsConfig {
    pub tls_handshake: Duration,
    pub request_header: Duration,
    pub upstream_connect: Duration,
    pub upstream_first_byte: Duration,
    pub request_total: Duration,
    pub client_idle: Duration,
    pub drain_deadline: Duration,
}

impl Default for TimeoutsConfig {
    fn default() -> (r: Self)
        ensures
            r.tls_handshake == (Duration { secs: 10, nanos: 0 }),
            r.request_header == (Duration { secs: 10, nanos: 0 }),
            r.upstream_connect == (Duration { secs: 3, nanos: 0 }),
            r.upstream_first_byte == (Duration { secs: 30, nanos: 0 }),
            r.request_total == (Duration { secs: 60, nanos: 0 }),
            r.client_idle == (Duration { secs: 75, nanos: 0 }),
            r.drain_deadline == (Duration { secs: 30, nanos: 0 }),
    {
        TimeoutsConfig {
            tls_handshake: d10s(),
            request_header: d10s(),
            upstream_connect: d3s(),
            upstream_first_byte: d30s(),
            request_total: d60s(),
            client_idle: d75s(),
            drain_deadline: d30s(),
        }
    }
}

/// Two seconds.
pub fn d2s() -> (r: Duration)
    ensures
        r == (Duration { secs: 2, nanos: 0 }),
{
    Duration::from_secs(2)
}

/// Three seconds.
pub fn d3s() -> (r: Duration)
    ensures
        r == (Duration { secs: 3, nanos: 0 }),
{
    Duration::from_secs(3)
}

/// Five seconds.
pub fn d5s() -> (r: Duration)
    ensures
        r == (Duration { secs: 5, nanos: 0 }),
{
    Duration::from_secs(5)
}

/// Ten seconds.
pub fn d10s() -> (r: Duration)
    ensures
        r == (Duration { secs: 10, nanos: 0 }),
{
    Duration::from_secs(10)
}

/// Thirty seconds.
pub fn d30s() -> (r: Duration)
    ensures
        r == (Duration { secs: 30, nanos: 0 }),
{
    Duration::from_secs(30)
}

/// Sixty seconds.
pub fn d60s() -> (r: Duration)
    ensures
        r == (Duration { secs: 60, nanos: 0 }),
{
    Duration::from_secs(60)
}

/// Seventy-five seconds.
pub fn d75s() -> (r: Duration)
    ensures
        r == (Duration { secs: 75, nanos: 0 }),
{
    Duration::from_secs(75)
}

/// Health-check parameters; used both as node defaults and (optionally) as
/// per-pool overrides in the dynamic config.
#[derive(Debug, PartialEq, Eq)]
pub struct HealthCheckConfig {
    /// Probe type: HTTP, HTTPS or TCP.
    pub probe_type: ProbeType,
    pub interval: Duration,
    pub timeout: Duration,
    pub healthy_threshold: u32,
    pub unhealthy_threshold: u32,
    /// Request path for HTTP and HTTPS probes.
    pub path: String,
    /// Expected status code for HTTP and HTTPS probes.
    pub expected_status: u16,
    /// Optional lame-duck signal: when an HTTP or HTTPS probe returns this
    /// status, the backend is moved to `Draining` (excluded from new requests
    /// while in-flight requests complete) rather than `Unhealthy`.
    pub drain_status: Option<u16>,
}

impl Clone for HealthCheckConfig {
    fn clone(&self) -> (r: Self)
        ensures
            r == *self,
    {
        HealthCheckConfig {
            probe_type: self.probe_type,
            interval: self.interval,
            timeout: self.timeout,
            healthy_threshold: self.healthy_threshold,
            unhealthy_threshold: self.unhealthy_threshold,
            path: self.path.clone(),
            expected_status: self.expected_status,
            drain_status: self.drain_status,
        }
    }
}

impl Default for HealthCheckConfig {
    fn default() -> (r: Self)
        ensures
            r.probe_type == ProbeType::Http,
            r.interval == (Duration { secs: 5, nanos: 0 }),
            r.timeout == (Duration { secs: 2, nanos: 0 }),
            r.healthy_threshold == 2,
            r.unhealthy_threshold == 3,
            r.path@ == "/healthz"@,
            r.expected_status == 200,
            r.drain_status is None,
    {
        HealthCheckConfig {
            probe_type: default_probe_type(),
            interval: d5s(),
            timeout: d2s(),
            healthy_threshold: default_healthy_threshold(),
            unhealthy_threshold: default_unhealthy_threshold(),
            path: default_health_path(),
            expected_status: default_expected_status(),
            drain_status: None,
        }
    }
}

/// Health-check probe type.
#[derive(Debug, Clone, Copy, PartialEq, Eq, Structural)]
pub enum ProbeType {
    Http,
    Https,
    Tcp,
}

impl Default for ProbeType {
    fn default() -> (r: Self)
        ensures
            r == ProbeType::Http,
    {
        ProbeType::Http
    }
}

/// The probe type of a health check that names none.
pub fn default_probe_type() -> (r: ProbeType)
    ensures
        r == ProbeType::Http,
{
    ProbeType::Http
}

/// Consecutive passes that make a backend healthy.
pub fn default_healthy_threshold() -> (r: u32)
    ensures
        r == 2,
{
    2
}

/// Consecutive failures that make a backend unhealthy.
pub fn default_unhealthy_threshold() -> (r: u32)
    ensures
        r == 3,
{
    3
}

/// The probe path of a health check that names none.
pub fn default_health_path() -> (r: String)
    ensures
        r@ == "/healthz"@,
{
    owned("/healthz")
}

/// The status a probe expects when none is named.
pub fn default_expected_status() -> (r: u16)
    ensures
        r == 200,
{
    200
}

// ---------------------------------------------------------------------------
// Dynamic configuration
// ---------------------------------------------------------------------------

/// The hot-reloadable configuration: certificates, listeners, routes, pools.
#[derive(Debug)]
pub struct DynamicConfig {
    pub certificates: Vec<CertEntry>,
    pub listeners: Vec<Listener>,
    pub routes: Vec<Route>,
    pub pools: Vec<UpstreamPool>,
}

impl Default for DynamicConfig {
    fn default() -> (r: Self)
        ensures
            r.certificates@.len() == 0,
            r.listeners@.len() == 0,
            r.routes@.len() == 0,
            r.pools@.len() == 0,
    {
        DynamicConfig {
            certificates: Vec::new(),
            listeners: Vec::new(),
            routes: Vec::new(),
            pools: Vec::new(),
        }
    }
}

}
