//! Canonical domain types: configuration, routes, pools, listeners, health.

pub mod config;
pub mod duration;
pub mod error;
pub mod listener;
pub mod route;
pub mod tls;
pub mod upstream;

pub use config::{
    ControlPlaneConfig, DynamicConfig, HealthCheckConfig, LimitsConfig, NodeConfig, NodeSection,
    ProbeType, TimeoutsConfig, UpstreamConfig,
};
pub use duration::Duration;
pub use error::GfeError;
pub use listener::{IpAddr, ListenProtocol, Listener, ListenerId, SocketAddr};
pub use route::{FixedAction, RedirectAction, Route, RouteAction, RouteId};
pub use tls::{CertEntry, MinVersion, TlsConfig};
pub use upstream::{HealthStatus, LbPolicy, PoolId, Scheme, Upstream, UpstreamPool};
