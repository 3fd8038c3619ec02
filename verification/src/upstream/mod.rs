//! Upstream pools: backend health, load-balancing policies and selection.

pub mod client;
pub mod health_map;
pub mod policy;
pub mod pool;

pub use client::{UpstreamClient, UpstreamClientOptions};
pub use health_map::HealthMap;
pub use pool::{InflightGuard, Pool, PoolSet, Selection};
pub use policy::{build_ring, hash64, ring_pick, weighted_pick, RING_REPLICAS};
