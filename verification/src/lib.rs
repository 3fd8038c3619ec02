//! General Front End.
//!
//! The decision logic of an L7 reverse proxy: route matching, load balancing,
//! health tracking, certificate selection, configuration checking and the
//! request life cycle.

pub mod config;
pub mod controller;
pub mod health;
pub mod loadtest;
pub mod metrics;
pub mod number;
pub mod ops;
pub mod problem;
pub mod proxy;
mod random;
pub mod router;
pub mod sort;
pub mod text;
pub mod tls;
pub mod trace;
pub mod types;
pub mod upstream;
