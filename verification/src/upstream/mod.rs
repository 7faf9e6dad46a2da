//! Upstream groups: pools of servers behind one name, with load balancing,
//! concurrency limits and health tracking.

pub mod group;

pub use group::{LoadBalanceAlgorithm, ProxyTarget, Scheme, Server, UpstreamGroup};
