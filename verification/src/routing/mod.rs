//! Request routing.
//!
//! Routes are indexed by each dimension on its own: by host, by path and by
//! source address. A lookup asks every index for its candidates, keeps the
//! routes that all of them name, and returns them in the order in which the
//! operator declared them. A bounded cache remembers recent answers.

pub mod cache;
pub mod cidr;
pub mod host;
pub mod path;
pub mod router;
pub mod table;

pub use cache::{RouteCache, RouteCacheKey};
pub use cidr::{CidrMatcher, IpAddress, IpPattern};
pub use host::HostRouter;
pub use path::PathRouter;
pub use router::OptimizedRouter;
pub use table::{RequestFingerprint, RouteCondition, RoutingTable};
