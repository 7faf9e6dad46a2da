//! Host side of the Proxy-Wasm v0.2.1 filter engine.
//!
//! What stands here is what the host decides: which capabilities a module
//! has, what state a request carries through the filter hooks, what the
//! host functions answer, and which callbacks are due. Running the modules
//! is left to the embedder.

pub mod capabilities;
pub mod constants;
pub mod context;
pub mod grpc_integration;
pub mod host;
pub mod http_executor;
pub mod queue_notify;
pub mod tick_manager;
pub mod types;

pub use capabilities::{CapabilityPreset, ModuleCapabilities};
pub use context::{HostState, HttpContext};
pub use types::{GlobalPendingCall, HttpCallResponse, LocalResponse, Metric, PendingHttpCall};
