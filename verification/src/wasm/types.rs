//! Values that travel between the host functions and the embedder.

use vstd::prelude::*;

verus! {

/// An HTTP call that a module has asked for and that is not answered yet.
#[derive(Debug, Clone)]
pub struct PendingHttpCall {
    /// Token handed to the module.
    pub token: u32,
    /// Name of the upstream to call.
    pub upstream: String,
    /// Timeout in milliseconds.
    pub timeout_ms: u32,
    /// Request headers, pseudo-headers included.
    pub headers: Vec<(String, String)>,
    /// Request body.
    pub body: Vec<u8>,
    /// Request trailers.
    pub trailers: Vec<(String, String)>,
}

/// The answer to an HTTP call.
#[derive(Debug, Clone)]
pub struct HttpCallResponse {
    /// HTTP status.
    pub status_code: u16,
    /// Response headers.
    pub headers: Vec<(String, String)>,
    /// Response body.
    pub body: Vec<u8>,
    /// Response trailers.
    pub trailers: Vec<(String, String)>,
}

/// A response that a module sends itself, short-circuiting the pipeline.
#[derive(Debug, Clone)]
pub struct LocalResponse {
    /// HTTP status.
    pub status_code: u16,
    /// Response headers.
    pub headers: Vec<(String, String)>,
    /// Response body.
    pub body: Vec<u8>,
}

/// A metric defined by a module.
#[derive(Debug, Clone)]
pub struct Metric {
    /// Kind of metric: counter, gauge or histogram.
    pub metric_type: i32,
    /// Name of the metric.
    pub name: String,
    /// Current value.
    pub value: i64,
}

/// A pending HTTP call together with the module that asked for it.
#[derive(Debug, Clone)]
pub struct GlobalPendingCall {
    /// Name of the module.
    pub module_name: String,
    /// Token of the call.
    pub token: u32,
    /// The call.
    pub call: PendingHttpCall,
}

/// The texts of a list of headers.
pub open spec fn pairs_view(pairs: Seq<(String, String)>) -> Seq<(Seq<char>, Seq<char>)> {
    Seq::new(pairs.len(), |i: int| (pairs[i].0@, pairs[i].1@))
}

} // verus!
