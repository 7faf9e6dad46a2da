//! Capabilities of a module.
//!
//! Every capability is denied unless it is granted explicitly.

use vstd::prelude::*;
use crate::text::{chars_start_with, has_prefix, has_suffix, str_chars, str_eq, texts};

verus! {

/// What a module may do.
#[derive(Debug, Clone)]
pub struct ModuleCapabilities {
    /// Logging through `proxy_log`.
    pub allow_logging: bool,
    /// Defining and updating metrics.
    pub allow_metrics: bool,
    /// Reading and writing shared data.
    pub allow_shared_data: bool,
    /// Reading request headers.
    pub allow_request_headers_read: bool,
    /// Changing request headers.
    pub allow_request_headers_write: bool,
    /// Reading the request body.
    pub allow_request_body_read: bool,
    /// Changing the request body.
    pub allow_request_body_write: bool,
    /// Reading response headers.
    pub allow_response_headers_read: bool,
    /// Changing response headers.
    pub allow_response_headers_write: bool,
    /// Reading the response body.
    pub allow_response_body_read: bool,
    /// Changing the response body.
    pub allow_response_body_write: bool,
    /// Sending a local response.
    pub allow_send_local_response: bool,
    /// Calling upstreams over HTTP.
    pub allow_http_calls: bool,
    /// Upstreams that may be called; an empty list allows all.
    pub allowed_upstreams: Vec<String>,
    /// Number of HTTP calls that may be pending at once.
    pub max_http_calls: usize,
    /// Patterns of the properties that may be read.
    pub allowed_properties: Vec<String>,
    /// Size limit of shared data in bytes.
    pub max_shared_data_size: usize,
    /// Time limit of one hook call in milliseconds.
    pub max_execution_time_ms: u64,
}

/// Default number of HTTP calls that may be pending at once.
pub fn default_max_http_calls() -> (r: usize)
    ensures
        r == 10,
{
    10
}

/// Default size limit of shared data: 1 MiB.
pub fn default_max_shared_data_size() -> (r: usize)
    ensures
        r == 1_048_576,
{
    1_048_576
}

/// Default time limit of one hook call: 100 milliseconds.
pub fn default_max_execution_time() -> (r: u64)
    ensures
        r == 100,
{
    100
}

/// Ready-made capability sets.
#[derive(Debug, Clone, Copy, PartialEq, Eq, Structural)]
pub enum CapabilityPreset {
    /// Logging and reading headers; no changes.
    Minimal,
    /// Also metrics, changing headers and local responses.
    Standard,
    /// Also shared data, bodies and HTTP calls.
    Extended,
}

/// Whether a property pattern takes a property path: the pattern is `*`,
/// or it ends in `.*` and the path starts with what stands before, or the
/// two are equal.
pub open spec fn property_pattern_takes(pattern: Seq<char>, path: Seq<char>) -> bool {
    ||| pattern == "*"@
    ||| has_suffix(pattern, ".*"@) && has_prefix(path, pattern.take(pattern.len() - 2))
    ||| pattern == path
}

impl ModuleCapabilities {
    /// Whether nothing is granted and the limits are the default ones.
    pub open spec fn denies_all(&self) -> bool {
        &&& !self.allow_logging
        &&& !self.allow_metrics
        &&& !self.allow_shared_data
        &&& !self.allow_request_headers_read
        &&& !self.allow_request_headers_write
        &&& !self.allow_request_body_read
        &&& !self.allow_request_body_write
        &&& !self.allow_response_headers_read
        &&& !self.allow_response_headers_write
        &&& !self.allow_response_body_read
        &&& !self.allow_response_body_write
        &&& !self.allow_send_local_response
        &&& !self.allow_http_calls
        &&& self.allowed_upstreams@.len() == 0
        &&& self.max_http_calls == 10
        &&& self.allowed_properties@.len() == 0
        &&& self.max_shared_data_size == 1_048_576
        &&& self.max_execution_time_ms == 100
    }

    /// Whether the limits and the list of upstreams are the default ones.
    pub open spec fn has_default_limits(&self) -> bool {
        &&& self.allowed_upstreams@.len() == 0
        &&& self.max_http_calls == 10
        &&& self.max_shared_data_size == 1_048_576
        &&& self.max_execution_time_ms == 100
    }

    /// Whether the property `path` may be read: one of the patterns takes
    /// it.
    pub open spec fn property_allowed(&self, path: Seq<char>) -> bool {
        exists|i: int|
            0 <= i < self.allowed_properties@.len() && property_pattern_takes(
                #[trigger] self.allowed_properties@[i]@,
                path,
            )
    }

    /// Whether the upstream `upstream` may be called: HTTP calls are
    /// granted, and the list of upstreams is empty or names it.
    pub open spec fn upstream_allowed(&self, upstream: Seq<char>) -> bool {
        self.allow_http_calls && (self.allowed_upstreams@.len() == 0 || exists|i: int|
            0 <= i < self.allowed_upstreams@.len() && #[trigger] self.allowed_upstreams@[i]@ == upstream)
    }

    /// Whether a property may be read.
    pub fn is_property_allowed(&self, path: &str) -> (r: bool)
        ensures
            r == self.property_allowed(path@),
    {
        let path_chars = str_chars(path);
        let mut i: usize = 0;
        while i < self.allowed_properties.len()
            invariant
                i <= self.allowed_properties.len(),
                path_chars@ == path@,
                forall|j: int|
                    0 <= j < i ==> !property_pattern_takes(#[trigger] self.allowed_properties@[j]@, path@),
            decreases self.allowed_properties.len() - i,
        {
            let pattern = self.allowed_properties[i].as_str();
            if str_eq(pattern, "*") {
                return true;
            }
            let chars = str_chars(pattern);
            let n = chars.len();
            proof {
                reveal_strlit(".*");
            }
            if n >= 2 && chars[n - 2] == '.' && chars[n - 1] == '*' {
                assert(pattern@.subrange(n - 2, n as int) =~= ".*"@);
                let prefix = vstd::slice::slice_subrange(chars.as_slice(), 0, n - 2);
                assert(prefix@ =~= pattern@.take(n - 2));
                if chars_start_with(path_chars.as_slice(), prefix) {
                    return true;
                }
            } else {
                assert(!has_suffix(pattern@, ".*"@)) by {
                    if has_suffix(pattern@, ".*"@) {
                        assert(pattern@.subrange(n - 2, n as int)[0] == '.');
                        assert(pattern@.subrange(n - 2, n as int)[1] == '*');
                    }
                }
            }
            if str_eq(pattern, path) {
                return true;
            }
            i += 1;
        }
        false
    }

    /// Whether an upstream may be called.
    pub fn is_upstream_allowed(&self, upstream: &str) -> (r: bool)
        ensures
            r == self.upstream_allowed(upstream@),
    {
        if !self.allow_http_calls {
            return false;
        }
        if self.allowed_upstreams.len() == 0 {
            return true;
        }
        let mut i: usize = 0;
        while i < self.allowed_upstreams.len()
            invariant
                i <= self.allowed_upstreams.len(),
                self.allow_http_calls,
                forall|j: int| 0 <= j < i ==> #[trigger] self.allowed_upstreams@[j]@ != upstream@,
            decreases self.allowed_upstreams.len() - i,
        {
            if str_eq(self.allowed_upstreams[i].as_str(), upstream) {
                return true;
            }
            i += 1;
        }
        false
    }
}

impl Default for ModuleCapabilities {
    fn default() -> (r: Self)
        ensures
            r.denies_all(),
    {
        Self {
            allow_logging: false,
            allow_metrics: false,
            allow_shared_data: false,
            allow_request_headers_read: false,
            allow_request_headers_write: false,
            allow_request_body_read: false,
            allow_request_body_write: false,
            allow_response_headers_read: false,
            allow_response_headers_write: false,
            allow_response_body_read: false,
            allow_response_body_write: false,
            allow_send_local_response: false,
            allow_http_calls: false,
            allowed_upstreams: Vec::new(),
            max_http_calls: default_max_http_calls(),
            allowed_properties: Vec::new(),
            max_shared_data_size: default_max_shared_data_size(),
            max_execution_time_ms: default_max_execution_time(),
        }
    }
}

impl CapabilityPreset {
    /// The property patterns of a preset.
    pub open spec fn properties(self) -> Seq<Seq<char>> {
        match self {
            Self::Minimal => seq!["request.path"@, "request.method"@, "source.address"@],
            Self::Standard => seq!["request.*"@, "response.*"@, "source.address"@],
            Self::Extended => seq!["*"@],
        }
    }

    /// The capabilities of a preset. The minimal set grants logging and
    /// reading headers; the standard set adds metrics, changing headers and
    /// local responses; the extended set grants everything.
    pub fn to_capabilities(&self) -> (r: ModuleCapabilities)
        ensures
            r.allow_logging,
            r.allow_request_headers_read,
            r.allow_response_headers_read,
            r.allow_metrics == (*self != Self::Minimal),
            r.allow_request_headers_write == (*self != Self::Minimal),
            r.allow_response_headers_write == (*self != Self::Minimal),
            r.allow_send_local_response == (*self != Self::Minimal),
            r.allow_shared_data == (*self == Self::Extended),
            r.allow_request_body_read == (*self == Self::Extended),
            r.allow_request_body_write == (*self == Self::Extended),
            r.allow_response_body_read == (*self == Self::Extended),
            r.allow_response_body_write == (*self == Self::Extended),
            r.allow_http_calls == (*self == Self::Extended),
            texts(r.allowed_properties@) == self.properties(),
            r.has_default_limits(),
    {
        let mut caps = ModuleCapabilities::default();
        caps.allow_logging = true;
        caps.allow_request_headers_read = true;
        caps.allow_response_headers_read = true;
        let mut properties: Vec<String> = Vec::new();
        match self {
            CapabilityPreset::Minimal => {
                properties.push("request.path".to_owned());
                properties.push("request.method".to_owned());
                properties.push("source.address".to_owned());
            },
            CapabilityPreset::Standard => {
                caps.allow_metrics = true;
                caps.allow_request_headers_write = true;
                caps.allow_response_headers_write = true;
                caps.allow_send_local_response = true;
                properties.push("request.*".to_owned());
                properties.push("response.*".to_owned());
                properties.push("source.address".to_owned());
            },
            CapabilityPreset::Extended => {
                caps.allow_metrics = true;
                caps.allow_shared_data = true;
                caps.allow_request_headers_write = true;
                caps.allow_request_body_read = true;
                caps.allow_request_body_write = true;
                caps.allow_response_headers_write = true;
                caps.allow_response_body_read = true;
                caps.allow_response_body_write = true;
                caps.allow_send_local_response = true;
                caps.allow_http_calls = true;
                properties.push("*".to_owned());
            },
        }
        assert(texts(properties@) =~= self.properties());
        caps.allowed_properties = properties;
        caps
    }
}

} // verus!
