//! State of one HTTP request as the filter hooks see it.

use vstd::prelude::*;
use crate::wasm::host::properties::Properties;
use std::collections::HashMap;
use crate::text::{copy_chars, find_char, first_index, str_chars, string_from_chars};
use crate::wasm::capabilities::ModuleCapabilities;
use crate::wasm::types::{HttpCallResponse, LocalResponse, Metric, PendingHttpCall};

verus! {

/// State of one HTTP request.
pub struct HttpContext {
    /// Id of this context.
    pub context_id: i32,
    /// Id of the root context.
    pub root_context_id: i32,
    /// Request headers.
    pub request_headers: Vec<(String, String)>,
    /// Request body.
    pub request_body: Vec<u8>,
    /// Request trailers.
    pub request_trailers: Vec<(String, String)>,
    /// Request path, query included.
    pub request_path: String,
    /// Request method.
    pub request_method: String,
    /// Query string of the request.
    pub request_query: String,
    /// Whether the request body is complete.
    pub request_body_complete: bool,
    /// Response status.
    pub response_status: u16,
    /// Response headers.
    pub response_headers: Vec<(String, String)>,
    /// Response body.
    pub response_body: Vec<u8>,
    /// Response trailers.
    pub response_trailers: Vec<(String, String)>,
    /// Whether the response body is complete.
    pub response_body_complete: bool,
    /// Address of the client.
    pub client_ip: String,
    /// Name of the plugin.
    pub plugin_name: String,
    /// Plugin configuration.
    pub plugin_configuration: Vec<u8>,
    /// VM configuration.
    pub vm_configuration: Vec<u8>,
    /// Whether a module changed the request headers.
    pub request_headers_modified: bool,
    /// Whether a module changed the request body.
    pub request_body_modified: bool,
    /// Whether a module changed the response headers.
    pub response_headers_modified: bool,
    /// Whether a module changed the response body.
    pub response_body_modified: bool,
    /// The local response, if a module sent one.
    pub local_response: Option<LocalResponse>,
    /// HTTP calls asked for and not answered yet, by token.
    pub pending_http_calls: HashMap<u32, PendingHttpCall>,
    /// Token of the next HTTP call.
    pub next_http_call_token: u32,
    /// Answers to HTTP calls, by token.
    pub http_call_responses: HashMap<u32, HttpCallResponse>,
    /// Token of the HTTP call whose answer is being delivered.
    pub current_http_call_token: Option<u32>,
    /// Metrics defined, by id.
    pub metrics: HashMap<i32, Metric>,
    /// Id of the next metric.
    pub next_metric_id: i32,
    /// Next compare-and-swap value of shared data.
    pub shared_data_cas: u32,
    /// Capabilities of the module.
    pub capabilities: ModuleCapabilities,
    /// Tick period in milliseconds; 0 means no ticks.
    pub tick_period_ms: u32,
}

/// The query string of a path: what follows the first `?`, if there is
/// one.
pub open spec fn query_of(path: Seq<char>) -> Option<Seq<char>> {
    let k = first_index(path, '?');
    if 0 <= k < path.len() {
        Some(path.skip(k + 1))
    } else {
        None
    }
}

impl HttpContext {
    /// Whether the context is as new: nothing received, nothing changed,
    /// nothing pending.
    pub open spec fn is_fresh(&self) -> bool {
        &&& self.root_context_id == 0
        &&& self.request_headers@.len() == 0
        &&& self.request_body@.len() == 0
        &&& self.request_trailers@.len() == 0
        &&& self.request_path@.len() == 0
        &&& self.request_method@.len() == 0
        &&& self.request_query@.len() == 0
        &&& !self.request_body_complete
        &&& self.response_status == 0
        &&& self.response_headers@.len() == 0
        &&& self.response_body@.len() == 0
        &&& self.response_trailers@.len() == 0
        &&& !self.response_body_complete
        &&& self.client_ip@.len() == 0
        &&& self.plugin_name@.len() == 0
        &&& self.plugin_configuration@.len() == 0
        &&& self.vm_configuration@.len() == 0
        &&& !self.request_headers_modified
        &&& !self.request_body_modified
        &&& !self.response_headers_modified
        &&& !self.response_body_modified
        &&& self.local_response is None
        &&& self.pending_http_calls@.len() == 0
        &&& self.next_http_call_token == 1
        &&& self.http_call_responses@.len() == 0
        &&& self.current_http_call_token is None
        &&& self.metrics@.len() == 0
        &&& self.next_metric_id == 1
        &&& self.shared_data_cas == 1
        &&& self.tick_period_ms == 0
    }

    /// A new context for a request.
    pub fn new(context_id: i32, capabilities: ModuleCapabilities) -> (r: Self)
        ensures
            r.context_id == context_id,
            r.capabilities == capabilities,
            r.is_fresh(),
    {
        broadcast use vstd::std_specs::hash::group_hash_axioms;

        Self {
            context_id,
            root_context_id: 0,
            request_headers: Vec::new(),
            request_body: Vec::new(),
            request_trailers: Vec::new(),
            request_path: String::new(),
            request_method: String::new(),
            request_query: String::new(),
            request_body_complete: false,
            response_status: 0,
            response_headers: Vec::new(),
            response_body: Vec::new(),
            response_trailers: Vec::new(),
            response_body_complete: false,
            client_ip: String::new(),
            plugin_name: String::new(),
            plugin_configuration: Vec::new(),
            vm_configuration: Vec::new(),
            request_headers_modified: false,
            request_body_modified: false,
            response_headers_modified: false,
            response_body_modified: false,
            local_response: None,
            pending_http_calls: HashMap::new(),
            next_http_call_token: 1,
            http_call_responses: HashMap::new(),
            current_http_call_token: None,
            metrics: HashMap::new(),
            next_metric_id: 1,
            shared_data_cas: 1,
            capabilities,
            tick_period_ms: 0,
        }
    }

    /// Records the request. The query string is taken from the path; a
    /// path without `?` leaves the query string as it was.
    pub fn set_request(&mut self, method: &str, path: &str, headers: Vec<(String, String)>, client_ip: &str)
        ensures
            final(self).request_method@ == method@,
            final(self).request_path@ == path@,
            final(self).request_headers == headers,
            final(self).client_ip@ == client_ip@,
            final(self).request_query@ == match query_of(path@) {
                Some(q) => q,
                None => old(self).request_query@,
            },
            final(self).same_but_request(old(self)),
    {
        self.request_method = method.to_owned();
        self.request_path = path.to_owned();
        self.request_headers = headers;
        self.client_ip = client_ip.to_owned();
        let chars = str_chars(path);
        let pos = find_char(chars.as_slice(), 0, '?');
        assert(chars@.skip(0) =~= chars@);
        if pos < chars.len() {
            let query = copy_chars(chars.as_slice(), pos + 1, chars.len());
            assert(query@ =~= path@.skip(pos + 1));
            self.request_query = string_from_chars(query.as_slice());
        }
    }

    /// Whether everything but what `set_request` records is as in `other`.
    pub open spec fn same_but_request(&self, other: &Self) -> bool {
        &&& self.context_id == other.context_id
        &&& self.root_context_id == other.root_context_id
        &&& self.request_body == other.request_body
        &&& self.request_trailers == other.request_trailers
        &&& self.request_body_complete == other.request_body_complete
        &&& self.response_status == other.response_status
        &&& self.response_headers == other.response_headers
        &&& self.response_body == other.response_body
        &&& self.response_trailers == other.response_trailers
        &&& self.response_body_complete == other.response_body_complete
        &&& self.plugin_name == other.plugin_name
        &&& self.plugin_configuration == other.plugin_configuration
        &&& self.vm_configuration == other.vm_configuration
        &&& self.request_headers_modified == other.request_headers_modified
        &&& self.request_body_modified == other.request_body_modified
        &&& self.response_headers_modified == other.response_headers_modified
        &&& self.response_body_modified == other.response_body_modified
        &&& self.local_response == other.local_response
        &&& self.pending_http_calls == other.pending_http_calls
        &&& self.next_http_call_token == other.next_http_call_token
        &&& self.http_call_responses == other.http_call_responses
        &&& self.current_http_call_token == other.current_http_call_token
        &&& self.metrics == other.metrics
        &&& self.next_metric_id == other.next_metric_id
        &&& self.shared_data_cas == other.shared_data_cas
        &&& self.capabilities == other.capabilities
        &&& self.tick_period_ms == other.tick_period_ms
    }

    /// Records the request body.
    pub fn set_request_body(&mut self, body: Vec<u8>, complete: bool)
        ensures
            *final(self) == (HttpContext { request_body: body, request_body_complete: complete, ..*old(self) }),
    {
        self.request_body = body;
        self.request_body_complete = complete;
    }

    /// Records the status and the headers of the response.
    pub fn set_response(&mut self, status: u16, headers: Vec<(String, String)>)
        ensures
            *final(self) == (HttpContext { response_status: status, response_headers: headers, ..*old(self) }),
    {
        self.response_status = status;
        self.response_headers = headers;
    }

    /// Records the response body.
    pub fn set_response_body(&mut self, body: Vec<u8>, complete: bool)
        ensures
            *final(self) == (HttpContext {
                response_body: body,
                response_body_complete: complete,
                ..*old(self)
            }),
    {
        self.response_body = body;
        self.response_body_complete = complete;
    }

    /// Hands out the token of the next HTTP call.
    pub fn allocate_http_call_token(&mut self) -> (token: u32)
        requires
            old(self).next_http_call_token < u32::MAX,
        ensures
            token == old(self).next_http_call_token,
            *final(self) == (HttpContext { next_http_call_token: (token + 1) as u32, ..*old(self) }),
    {
        let token = self.next_http_call_token;
        self.next_http_call_token += 1;
        token
    }

    /// Hands out the id of the next metric.
    pub fn allocate_metric_id(&mut self) -> (id: i32)
        requires
            old(self).next_metric_id < i32::MAX,
        ensures
            id == old(self).next_metric_id,
            *final(self) == (HttpContext { next_metric_id: (id + 1) as i32, ..*old(self) }),
    {
        let id = self.next_metric_id;
        self.next_metric_id += 1;
        id
    }

    /// Whether a module changed the request.
    pub fn has_request_modifications(&self) -> (r: bool)
        ensures
            r == (self.request_headers_modified || self.request_body_modified),
    {
        self.request_headers_modified || self.request_body_modified
    }

    /// Whether a module changed the response.
    pub fn has_response_modifications(&self) -> (r: bool)
        ensures
            r == (self.response_headers_modified || self.response_body_modified),
    {
        self.response_headers_modified || self.response_body_modified
    }

    /// Whether a module sent a local response, which is then to be sent in
    /// place of the upstream's.
    pub fn should_send_local_response(&self) -> (r: bool)
        ensures
            r == self.local_response is Some,
    {
        self.local_response.is_some()
    }
}

/// What the host keeps for one running module instance.
pub struct HostState {
    /// State of the request.
    pub http_ctx: HttpContext,
    /// The properties that the module has set in this context.
    pub properties: Properties,
}

impl HostState {
    /// The host state around a context, with no property set.
    pub fn new(http_ctx: HttpContext) -> (r: Self)
        ensures
            r.http_ctx == http_ctx,
            r.properties@ == Seq::<(Seq<char>, Seq<u8>)>::empty(),
    {
        Self { http_ctx, properties: Properties::new() }
    }
}

} // verus!
