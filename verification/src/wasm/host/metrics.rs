//! Metrics of a module: counters, gauges and histograms.

use vstd::prelude::*;
use crate::wasm::constants::{
    METRIC_TYPE_COUNTER, METRIC_TYPE_GAUGE, METRIC_TYPE_HISTOGRAM, PROXY_RESULT_BAD_ARGUMENT,
    PROXY_RESULT_INTERNAL_FAILURE, PROXY_RESULT_NOT_ALLOWED, PROXY_RESULT_NOT_FOUND, PROXY_RESULT_OK,
};
use crate::wasm::context::HttpContext;
use crate::wasm::types::Metric;

verus! {

/// Whether a metric type is one of counter, gauge and histogram.
pub open spec fn is_metric_type(metric_type: i32) -> bool {
    metric_type == METRIC_TYPE_COUNTER || metric_type == METRIC_TYPE_GAUGE || metric_type
        == METRIC_TYPE_HISTOGRAM
}

/// The sum of two values, kept within 64 bits.
pub open spec fn saturating_sum(a: i64, b: i64) -> i64 {
    if a + b > i64::MAX {
        i64::MAX
    } else if a + b < i64::MIN {
        i64::MIN
    } else {
        (a + b) as i64
    }
}

/// `proxy_define_metric`: defines a metric and returns its id. A module
/// without the capability for metrics is answered `NOT_ALLOWED`, and
/// nothing changes.
pub fn proxy_define_metric(ctx: &mut HttpContext, metric_type: i32, name: &str) -> (r: (i32, Option<i32>))
    ensures
        r.0 == if !old(ctx).capabilities.allow_metrics {
            PROXY_RESULT_NOT_ALLOWED
        } else if !is_metric_type(metric_type) {
            PROXY_RESULT_BAD_ARGUMENT
        } else if old(ctx).next_metric_id == i32::MAX {
            PROXY_RESULT_INTERNAL_FAILURE
        } else {
            PROXY_RESULT_OK
        },
        r.0 != PROXY_RESULT_OK ==> *final(ctx) == *old(ctx) && r.1 is None,
        r.0 == PROXY_RESULT_OK ==> {
            &&& r.1 == Some(old(ctx).next_metric_id)
            &&& final(ctx).next_metric_id == old(ctx).next_metric_id + 1
            &&& final(ctx).metrics@.dom() == old(ctx).metrics@.dom().insert(old(ctx).next_metric_id)
            &&& final(ctx).metrics@[old(ctx).next_metric_id].metric_type == metric_type
            &&& final(ctx).metrics@[old(ctx).next_metric_id].name@ == name@
            &&& final(ctx).metrics@[old(ctx).next_metric_id].value == 0
            &&& final(ctx).same_but_metrics(old(ctx))
        },
{
    broadcast use vstd::std_specs::hash::group_hash_axioms;

    if !ctx.capabilities.allow_metrics {
        return (PROXY_RESULT_NOT_ALLOWED, None);
    }
    if !(metric_type == METRIC_TYPE_COUNTER || metric_type == METRIC_TYPE_GAUGE || metric_type
        == METRIC_TYPE_HISTOGRAM) {
        return (PROXY_RESULT_BAD_ARGUMENT, None);
    }
    if ctx.next_metric_id == i32::MAX {
        return (PROXY_RESULT_INTERNAL_FAILURE, None);
    }
    let id = ctx.next_metric_id;
    ctx.next_metric_id = id + 1;
    ctx.metrics.insert(id, Metric { metric_type, name: name.to_owned(), value: 0 });
    (PROXY_RESULT_OK, Some(id))
}

/// The status of an access to a metric.
pub open spec fn metric_status(ctx: &HttpContext, id: i32) -> i32 {
    if !ctx.capabilities.allow_metrics {
        PROXY_RESULT_NOT_ALLOWED
    } else if !ctx.metrics@.dom().contains(id) {
        PROXY_RESULT_NOT_FOUND
    } else {
        PROXY_RESULT_OK
    }
}

/// `proxy_get_metric`: the value of a metric.
pub fn proxy_get_metric(ctx: &HttpContext, id: i32) -> (r: (i32, Option<i64>))
    ensures
        r.0 == metric_status(ctx, id),
        r.1 == if r.0 == PROXY_RESULT_OK {
            Some(ctx.metrics@[id].value)
        } else {
            None
        },
{
    broadcast use vstd::std_specs::hash::group_hash_axioms;

    if !ctx.capabilities.allow_metrics {
        return (PROXY_RESULT_NOT_ALLOWED, None);
    }
    match ctx.metrics.get(&id) {
        Some(metric) => (PROXY_RESULT_OK, Some(metric.value)),
        None => (PROXY_RESULT_NOT_FOUND, None),
    }
}

fn store_metric(ctx: &mut HttpContext, id: i32, value: i64)
    requires
        old(ctx).metrics@.dom().contains(id),
    ensures
        final(ctx).same_but_metrics(old(ctx)),
        final(ctx).next_metric_id == old(ctx).next_metric_id,
        final(ctx).metrics@.dom() == old(ctx).metrics@.dom(),
        final(ctx).metrics@[id].value == value,
        final(ctx).metrics@[id].metric_type == old(ctx).metrics@[id].metric_type,
        final(ctx).metrics@[id].name == old(ctx).metrics@[id].name,
        forall|other: i32|
            other != id && old(ctx).metrics@.dom().contains(other) ==> #[trigger] final(ctx).metrics@[other]
                == old(ctx).metrics@[other],
{
    broadcast use vstd::std_specs::hash::group_hash_axioms;

    let updated = match ctx.metrics.get(&id) {
        Some(metric) => Metric { metric_type: metric.metric_type, name: metric.name.clone(), value },
        None => Metric { metric_type: 0, name: String::new(), value },
    };
    ctx.metrics.insert(id, updated);
    assert(final(ctx).metrics@.dom() =~= old(ctx).metrics@.dom());
}

/// `proxy_increment_metric`: adds to a metric; the value stays within 64
/// bits. A module without the capability for metrics is answered
/// `NOT_ALLOWED`, and nothing changes.
pub fn proxy_increment_metric(ctx: &mut HttpContext, id: i32, delta: i64) -> (status: i32)
    ensures
        status == metric_status(old(ctx), id),
        status != PROXY_RESULT_OK ==> *final(ctx) == *old(ctx),
        status == PROXY_RESULT_OK ==> {
            &&& final(ctx).same_but_metrics(old(ctx))
            &&& final(ctx).metrics@.dom() == old(ctx).metrics@.dom()
            &&& final(ctx).metrics@[id].value == saturating_sum(old(ctx).metrics@[id].value, delta)
        },
{
    broadcast use vstd::std_specs::hash::group_hash_axioms;

    if !ctx.capabilities.allow_metrics {
        return PROXY_RESULT_NOT_ALLOWED;
    }
    let current = match ctx.metrics.get(&id) {
        Some(metric) => metric.value,
        None => { return PROXY_RESULT_NOT_FOUND; },
    };
    let sum: i128 = current as i128 + delta as i128;
    let value: i64 = if sum > i64::MAX as i128 {
        i64::MAX
    } else if sum < i64::MIN as i128 {
        i64::MIN
    } else {
        sum as i64
    };
    store_metric(ctx, id, value);
    PROXY_RESULT_OK
}

/// `proxy_record_metric`: sets a metric. A module without the capability
/// for metrics is answered `NOT_ALLOWED`, and nothing changes.
pub fn proxy_record_metric(ctx: &mut HttpContext, id: i32, value: i64) -> (status: i32)
    ensures
        status == metric_status(old(ctx), id),
        status != PROXY_RESULT_OK ==> *final(ctx) == *old(ctx),
        status == PROXY_RESULT_OK ==> {
            &&& final(ctx).same_but_metrics(old(ctx))
            &&& final(ctx).metrics@.dom() == old(ctx).metrics@.dom()
            &&& final(ctx).metrics@[id].value == value
        },
{
    broadcast use vstd::std_specs::hash::group_hash_axioms;

    if !ctx.capabilities.allow_metrics {
        return PROXY_RESULT_NOT_ALLOWED;
    }
    if ctx.metrics.get(&id).is_none() {
        return PROXY_RESULT_NOT_FOUND;
    }
    store_metric(ctx, id, value);
    PROXY_RESULT_OK
}

impl HttpContext {
    /// Whether everything but the metrics and the id of the next metric is
    /// as in `other`.
    pub open spec fn same_but_metrics(&self, other: &Self) -> bool {
        &&& self.context_id == other.context_id
        &&& self.root_context_id == other.root_context_id
        &&& self.request_headers == other.request_headers
        &&& self.request_body == other.request_body
        &&& self.request_trailers == other.request_trailers
        &&& self.request_path == other.request_path
        &&& self.request_method == other.request_method
        &&& self.request_query == other.request_query
        &&& self.request_body_complete == other.request_body_complete
        &&& self.response_status == other.response_status
        &&& self.response_headers == other.response_headers
        &&& self.response_body == other.response_body
        &&& self.response_trailers == other.response_trailers
        &&& self.response_body_complete == other.response_body_complete
        &&& self.client_ip == other.client_ip
        &&& self.plugin_name == other.plugin_name
        &&& self.plugin_configuration == other.plugin_configuration
        &&& self.vm_configuration == other.vm_configuration
        &&& self.request_headers_modified == other.request_headers_modified
        &&& self.request_body_modified == other.request_body_modified
        &&& self.response_headers_modified == other.response_headers_modified
        &&& self.response_body_modified == other.response_body_modified
        &&& self.local_response == other.local_response
        &&& self.pending_http_calls == other.pending_http_calls
        &&& self.next_http_call_token == other.next_http_call_token
        &&& self.http_call_responses == other.http_call_responses
        &&& self.current_http_call_token == other.current_http_call_token
        &&& self.shared_data_cas == other.shared_data_cas
        &&& self.capabilities == other.capabilities
        &&& self.tick_period_ms == other.tick_period_ms
    }
}

} // verus!
