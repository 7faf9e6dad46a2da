use veil_proxy::wasm::host::properties::{property_path, Properties};
use veil_proxy::wasm::capabilities::{CapabilityPreset, ModuleCapabilities};
use veil_proxy::wasm::constants::{
    HTTP_CALL_RESPONSE_BODY, HTTP_CALL_RESPONSE_HEADERS, HTTP_CALL_RESPONSE_TRAILERS,
    HTTP_REQUEST_BODY, HTTP_REQUEST_HEADERS, HTTP_REQUEST_TRAILERS, HTTP_RESPONSE_BODY,
    HTTP_RESPONSE_HEADERS, METRIC_TYPE_COUNTER, METRIC_TYPE_GAUGE, PLUGIN_CONFIGURATION,
    PROXY_RESULT_BAD_ARGUMENT, PROXY_RESULT_CAS_MISMATCH, PROXY_RESULT_EMPTY,
    PROXY_RESULT_INTERNAL_FAILURE, PROXY_RESULT_NOT_ALLOWED, PROXY_RESULT_NOT_FOUND, PROXY_RESULT_OK,
    VM_CONFIGURATION,
};
use veil_proxy::wasm::context::HttpContext;
use veil_proxy::wasm::host::buffers::{proxy_get_buffer_bytes, proxy_set_buffer_bytes};
use veil_proxy::wasm::host::headers::{
    check_access, proxy_add_header_map_value, proxy_get_header_map_pairs, proxy_get_header_map_value,
    proxy_remove_header_map_value, proxy_replace_header_map_value, proxy_set_header_map_pairs,
};
use veil_proxy::wasm::host::metrics::{
    proxy_define_metric, proxy_get_metric, proxy_increment_metric, proxy_record_metric,
};
use veil_proxy::wasm::host::shared_data::SharedData;
use veil_proxy::wasm::host::shared_queue::SharedQueues;
use veil_proxy::wasm::host::stream::{
    proxy_log, proxy_send_local_response, proxy_set_tick_period_milliseconds,
};
use veil_proxy::wasm::queue_notify::{get_queue_subscribers, QueueSubscriptionRegistry};
use veil_proxy::wasm::types::HttpCallResponse;

fn text_pairs(list: &[(&str, &str)]) -> Vec<(String, String)> {
    list.iter().map(|(a, b)| (a.to_string(), b.to_string())).collect()
}

fn context(caps: ModuleCapabilities) -> HttpContext {
    let mut ctx = HttpContext::new(1, caps);
    ctx.set_request("GET", "/", text_pairs(&[("Host", "example.com"), ("Accept", "*/*")]), "10.0.0.1");
    ctx.set_request_body(b"request body".to_vec(), true);
    ctx.set_response(200, text_pairs(&[("content-type", "text/plain")]));
    ctx.set_response_body(b"response body".to_vec(), true);
    ctx
}

#[test]
fn test_header_write_is_denied_without_the_capability() {
    let mut caps = CapabilityPreset::Standard.to_capabilities();
    caps.allow_request_headers_write = false;
    let mut ctx = context(caps);
    let status = proxy_replace_header_map_value(&mut ctx, HTTP_REQUEST_HEADERS, "x-new", "v");
    assert_eq!(status, PROXY_RESULT_NOT_ALLOWED);
    assert_eq!(status, 13);
    assert_eq!(ctx.request_headers, text_pairs(&[("Host", "example.com"), ("Accept", "*/*")]));
    assert!(!ctx.request_headers_modified);
    assert!(!ctx.has_request_modifications());
    assert_eq!(proxy_add_header_map_value(&mut ctx, HTTP_REQUEST_TRAILERS, "a", "b"), 13);
    assert_eq!(proxy_remove_header_map_value(&mut ctx, HTTP_REQUEST_HEADERS, "host"), 13);
    assert_eq!(proxy_set_header_map_pairs(&mut ctx, HTTP_REQUEST_HEADERS, vec![]), 13);
    assert_eq!(ctx.request_headers.len(), 2);
    assert_eq!(proxy_replace_header_map_value(&mut ctx, HTTP_RESPONSE_HEADERS, "x-new", "v"), 0);
    assert!(ctx.response_headers_modified);
}

#[test]
fn test_header_reads() {
    let mut ctx = context(CapabilityPreset::Minimal.to_capabilities());
    assert_eq!(
        proxy_get_header_map_pairs(&ctx, HTTP_REQUEST_HEADERS),
        (PROXY_RESULT_OK, text_pairs(&[("Host", "example.com"), ("Accept", "*/*")]))
    );
    assert_eq!(
        proxy_get_header_map_value(&ctx, HTTP_REQUEST_HEADERS, "HOST"),
        (PROXY_RESULT_OK, Some("example.com".to_string()))
    );
    assert_eq!(proxy_get_header_map_value(&ctx, HTTP_REQUEST_HEADERS, "cookie"), (PROXY_RESULT_NOT_FOUND, None));
    assert_eq!(proxy_get_header_map_pairs(&ctx, HTTP_REQUEST_TRAILERS), (PROXY_RESULT_OK, vec![]));
    assert_eq!(proxy_get_header_map_pairs(&ctx, 4), (PROXY_RESULT_BAD_ARGUMENT, vec![]));
    assert_eq!(proxy_get_header_map_pairs(&ctx, -1), (PROXY_RESULT_BAD_ARGUMENT, vec![]));
    assert_eq!(proxy_get_header_map_pairs(&ctx, HTTP_CALL_RESPONSE_HEADERS), (PROXY_RESULT_NOT_ALLOWED, vec![]));
    ctx.capabilities.allow_request_headers_read = false;
    assert_eq!(proxy_get_header_map_pairs(&ctx, HTTP_REQUEST_HEADERS), (PROXY_RESULT_NOT_ALLOWED, vec![]));
    assert_eq!(proxy_get_header_map_value(&ctx, HTTP_REQUEST_HEADERS, "host"), (PROXY_RESULT_NOT_ALLOWED, None));
    assert_eq!(check_access(&ctx, HTTP_RESPONSE_HEADERS, false), PROXY_RESULT_OK);
    assert_eq!(check_access(&ctx, HTTP_RESPONSE_HEADERS, true), PROXY_RESULT_NOT_ALLOWED);
}

#[test]
fn test_header_writes() {
    let mut ctx = context(CapabilityPreset::Standard.to_capabilities());
    assert_eq!(proxy_add_header_map_value(&mut ctx, HTTP_REQUEST_HEADERS, "accept", "text/html"), 0);
    assert!(ctx.request_headers_modified);
    assert!(!ctx.response_headers_modified);
    assert_eq!(
        ctx.request_headers,
        text_pairs(&[("Host", "example.com"), ("Accept", "*/*"), ("accept", "text/html")])
    );
    assert_eq!(proxy_replace_header_map_value(&mut ctx, HTTP_REQUEST_HEADERS, "ACCEPT", "x"), 0);
    assert_eq!(ctx.request_headers, text_pairs(&[("Host", "example.com"), ("ACCEPT", "x")]));
    assert_eq!(proxy_remove_header_map_value(&mut ctx, HTTP_REQUEST_HEADERS, "host"), 0);
    assert_eq!(proxy_remove_header_map_value(&mut ctx, HTTP_REQUEST_HEADERS, "host"), 0);
    assert_eq!(ctx.request_headers, text_pairs(&[("ACCEPT", "x")]));
    assert_eq!(proxy_set_header_map_pairs(&mut ctx, HTTP_REQUEST_TRAILERS, text_pairs(&[("t", "1")])), 0);
    assert_eq!(ctx.request_trailers, text_pairs(&[("t", "1")]));
    assert_eq!(ctx.request_headers, text_pairs(&[("ACCEPT", "x")]));
    assert_eq!(proxy_add_header_map_value(&mut ctx, HTTP_CALL_RESPONSE_HEADERS, "a", "b"), 13);
    assert_eq!(proxy_remove_header_map_value(&mut ctx, HTTP_CALL_RESPONSE_TRAILERS, "a"), 13);
    let mut calling = context(CapabilityPreset::Extended.to_capabilities());
    assert_eq!(proxy_add_header_map_value(&mut calling, HTTP_CALL_RESPONSE_HEADERS, "a", "b"), 2);
    assert_eq!(proxy_replace_header_map_value(&mut calling, HTTP_CALL_RESPONSE_HEADERS, "a", "b"), 2);
    assert_eq!(proxy_set_header_map_pairs(&mut calling, HTTP_CALL_RESPONSE_TRAILERS, vec![]), 2);
    assert!(!calling.has_request_modifications() && !calling.has_response_modifications());
    assert_eq!(proxy_add_header_map_value(&mut ctx, 99, "a", "b"), 2);
    assert_eq!(ctx.response_headers, text_pairs(&[("content-type", "text/plain")]));
}

#[test]
fn test_call_response_maps() {
    let mut ctx = context(CapabilityPreset::Extended.to_capabilities());
    assert_eq!(proxy_get_header_map_pairs(&ctx, HTTP_CALL_RESPONSE_HEADERS), (0, vec![]));
    ctx.http_call_responses.insert(
        5,
        HttpCallResponse {
            status_code: 200,
            headers: text_pairs(&[("a", "b")]),
            body: b"answer".to_vec(),
            trailers: text_pairs(&[("t", "u")]),
        },
    );
    assert_eq!(proxy_get_header_map_pairs(&ctx, HTTP_CALL_RESPONSE_HEADERS), (0, vec![]));
    ctx.current_http_call_token = Some(5);
    assert_eq!(proxy_get_header_map_pairs(&ctx, HTTP_CALL_RESPONSE_HEADERS), (0, text_pairs(&[("a", "b")])));
    assert_eq!(proxy_get_header_map_value(&ctx, HTTP_CALL_RESPONSE_TRAILERS, "T"), (0, Some("u".to_string())));
    assert_eq!(proxy_get_buffer_bytes(&ctx, HTTP_CALL_RESPONSE_BODY, 2, 3), (0, b"swe".to_vec()));
    ctx.current_http_call_token = Some(6);
    assert_eq!(proxy_get_buffer_bytes(&ctx, HTTP_CALL_RESPONSE_BODY, 0, 3), (0, vec![]));
}

#[test]
fn test_buffers() {
    let mut ctx = context(CapabilityPreset::Extended.to_capabilities());
    ctx.plugin_configuration = b"plugin".to_vec();
    ctx.vm_configuration = b"vm".to_vec();
    assert_eq!(proxy_get_buffer_bytes(&ctx, HTTP_REQUEST_BODY, 0, 7), (0, b"request".to_vec()));
    assert_eq!(proxy_get_buffer_bytes(&ctx, HTTP_REQUEST_BODY, 8, 100), (0, b"body".to_vec()));
    assert_eq!(proxy_get_buffer_bytes(&ctx, HTTP_REQUEST_BODY, 12, 1), (0, vec![]));
    assert_eq!(proxy_get_buffer_bytes(&ctx, HTTP_REQUEST_BODY, usize::MAX, usize::MAX), (0, vec![]));
    assert_eq!(proxy_get_buffer_bytes(&ctx, HTTP_RESPONSE_BODY, 9, 0), (0, vec![]));
    assert_eq!(proxy_get_buffer_bytes(&ctx, PLUGIN_CONFIGURATION, 0, 99), (0, b"plugin".to_vec()));
    assert_eq!(proxy_get_buffer_bytes(&ctx, VM_CONFIGURATION, 1, 99), (0, b"m".to_vec()));
    assert_eq!(proxy_get_buffer_bytes(&ctx, 3, 0, 1), (PROXY_RESULT_BAD_ARGUMENT, vec![]));
    assert_eq!(proxy_set_buffer_bytes(&mut ctx, HTTP_REQUEST_BODY, 0, 7, b"new"), 0);
    assert_eq!(ctx.request_body, b"new body");
    assert!(ctx.request_body_modified);
    assert_eq!(proxy_set_buffer_bytes(&mut ctx, HTTP_REQUEST_BODY, 100, 5, b"!"), 0);
    assert_eq!(ctx.request_body, b"new body!");
    assert_eq!(proxy_set_buffer_bytes(&mut ctx, HTTP_RESPONSE_BODY, 8, usize::MAX, b""), 0);
    assert_eq!(ctx.response_body, b"response");
    assert_eq!(proxy_set_buffer_bytes(&mut ctx, HTTP_RESPONSE_BODY, 0, 0, b">"), 0);
    assert_eq!(ctx.response_body, b">response");
    assert_eq!(proxy_set_buffer_bytes(&mut ctx, PLUGIN_CONFIGURATION, 0, 0, b"x"), 2);
    assert_eq!(proxy_set_buffer_bytes(&mut ctx, 77, 0, 0, b"x"), 2);
    assert_eq!(ctx.plugin_configuration, b"plugin");
}

#[test]
fn test_buffers_are_denied_without_the_capability() {
    let mut ctx = context(CapabilityPreset::Standard.to_capabilities());
    assert_eq!(proxy_get_buffer_bytes(&ctx, HTTP_REQUEST_BODY, 0, 7), (13, vec![]));
    assert_eq!(proxy_get_buffer_bytes(&ctx, HTTP_RESPONSE_BODY, 0, 7), (13, vec![]));
    assert_eq!(proxy_get_buffer_bytes(&ctx, HTTP_CALL_RESPONSE_BODY, 0, 7), (13, vec![]));
    assert_eq!(proxy_get_buffer_bytes(&ctx, PLUGIN_CONFIGURATION, 0, 7), (0, vec![]));
    assert_eq!(proxy_set_buffer_bytes(&mut ctx, HTTP_REQUEST_BODY, 0, 7, b"new"), 13);
    assert_eq!(proxy_set_buffer_bytes(&mut ctx, HTTP_CALL_RESPONSE_BODY, 0, 7, b"new"), 13);
    assert_eq!(proxy_set_buffer_bytes(&mut ctx, PLUGIN_CONFIGURATION, 0, 7, b"new"), 2);
    let mut calling = context(CapabilityPreset::Extended.to_capabilities());
    assert_eq!(proxy_set_buffer_bytes(&mut calling, HTTP_CALL_RESPONSE_BODY, 0, 7, b"new"), 2);
    assert_eq!(proxy_set_buffer_bytes(&mut ctx, HTTP_RESPONSE_BODY, 0, 7, b"new"), 13);
    assert_eq!(ctx.request_body, b"request body");
    assert_eq!(ctx.response_body, b"response body");
    assert!(!ctx.request_body_modified && !ctx.response_body_modified);
}

#[test]
fn test_log_tick_and_local_response() {
    let mut ctx = context(ModuleCapabilities::default());
    assert_eq!(proxy_log(&ctx, 2), 13);
    assert_eq!(proxy_send_local_response(&mut ctx, 403, vec![], b"no".to_vec()), 13);
    assert!(!ctx.should_send_local_response());
    assert_eq!(proxy_set_tick_period_milliseconds(&mut ctx, 250), 0);
    assert_eq!(ctx.tick_period_ms, 250);
    let mut ctx = context(CapabilityPreset::Standard.to_capabilities());
    assert_eq!(proxy_log(&ctx, 0), 0);
    assert_eq!(proxy_log(&ctx, 5), 0);
    assert_eq!(proxy_log(&ctx, 6), 2);
    assert_eq!(proxy_log(&ctx, -1), 2);
    assert_eq!(proxy_send_local_response(&mut ctx, 99, vec![], vec![]), 2);
    assert_eq!(proxy_send_local_response(&mut ctx, 600, vec![], vec![]), 2);
    assert!(!ctx.should_send_local_response());
    assert_eq!(proxy_send_local_response(&mut ctx, 403, text_pairs(&[("a", "b")]), b"no".to_vec()), 0);
    assert!(ctx.should_send_local_response());
    let local = ctx.local_response.as_ref().unwrap();
    assert_eq!(local.status_code, 403);
    assert_eq!(local.headers, text_pairs(&[("a", "b")]));
    assert_eq!(local.body, b"no");
}

#[test]
fn test_metrics() {
    let mut ctx = context(CapabilityPreset::Standard.to_capabilities());
    assert_eq!(proxy_define_metric(&mut ctx, METRIC_TYPE_COUNTER, "requests"), (0, Some(1)));
    assert_eq!(proxy_define_metric(&mut ctx, METRIC_TYPE_GAUGE, "load"), (0, Some(2)));
    assert_eq!(proxy_define_metric(&mut ctx, 3, "bad"), (2, None));
    assert_eq!(proxy_get_metric(&ctx, 1), (0, Some(0)));
    assert_eq!(proxy_increment_metric(&mut ctx, 1, 5), 0);
    assert_eq!(proxy_increment_metric(&mut ctx, 1, -2), 0);
    assert_eq!(proxy_get_metric(&ctx, 1), (0, Some(3)));
    assert_eq!(proxy_record_metric(&mut ctx, 2, -7), 0);
    assert_eq!(proxy_get_metric(&ctx, 2), (0, Some(-7)));
    assert_eq!(proxy_increment_metric(&mut ctx, 2, i64::MIN), 0);
    assert_eq!(proxy_get_metric(&ctx, 2), (0, Some(i64::MIN)));
    assert_eq!(proxy_record_metric(&mut ctx, 1, i64::MAX), 0);
    assert_eq!(proxy_increment_metric(&mut ctx, 1, 1), 0);
    assert_eq!(proxy_get_metric(&ctx, 1), (0, Some(i64::MAX)));
    assert_eq!(proxy_get_metric(&ctx, 3), (1, None));
    assert_eq!(proxy_increment_metric(&mut ctx, 3, 1), 1);
    assert_eq!(proxy_record_metric(&mut ctx, 0, 1), 1);
    assert_eq!(ctx.metrics[&1].name, "requests");
    assert_eq!(ctx.metrics[&1].metric_type, METRIC_TYPE_COUNTER);
    ctx.next_metric_id = i32::MAX;
    assert_eq!(proxy_define_metric(&mut ctx, METRIC_TYPE_COUNTER, "x"), (PROXY_RESULT_INTERNAL_FAILURE, None));
    ctx.capabilities.allow_metrics = false;
    assert_eq!(proxy_define_metric(&mut ctx, METRIC_TYPE_COUNTER, "x"), (13, None));
    assert_eq!(proxy_get_metric(&ctx, 1), (13, None));
    assert_eq!(proxy_increment_metric(&mut ctx, 1, 1), 13);
    assert_eq!(proxy_record_metric(&mut ctx, 1, 1), 13);
    assert_eq!(ctx.metrics[&1].value, i64::MAX);
    assert_eq!(ctx.metrics.len(), 2);
}

#[test]
fn test_shared_data() {
    let mut caps = CapabilityPreset::Extended.to_capabilities();
    caps.max_shared_data_size = 4;
    let mut store = SharedData::new();
    assert_eq!(store.proxy_get_shared_data(&caps, "k"), (PROXY_RESULT_NOT_FOUND, None));
    assert_eq!(store.proxy_set_shared_data(&caps, "k", b"one", 0), PROXY_RESULT_OK);
    assert_eq!(store.proxy_get_shared_data(&caps, "k"), (0, Some((b"one".to_vec(), 1))));
    assert_eq!(store.proxy_set_shared_data(&caps, "k", b"two", 7), PROXY_RESULT_CAS_MISMATCH);
    assert_eq!(store.proxy_set_shared_data(&caps, "other", b"x", 1), PROXY_RESULT_CAS_MISMATCH);
    assert_eq!(store.proxy_set_shared_data(&caps, "k", b"two", 1), PROXY_RESULT_OK);
    assert_eq!(store.proxy_get_shared_data(&caps, "k"), (0, Some((b"two".to_vec(), 2))));
    assert_eq!(store.proxy_set_shared_data(&caps, "k", b"three", 1), PROXY_RESULT_CAS_MISMATCH);
    assert_eq!(store.proxy_set_shared_data(&caps, "k", b"three", 2), PROXY_RESULT_INTERNAL_FAILURE);
    assert_eq!(store.proxy_set_shared_data(&caps, "j", b"", 0), PROXY_RESULT_OK);
    assert_eq!(store.proxy_get_shared_data(&caps, "j"), (0, Some((vec![], 3))));
    assert_eq!(store.proxy_get_shared_data(&caps, "k"), (0, Some((b"two".to_vec(), 2))));
    let denied = ModuleCapabilities::default();
    assert_eq!(store.proxy_get_shared_data(&denied, "k"), (PROXY_RESULT_NOT_ALLOWED, None));
    assert_eq!(store.proxy_set_shared_data(&denied, "k", b"x", 0), PROXY_RESULT_NOT_ALLOWED);
    assert_eq!(store.proxy_get_shared_data(&caps, "k"), (0, Some((b"two".to_vec(), 2))));
}

#[test]
fn test_shared_queues() {
    let mut queues = SharedQueues::new();
    let mut registry = QueueSubscriptionRegistry::new();
    assert_eq!(queues.proxy_dequeue_shared_queue(1), (PROXY_RESULT_NOT_FOUND, None));
    assert_eq!(queues.proxy_enqueue_shared_queue(&registry, 1, b"x"), (PROXY_RESULT_NOT_FOUND, vec![]));
    assert_eq!(
        SharedQueues::proxy_resolve_shared_queue(&mut registry, "reader", "jobs"),
        (PROXY_RESULT_NOT_FOUND, None)
    );
    assert_eq!(queues.proxy_register_shared_queue(&mut registry, "jobs"), (0, Some(1)));
    assert_eq!(queues.proxy_register_shared_queue(&mut registry, "jobs"), (0, Some(1)));
    assert_eq!(queues.proxy_register_shared_queue(&mut registry, "other"), (0, Some(2)));
    assert_eq!(queues.proxy_dequeue_shared_queue(1), (PROXY_RESULT_EMPTY, None));
    assert_eq!(queues.proxy_enqueue_shared_queue(&registry, 1, b"first"), (0, vec![]));
    assert_eq!(SharedQueues::proxy_resolve_shared_queue(&mut registry, "reader", "jobs"), (0, Some(1)));
    assert_eq!(SharedQueues::proxy_resolve_shared_queue(&mut registry, "second", "jobs"), (0, Some(1)));
    assert_eq!(SharedQueues::proxy_resolve_shared_queue(&mut registry, "reader", "jobs"), (0, Some(1)));
    assert_eq!(get_queue_subscribers(&registry, 1), vec!["reader", "second"]);
    assert_eq!(
        queues.proxy_enqueue_shared_queue(&registry, 1, b"second"),
        (0, vec!["reader".to_string(), "second".to_string()])
    );
    assert_eq!(queues.proxy_enqueue_shared_queue(&registry, 2, b"elsewhere"), (0, vec![]));
    assert_eq!(queues.proxy_dequeue_shared_queue(1), (0, Some(b"first".to_vec())));
    assert_eq!(queues.proxy_dequeue_shared_queue(1), (0, Some(b"second".to_vec())));
    assert_eq!(queues.proxy_dequeue_shared_queue(1), (PROXY_RESULT_EMPTY, None));
    assert_eq!(queues.proxy_dequeue_shared_queue(2), (0, Some(b"elsewhere".to_vec())));
    assert_eq!(
        queues.proxy_enqueue_shared_queue(&registry, 1, &vec![0; 65537]),
        (PROXY_RESULT_BAD_ARGUMENT, vec![])
    );
    assert_eq!(queues.proxy_enqueue_shared_queue(&registry, 1, &vec![0; 65536]).0, 0);
    for _ in 0..999 {
        assert_eq!(queues.proxy_enqueue_shared_queue(&registry, 1, b"m").0, 0);
    }
    assert_eq!(queues.proxy_enqueue_shared_queue(&registry, 1, b"m"), (PROXY_RESULT_INTERNAL_FAILURE, vec![]));
    assert_eq!(queues.proxy_dequeue_shared_queue(1).1.unwrap().len(), 65536);
    assert_eq!(queues.proxy_enqueue_shared_queue(&registry, 1, b"m").0, 0);
}

#[test]
fn test_properties() {
    let mut caps = CapabilityPreset::Minimal.to_capabilities();
    caps.allowed_properties = vec!["request.*".to_string(), "response.code".to_string(), "note".to_string()];
    let mut ctx = context(caps);
    ctx.set_request("POST", "/a/b", vec![], "10.1.2.3");
    ctx.request_query = "x=1".to_string();
    ctx.set_response(404, vec![]);
    let mut properties = Properties::new();
    assert_eq!(properties.proxy_get_property(&ctx, "request.path"), (0, Some(b"/a/b".to_vec())));
    assert_eq!(properties.proxy_get_property(&ctx, "request.method"), (0, Some(b"POST".to_vec())));
    assert_eq!(properties.proxy_get_property(&ctx, "request.query"), (0, Some(b"x=1".to_vec())));
    assert_eq!(
        properties.proxy_get_property(&ctx, "response.code"),
        (0, Some(404i64.to_le_bytes().to_vec()))
    );
    assert_eq!(properties.proxy_get_property(&ctx, "request.unknown"), (PROXY_RESULT_NOT_FOUND, None));
    assert_eq!(properties.proxy_get_property(&ctx, "source.address"), (PROXY_RESULT_NOT_ALLOWED, None));
    assert_eq!(properties.proxy_get_property(&ctx, "plugin_name"), (PROXY_RESULT_NOT_ALLOWED, None));
    assert_eq!(properties.proxy_get_property(&ctx, "note"), (PROXY_RESULT_NOT_FOUND, None));

    assert_eq!(properties.proxy_set_property("note", b"one"), PROXY_RESULT_OK);
    assert_eq!(properties.proxy_set_property("hidden", b"h"), PROXY_RESULT_OK);
    assert_eq!(properties.proxy_set_property("request.path", b"/mine"), PROXY_RESULT_OK);
    assert_eq!(properties.proxy_set_property("", b"x"), PROXY_RESULT_BAD_ARGUMENT);
    assert_eq!(properties.proxy_get_property(&ctx, "note"), (0, Some(b"one".to_vec())));
    assert_eq!(properties.proxy_set_property("note", b"two"), PROXY_RESULT_OK);
    assert_eq!(properties.proxy_get_property(&ctx, "note"), (0, Some(b"two".to_vec())));
    assert_eq!(properties.proxy_get_property(&ctx, "hidden"), (PROXY_RESULT_NOT_ALLOWED, None));
    assert_eq!(properties.proxy_get_property(&ctx, "request.path"), (0, Some(b"/mine".to_vec())));
    assert_eq!(properties.proxy_get_property(&ctx, "request.method"), (0, Some(b"POST".to_vec())));
    ctx.capabilities.allowed_properties = vec!["*".to_string()];
    assert_eq!(properties.proxy_get_property(&ctx, "source.address"), (0, Some(b"10.1.2.3".to_vec())));
    assert_eq!(properties.proxy_get_property(&ctx, "plugin_name"), (0, Some(ctx.plugin_name.clone().into_bytes())));
    assert_eq!(properties.proxy_get_property(&ctx, "hidden"), (0, Some(b"h".to_vec())));
}

#[test]
fn test_property_paths() {
    assert_eq!(property_path(b"request\0path"), Some("request.path".to_string()));
    assert_eq!(property_path(b"request.path"), Some("request.path".to_string()));
    assert_eq!(property_path(b"a\0b\0c"), Some("a.b.c".to_string()));
    assert_eq!(property_path(b""), Some(String::new()));
    assert_eq!(property_path(&[0xff, 0]), None);
}
