use veil_proxy::wasm::capabilities::{
    default_max_execution_time, default_max_http_calls, default_max_shared_data_size,
    CapabilityPreset, ModuleCapabilities,
};

#[test]
fn test_default_all_false() {
    let caps = ModuleCapabilities::default();
    assert!(!caps.allow_logging);
    assert!(!caps.allow_metrics);
    assert!(!caps.allow_shared_data);
    assert!(!caps.allow_request_headers_read);
    assert!(!caps.allow_request_headers_write);
    assert!(!caps.allow_http_calls);
}

#[test]
fn test_property_allowed() {
    let caps = ModuleCapabilities {
        allowed_properties: vec!["request.*".to_string(), "source.address".to_string()],
        ..Default::default()
    };

    assert!(caps.is_property_allowed("request.path"));
    assert!(caps.is_property_allowed("request.method"));
    assert!(caps.is_property_allowed("source.address"));
    assert!(!caps.is_property_allowed("response.code"));
}

#[test]
fn test_upstream_allowed() {
    let caps = ModuleCapabilities {
        allow_http_calls: true,
        allowed_upstreams: vec!["webdis".to_string()],
        ..Default::default()
    };

    assert!(caps.is_upstream_allowed("webdis"));
    assert!(!caps.is_upstream_allowed("other"));
}

#[test]
fn test_default_limits() {
    let caps = ModuleCapabilities::default();
    assert_eq!(caps.max_http_calls, 10);
    assert_eq!(caps.max_shared_data_size, 1_048_576);
    assert_eq!(caps.max_execution_time_ms, 100);
    assert!(caps.allowed_upstreams.is_empty());
    assert!(caps.allowed_properties.is_empty());
    assert!(!caps.allow_send_local_response);
    assert_eq!(default_max_http_calls(), 10);
    assert_eq!(default_max_shared_data_size(), 1_048_576);
    assert_eq!(default_max_execution_time(), 100);
}

#[test]
fn test_property_patterns() {
    let mut caps = ModuleCapabilities::default();
    assert!(!caps.is_property_allowed("anything"));
    caps.allowed_properties = vec!["*".to_string()];
    assert!(caps.is_property_allowed("anything"));
    assert!(caps.is_property_allowed(""));
    caps.allowed_properties = vec!["request.*".to_string()];
    assert!(caps.is_property_allowed("request"));
    assert!(caps.is_property_allowed("requested"));
    assert!(!caps.is_property_allowed("reques"));
    assert!(caps.is_property_allowed("request.*"));
    caps.allowed_properties = vec![".*".to_string()];
    assert!(caps.is_property_allowed("x"));
    caps.allowed_properties = vec!["a.b".to_string()];
    assert!(caps.is_property_allowed("a.b"));
    assert!(!caps.is_property_allowed("a.b.c"));
}

#[test]
fn test_upstream_rules() {
    let mut caps = ModuleCapabilities::default();
    assert!(!caps.is_upstream_allowed("any"));
    caps.allowed_upstreams = vec!["any".to_string()];
    assert!(!caps.is_upstream_allowed("any"));
    caps.allow_http_calls = true;
    assert!(caps.is_upstream_allowed("any"));
    caps.allowed_upstreams.clear();
    assert!(caps.is_upstream_allowed("whatever"));
}

#[test]
fn test_presets() {
    let minimal = CapabilityPreset::Minimal.to_capabilities();
    assert!(minimal.allow_logging);
    assert!(minimal.allow_request_headers_read);
    assert!(minimal.allow_response_headers_read);
    assert!(!minimal.allow_metrics);
    assert!(!minimal.allow_request_headers_write);
    assert!(!minimal.allow_http_calls);
    assert_eq!(minimal.allowed_properties, vec!["request.path", "request.method", "source.address"]);
    assert_eq!(minimal.max_http_calls, 10);

    let standard = CapabilityPreset::Standard.to_capabilities();
    assert!(standard.allow_metrics);
    assert!(standard.allow_request_headers_write);
    assert!(standard.allow_response_headers_write);
    assert!(standard.allow_send_local_response);
    assert!(!standard.allow_shared_data);
    assert!(!standard.allow_request_body_read);
    assert!(!standard.allow_http_calls);
    assert_eq!(standard.allowed_properties, vec!["request.*", "response.*", "source.address"]);

    let extended = CapabilityPreset::Extended.to_capabilities();
    assert!(extended.allow_shared_data);
    assert!(extended.allow_request_body_read);
    assert!(extended.allow_request_body_write);
    assert!(extended.allow_response_body_read);
    assert!(extended.allow_response_body_write);
    assert!(extended.allow_http_calls);
    assert_eq!(extended.allowed_properties, vec!["*"]);
    assert!(extended.is_upstream_allowed("anything"));
}
