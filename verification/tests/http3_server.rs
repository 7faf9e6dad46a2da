use veil_proxy::http3_server::{request_plan, RequestPlan, STATUS_NO_ROUTE};
use veil_proxy::http3_server::{
    build_proxy_request, content_headers, error_headers, file_headers, file_plan, is_metrics_request,
    memory_file_hit, parse_request_head, redirect_headers, redirect_location, response_headers,
    upstream_path, FilePlan, Http3ServerConfig, PartialResponse, SendOutcome,
};

fn pairs(list: &[(&str, &str)]) -> Vec<(Vec<u8>, Vec<u8>)> {
    list.iter().map(|(n, v)| (n.as_bytes().to_vec(), v.as_bytes().to_vec())).collect()
}

#[test]
fn test_config_default() {
    let config = Http3ServerConfig::default();
    assert_eq!(config.max_idle_timeout, 30000);
    assert_eq!(config.max_udp_payload_size, 1350);
}

#[test]
fn test_config_default_limits() {
    let config = Http3ServerConfig::default();
    assert_eq!(config.cert_path, "");
    assert_eq!(config.key_path, "");
    assert_eq!(config.initial_max_data, 10_000_000);
    assert_eq!(config.initial_max_stream_data_bidi_local, 1_000_000);
    assert_eq!(config.initial_max_stream_data_bidi_remote, 1_000_000);
    assert_eq!(config.initial_max_stream_data_uni, 1_000_000);
    assert_eq!(config.initial_max_streams_bidi, 100);
    assert_eq!(config.initial_max_streams_uni, 100);
}

#[test]
fn test_parse_request_head() {
    let head = parse_request_head(&pairs(&[
        (":method", "POST"),
        (":path", "/a"),
        (":authority", "example.com"),
        ("content-length", "12"),
        (":path", "/b"),
    ]));
    assert_eq!(head.method, b"POST");
    assert_eq!(head.path, b"/b");
    assert_eq!(head.authority, b"example.com");
    assert_eq!(head.content_length, 12);
    let head = parse_request_head(&[]);
    assert_eq!(head.method, b"GET");
    assert_eq!(head.path, b"/");
    assert_eq!(head.authority, b"");
    assert_eq!(head.content_length, 0);
    let head = parse_request_head(&pairs(&[("content-length", "5"), ("content-length", "x")]));
    assert_eq!(head.content_length, 0);
    let mut headers = pairs(&[("content-length", "5")]);
    headers.push((b"content-length".to_vec(), vec![0xff]));
    headers.push((b"Content-Length".to_vec(), b"9".to_vec()));
    assert_eq!(parse_request_head(&headers).content_length, 5);
}

#[test]
fn test_metrics_request() {
    assert!(is_metrics_request(b"GET", b"/__metrics"));
    assert!(!is_metrics_request(b"POST", b"/__metrics"));
    assert!(!is_metrics_request(b"GET", b"/__metrics/"));
    assert!(!is_metrics_request(b"get", b"/__metrics"));
}

#[test]
fn test_response_headers() {
    assert_eq!(
        response_headers(404, &pairs(&[("a", "b"), (":status", "200"), ("c", "d")]), Some(9)),
        pairs(&[(":status", "404"), ("a", "b"), ("c", "d"), ("content-length", "9")])
    );
    assert_eq!(response_headers(301, &[], None), pairs(&[(":status", "301")]));
    assert_eq!(
        response_headers(200, &error_headers(), Some(0)),
        pairs(&[
            (":status", "200"),
            ("content-type", "text/plain"),
            ("server", "zerocopy-server/http3"),
            ("content-length", "0"),
        ])
    );
}

#[test]
fn test_memory_file_hit() {
    assert!(memory_file_hit(b"/logo", b"/logo"));
    assert!(memory_file_hit(b"/logo/", b"/logo"));
    assert!(memory_file_hit(b"/logo///", b"/logo"));
    assert!(!memory_file_hit(b"/logo/x", b"/logo"));
    assert!(!memory_file_hit(b"/logos", b"/logo"));
    assert!(memory_file_hit(b"/anything", b""));
    assert!(memory_file_hit(b"/other", b"/logo"));
    assert!(memory_file_hit(&[0xff], b"/"));
}

#[test]
fn test_file_plan() {
    assert_eq!(file_plan(b"/static/css/a.css", b"/static", true), FilePlan::Below("css/a.css".to_string()));
    assert_eq!(file_plan(b"/static", b"/static", true), FilePlan::Index);
    assert_eq!(file_plan(b"/static///", b"/static", true), FilePlan::Index);
    assert_eq!(file_plan(b"/static/../etc/passwd", b"/static", true), FilePlan::Forbidden);
    assert_eq!(file_plan(b"/static/a..b", b"/static", true), FilePlan::Forbidden);
    assert_eq!(file_plan(b"/static/..", b"/static", false), FilePlan::Forbidden);
    assert_eq!(file_plan(b"/file", b"/file", false), FilePlan::Base);
    assert_eq!(file_plan(b"/file/", b"/file", false), FilePlan::Base);
    assert_eq!(file_plan(b"/file/x", b"/file", false), FilePlan::NotFound);
    assert_eq!(file_plan(b"/x/y", b"", true), FilePlan::Below("x/y".to_string()));
    assert_eq!(file_plan(b"/x/y", b"/other", true), FilePlan::Below("x/y".to_string()));
    assert_eq!(file_plan(&[0xff], b"/p", true), FilePlan::Index);
}

#[test]
fn test_content_headers() {
    let extra = vec![("x-frame-options".to_string(), "DENY".to_string())];
    assert_eq!(
        content_headers("image/png", &extra),
        pairs(&[
            ("content-type", "image/png"),
            ("server", "zerocopy-server/http3"),
            ("x-frame-options", "DENY"),
        ])
    );
    assert_eq!(
        file_headers("/srv/www/index.html", &[]),
        pairs(&[("content-type", "text/html"), ("server", "zerocopy-server/http3")])
    );
    assert_eq!(file_headers("/srv/www/a.CSS", &[])[0].1, b"text/css");
    assert_eq!(file_headers("/srv/www/noext", &[])[0].1, b"application/octet-stream");
    assert_eq!(file_headers("/srv/www/x.unknownext", &[])[0].1, b"application/octet-stream");
}

#[test]
fn test_redirect_location() {
    assert_eq!(redirect_location("https://e.example", false, b"/a/b", b"/a"), "https://e.example");
    assert_eq!(redirect_location("https://e.example", true, b"/a/b", b"/a"), "https://e.example/b");
    assert_eq!(redirect_location("https://e.example/", true, b"/a/b", b"/a"), "https://e.example/b");
    assert_eq!(redirect_location("https://e.example/", true, b"/ab", b"/a"), "https://e.example/b");
    assert_eq!(redirect_location("https://e.example", true, b"/ab", b"/a"), "https://e.example/b");
    assert_eq!(redirect_location("https://e.example", true, b"/a", b"/a"), "https://e.example");
    assert_eq!(
        redirect_location("https://e.example$request_uri", false, b"/a/b", b"/a"),
        "https://e.example/a/b"
    );
    assert_eq!(
        redirect_location("https://e.example/new$path?from=$request_uri", false, b"/a/b", b"/a"),
        "https://e.example/new/b?from=/a/b"
    );
    assert_eq!(redirect_location("https://e.example", true, b"/x", b""), "https://e.example/x");
    assert_eq!(redirect_location("u", true, &[0xff], b""), "u/");
    assert_eq!(
        redirect_headers("https://e.example/b"),
        pairs(&[("location", "https://e.example/b"), ("server", "zerocopy-server/http3")])
    );
}

#[test]
fn test_upstream_path() {
    assert_eq!(upstream_path(b"/api/users", b"", "/ignored"), "/api/users");
    assert_eq!(upstream_path(b"/api/users", b"/api", ""), "/users");
    assert_eq!(upstream_path(b"/api/users", b"/api", "/v2/"), "/v2/users");
    assert_eq!(upstream_path(b"/api/users", b"/api", "/v2///"), "/v2/users");
    assert_eq!(upstream_path(b"/api", b"/api", "/v2"), "/v2/");
    assert_eq!(upstream_path(b"/api", b"/api", ""), "/");
    assert_eq!(upstream_path(b"/apiusers", b"/api", "/v2"), "/v2/users");
    assert_eq!(upstream_path(b"/apiusers", b"/api", ""), "/users");
    assert_eq!(upstream_path(b"/other", b"/api", "/v2"), "/other");
    assert_eq!(upstream_path(&[0xff], b"", "/v2"), "/");
    assert_eq!(upstream_path(b"/x", &[0xff], "/v2"), "/v2/x");
}

#[test]
fn test_build_proxy_request() {
    let headers = pairs(&[
        (":method", "POST"),
        ("accept", "*/*"),
        ("Connection", "close"),
        ("keep-alive", "1"),
        ("host", "front.example"),
    ]);
    assert_eq!(
        build_proxy_request(b"POST", b"/v2/users", b"backend", Some(8080), &headers, b"hello"),
        b"POST /v2/users HTTP/1.1\r\nHost: backend:8080\r\naccept: */*\r\nhost: front.example\r\nContent-Length: 5\r\nConnection: close\r\n\r\nhello"
    );
    assert_eq!(
        build_proxy_request(b"GET", b"/", b"backend", None, &[], b""),
        b"GET / HTTP/1.1\r\nHost: backend\r\nConnection: close\r\n\r\n"
    );
    assert_eq!(
        build_proxy_request(b"GET", b"/", b"b", Some(0), &[], &[0xff]),
        b"GET / HTTP/1.1\r\nHost: b:0\r\nContent-Length: 1\r\nConnection: close\r\n\r\n\xff"
    );
    assert_eq!(
        build_proxy_request(b"GET", b"/", b"b", Some(65535), &[], &vec![0; 12345])[..57].to_vec(),
        b"GET / HTTP/1.1\r\nHost: b:65535\r\nContent-Length: 12345\r\nCon".to_vec()
    );
}

#[test]
fn test_partial_response() {
    let mut partial = PartialResponse::new(b"0123456789".to_vec());
    assert_eq!(partial.remaining(), b"0123456789");
    assert!(!partial.on_sent(SendOutcome::Sent(4)));
    assert_eq!(partial.remaining(), b"456789");
    assert!(!partial.on_sent(SendOutcome::Blocked));
    assert!(!partial.on_sent(SendOutcome::Sent(0)));
    assert_eq!(partial.remaining(), b"456789");
    assert!(partial.on_sent(SendOutcome::Sent(6)));
    assert_eq!(partial.remaining(), b"");
    assert!(partial.on_sent(SendOutcome::Blocked));
    let mut partial = PartialResponse::new(b"abc".to_vec());
    assert!(partial.on_sent(SendOutcome::Failed));
    assert_eq!(partial.remaining(), b"abc");
    assert!(partial.on_sent(SendOutcome::Sent(100)));
    assert_eq!(partial.remaining(), b"");
    assert!(PartialResponse::new(vec![]).on_sent(SendOutcome::Blocked));
}

#[test]
fn test_request_plan() {
    use_plan(b"GET", b"/__metrics", false, None, RequestPlan::Metrics);
    use_plan(b"GET", b"/__metrics", true, Some(403), RequestPlan::Metrics);
    use_plan(b"POST", b"/__metrics", false, None, RequestPlan::NoRoute);
    use_plan(b"GET", b"/", false, Some(403), RequestPlan::NoRoute);
    use_plan(b"GET", b"/", true, Some(403), RequestPlan::Refused(403));
    use_plan(b"GET", b"/", true, Some(429), RequestPlan::Refused(429));
    use_plan(b"GET", b"/__metrics/x", true, None, RequestPlan::Serve);
    assert_eq!(STATUS_NO_ROUTE, 400);
}

fn use_plan(method: &[u8], path: &[u8], has_route: bool, refusal: Option<u16>, expected: RequestPlan) {
    assert_eq!(request_plan(method, path, has_route, refusal), expected);
}

#[test]
fn test_statuses_of_files() {
    assert_eq!(FilePlan::Forbidden.refusal(), Some(403));
    assert_eq!(FilePlan::NotFound.refusal(), Some(404));
    assert_eq!(FilePlan::Base.refusal(), None);
    assert_eq!(FilePlan::Index.refusal(), None);
    assert_eq!(FilePlan::Below("a".to_string()).refusal(), None);
    assert_eq!(veil_proxy::http3_server::memory_file_status(b"/logo", b"/logo"), 200);
    assert_eq!(veil_proxy::http3_server::memory_file_status(b"/logo/", b"/logo"), 200);
    assert_eq!(veil_proxy::http3_server::memory_file_status(b"/logo/x", b"/logo"), 404);
    assert_eq!(veil_proxy::http3_server::STATUS_NOT_CARRIED, 502);
}
