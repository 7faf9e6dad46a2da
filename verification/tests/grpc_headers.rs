use std::time::Duration;
use veil_proxy::grpc::headers::{
    format_grpc_timeout, is_grpc_content_type, is_grpc_request, parse_grpc_timeout, GrpcEncoding,
    GrpcHeaders, GRPC_CONTENT_TYPE_JSON, GRPC_CONTENT_TYPE_PREFIX, GRPC_CONTENT_TYPE_PROTO,
};

fn pairs(list: &[(&[u8], &[u8])]) -> Vec<(Vec<u8>, Vec<u8>)> {
    list.iter().map(|(n, v)| (n.to_vec(), v.to_vec())).collect()
}

#[test]
fn test_is_grpc_content_type() {
    assert!(is_grpc_content_type(b"application/grpc"));
    assert!(is_grpc_content_type(b"application/grpc+proto"));
    assert!(is_grpc_content_type(b"application/grpc+json"));
    assert!(is_grpc_content_type(b"Application/GRPC"));

    assert!(!is_grpc_content_type(b"application/json"));
    assert!(!is_grpc_content_type(b"text/plain"));
    assert!(!is_grpc_content_type(b""));
}

#[test]
fn test_parse_grpc_timeout() {
    assert_eq!(parse_grpc_timeout(b"10S"), Some(Duration::from_secs(10)));
    assert_eq!(parse_grpc_timeout(b"100m"), Some(Duration::from_millis(100)));
    assert_eq!(parse_grpc_timeout(b"1H"), Some(Duration::from_secs(3600)));
    assert_eq!(parse_grpc_timeout(b"5M"), Some(Duration::from_secs(300)));
    assert_eq!(parse_grpc_timeout(b"1000u"), Some(Duration::from_micros(1000)));
    assert_eq!(parse_grpc_timeout(b"1000000n"), Some(Duration::from_nanos(1_000_000)));

    assert_eq!(parse_grpc_timeout(b""), None);
    assert_eq!(parse_grpc_timeout(b"10X"), None);
    assert_eq!(parse_grpc_timeout(b"abc"), None);
}

#[test]
fn test_format_grpc_timeout() {
    assert_eq!(format_grpc_timeout(Duration::from_secs(3600)), "1H");
    assert_eq!(format_grpc_timeout(Duration::from_secs(60)), "1M");
    assert_eq!(format_grpc_timeout(Duration::from_secs(10)), "10S");
    assert_eq!(format_grpc_timeout(Duration::from_millis(100)), "100m");
    assert_eq!(format_grpc_timeout(Duration::from_micros(500)), "500u");
}

#[test]
fn test_grpc_headers_parsing() {
    let headers = pairs(&[
        (b":path", b"/package.Service/Method"),
        (b":authority", b"localhost:50051"),
        (b"content-type", b"application/grpc+proto"),
        (b"grpc-timeout", b"30S"),
        (b"grpc-encoding", b"gzip"),
        (b"grpc-accept-encoding", b"gzip,identity"),
    ]);

    let parsed = GrpcHeaders::from_headers(&headers);

    assert_eq!(parsed.timeout, Some(Duration::from_secs(30)));
    assert_eq!(parsed.encoding, GrpcEncoding::Gzip);
    assert_eq!(parsed.accept_encoding.len(), 2);
    assert_eq!(parsed.path.as_deref(), Some("/package.Service/Method"));
    assert_eq!(parsed.authority.as_deref(), Some("localhost:50051"));
    assert_eq!(parsed.service_name(), Some("package.Service"));
    assert_eq!(parsed.method_name(), Some("Method"));
}

#[test]
fn test_grpc_encoding() {
    assert_eq!(GrpcEncoding::from_bytes(b"identity"), Some(GrpcEncoding::Identity));
    assert_eq!(GrpcEncoding::from_bytes(b"gzip"), Some(GrpcEncoding::Gzip));
    assert_eq!(GrpcEncoding::from_bytes(b"GZIP"), Some(GrpcEncoding::Gzip));
    assert_eq!(GrpcEncoding::from_bytes(b"deflate"), Some(GrpcEncoding::Deflate));
    assert_eq!(GrpcEncoding::from_bytes(b"unknown"), None);

    assert!(!GrpcEncoding::Identity.is_compressed());
    assert!(GrpcEncoding::Gzip.is_compressed());
}

#[test]
fn test_is_grpc_request() {
    let grpc_headers: Vec<(Vec<u8>, Vec<u8>)> =
        vec![(b"content-type".to_vec(), b"application/grpc".to_vec())];
    assert!(is_grpc_request(&grpc_headers));

    let http_headers: Vec<(Vec<u8>, Vec<u8>)> =
        vec![(b"content-type".to_vec(), b"application/json".to_vec())];
    assert!(!is_grpc_request(&http_headers));
}

#[test]
fn test_content_type_constants() {
    assert_eq!(GRPC_CONTENT_TYPE_PREFIX, "application/grpc");
    assert_eq!(GRPC_CONTENT_TYPE_PROTO, "application/grpc+proto");
    assert_eq!(GRPC_CONTENT_TYPE_JSON, "application/grpc+json");
    assert!(is_grpc_content_type(GRPC_CONTENT_TYPE_JSON.as_bytes()));
}

#[test]
fn test_is_grpc_request_looks_at_every_header() {
    let headers = pairs(&[
        (b"accept", b"*/*"),
        (b"Content-Type", b"APPLICATION/GRPC+proto"),
    ]);
    assert!(is_grpc_request(&headers));
    let headers = pairs(&[(b"x-content-type", b"application/grpc")]);
    assert!(!is_grpc_request(&headers));
    assert!(!is_grpc_request(&[]));
}

#[test]
fn test_timeout_edge_cases() {
    assert_eq!(parse_grpc_timeout(b"0n"), Some(Duration::from_nanos(0)));
    assert_eq!(parse_grpc_timeout(b"S"), None);
    assert_eq!(parse_grpc_timeout(b"+5S"), Some(Duration::from_secs(5)));
    assert_eq!(parse_grpc_timeout(b"-5S"), None);
    assert_eq!(parse_grpc_timeout(b"5s"), None);
    assert_eq!(parse_grpc_timeout(b"5 S"), None);
    assert_eq!(parse_grpc_timeout(b"1.5S"), None);
    assert_eq!(parse_grpc_timeout(&[0x31, 0xc3, 0xa9]), None);
    assert_eq!(parse_grpc_timeout(b"18446744073709551615S"), Some(Duration::from_secs(u64::MAX)));
    assert_eq!(parse_grpc_timeout(b"18446744073709551616S"), None);
    assert_eq!(parse_grpc_timeout(b"18446744073709551615H"), None);
    assert_eq!(
        parse_grpc_timeout(b"5124095576030431H"),
        Some(Duration::from_secs(5124095576030431 * 3600))
    );
    assert_eq!(parse_grpc_timeout(b"5124095576030432H"), None);
    assert_eq!(
        parse_grpc_timeout(b"18446744073709551615n"),
        Some(Duration::from_nanos(u64::MAX))
    );
}

#[test]
fn test_format_picks_the_coarsest_exact_unit() {
    assert_eq!(format_grpc_timeout(Duration::from_secs(0)), "0n");
    assert_eq!(format_grpc_timeout(Duration::from_secs(7200)), "2H");
    assert_eq!(format_grpc_timeout(Duration::from_secs(3660)), "61M");
    assert_eq!(format_grpc_timeout(Duration::from_secs(3601)), "3601S");
    assert_eq!(format_grpc_timeout(Duration::from_millis(1500)), "1500m");
    assert_eq!(format_grpc_timeout(Duration::from_micros(1_000_001)), "1000001u");
    assert_eq!(format_grpc_timeout(Duration::from_nanos(1_000_000_001)), "1000000001n");
    assert_eq!(format_grpc_timeout(Duration::new(3600, 5)), "3600000000005n");
}

#[test]
fn test_timeout_round_trip() {
    let samples = [
        Duration::from_secs(0),
        Duration::from_secs(1),
        Duration::from_secs(59),
        Duration::from_secs(86400),
        Duration::from_millis(1),
        Duration::from_millis(999_999),
        Duration::from_micros(7),
        Duration::from_nanos(123_456_789),
        Duration::new(12, 345_000_000),
        Duration::new(u64::MAX, 0),
    ];
    for d in samples {
        let text = format_grpc_timeout(d);
        assert_eq!(parse_grpc_timeout(text.as_bytes()), Some(d), "value {:?}", text);
    }
}

#[test]
fn test_from_headers_last_occurrence_decides() {
    let headers = pairs(&[
        (b"GRPC-Timeout", b"1S"),
        (b"grpc-timeout", b"bogus"),
        (b"grpc-encoding", b"deflate"),
        (b"grpc-encoding", b"br"),
        (b":path", b"/a/b"),
        (b":Path", b"/ignored/x"),
        (b"grpc-message-type", b"pkg.Msg"),
        (b":authority", &[0xff]),
    ]);
    let parsed = GrpcHeaders::from_headers(&headers);
    assert_eq!(parsed.timeout, None);
    assert_eq!(parsed.encoding, GrpcEncoding::Identity);
    assert_eq!(parsed.path.as_deref(), Some("/a/b"));
    assert_eq!(parsed.message_type.as_deref(), Some("pkg.Msg"));
    assert_eq!(parsed.authority, None);
    assert!(parsed.accept_encoding.is_empty());
}

#[test]
fn test_parse_accept_encoding() {
    assert_eq!(
        GrpcHeaders::parse_accept_encoding(b" gzip , Deflate,br,,identity\t"),
        vec![GrpcEncoding::Gzip, GrpcEncoding::Deflate, GrpcEncoding::Identity]
    );
    assert_eq!(GrpcHeaders::parse_accept_encoding(b""), vec![]);
    assert_eq!(GrpcHeaders::parse_accept_encoding(&[0x67, 0xff]), vec![]);
    assert_eq!(
        GrpcHeaders::parse_accept_encoding("\u{a0}gzip\u{3000}".as_bytes()),
        vec![GrpcEncoding::Gzip]
    );
}

#[test]
fn test_service_and_method_names() {
    let mut headers = GrpcHeaders::new();
    assert_eq!(headers.service_name(), None);
    assert_eq!(headers.method_name(), None);
    headers.path = Some("/pkg.Svc/Echo".to_string());
    assert_eq!(headers.service_name(), Some("pkg.Svc"));
    assert_eq!(headers.method_name(), Some("Echo"));
    headers.path = Some("/a/b/c".to_string());
    assert_eq!(headers.service_name(), Some("a/b"));
    assert_eq!(headers.method_name(), Some("c"));
    headers.path = Some("/only".to_string());
    assert_eq!(headers.service_name(), None);
    assert_eq!(headers.method_name(), Some("only"));
    headers.path = Some("no-slash".to_string());
    assert_eq!(headers.service_name(), None);
    assert_eq!(headers.method_name(), None);
    headers.path = Some("".to_string());
    assert_eq!(headers.service_name(), None);
    headers.path = Some("/\u{e9}/\u{3042}".to_string());
    assert_eq!(headers.service_name(), Some("\u{e9}"));
    assert_eq!(headers.method_name(), Some("\u{3042}"));
}

#[test]
fn test_to_request_headers() {
    let headers = GrpcHeaders::new();
    assert_eq!(
        headers.to_request_headers(),
        vec![(b"content-type".to_vec(), b"application/grpc+proto".to_vec())]
    );
    let headers = GrpcHeaders {
        timeout: Some(Duration::from_millis(250)),
        encoding: GrpcEncoding::Gzip,
        accept_encoding: vec![GrpcEncoding::Gzip, GrpcEncoding::Identity],
        ..GrpcHeaders::default()
    };
    assert_eq!(
        headers.to_request_headers(),
        vec![
            (b"content-type".to_vec(), b"application/grpc+proto".to_vec()),
            (b"grpc-timeout".to_vec(), b"250m".to_vec()),
            (b"grpc-encoding".to_vec(), b"gzip".to_vec()),
            (b"grpc-accept-encoding".to_vec(), b"gzip,identity".to_vec()),
        ]
    );
    assert_eq!(GrpcEncoding::Deflate.as_bytes(), b"deflate");
    assert_eq!(GrpcEncoding::default(), GrpcEncoding::Identity);
}

#[test]
fn test_unary_call_passes_through() {
    let request: Vec<(Vec<u8>, Vec<u8>)> = vec![
        (b":method".to_vec(), b"POST".to_vec()),
        (b":path".to_vec(), b"/pkg.Svc/Echo".to_vec()),
        (b"content-type".to_vec(), b"application/grpc+proto".to_vec()),
    ];
    assert!(is_grpc_request(&request));
    let headers = GrpcHeaders::from_headers(&request);
    assert_eq!(headers.service_name(), Some("pkg.Svc"));
    assert_eq!(headers.method_name(), Some("Echo"));

    let body = [0u8, 0, 0, 0, 5, b'H', b'e', b'l', b'l', b'o'];
    let (frame, used) = veil_proxy::grpc::framing::decode_grpc_frame(&body).unwrap();
    assert_eq!(used, 10);
    assert!(!frame.compressed);
    assert_eq!(frame.data, b"Hello");
    assert_eq!(frame.encode(), body);

    let status = veil_proxy::grpc::status::GrpcStatus::ok();
    assert_eq!(status.code.to_http_status(), 200);
    assert_eq!(status.to_trailers(), vec![(b"grpc-status".to_vec(), b"0".to_vec())]);
    assert_eq!(
        veil_proxy::grpc::status::GrpcStatusCode::from_bytes(b"0"),
        Some(veil_proxy::grpc::status::GrpcStatusCode::Okay)
    );
}

#[test]
fn test_is_grpc_request_over_parsed_headers() {
    let grpc = [
        httparse::Header { name: "Host", value: b"example.com" },
        httparse::Header { name: "Content-Type", value: b"application/grpc+proto" },
    ];
    assert!(veil_proxy::grpc::headers::is_grpc_request_httparse(&grpc));
    let plain = [
        httparse::Header { name: "content-type", value: b"application/json" },
        httparse::Header { name: "x-content-type", value: b"application/grpc" },
    ];
    assert!(!veil_proxy::grpc::headers::is_grpc_request_httparse(&plain));
    assert!(!veil_proxy::grpc::headers::is_grpc_request_httparse(&[]));
}
