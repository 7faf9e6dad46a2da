use std::time::Duration;
use veil_proxy::grpc::web::{
    base64_decode, base64_encode, decode_grpc_web_body, encode_grpc_web_response, encode_trailers,
    is_grpc_web_content_type, is_grpc_web_text, GrpcWebConfig, GrpcWebCorsConfig, GrpcWebError,
};

#[test]
fn test_is_grpc_web_content_type() {
    assert!(is_grpc_web_content_type(b"application/grpc-web"));
    assert!(is_grpc_web_content_type(b"application/grpc-web+proto"));
    assert!(is_grpc_web_content_type(b"application/grpc-web+json"));
    assert!(is_grpc_web_content_type(b"Application/GRPC-WEB"));

    assert!(!is_grpc_web_content_type(b"application/grpc"));
    assert!(!is_grpc_web_content_type(b"application/json"));
}

#[test]
fn test_is_grpc_web_text() {
    assert!(is_grpc_web_text(b"application/grpc-web-text"));
    assert!(is_grpc_web_text(b"application/grpc-web-text+proto"));

    assert!(!is_grpc_web_text(b"application/grpc-web"));
    assert!(!is_grpc_web_text(b"application/grpc-web+proto"));
}

#[test]
fn test_cors_origin_check() {
    let config = GrpcWebCorsConfig::default();
    assert!(config.is_origin_allowed("http://example.com"));
    assert!(config.is_origin_allowed("http://localhost:3000"));

    let restricted = GrpcWebCorsConfig::with_origins(vec!["http://example.com".to_string()]);
    assert!(restricted.is_origin_allowed("http://example.com"));
    assert!(!restricted.is_origin_allowed("http://other.com"));
}

#[test]
fn test_base64_roundtrip() {
    let original = b"Hello, gRPC-Web!";
    let encoded = base64_encode(original);
    let decoded = base64_decode(&encoded).unwrap();
    assert_eq!(decoded, original);
}

#[test]
fn test_encode_grpc_web_response() {
    let body = vec![0, 0, 0, 0, 5, b'H', b'e', b'l', b'l', b'o'];
    let trailers = vec![(b"grpc-status".to_vec(), b"0".to_vec())];

    let response = encode_grpc_web_response(&body, &trailers, false);

    assert!(response.starts_with(&body));
    assert_eq!(response[body.len()], 0x80);
}

#[test]
fn test_preflight_headers() {
    let config = GrpcWebCorsConfig::default();
    let headers = config.preflight_headers("http://example.com");

    assert!(headers.iter().any(|(n, _)| n == b"access-control-allow-origin"));
    assert!(headers.iter().any(|(n, _)| n == b"access-control-allow-methods"));
    assert!(headers.iter().any(|(n, _)| n == b"access-control-allow-headers"));
}

#[test]
fn test_base64_known_values() {
    assert_eq!(base64_encode(b""), b"");
    assert_eq!(base64_encode(b"f"), b"Zg==");
    assert_eq!(base64_encode(b"fo"), b"Zm8=");
    assert_eq!(base64_encode(b"foo"), b"Zm9v");
    assert_eq!(base64_encode(b"foob"), b"Zm9vYg==");
    assert_eq!(base64_encode(b"fooba"), b"Zm9vYmE=");
    assert_eq!(base64_encode(b"foobar"), b"Zm9vYmFy");
    assert_eq!(base64_encode(&[0xfb, 0xff, 0xfe]), b"+//+");
    assert_eq!(base64_decode(b"Zm9vYmFy").unwrap(), b"foobar");
    assert_eq!(base64_decode(b"Zm9v\r\nYmE=\n").unwrap(), b"fooba");
    assert_eq!(base64_decode(b"").unwrap(), b"");
    assert_eq!(base64_decode(b"+//+").unwrap(), vec![0xfb, 0xff, 0xfe]);
}

#[test]
fn test_base64_round_trip_of_every_length() {
    let mut data = Vec::new();
    for n in 0..300usize {
        let encoded = base64_encode(&data);
        assert_eq!(encoded.len(), (n + 2) / 3 * 4);
        assert_eq!(base64_decode(&encoded).unwrap(), data);
        data.push((n * 7 + 3) as u8);
    }
}

#[test]
fn test_base64_errors() {
    assert!(matches!(base64_decode(b"Zm9"), Err(GrpcWebError::InvalidBase64)));
    assert!(matches!(base64_decode(b"Zm9v!mFy"), Err(GrpcWebError::InvalidBase64)));
    assert!(matches!(base64_decode(b"Zm 9v"), Err(GrpcWebError::InvalidBase64)));
    assert!(matches!(base64_decode(b"Z"), Err(GrpcWebError::InvalidBase64)));
    assert!(matches!(decode_grpc_web_body(b"***", true), Err(GrpcWebError::InvalidBase64)));
}

#[test]
fn test_base64_padding_counts_as_zero() {
    assert_eq!(base64_decode(b"====").unwrap(), vec![0]);
    assert_eq!(base64_decode(b"Zg=v").unwrap(), vec![0x66, 0x2f]);
}

#[test]
fn test_decode_grpc_web_body() {
    assert_eq!(decode_grpc_web_body(b"Zm9v", true).unwrap(), b"foo");
    assert_eq!(decode_grpc_web_body(b"Zm9v", false).unwrap(), b"Zm9v");
}

#[test]
fn test_encode_trailers_exact() {
    let trailers = vec![
        (b"grpc-status".to_vec(), b"0".to_vec()),
        (b"grpc-message".to_vec(), b"ok".to_vec()),
    ];
    assert_eq!(encode_trailers(&trailers), b"grpc-status: 0\r\ngrpc-message: ok\r\n");
    assert_eq!(encode_trailers(&[]), b"");
}

#[test]
fn test_web_response_exact() {
    let body = vec![0, 0, 0, 0, 5, b'H', b'e', b'l', b'l', b'o'];
    let trailers = vec![(b"grpc-status".to_vec(), b"0".to_vec())];
    let response = encode_grpc_web_response(&body, &trailers, false);
    let mut expected = body.clone();
    expected.extend_from_slice(&[0x80, 0, 0, 0, 16]);
    expected.extend_from_slice(b"grpc-status: 0\r\n");
    assert_eq!(response, expected);
    let text = encode_grpc_web_response(&body, &trailers, true);
    assert_eq!(text, base64_encode(&expected));
    assert_eq!(base64_decode(&text).unwrap(), expected);
}

#[test]
fn test_preflight_headers_exact() {
    let config = GrpcWebCorsConfig::permissive();
    assert_eq!(
        config.preflight_headers("http://example.com"),
        vec![
            (b"access-control-allow-origin".to_vec(), b"*".to_vec()),
            (b"access-control-allow-methods".to_vec(), b"POST, OPTIONS".to_vec()),
            (
                b"access-control-allow-headers".to_vec(),
                b"content-type, x-grpc-web, x-user-agent, grpc-timeout".to_vec()
            ),
            (b"access-control-expose-headers".to_vec(), b"grpc-status, grpc-message".to_vec()),
            (b"access-control-max-age".to_vec(), b"86400".to_vec()),
        ]
    );
    let restricted = GrpcWebCorsConfig {
        allowed_origins: vec!["http://a.example".to_string()],
        allowed_headers: vec![],
        exposed_headers: vec![],
        allow_credentials: true,
        max_age: Duration::from_millis(1999),
    };
    assert_eq!(
        restricted.preflight_headers("http://a.example"),
        vec![
            (b"access-control-allow-origin".to_vec(), b"http://a.example".to_vec()),
            (b"access-control-allow-methods".to_vec(), b"POST, OPTIONS".to_vec()),
            (b"access-control-allow-headers".to_vec(), b"".to_vec()),
            (b"access-control-allow-credentials".to_vec(), b"true".to_vec()),
            (b"access-control-max-age".to_vec(), b"1".to_vec()),
        ]
    );
    assert_eq!(
        restricted.preflight_headers("http://b.example"),
        vec![
            (b"access-control-allow-methods".to_vec(), b"POST, OPTIONS".to_vec()),
            (b"access-control-allow-headers".to_vec(), b"".to_vec()),
            (b"access-control-allow-credentials".to_vec(), b"true".to_vec()),
            (b"access-control-max-age".to_vec(), b"1".to_vec()),
        ]
    );
}

#[test]
fn test_response_headers_exact() {
    let config = GrpcWebCorsConfig::with_origins(vec!["http://a.example".to_string()]);
    assert_eq!(
        config.response_headers("http://a.example"),
        vec![
            (b"access-control-allow-origin".to_vec(), b"http://a.example".to_vec()),
            (b"access-control-expose-headers".to_vec(), b"grpc-status, grpc-message".to_vec()),
        ]
    );
    assert_eq!(config.response_headers("http://b.example"), vec![]);
}

#[test]
fn test_web_config() {
    let config = GrpcWebConfig::enabled();
    assert!(config.enabled);
    assert_eq!(config.cors.allowed_origins, vec!["*".to_string()]);
    let config = GrpcWebConfig::with_origins(vec!["http://a.example".to_string()]);
    assert!(config.enabled);
    assert!(!config.cors.is_origin_allowed("http://b.example"));
    assert_eq!(config.cors.max_age, Duration::from_secs(86400));
    assert!(!GrpcWebConfig::default().enabled);
}
