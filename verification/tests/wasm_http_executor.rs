use veil_proxy::wasm::http_executor::{
    build_http_request, http_call_result, parse_http_response_from_bytes, response_is_complete,
};
use veil_proxy::wasm::types::{GlobalPendingCall, HttpCallResponse, PendingHttpCall};

fn pending(headers: Vec<(&str, &str)>, body: &[u8]) -> GlobalPendingCall {
    GlobalPendingCall {
        module_name: "test".to_string(),
        token: 1,
        call: PendingHttpCall {
            token: 1,
            upstream: "backend".to_string(),
            timeout_ms: 5000,
            headers: headers.into_iter().map(|(k, v)| (k.to_string(), v.to_string())).collect(),
            body: body.to_vec(),
            trailers: vec![],
        },
    }
}

#[test]
fn test_build_http_request() {
    let pending = GlobalPendingCall {
        module_name: "test".to_string(),
        token: 1,
        call: PendingHttpCall {
            token: 1,
            upstream: "backend".to_string(),
            timeout_ms: 5000,
            headers: vec![
                (":method".to_string(), "GET".to_string()),
                (":path".to_string(), "/api/test".to_string()),
                ("user-agent".to_string(), "wasm-client".to_string()),
            ],
            body: vec![],
            trailers: vec![],
        },
    };

    let request = build_http_request("example.com", &pending).unwrap();

    assert!(request.starts_with("GET /api/test HTTP/1.1\r\n"));
    assert!(request.contains("Host: example.com\r\n"));
    assert!(request.contains("user-agent: wasm-client\r\n"));
    assert!(request.ends_with("\r\n\r\n"));
}

#[test]
fn test_parse_http_response() {
    let response_bytes =
        b"HTTP/1.1 200 OK\r\nContent-Type: application/json\r\nContent-Length: 13\r\n\r\n{\"ok\": true}\r\n";

    let response = parse_http_response_from_bytes(response_bytes).unwrap();

    assert_eq!(response.status_code, 200);
    assert!(response
        .headers
        .iter()
        .any(|(k, v)| k == "Content-Type" && v == "application/json"));
    assert!(response.body.starts_with(b"{\"ok\":"));
}

#[test]
fn test_build_request_exact() {
    let call = pending(vec![(":method", "POST"), ("a", "1"), (":path", "/p"), (":method", "PUT")], b"hello");
    assert_eq!(
        build_http_request("h.example", &call).unwrap(),
        "POST /p HTTP/1.1\r\nHost: h.example\r\na: 1\r\nContent-Length: 5\r\nConnection: close\r\n\r\nhello"
    );
    let call = pending(vec![], b"");
    assert_eq!(
        build_http_request("h", &call).unwrap(),
        "GET / HTTP/1.1\r\nHost: h\r\nConnection: close\r\n\r\n"
    );
    let call = pending(vec![("", "empty-name")], &[0x61, 0xff]);
    assert_eq!(
        build_http_request("h", &call).unwrap(),
        "GET / HTTP/1.1\r\nHost: h\r\n: empty-name\r\nContent-Length: 2\r\nConnection: close\r\n\r\na\u{fffd}"
    );
}

#[test]
fn test_parse_response_exact() {
    let response = parse_http_response_from_bytes(
        b"HTTP/1.1 404 Not Found\r\n  Content-Type :  text/plain \r\nno colon here\r\nX:a:b\r\n\r\nbody\r\n\r\nmore",
    )
    .unwrap();
    assert_eq!(response.status_code, 404);
    assert_eq!(
        response.headers,
        vec![
            ("Content-Type".to_string(), "text/plain".to_string()),
            ("X".to_string(), "a:b".to_string()),
        ]
    );
    assert_eq!(response.body, b"body\r\n\r\nmore");
    assert!(response.trailers.is_empty());

    let response = parse_http_response_from_bytes(b"HTTP/1.1 204\r\n\r\n").unwrap();
    assert_eq!(response.status_code, 204);
    assert!(response.headers.is_empty());
    assert!(response.body.is_empty());

    let response = parse_http_response_from_bytes(b"HTTP/1.1 200 OK\nA: b\r\n\r\nx").unwrap();
    assert_eq!(response.headers, vec![("A".to_string(), "b".to_string())]);
    assert_eq!(response.body, b"x");

    let response = parse_http_response_from_bytes(b"HTTP/1.1 +200 OK\r\n\r\n").unwrap();
    assert_eq!(response.status_code, 200);
}

#[test]
fn test_parse_response_errors() {
    assert_eq!(parse_http_response_from_bytes(b"").unwrap_err(), "Empty response");
    assert_eq!(
        parse_http_response_from_bytes(b"HTTP/1.1 200 OK\r\n").unwrap_err(),
        "Invalid response: no header/body boundary"
    );
    assert_eq!(
        parse_http_response_from_bytes(b"\r\n\r\nbody").unwrap_err(),
        "Invalid response: no status line"
    );
    assert_eq!(parse_http_response_from_bytes(b"HTTP/1.1\r\n\r\n").unwrap_err(), "Invalid status line");
    assert_eq!(
        parse_http_response_from_bytes(b"HTTP/1.1 abc OK\r\n\r\n").unwrap_err(),
        "Invalid status code"
    );
    assert_eq!(
        parse_http_response_from_bytes(b"HTTP/1.1 65536 OK\r\n\r\n").unwrap_err(),
        "Invalid status code"
    );
    assert_eq!(
        parse_http_response_from_bytes(b"HTTP/1.1  200 OK\r\n\r\n").unwrap_err(),
        "Invalid status code"
    );
}

#[test]
fn test_parse_response_with_invalid_bytes_in_the_head() {
    let response = parse_http_response_from_bytes(b"HTTP/1.1 200 OK\r\nX: \xff\r\n\r\n0123456789").unwrap();
    assert_eq!(response.headers, vec![("X".to_string(), "\u{fffd}".to_string())]);
    assert_eq!(response.body, b"23456789");
}

#[test]
fn test_response_is_complete() {
    assert!(!response_is_complete(b"HTTP/1.1 2"));
    assert!(!response_is_complete(b"HTTP/1.1 200 OK\r\nContent-Length: 3\r\n"));
    assert!(!response_is_complete(b"HTTP/1.1 200 OK\r\nContent-Length: 3\r\n\r\nab"));
    assert!(response_is_complete(b"HTTP/1.1 200 OK\r\nContent-Length: 3\r\n\r\nabc"));
    assert!(response_is_complete(b"HTTP/1.1 200 OK\r\nCONTENT-LENGTH:0\r\n\r\n"));
    assert!(!response_is_complete(b"HTTP/1.1 200 OK\r\nContent-Length: x\r\n\r\nabc"));
    assert!(response_is_complete(b"HTTP/1.1 200 OK\r\nA: b\r\n\r\n"));
    assert!(!response_is_complete(b"HTTP/1.1 200 OK\r\nTransfer-Encoding: Chunked\r\n\r\n"));
    assert!(!response_is_complete(b"HTTP/1.1 200 OK\r\n\r\n"[..12].as_ref()));
}

#[test]
fn test_http_call_result() {
    let ok = HttpCallResponse { status_code: 201, headers: vec![], body: vec![1], trailers: vec![] };
    let got = http_call_result(Ok(ok));
    assert_eq!(got.status_code, 201);
    assert_eq!(got.body, vec![1]);
    let got = http_call_result(Err("Connection failed: refused".to_string()));
    assert_eq!(got.status_code, 504);
    assert_eq!(got.headers, vec![("x-wasm-error".to_string(), "http_call_failed".to_string())]);
    assert_eq!(got.body, b"HTTP call failed: Connection failed: refused");
    assert!(got.trailers.is_empty());
}
