use veil_proxy::grpc::status::{percent_encode_text, GrpcStatus, GrpcStatusCode};

#[test]
fn test_status_code_roundtrip() {
    for i in 0..=16 {
        let code = GrpcStatusCode::from_u8(i).unwrap();
        assert_eq!(code.as_u8(), i);
    }
}

#[test]
fn test_status_code_from_str() {
    assert_eq!(GrpcStatusCode::from_str("0"), Some(GrpcStatusCode::Okay));
    assert_eq!(GrpcStatusCode::from_str("13"), Some(GrpcStatusCode::Internal));
    assert_eq!(GrpcStatusCode::from_str("invalid"), None);
    assert_eq!(GrpcStatusCode::from_str("99"), None);
}

#[test]
fn test_http_status_conversion() {
    assert_eq!(GrpcStatusCode::from_http_status(200), GrpcStatusCode::Okay);
    assert_eq!(GrpcStatusCode::from_http_status(404), GrpcStatusCode::NotFound);
    assert_eq!(GrpcStatusCode::from_http_status(500), GrpcStatusCode::Internal);

    assert_eq!(GrpcStatusCode::Okay.to_http_status(), 200);
    assert_eq!(GrpcStatusCode::NotFound.to_http_status(), 404);
    assert_eq!(GrpcStatusCode::Internal.to_http_status(), 500);
}

#[test]
fn test_grpc_status_encoding() {
    let status = GrpcStatus::error(GrpcStatusCode::NotFound, "Resource not found");
    let trailers = status.to_trailers();

    assert_eq!(trailers.len(), 2);
    assert_eq!(trailers[0].0, b"grpc-status");
    assert_eq!(trailers[0].1, b"5");
    assert_eq!(trailers[1].0, b"grpc-message");
}

#[test]
fn test_message_url_encoding() {
    let status = GrpcStatus::error(GrpcStatusCode::InvalidArgument, "Invalid: name");
    let encoded = status.encoded_message().unwrap();
    assert!(encoded.contains("%3A"));

    let decoded = GrpcStatus::decode_message(encoded.as_bytes()).unwrap();
    assert_eq!(decoded, "Invalid: name");
}

#[test]
fn test_ok_status() {
    let status = GrpcStatus::ok();
    assert!(status.is_ok());
    assert_eq!(status.code, GrpcStatusCode::Okay);
    assert!(status.message.is_none());
}

#[test]
fn test_from_u8_rejects_every_other_byte() {
    for i in 17..=255u8 {
        assert_eq!(GrpcStatusCode::from_u8(i), None);
    }
    assert_eq!(GrpcStatusCode::from_u8(16), Some(GrpcStatusCode::Unauthenticated));
}

#[test]
fn test_status_code_from_bytes() {
    assert_eq!(GrpcStatusCode::from_bytes(b"16"), Some(GrpcStatusCode::Unauthenticated));
    assert_eq!(GrpcStatusCode::from_bytes(b"+7"), Some(GrpcStatusCode::PermissionDenied));
    assert_eq!(GrpcStatusCode::from_bytes(b"007"), Some(GrpcStatusCode::PermissionDenied));
    assert_eq!(GrpcStatusCode::from_bytes(b"17"), None);
    assert_eq!(GrpcStatusCode::from_bytes(b"256"), None);
    assert_eq!(GrpcStatusCode::from_bytes(b""), None);
    assert_eq!(GrpcStatusCode::from_bytes(b"+"), None);
    assert_eq!(GrpcStatusCode::from_bytes(b"-1"), None);
    assert_eq!(GrpcStatusCode::from_bytes(b" 1"), None);
    assert_eq!(GrpcStatusCode::from_bytes(&[0xff, 0x31]), None);
    assert_eq!(GrpcStatusCode::from_bytes(b"99999999999999999999999999"), None);
}

#[test]
fn test_parsing_agrees_with_the_standard_library() {
    let samples = ["0", "16", "+3", "03", "255", "256", "", "+", "++1", "1 ", "1a", "-0"];
    for s in samples {
        let expected = s.parse::<u8>().ok().and_then(GrpcStatusCode::from_u8);
        assert_eq!(GrpcStatusCode::from_str(s), expected, "input {:?}", s);
    }
}

#[test]
fn test_http_status_table() {
    let table = [
        (200u16, GrpcStatusCode::Okay),
        (400, GrpcStatusCode::InvalidArgument),
        (401, GrpcStatusCode::Unauthenticated),
        (403, GrpcStatusCode::PermissionDenied),
        (404, GrpcStatusCode::NotFound),
        (409, GrpcStatusCode::Aborted),
        (429, GrpcStatusCode::ResourceExhausted),
        (499, GrpcStatusCode::Cancelled),
        (500, GrpcStatusCode::Internal),
        (501, GrpcStatusCode::Unimplemented),
        (503, GrpcStatusCode::Unavailable),
        (504, GrpcStatusCode::DeadlineExceeded),
        (204, GrpcStatusCode::Okay),
        (418, GrpcStatusCode::InvalidArgument),
        (502, GrpcStatusCode::Unknown),
        (302, GrpcStatusCode::Unknown),
        (100, GrpcStatusCode::Unknown),
    ];
    for (http, code) in table {
        assert_eq!(GrpcStatusCode::from_http_status(http), code);
    }
    assert_eq!(GrpcStatusCode::Cancelled.to_http_status(), 499);
    assert_eq!(GrpcStatusCode::AlreadyExists.to_http_status(), 409);
    assert_eq!(GrpcStatusCode::DataLoss.to_http_status(), 500);
    assert_eq!(GrpcStatusCode::Unauthenticated.to_http_status(), 401);
}

#[test]
fn test_descriptions() {
    assert_eq!(GrpcStatusCode::Okay.description(), "OK");
    assert_eq!(GrpcStatusCode::DeadlineExceeded.description(), "Deadline Exceeded");
    assert_eq!(GrpcStatusCode::OutOfRange.description(), "Out of Range");
    assert!(GrpcStatusCode::Internal.is_error());
    assert!(!GrpcStatusCode::Okay.is_error());
    assert_eq!(GrpcStatusCode::default(), GrpcStatusCode::Okay);
}

#[test]
fn test_percent_encoding_exact() {
    assert_eq!(percent_encode_text("a-b_c.d~e"), "a-b_c.d~e");
    assert_eq!(percent_encode_text("a b"), "a%20b");
    assert_eq!(percent_encode_text("\n"), "%0A");
    assert_eq!(percent_encode_text("100%"), "100%25");
    assert_eq!(percent_encode_text("\u{e9}"), "%C3%A9");
    assert_eq!(percent_encode_text("\u{3042}"), "%E3%81%82");
    assert_eq!(percent_encode_text("\u{1f600}!"), "%F0%9F%98%80%21");
    assert_eq!(percent_encode_text("\u{0}\u{f}\u{7f}"), "%00%0F%7F");
    assert_eq!(percent_encode_text(""), "");
    let status = GrpcStatus::error(GrpcStatusCode::Internal, "\u{e9}");
    assert_eq!(status.encoded_message(), Some("%C3%A9".to_string()));
    assert_eq!(
        status.to_trailers(),
        vec![(b"grpc-status".to_vec(), b"13".to_vec()), (b"grpc-message".to_vec(), b"%C3%A9".to_vec())]
    );
}

#[test]
fn test_percent_decoding_exact() {
    assert_eq!(GrpcStatus::decode_message(b"a%20b").unwrap(), "a b");
    assert_eq!(GrpcStatus::decode_message(b"%C3%A9"), Some("\u{e9}".to_string()));
    assert_eq!(GrpcStatus::decode_message(b"%c3%a9%E3%81%82"), Some("\u{e9}\u{3042}".to_string()));
    assert_eq!(GrpcStatus::decode_message("\u{e9}".as_bytes()), Some("\u{e9}".to_string()));
    assert_eq!(GrpcStatus::decode_message(b"%e9"), None);
    assert_eq!(GrpcStatus::decode_message(b"%C3"), None);
    assert_eq!(GrpcStatus::decode_message(b"%+Fx").unwrap(), "\u{f}x");
    for text in ["", "plain", "a b/c?d=e&f", "\u{e9}t\u{e9}", "\u{3042}\u{1f600}", "100% \u{0}"] {
        let encoded = percent_encode_text(text);
        assert!(encoded.is_ascii());
        assert_eq!(GrpcStatus::decode_message(encoded.as_bytes()).as_deref(), Some(text));
    }
    assert_eq!(GrpcStatus::decode_message(b"%zzrest").unwrap(), "rest");
    assert_eq!(GrpcStatus::decode_message(b"abc%2").unwrap(), "abc");
    assert_eq!(GrpcStatus::decode_message(b"abc%").unwrap(), "abc");
    assert_eq!(GrpcStatus::decode_message(b"").unwrap(), "");
    assert_eq!(GrpcStatus::decode_message(&[0xff, 0xfe]), None);
}

#[test]
fn test_trailers_without_message() {
    let trailers = GrpcStatus::from_code(GrpcStatusCode::Unavailable).to_trailers();
    assert_eq!(trailers, vec![(b"grpc-status".to_vec(), b"14".to_vec())]);
    let trailers = GrpcStatus::error(GrpcStatusCode::Internal, "a b").to_trailers();
    assert_eq!(
        trailers,
        vec![
            (b"grpc-status".to_vec(), b"13".to_vec()),
            (b"grpc-message".to_vec(), b"a%20b".to_vec()),
        ]
    );
    let from: GrpcStatus = GrpcStatusCode::Aborted.into();
    assert_eq!(from.code, GrpcStatusCode::Aborted);
    assert!(from.message.is_none());
    assert!(GrpcStatus::default().is_ok());
}
