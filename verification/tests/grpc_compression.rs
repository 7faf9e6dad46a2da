use veil_proxy::grpc::compression::{GrpcCompression, GrpcCompressionConfig};
use veil_proxy::grpc::framing::GrpcError;

#[test]
fn test_compression_roundtrip_gzip() {
    let original = b"Hello, gRPC compression! This is a test message. ".repeat(10);

    let compressed = GrpcCompression::Gzip.compress(&original, 6).unwrap();
    let decompressed = GrpcCompression::Gzip.decompress(&compressed).unwrap();

    assert_eq!(decompressed, original);
}

#[test]
fn test_compression_roundtrip_deflate() {
    let original = b"Hello, gRPC compression with deflate!";

    let compressed = GrpcCompression::Deflate.compress(original, 6).unwrap();
    let decompressed = GrpcCompression::Deflate.decompress(&compressed).unwrap();

    assert_eq!(decompressed, original);
}

#[test]
fn test_identity_no_change() {
    let original = b"No compression";

    let result = GrpcCompression::Identity.compress(original, 0).unwrap();
    assert_eq!(result, original);

    let decompressed = GrpcCompression::Identity.decompress(original).unwrap();
    assert_eq!(decompressed, original);
}

#[test]
fn test_config_negotiation() {
    let config = GrpcCompressionConfig::default();

    let accept = vec![GrpcCompression::Identity, GrpcCompression::Gzip];
    assert_eq!(config.negotiate(&accept), GrpcCompression::Gzip);

    let accept = vec![GrpcCompression::Identity];
    assert_eq!(config.negotiate(&accept), GrpcCompression::Identity);

    let accept: Vec<GrpcCompression> = vec![];
    assert_eq!(config.negotiate(&accept), GrpcCompression::Identity);
}

#[test]
fn test_compression_from_bytes() {
    assert_eq!(GrpcCompression::from_bytes(b"gzip"), Some(GrpcCompression::Gzip));
    assert_eq!(GrpcCompression::from_bytes(b"GZIP"), Some(GrpcCompression::Gzip));
    assert_eq!(GrpcCompression::from_bytes(b"deflate"), Some(GrpcCompression::Deflate));
    assert_eq!(GrpcCompression::from_bytes(b"identity"), Some(GrpcCompression::Identity));
    assert_eq!(GrpcCompression::from_bytes(b"unknown"), None);
}

#[test]
fn test_gzip_output_is_a_gzip_stream() {
    let original = b"aaaaaaaaaaaaaaaaaaaaaaaaaaaaaaaaaaaaaaaaaaaaaaaaaaaaaaaaaaaaaaaaaaaaaaaa".to_vec();
    let compressed = GrpcCompression::Gzip.compress(&original, 9).unwrap();
    assert_eq!(&compressed[..2], &[0x1f, 0x8b]);
    assert!(compressed.len() < original.len());
    assert_ne!(compressed, original);
    let deflated = GrpcCompression::Deflate.compress(&original, 9).unwrap();
    assert!(deflated.len() < original.len());
    assert_ne!(deflated, compressed);
}

#[test]
fn test_compression_is_repeatable() {
    let original = b"the same input gives the same output".to_vec();
    for level in 0..=10 {
        let a = GrpcCompression::Gzip.compress(&original, level).unwrap();
        let b = GrpcCompression::Gzip.compress(&original, level).unwrap();
        assert_eq!(a, b);
        assert_eq!(GrpcCompression::Gzip.decompress(&a).unwrap(), original);
        let c = GrpcCompression::Deflate.compress(&original, level).unwrap();
        assert_eq!(GrpcCompression::Deflate.decompress(&c).unwrap(), original);
    }
}

#[test]
fn test_decompress_rejects_garbage() {
    match GrpcCompression::Gzip.decompress(b"definitely not gzip") {
        Err(GrpcError::CompressionError(message)) => {
            assert!(message.starts_with("gzip decompress: "), "{}", message);
            assert!(message.len() > "gzip decompress: ".len());
        }
        _ => panic!("expected CompressionError"),
    }
    match GrpcCompression::Deflate.decompress(&[0xff, 0xff, 0xff, 0xff]) {
        Err(GrpcError::CompressionError(message)) => {
            assert!(message.starts_with("deflate decompress: "), "{}", message);
        }
        _ => panic!("expected CompressionError"),
    }
}

#[test]
fn test_names() {
    assert_eq!(GrpcCompression::Identity.as_str(), "identity");
    assert_eq!(GrpcCompression::Gzip.as_bytes(), b"gzip");
    assert_eq!(GrpcCompression::Deflate.as_str(), "deflate");
    assert!(!GrpcCompression::Identity.is_compressed());
    assert!(GrpcCompression::Deflate.is_compressed());
    assert_eq!(GrpcCompression::default(), GrpcCompression::Identity);
}

#[test]
fn test_negotiation_order() {
    let config = GrpcCompressionConfig {
        enabled: vec![GrpcCompression::Deflate, GrpcCompression::Identity],
        preferred: GrpcCompression::Gzip,
        level: 6,
        min_size: 0,
    };
    assert_eq!(
        config.negotiate(&[GrpcCompression::Gzip, GrpcCompression::Identity, GrpcCompression::Deflate]),
        GrpcCompression::Identity
    );
    assert_eq!(config.negotiate(&[GrpcCompression::Gzip]), GrpcCompression::Identity);
    assert_eq!(config.negotiate(&[GrpcCompression::Deflate]), GrpcCompression::Deflate);
    assert!(config.supports(GrpcCompression::Deflate));
    assert!(!config.supports(GrpcCompression::Gzip));
    assert_eq!(config.accept_encoding_header(), "deflate,identity");
}

#[test]
fn test_config_presets() {
    let config = GrpcCompressionConfig::default();
    assert_eq!(config.enabled, vec![GrpcCompression::Identity, GrpcCompression::Gzip]);
    assert_eq!(config.preferred, GrpcCompression::Gzip);
    assert_eq!(config.level, 6);
    assert_eq!(config.min_size, 1024);
    assert_eq!(config.accept_encoding_header(), "identity,gzip");
    let config = GrpcCompressionConfig::identity_only();
    assert_eq!(config.enabled, vec![GrpcCompression::Identity]);
    assert_eq!(config.preferred, GrpcCompression::Identity);
    assert_eq!(config.level, 0);
    assert_eq!(config.min_size, 0);
    assert_eq!(config.accept_encoding_header(), "identity");
    assert_eq!(
        GrpcCompressionConfig { enabled: vec![], ..config }.accept_encoding_header(),
        ""
    );
}

#[test]
fn test_messages_are_compressed_where_that_pays() {
    let config = GrpcCompressionConfig::default();
    assert_eq!(config.min_size, 1024);
    let long = vec![b'a'; 4096];
    let frame = config.frame_message(GrpcCompression::Gzip, long.clone());
    assert!(frame.compressed);
    assert!(frame.data.len() < long.len());
    assert_eq!(GrpcCompression::Gzip.decompress(&frame.data).unwrap(), long);
    let deflated = config.frame_message(GrpcCompression::Deflate, long.clone());
    assert!(deflated.compressed);
    assert_eq!(GrpcCompression::Deflate.decompress(&deflated.data).unwrap(), long);

    let plain = config.frame_message(GrpcCompression::Identity, long.clone());
    assert!(!plain.compressed);
    assert_eq!(plain.data, long);
    let at_limit = config.frame_message(GrpcCompression::Gzip, vec![b'a'; 1024]);
    assert!(!at_limit.compressed);
    assert_eq!(at_limit.data, vec![b'a'; 1024]);
    let above = config.frame_message(GrpcCompression::Gzip, vec![b'a'; 1025]);
    assert!(above.compressed);

    let eager = GrpcCompressionConfig { min_size: 0, ..GrpcCompressionConfig::default() };
    let tiny = eager.frame_message(GrpcCompression::Gzip, b"ab".to_vec());
    assert!(!tiny.compressed);
    assert_eq!(tiny.data, b"ab");
    let wild = GrpcCompressionConfig { level: 11, ..GrpcCompressionConfig::default() };
    let kept = wild.frame_message(GrpcCompression::Gzip, long.clone());
    assert!(!kept.compressed);
    assert_eq!(kept.data, long);
}
