use veil_proxy::grpc::framing::{
    decode_grpc_frame, decode_grpc_frame_with_max_size, GrpcError, GrpcFrame, GrpcFrameDecoder,
    GRPC_FRAME_HEADER_SIZE, GRPC_MAX_MESSAGE_SIZE,
};

#[test]
fn test_encode_decode_uncompressed() {
    let original = GrpcFrame::new(b"Hello, gRPC!".to_vec());
    let encoded = original.encode();

    let (decoded, consumed) = decode_grpc_frame(&encoded).unwrap();

    assert_eq!(consumed, encoded.len());
    assert!(!decoded.compressed);
    assert_eq!(decoded.data, b"Hello, gRPC!");
}

#[test]
fn test_encode_decode_compressed() {
    let original = GrpcFrame::compressed(b"Compressed data".to_vec());
    let encoded = original.encode();

    let (decoded, _) = decode_grpc_frame(&encoded).unwrap();

    assert!(decoded.compressed);
    assert_eq!(decoded.data, b"Compressed data");
}

#[test]
fn test_decode_insufficient_header() {
    let buf = [0u8; 3];
    let result = decode_grpc_frame(&buf);

    assert!(matches!(result, Err(GrpcError::InsufficientData { .. })));
}

#[test]
fn test_decode_insufficient_payload() {
    let mut buf = vec![0u8; 5];
    buf[1..5].copy_from_slice(&100u32.to_be_bytes());

    let result = decode_grpc_frame(&buf);
    assert!(matches!(result, Err(GrpcError::InsufficientData { .. })));
}

#[test]
fn test_decode_message_too_large() {
    let mut buf = vec![0u8; 5];
    buf[1..5].copy_from_slice(&(GRPC_MAX_MESSAGE_SIZE as u32 + 1).to_be_bytes());

    let result = decode_grpc_frame(&buf);
    assert!(matches!(result, Err(GrpcError::MessageTooLarge { .. })));
}

#[test]
fn test_frame_decoder_streaming() {
    let mut decoder = GrpcFrameDecoder::new();

    let frame1 = GrpcFrame::new(b"Frame 1".to_vec());
    let frame2 = GrpcFrame::new(b"Frame 2".to_vec());

    let mut data = frame1.encode();
    data.extend(frame2.encode());

    decoder.push(&data[..10]);
    assert!(decoder.decode_next().unwrap().is_none());

    decoder.push(&data[10..]);

    let decoded1 = decoder.decode_next().unwrap().unwrap();
    assert_eq!(decoded1.data, b"Frame 1");

    let decoded2 = decoder.decode_next().unwrap().unwrap();
    assert_eq!(decoded2.data, b"Frame 2");

    assert!(decoder.decode_next().unwrap().is_none());
    assert!(!decoder.has_pending());
}

#[test]
fn test_encode_header() {
    let frame = GrpcFrame::new(vec![0u8; 100]);
    let header = frame.encode_header();

    assert_eq!(header[0], 0);
    assert_eq!(u32::from_be_bytes([header[1], header[2], header[3], header[4]]), 100);
}

#[test]
fn test_empty_frame() {
    let frame = GrpcFrame::new(vec![]);
    let encoded = frame.encode();

    assert_eq!(encoded.len(), 5);
    assert_eq!(encoded[0], 0);
    assert_eq!(&encoded[1..5], &[0, 0, 0, 0]);
}

#[test]
fn test_exact_wire_bytes() {
    let frame = GrpcFrame::compressed(vec![0xaa; 0x0102]);
    let encoded = frame.encode();
    assert_eq!(&encoded[..5], &[1, 0, 0, 1, 2]);
    assert_eq!(encoded.len(), 5 + 0x0102);
    assert_eq!(frame.total_size(), 5 + 0x0102);
    assert_eq!(frame.encode_header(), [1, 0, 0, 1, 2]);
}

#[test]
fn test_unary_body_round_trip() {
    let body = [0u8, 0, 0, 0, 5, b'H', b'e', b'l', b'l', b'o'];
    let (frame, consumed) = decode_grpc_frame(&body).unwrap();
    assert_eq!(consumed, 10);
    assert!(!frame.compressed);
    assert_eq!(frame.data, b"Hello");
    assert_eq!(frame.encode(), body);
}

#[test]
fn test_decode_reports_exact_errors() {
    match decode_grpc_frame(&[0u8; 3]) {
        Err(GrpcError::InsufficientData { required, available }) => {
            assert_eq!(required, GRPC_FRAME_HEADER_SIZE);
            assert_eq!(available, 3);
        }
        _ => panic!("expected InsufficientData"),
    }
    let header = [0u8, 0, 0, 0, 100];
    match decode_grpc_frame(&header) {
        Err(GrpcError::InsufficientData { required, available }) => {
            assert_eq!(required, 105);
            assert_eq!(available, 5);
        }
        _ => panic!("expected InsufficientData"),
    }
    match decode_grpc_frame_with_max_size(&header, 99) {
        Err(GrpcError::MessageTooLarge { size, max }) => {
            assert_eq!(size, 100);
            assert_eq!(max, 99);
        }
        _ => panic!("expected MessageTooLarge"),
    }
}

#[test]
fn test_oversized_header_is_refused_before_the_payload() {
    let header = [0u8, 0xff, 0xff, 0xff, 0xff];
    assert!(matches!(
        decode_grpc_frame(&header),
        Err(GrpcError::MessageTooLarge { size: 0xffff_ffff, max: GRPC_MAX_MESSAGE_SIZE })
    ));
    let mut decoder = GrpcFrameDecoder::with_max_size(16);
    decoder.push(&[0, 0, 0, 0, 17]);
    assert!(matches!(decoder.decode_next(), Err(GrpcError::MessageTooLarge { size: 17, max: 16 })));
    assert_eq!(decoder.pending_len(), 5);
    decoder.clear();
    assert!(!decoder.has_pending());
}

#[test]
fn test_flag_byte_other_than_one_is_uncompressed() {
    let (frame, _) = decode_grpc_frame(&[2, 0, 0, 0, 1, 9]).unwrap();
    assert!(!frame.compressed);
    assert_eq!(frame.data, vec![9]);
}

#[test]
fn test_decode_leaves_trailing_bytes() {
    let mut data = GrpcFrame::new(vec![1, 2, 3]).encode();
    data.extend_from_slice(&[7, 7]);
    let (frame, consumed) = decode_grpc_frame(&data).unwrap();
    assert_eq!(frame.data, vec![1, 2, 3]);
    assert_eq!(consumed, 8);
}

#[test]
fn test_decoder_default_is_empty() {
    let decoder = GrpcFrameDecoder::default();
    assert!(!decoder.has_pending());
    assert_eq!(decoder.pending_len(), 0);
}

#[test]
fn test_compressed_flag_is_bit_zero() {
    for (flags, compressed) in [(0u8, false), (1, true), (2, false), (3, true), (0x80, false), (0x81, true), (0xff, true)] {
        let (frame, used) = decode_grpc_frame(&[flags, 0, 0, 0, 1, 7]).unwrap();
        assert_eq!((frame.compressed, frame.data.as_slice(), used), (compressed, [7u8].as_slice(), 6), "{flags:#x}");
    }
    let mut decoder = GrpcFrameDecoder::new();
    decoder.push(&[0x81, 0, 0, 0, 0]);
    assert!(decoder.decode_next().unwrap().unwrap().compressed);
}
