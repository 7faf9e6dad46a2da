use veil_proxy::grpc::stream::{GrpcStreamState, GrpcStreamType};

#[test]
fn test_unary_stream() {
    let mut state = GrpcStreamState::new(1);

    assert_eq!(state.stream_type, GrpcStreamType::Unary);

    state.on_request_frame();
    state.on_client_done();

    assert_eq!(state.stream_type, GrpcStreamType::Unary);
    assert!(state.client_done);

    state.on_response_frame();
    state.on_trailers_sent();

    assert!(state.is_complete());
    assert_eq!(state.request_frames, 1);
    assert_eq!(state.response_frames, 1);
}

#[test]
fn test_client_streaming() {
    let mut state = GrpcStreamState::new(1);

    state.on_request_frame();
    state.on_request_frame();
    state.on_request_frame();
    state.on_client_done();

    assert_eq!(state.stream_type, GrpcStreamType::ClientStreaming);
    assert_eq!(state.request_frames, 3);
}

#[test]
fn test_server_streaming() {
    let mut state = GrpcStreamState::new(1);

    state.on_request_frame();
    state.on_client_done();

    state.on_response_frame();
    state.on_response_frame();
    state.on_response_frame();

    assert_eq!(state.stream_type, GrpcStreamType::ServerStreaming);
    assert_eq!(state.response_frames, 3);
}

#[test]
fn test_bidirectional_streaming() {
    let mut state = GrpcStreamState::new(1);

    state.on_request_frame();
    state.on_response_frame();
    state.on_request_frame();
    state.on_response_frame();

    assert_eq!(state.stream_type, GrpcStreamType::BidirectionalStreaming);
}

#[test]
fn test_stream_type_methods() {
    assert!(!GrpcStreamType::Unary.is_client_streaming());
    assert!(!GrpcStreamType::Unary.is_server_streaming());

    assert!(GrpcStreamType::ClientStreaming.is_client_streaming());
    assert!(!GrpcStreamType::ClientStreaming.is_server_streaming());

    assert!(!GrpcStreamType::ServerStreaming.is_client_streaming());
    assert!(GrpcStreamType::ServerStreaming.is_server_streaming());

    assert!(GrpcStreamType::BidirectionalStreaming.is_client_streaming());
    assert!(GrpcStreamType::BidirectionalStreaming.is_server_streaming());
}

#[test]
fn test_stream_flags() {
    let mut state = GrpcStreamState::new(7);
    assert_eq!(state.stream_id, 7);
    assert!(!state.can_send_trailers());
    assert!(!state.expects_client_data());
    assert!(!state.expects_server_data());
    assert!(!state.is_complete());
    state.on_request_frame();
    state.on_request_frame();
    assert!(state.expects_client_data());
    state.on_client_done();
    assert!(!state.expects_client_data());
    state.on_response_frame();
    assert!(state.response_started);
    assert!(state.can_send_trailers());
    state.on_response_frame();
    assert_eq!(state.stream_type, GrpcStreamType::BidirectionalStreaming);
    assert!(state.expects_server_data());
    state.on_server_done();
    assert!(!state.expects_server_data());
    assert!(state.is_complete());
    assert!(state.can_send_trailers());
    state.on_trailers_sent();
    assert!(state.trailers_sent);
    assert!(!state.can_send_trailers());
    assert!(state.age() >= state.idle_time());
    assert_eq!(GrpcStreamType::default(), GrpcStreamType::Unary);
}
