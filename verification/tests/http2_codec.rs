use veil_proxy::http2::codec::{Assembled, HeaderAssembly};
use veil_proxy::http2::codec::{
    decode_frame, decode_settings, encode_frame, encode_settings, flag_is_set, header_frames,
};
use veil_proxy::http2::error::Http2Error;
use veil_proxy::http2::frame::{Frame, FrameHeader};

fn header(length: u32, frame_type: u8, flags: u8, stream_id: u32) -> FrameHeader {
    FrameHeader { length, frame_type, flags, stream_id }
}

fn read_back(frame: &Frame) -> Result<Frame, Http2Error> {
    let bytes = encode_frame(frame).unwrap();
    let head = FrameHeader::decode(&bytes).unwrap();
    assert_eq!(head.length as usize, bytes.len() - 9);
    decode_frame(&head, &bytes[9..])
}

fn is_protocol_error(r: Result<Frame, Http2Error>) -> bool {
    matches!(r, Err(Http2Error::Protocol(_)))
}

#[test]
fn test_frames_on_the_wire() {
    assert_eq!(
        encode_frame(&Frame::Data { stream_id: 1, end_stream: true, data: b"hi".to_vec() }),
        Some(vec![0, 0, 2, 0, 1, 0, 0, 0, 1, b'h', b'i'])
    );
    assert_eq!(
        encode_frame(&Frame::Headers {
            stream_id: 3,
            end_stream: true,
            end_headers: true,
            header_block: vec![0x82]
        }),
        Some(vec![0, 0, 1, 1, 5, 0, 0, 0, 3, 0x82])
    );
    assert_eq!(
        encode_frame(&Frame::Headers {
            stream_id: 3,
            end_stream: false,
            end_headers: true,
            header_block: vec![]
        }),
        Some(vec![0, 0, 0, 1, 4, 0, 0, 0, 3])
    );
    assert_eq!(
        encode_frame(&Frame::Settings { ack: false, settings: vec![(3, 100), (4, 65535)] }),
        Some(vec![0, 0, 12, 4, 0, 0, 0, 0, 0, 0, 3, 0, 0, 0, 100, 0, 4, 0, 0, 255, 255])
    );
    assert_eq!(
        encode_frame(&Frame::Settings { ack: true, settings: vec![] }),
        Some(vec![0, 0, 0, 4, 1, 0, 0, 0, 0])
    );
    assert_eq!(
        encode_frame(&Frame::WindowUpdate { stream_id: 0, increment: 0x0102_0304 }),
        Some(vec![0, 0, 4, 8, 0, 0, 0, 0, 0, 1, 2, 3, 4])
    );
    assert_eq!(
        encode_frame(&Frame::Ping { ack: true, data: [1, 2, 3, 4, 5, 6, 7, 8] }),
        Some(vec![0, 0, 8, 6, 1, 0, 0, 0, 0, 1, 2, 3, 4, 5, 6, 7, 8])
    );
    assert_eq!(
        encode_frame(&Frame::GoAway { last_stream_id: 7, error_code: 2 }),
        Some(vec![0, 0, 8, 7, 0, 0, 0, 0, 0, 0, 0, 0, 7, 0, 0, 0, 2])
    );
    assert_eq!(
        encode_frame(&Frame::RstStream { stream_id: 5, error_code: 8 }),
        Some(vec![0, 0, 4, 3, 0, 0, 0, 0, 5, 0, 0, 0, 8])
    );
    assert_eq!(
        encode_frame(&Frame::Continuation { stream_id: 5, end_headers: true, header_block: vec![9] }),
        Some(vec![0, 0, 1, 9, 4, 0, 0, 0, 5, 9])
    );
}

#[test]
fn test_frames_that_cannot_be_written() {
    assert_eq!(encode_frame(&Frame::Unknown { frame_type: 2 }), None);
    assert_eq!(
        encode_frame(&Frame::Data { stream_id: 0x8000_0000, end_stream: false, data: vec![] }),
        None
    );
    assert_eq!(
        encode_frame(&Frame::Data { stream_id: 1, end_stream: false, data: vec![0; 0x100_0000] }),
        None
    );
    assert!(encode_frame(&Frame::Data { stream_id: 1, end_stream: false, data: vec![0; 0xff_ffff] })
        .is_some());
    assert_eq!(encode_frame(&Frame::Settings { ack: false, settings: vec![(1, 1); 2_796_203] }), None);
}

#[test]
fn test_frames_read_back() {
    let frames = vec![
        Frame::Data { stream_id: 1, end_stream: false, data: b"body".to_vec() },
        Frame::Data { stream_id: 0x7fff_ffff, end_stream: true, data: vec![] },
        Frame::Headers { stream_id: 1, end_stream: false, end_headers: false, header_block: vec![1, 2] },
        Frame::Headers { stream_id: 1, end_stream: true, end_headers: true, header_block: vec![] },
        Frame::Headers { stream_id: 9, end_stream: true, end_headers: false, header_block: vec![3] },
        Frame::Settings { ack: false, settings: vec![] },
        Frame::Settings { ack: false, settings: vec![(1, 0), (0xffff, 0xffff_ffff), (5, 16384)] },
        Frame::Settings { ack: true, settings: vec![] },
        Frame::WindowUpdate { stream_id: 0, increment: 1 },
        Frame::WindowUpdate { stream_id: 3, increment: 0x7fff_ffff },
        Frame::Ping { ack: false, data: [0; 8] },
        Frame::Ping { ack: true, data: [255, 1, 2, 3, 4, 5, 6, 7] },
        Frame::GoAway { last_stream_id: 0x7fff_ffff, error_code: 0xffff_ffff },
        Frame::RstStream { stream_id: 1, error_code: 0x0102_0304 },
        Frame::Continuation { stream_id: 1, end_headers: false, header_block: vec![7; 100] },
        Frame::Continuation { stream_id: 1, end_headers: true, header_block: vec![] },
    ];
    for frame in &frames {
        assert_eq!(read_back(frame).as_ref(), Ok(frame));
    }
}

#[test]
fn test_padding_and_priority_are_taken_off() {
    assert_eq!(
        decode_frame(&header(6, 0, 0x8 | 0x1, 1), &[3, b'a', b'b', 0, 0, 0]),
        Ok(Frame::Data { stream_id: 1, end_stream: true, data: b"ab".to_vec() })
    );
    assert_eq!(
        decode_frame(&header(4, 0, 0x8, 1), &[3, 0, 0, 0]),
        Ok(Frame::Data { stream_id: 1, end_stream: false, data: vec![] })
    );
    assert!(is_protocol_error(decode_frame(&header(4, 0, 0x8, 1), &[4, 0, 0, 0])));
    assert!(is_protocol_error(decode_frame(&header(0, 0, 0x8, 1), &[])));
    assert_eq!(
        decode_frame(&header(3, 0, 0x20, 1), &[1, 2, 3]),
        Ok(Frame::Data { stream_id: 1, end_stream: false, data: vec![1, 2, 3] })
    );
    assert_eq!(
        decode_frame(&header(7, 1, 0x20 | 0x4, 1), &[0, 0, 0, 0, 16, 0x82, 0x84]),
        Ok(Frame::Headers { stream_id: 1, end_stream: false, end_headers: true, header_block: vec![0x82, 0x84] })
    );
    assert_eq!(
        decode_frame(&header(9, 1, 0x20 | 0x8 | 0x1, 1), &[2, 0, 0, 0, 0, 16, 0x82, 0, 0]),
        Ok(Frame::Headers { stream_id: 1, end_stream: true, end_headers: false, header_block: vec![0x82] })
    );
    assert!(is_protocol_error(decode_frame(&header(4, 1, 0x20, 1), &[0, 0, 0, 0])));
    assert!(is_protocol_error(decode_frame(&header(6, 1, 0x20 | 0x8, 1), &[1, 0, 0, 0, 0, 16])));
}

#[test]
fn test_refused_frames() {
    assert_eq!(decode_frame(&header(3, 0, 0, 1), &[1, 2]), Err(Http2Error::FrameSize));
    assert!(is_protocol_error(decode_frame(&header(1, 0, 0, 0), &[1])));
    assert!(is_protocol_error(decode_frame(&header(1, 1, 0, 0), &[1])));
    assert!(is_protocol_error(decode_frame(&header(1, 9, 0, 0), &[1])));
    assert_eq!(decode_frame(&header(3, 3, 0, 1), &[1, 2, 3]), Err(Http2Error::FrameSize));
    assert_eq!(decode_frame(&header(5, 3, 0, 0), &[1, 2, 3, 4, 5]), Err(Http2Error::FrameSize));
    assert!(is_protocol_error(decode_frame(&header(4, 3, 0, 0), &[1, 2, 3, 4])));
    assert!(is_protocol_error(decode_frame(&header(0, 4, 0, 1), &[])));
    assert_eq!(decode_frame(&header(6, 4, 1, 0), &[0, 1, 0, 0, 0, 0]), Err(Http2Error::FrameSize));
    assert_eq!(decode_frame(&header(5, 4, 0, 0), &[0, 1, 0, 0, 0]), Err(Http2Error::FrameSize));
    assert_eq!(decode_frame(&header(7, 6, 0, 0), &[0; 7]), Err(Http2Error::FrameSize));
    assert!(is_protocol_error(decode_frame(&header(8, 6, 0, 1), &[0; 8])));
    assert_eq!(decode_frame(&header(7, 7, 0, 0), &[0; 7]), Err(Http2Error::FrameSize));
    assert!(is_protocol_error(decode_frame(&header(8, 7, 0, 1), &[0; 8])));
    assert_eq!(decode_frame(&header(5, 8, 0, 0), &[0; 5]), Err(Http2Error::FrameSize));
}

#[test]
fn test_other_frames() {
    assert_eq!(decode_frame(&header(5, 2, 0, 1), &[0, 0, 0, 0, 1]), Ok(Frame::Unknown { frame_type: 2 }));
    assert_eq!(decode_frame(&header(0, 5, 0, 1), &[]), Ok(Frame::Unknown { frame_type: 5 }));
    assert_eq!(decode_frame(&header(1, 200, 0, 0), &[9]), Ok(Frame::Unknown { frame_type: 200 }));
    assert_eq!(
        decode_frame(&header(11, 7, 0, 0), &[0x80, 0, 0, 5, 0, 0, 0, 1, b'b', b'y', b'e']),
        Ok(Frame::GoAway { last_stream_id: 5, error_code: 1 })
    );
    assert_eq!(
        decode_frame(&header(4, 8, 0, 7), &[0x80, 0, 1, 0]),
        Ok(Frame::WindowUpdate { stream_id: 7, increment: 256 })
    );
    assert_eq!(
        decode_frame(&header(8, 6, 0xfe, 0), &[1; 8]),
        Ok(Frame::Ping { ack: false, data: [1; 8] })
    );
}

#[test]
fn test_settings_payload() {
    assert_eq!(encode_settings(&[]), Vec::<u8>::new());
    assert_eq!(encode_settings(&[(0x0102, 0x0304_0506)]), vec![1, 2, 3, 4, 5, 6]);
    assert_eq!(decode_settings(&[1, 2, 3, 4, 5, 6, 0, 4, 0, 0, 0xff, 0xff]), vec![(0x0102, 0x0304_0506), (4, 65535)]);
    assert_eq!(decode_settings(&[1, 2, 3, 4, 5, 6, 7]), vec![(0x0102, 0x0304_0506)]);
    assert_eq!(decode_settings(&[1, 2, 3, 4, 5]), vec![]);
    assert!(flag_is_set(5, 4) && flag_is_set(5, 1) && !flag_is_set(5, 8) && !flag_is_set(0, 1));
}

#[test]
fn test_header_block_in_pieces() {
    let block: Vec<u8> = (0..10).collect();
    assert_eq!(
        header_frames(1, block.clone(), true, 16384),
        vec![Frame::Headers { stream_id: 1, end_stream: true, end_headers: true, header_block: block.clone() }]
    );
    assert_eq!(
        header_frames(1, block.clone(), false, 10),
        vec![Frame::Headers { stream_id: 1, end_stream: false, end_headers: true, header_block: block.clone() }]
    );
    assert_eq!(
        header_frames(3, block.clone(), true, 4),
        vec![
            Frame::Headers { stream_id: 3, end_stream: true, end_headers: false, header_block: vec![0, 1, 2, 3] },
            Frame::Continuation { stream_id: 3, end_headers: false, header_block: vec![4, 5, 6, 7] },
            Frame::Continuation { stream_id: 3, end_headers: true, header_block: vec![8, 9] },
        ]
    );
    assert_eq!(
        header_frames(3, block.clone(), false, 5),
        vec![
            Frame::Headers { stream_id: 3, end_stream: false, end_headers: false, header_block: vec![0, 1, 2, 3, 4] },
            Frame::Continuation { stream_id: 3, end_headers: true, header_block: vec![5, 6, 7, 8, 9] },
        ]
    );
    assert_eq!(
        header_frames(3, vec![], true, 1),
        vec![Frame::Headers { stream_id: 3, end_stream: true, end_headers: true, header_block: vec![] }]
    );
    assert_eq!(header_frames(3, block, true, 1).len(), 10);
}

#[test]
fn test_header_blocks_are_put_together() {
    let protocol = |r: Result<Assembled, Http2Error>| matches!(r, Err(Http2Error::Protocol(_)));
    let mut assembly = HeaderAssembly::new();
    assert!(!assembly.is_open());
    let ping = Frame::Ping { ack: false, data: [0; 8] };
    assert_eq!(assembly.accept(ping.clone()), Ok(Assembled::Passed(ping.clone())));
    assert_eq!(
        assembly.accept(Frame::Headers { stream_id: 1, end_stream: true, end_headers: true, header_block: vec![1] }),
        Ok(Assembled::Block { stream_id: 1, end_stream: true, block: vec![1] })
    );
    assert!(!assembly.is_open());
    assert_eq!(
        assembly.accept(Frame::Headers { stream_id: 3, end_stream: true, end_headers: false, header_block: vec![1, 2] }),
        Ok(Assembled::Pending)
    );
    assert!(assembly.is_open());
    assert_eq!(
        assembly.accept(Frame::Continuation { stream_id: 3, end_headers: false, header_block: vec![3] }),
        Ok(Assembled::Pending)
    );
    assert_eq!(
        assembly.accept(Frame::Continuation { stream_id: 3, end_headers: true, header_block: vec![4, 5] }),
        Ok(Assembled::Block { stream_id: 3, end_stream: true, block: vec![1, 2, 3, 4, 5] })
    );
    assert!(!assembly.is_open());
    assert!(protocol(assembly.accept(Frame::Continuation { stream_id: 3, end_headers: true, header_block: vec![] })));

    let mut assembly = HeaderAssembly::new();
    let open = Frame::Headers { stream_id: 5, end_stream: false, end_headers: false, header_block: vec![] };
    assert_eq!(assembly.accept(open.clone()), Ok(Assembled::Pending));
    assert!(protocol(assembly.accept(ping)));
    let mut assembly = HeaderAssembly::new();
    assert_eq!(assembly.accept(open.clone()), Ok(Assembled::Pending));
    assert!(protocol(assembly.accept(Frame::Continuation { stream_id: 7, end_headers: true, header_block: vec![] })));
    let mut assembly = HeaderAssembly::new();
    assert_eq!(assembly.accept(open.clone()), Ok(Assembled::Pending));
    assert!(protocol(assembly.accept(open)));
}
