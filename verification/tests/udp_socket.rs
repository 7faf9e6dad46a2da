use veil_proxy::udp::socket::{create_recv_buffer, gso_datagrams, GSO_SEGMENT_SIZE, RECV_BUFFER_SIZE};

#[test]
fn test_gso_segment_size() {
    assert_eq!(GSO_SEGMENT_SIZE, 1200);
    assert!(GSO_SEGMENT_SIZE > 0);
    assert!(GSO_SEGMENT_SIZE <= 65535);
}

#[test]
fn test_recv_buffer_size() {
    assert_eq!(RECV_BUFFER_SIZE, 65536);
    assert!(RECV_BUFFER_SIZE >= GSO_SEGMENT_SIZE);
}

#[test]
fn test_create_recv_buffer() {
    let buf = create_recv_buffer();

    assert_eq!(buf.len(), RECV_BUFFER_SIZE);
    assert!(buf.iter().all(|&b| b == 0));
}

#[test]
fn test_create_recv_buffer_capacity() {
    let buf = create_recv_buffer();

    assert!(buf.capacity() >= RECV_BUFFER_SIZE);
}

#[test]
fn test_gso_datagrams() {
    let packets = vec![vec![1u8, 2], vec![], vec![3u8]];
    assert_eq!(gso_datagrams(true, &packets), vec![vec![1u8, 2, 3]]);
    assert_eq!(gso_datagrams(false, &packets), packets);
    assert_eq!(gso_datagrams(true, &[]), Vec::<Vec<u8>>::new());
    assert_eq!(gso_datagrams(false, &[]), Vec::<Vec<u8>>::new());
}
