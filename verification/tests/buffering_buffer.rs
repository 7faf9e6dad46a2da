use std::path::PathBuf;
use veil_proxy::buffering::buffer::{PushPlan, ReadPlan, ResponseBuffer};
use veil_proxy::buffering::config::{BufferingConfig, BufferingMode};

fn config(memory: usize, disk: Option<usize>) -> BufferingConfig {
    BufferingConfig {
        mode: BufferingMode::Full,
        max_memory_buffer: memory,
        disk_buffer_path: disk.map(|_| PathBuf::from("/tmp/spill")),
        max_disk_buffer: disk.unwrap_or(0),
        ..Default::default()
    }
}

#[test]
fn test_memory_only() {
    let mut buffer = ResponseBuffer::new(&config(8, None));
    assert_eq!(buffer.next_read(), ReadPlan::Empty);
    assert_eq!(buffer.push(b"abc"), PushPlan { to_memory: 3, to_disk: 0, left_over: 0 });
    assert_eq!(buffer.push(b"defghij"), PushPlan { to_memory: 5, to_disk: 0, left_over: 2 });
    assert_eq!(buffer.push(b"k"), PushPlan { to_memory: 0, to_disk: 0, left_over: 1 });
    assert_eq!(buffer.buffered_len(), 8);
    assert_eq!(buffer.next_read(), ReadPlan::Memory(8));
    assert_eq!(buffer.take_memory(3), b"abc");
    assert_eq!(buffer.next_read(), ReadPlan::Memory(5));
    assert!(!buffer.is_drained());
    assert_eq!(buffer.take_memory(100), b"defgh");
    assert_eq!(buffer.take_memory(100), b"");
    assert_eq!(buffer.next_read(), ReadPlan::Empty);
    assert!(buffer.is_drained());
}

#[test]
fn test_spill_to_disk() {
    let mut buffer = ResponseBuffer::new(&config(4, Some(5)));
    let mut file: Vec<u8> = Vec::new();
    let mut upstream: Vec<u8> = Vec::new();
    let mut client: Vec<u8> = Vec::new();
    for chunk in [b"ab".as_slice(), b"cdef", b"g", b"hijk", b"l"] {
        let plan = buffer.push(chunk);
        file.extend_from_slice(&chunk[plan.to_memory..plan.to_memory + plan.to_disk]);
        upstream.extend_from_slice(&chunk[..plan.to_memory + plan.to_disk]);
        assert_eq!(plan.to_memory + plan.to_disk + plan.left_over, chunk.len());
    }
    assert_eq!(upstream, b"abcdefghi");
    assert_eq!(file, b"efghi");
    assert_eq!(buffer.buffered_len(), 9);
    loop {
        match buffer.next_read() {
            ReadPlan::Empty => break,
            ReadPlan::Memory(n) => {
                assert!(n > 0);
                client.extend(buffer.take_memory(3));
            }
            ReadPlan::Disk { offset, len } => {
                let n = len.min(2);
                let bytes = file[offset..offset + n].to_vec();
                assert_eq!(buffer.deliver_disk(bytes.len()), n);
                client.extend(bytes);
            }
        }
        assert!(upstream.starts_with(&client));
    }
    assert_eq!(client, upstream);
    assert!(buffer.is_drained());
}

#[test]
fn test_interleaved_pushes_and_reads() {
    let mut buffer = ResponseBuffer::new(&config(4, Some(100)));
    assert_eq!(buffer.push(b"abc"), PushPlan { to_memory: 3, to_disk: 0, left_over: 0 });
    assert_eq!(buffer.take_memory(2), b"ab");
    assert_eq!(buffer.push(b"defg"), PushPlan { to_memory: 1, to_disk: 3, left_over: 0 });
    assert_eq!(buffer.next_read(), ReadPlan::Memory(2));
    assert_eq!(buffer.take_memory(10), b"cd");
    assert_eq!(buffer.next_read(), ReadPlan::Disk { offset: 0, len: 3 });
    assert_eq!(buffer.deliver_disk(2), 2);
    assert_eq!(buffer.push(b"h"), PushPlan { to_memory: 0, to_disk: 1, left_over: 0 });
    assert_eq!(buffer.next_read(), ReadPlan::Disk { offset: 2, len: 2 });
    assert_eq!(buffer.deliver_disk(5), 2);
    assert!(buffer.is_drained());
    assert_eq!(buffer.deliver_disk(1), 0);
}

#[test]
fn test_zero_limits() {
    let mut buffer = ResponseBuffer::new(&config(0, None));
    assert_eq!(buffer.push(b"abc"), PushPlan { to_memory: 0, to_disk: 0, left_over: 3 });
    assert!(buffer.is_drained());
    let mut buffer = ResponseBuffer::new(&config(0, Some(2)));
    assert_eq!(buffer.push(b"abc"), PushPlan { to_memory: 0, to_disk: 2, left_over: 1 });
    assert_eq!(buffer.next_read(), ReadPlan::Disk { offset: 0, len: 2 });
}
