use veil_proxy::http2::hpack::{
    fields_are_short, push_int, push_string, read_int, read_string, static_entry, HeaderField,
    HeaderTable, HpackDecoder, HpackEncoder, HpackError, DEFAULT_TABLE_SIZE,
};

fn hex(text: &str) -> Vec<u8> {
    let digits: Vec<u8> = text.bytes().filter(|b| !b.is_ascii_whitespace()).collect();
    digits
        .chunks(2)
        .map(|pair| u8::from_str_radix(std::str::from_utf8(pair).unwrap(), 16).unwrap())
        .collect()
}

fn field(name: &str, value: &str) -> HeaderField {
    HeaderField::new(name.as_bytes().to_vec(), value.as_bytes().to_vec())
}

fn fields(list: &[(&str, &str)]) -> Vec<HeaderField> {
    list.iter().map(|(n, v)| field(n, v)).collect()
}

#[test]
fn test_integer_examples() {
    let mut out = Vec::new();
    push_int(&mut out, 0, 31, 10);
    assert_eq!(out, [0x0a]);
    out.clear();
    push_int(&mut out, 0, 31, 1337);
    assert_eq!(out, [0x1f, 0x9a, 0x0a]);
    out.clear();
    push_int(&mut out, 0, 255, 42);
    assert_eq!(out, [0x2a]);
    out.clear();
    push_int(&mut out, 128, 127, 127);
    assert_eq!(out, [0xff, 0x00]);
    out.clear();
    push_int(&mut out, 32, 31, 4096);
    assert_eq!(out, [0x3f, 0xe1, 0x1f]);
    assert_eq!(read_int(&[0x9a, 0x0a, 0x77], 0, 31, 31), Ok((1337, 2)));
    assert_eq!(read_int(&[0x9a, 0x0a], 0, 31, 10), Ok((10, 0)));
    assert_eq!(read_int(&[0x55, 0x00], 1, 127, 127), Ok((127, 1)));
}

#[test]
fn test_integer_limits() {
    let mut out = Vec::new();
    push_int(&mut out, 0, 127, 0xffff_ffff);
    assert_eq!(out, [0x7f, 0x80, 0xff, 0xff, 0xff, 0x0f]);
    assert_eq!(read_int(&out, 1, 127, 127), Ok((0xffff_ffff, 5)));
    assert_eq!(read_int(&[0x81, 0xff, 0xff, 0xff, 0x0f], 0, 127, 127), Err(HpackError::IntegerOverflow));
    assert_eq!(read_int(&[0x80, 0x80, 0x80, 0x80, 0x80, 0x00], 0, 127, 127), Err(HpackError::IntegerOverflow));
    assert_eq!(read_int(&[0x80, 0x80, 0x80, 0x80, 0x00], 0, 127, 127), Ok((127, 5)));
    assert_eq!(read_int(&[0x80, 0x80], 0, 127, 127), Err(HpackError::Truncated));
    assert_eq!(read_int(&[], 0, 15, 15), Err(HpackError::Truncated));
    for n in [0u64, 1, 14, 15, 16, 142, 143, 16398, 16399, 70000, 0xffff_fffe] {
        let mut out = Vec::new();
        push_int(&mut out, 16, 15, n);
        assert_eq!(read_int(&out, 1, 15, out[0] - 16), Ok((n, out.len() - 1)), "{n}");
    }
}

#[test]
fn test_strings() {
    let mut out = vec![9u8];
    push_string(&mut out, b"custom-key");
    assert_eq!(out, hex("09 0a 6375 7374 6f6d 2d6b 6579"));
    assert_eq!(read_string(&out, 1), Ok((b"custom-key".to_vec(), 11)));
    assert_eq!(read_string(&out[..11], 1), Err(HpackError::Truncated));
    assert_eq!(read_string(&out, 12), Err(HpackError::Truncated));
    assert_eq!(read_string(&[0x00], 0), Ok((vec![], 1)));
    assert_eq!(read_string(&hex("8c f1e3 c2e5 f23a 6ba0 ab90 f4ff"), 0), Err(HpackError::HuffmanCoded));
    let long = vec![b'x'; 300];
    let mut out = Vec::new();
    push_string(&mut out, &long);
    assert_eq!(&out[..3], [0x7f, 0xad, 0x01]);
    assert_eq!(read_string(&out, 0), Ok((long, 303)));
}

#[test]
fn test_static_table() {
    assert_eq!(static_entry(1), (b":authority".as_slice(), b"".as_slice()));
    assert_eq!(static_entry(2), (b":method".as_slice(), b"GET".as_slice()));
    assert_eq!(static_entry(8), (b":status".as_slice(), b"200".as_slice()));
    assert_eq!(static_entry(16), (b"accept-encoding".as_slice(), b"gzip, deflate".as_slice()));
    assert_eq!(static_entry(31), (b"content-type".as_slice(), b"".as_slice()));
    assert_eq!(static_entry(61), (b"www-authenticate".as_slice(), b"".as_slice()));
    let table = HeaderTable::new(100);
    assert_eq!(table.get(0), None);
    assert_eq!(table.get(4), Some((b":path".to_vec(), b"/".to_vec())));
    assert_eq!(table.get(62), None);
    assert_eq!(table.find(b":path", b"/index.html"), (5, 4));
    assert_eq!(table.find(b":path", b"/other"), (0, 4));
    assert_eq!(table.find(b"x-other", b""), (0, 0));
    assert_eq!(table.find(b"via", b""), (60, 60));
}

#[test]
fn test_dynamic_table() {
    let mut table = HeaderTable::new(100);
    table.insert(b"aaaa".to_vec(), b"bbbb".to_vec());
    assert_eq!((table.len(), table.size()), (1, 40));
    table.insert(b"cccc".to_vec(), b"dddd".to_vec());
    assert_eq!((table.len(), table.size()), (2, 80));
    assert_eq!(table.get(62), Some((b"cccc".to_vec(), b"dddd".to_vec())));
    assert_eq!(table.get(63), Some((b"aaaa".to_vec(), b"bbbb".to_vec())));
    assert_eq!(table.get(64), None);
    assert_eq!(table.find(b"aaaa", b"bbbb"), (63, 63));
    assert_eq!(table.find(b"aaaa", b"zz"), (0, 63));
    table.insert(b"e".to_vec(), b"f".to_vec());
    assert_eq!((table.len(), table.size()), (2, 74));
    assert_eq!(table.get(62), Some((b"e".to_vec(), b"f".to_vec())));
    assert_eq!(table.get(63), Some((b"cccc".to_vec(), b"dddd".to_vec())));
    table.insert(vec![b'n'; 30], vec![b'v'; 38]);
    assert_eq!((table.len(), table.size()), (1, 100));
    table.insert(vec![b'n'; 30], vec![b'v'; 39]);
    assert_eq!((table.len(), table.size()), (0, 0));
    table.insert(b"aaaa".to_vec(), b"bbbb".to_vec());
    table.insert(b"cccc".to_vec(), b"dddd".to_vec());
    table.resize(79);
    assert_eq!((table.len(), table.size(), table.max_size()), (1, 40, 79));
    assert_eq!(table.get(62), Some((b"cccc".to_vec(), b"dddd".to_vec())));
    table.resize(0);
    assert_eq!((table.len(), table.size()), (0, 0));
    table.insert(vec![], vec![]);
    assert_eq!(table.len(), 0);
}

#[test]
fn test_single_representations() {
    let mut decoder = HpackDecoder::new(4096);
    let block = hex("400a 6375 7374 6f6d 2d6b 6579 0d63 7573 746f 6d2d 6865 6164 6572");
    assert_eq!(decoder.decode(&block), Ok(vec![field("custom-key", "custom-header")]));
    assert_eq!(decoder.decode(&[0xbe]), Ok(vec![field("custom-key", "custom-header")]));
    assert_eq!(
        decoder.decode(&hex("040c 2f73 616d 706c 652f 7061 7468")),
        Ok(vec![field(":path", "/sample/path")])
    );
    assert_eq!(
        decoder.decode(&hex("1008 7061 7373 776f 7264 0673 6563 7265 74")),
        Ok(vec![HeaderField::sensitive(b"password".to_vec(), b"secret".to_vec())])
    );
    assert_eq!(decoder.decode(&[0x82]), Ok(vec![field(":method", "GET")]));
    assert_eq!(decoder.decode(&[0xbf]), Err(HpackError::InvalidIndex));
    assert_eq!(decoder.decode(&[]), Ok(vec![]));

    let mut encoder = HpackEncoder::new(DEFAULT_TABLE_SIZE);
    assert_eq!(encoder.encode(&fields(&[("custom-key", "custom-header")])), Ok(block));
    assert_eq!(encoder.encode(&fields(&[("custom-key", "custom-header")])), Ok(vec![0xbe]));
    assert_eq!(
        encoder.encode(&[HeaderField::sensitive(b"password".to_vec(), b"secret".to_vec())]),
        Ok(hex("1008 7061 7373 776f 7264 0673 6563 7265 74"))
    );
    assert_eq!(
        encoder.encode(&[HeaderField::sensitive(b"custom-key".to_vec(), b"custom-header".to_vec())]),
        Ok(hex("1f2f 0d63 7573 746f 6d2d 6865 6164 6572"))
    );
    assert_eq!(encoder.encode(&[]), Ok(vec![]));
}

#[test]
fn test_requests_without_huffman() {
    let mut encoder = HpackEncoder::new(4096);
    let mut decoder = HpackDecoder::new(4096);
    let first = fields(&[
        (":method", "GET"),
        (":scheme", "http"),
        (":path", "/"),
        (":authority", "www.example.com"),
    ]);
    let block = encoder.encode(&first).unwrap();
    assert_eq!(block, hex("8286 8441 0f77 7777 2e65 7861 6d70 6c65 2e63 6f6d"));
    assert_eq!(decoder.decode(&block), Ok(first));
    let second = fields(&[
        (":method", "GET"),
        (":scheme", "http"),
        (":path", "/"),
        (":authority", "www.example.com"),
        ("cache-control", "no-cache"),
    ]);
    let block = encoder.encode(&second).unwrap();
    assert_eq!(block, hex("8286 84be 5808 6e6f 2d63 6163 6865"));
    assert_eq!(decoder.decode(&block), Ok(second));
    let third = fields(&[
        (":method", "GET"),
        (":scheme", "https"),
        (":path", "/index.html"),
        (":authority", "www.example.com"),
        ("custom-key", "custom-value"),
    ]);
    let block = encoder.encode(&third).unwrap();
    assert_eq!(block, hex("8287 85bf 400a 6375 7374 6f6d 2d6b 6579 0c63 7573 746f 6d2d 7661 6c75 65"));
    assert_eq!(decoder.decode(&block), Ok(third));
}

#[test]
fn test_responses_with_eviction() {
    let mut encoder = HpackEncoder::new(256);
    let mut decoder = HpackDecoder::new(4096);
    let first = fields(&[
        (":status", "302"),
        ("cache-control", "private"),
        ("date", "Mon, 21 Oct 2013 20:13:21 GMT"),
        ("location", "https://www.example.com"),
    ]);
    let block = encoder.encode(&first).unwrap();
    assert_eq!(
        block,
        hex(
            "3fe1 01 4803 3330 3258 0770 7269 7661 7465 611d 4d6f 6e2c 2032 3120 4f63 7420 3230 \
             3133 2032 303a 3133 3a32 3120 474d 546e 1768 7474 7073 3a2f 2f77 7777 2e65 7861 \
             6d70 6c65 2e63 6f6d"
        )
    );
    assert_eq!(decoder.decode(&block), Ok(first));
    let second = fields(&[
        (":status", "307"),
        ("cache-control", "private"),
        ("date", "Mon, 21 Oct 2013 20:13:21 GMT"),
        ("location", "https://www.example.com"),
    ]);
    let block = encoder.encode(&second).unwrap();
    assert_eq!(block, hex("4803 3330 37c1 c0bf"));
    assert_eq!(decoder.decode(&block), Ok(second));
    assert_eq!(decoder.decode(&[0xc1]), Ok(fields(&[("cache-control", "private")])));
    assert_eq!(decoder.decode(&[0xbf]), Ok(fields(&[("location", "https://www.example.com")])));
    assert_eq!(decoder.decode(&[0xc2]), Err(HpackError::InvalidIndex));
}

#[test]
fn test_round_trip_keeps_order_and_duplicates() {
    let mut encoder = HpackEncoder::new(120);
    let mut decoder = HpackDecoder::new(200);
    let long = "v".repeat(500);
    let lists = vec![
        fields(&[("a", "1"), ("a", "1"), ("b", "2"), ("a", "1"), ("A", "1"), ("", "")]),
        vec![
            field("set-cookie", "x=1"),
            HeaderField::sensitive(b"authorization".to_vec(), b"token".to_vec()),
            field("set-cookie", "y=2"),
            field("set-cookie", "x=1"),
            HeaderField::sensitive(b"a".to_vec(), b"1".to_vec()),
        ],
        fields(&[("big", &long), ("big", &long), ("a", "1"), (&long, "")]),
        vec![],
        fields(&[(":status", "200"), (":status", "201"), ("a", "1")]),
    ];
    for round in 0..3 {
        for list in &lists {
            let block = encoder.encode(list).unwrap();
            assert_eq!(decoder.decode(&block).as_ref(), Ok(list));
        }
        let size = [0u32, 64, 200][round];
        encoder.set_max_table_size(size);
        assert_eq!(encoder.max_table_size(), size);
    }
}

#[test]
fn test_changes_of_size() {
    let mut encoder = HpackEncoder::new(4096);
    let mut decoder = HpackDecoder::new(4096);
    let list = fields(&[("a", "1")]);
    assert_eq!(encoder.encode(&list), Ok(hex("4001 6101 31")));
    assert_eq!(decoder.decode(&hex("4001 6101 31")), Ok(list.clone()));
    encoder.set_max_table_size(0);
    encoder.set_max_table_size(100);
    let block = encoder.encode(&list).unwrap();
    assert_eq!(block, hex("20 3f45 4001 6101 31"));
    assert_eq!(decoder.decode(&block), Ok(list.clone()));
    encoder.set_max_table_size(100);
    assert_eq!(encoder.encode(&list), Ok(hex("3f45 be")));
    assert_eq!(decoder.decode(&hex("3f45 be")), Ok(list.clone()));
    encoder.set_max_table_size(200);
    encoder.set_max_table_size(50);
    encoder.set_max_table_size(60);
    assert_eq!(encoder.encode(&[]), Ok(hex("3f13 3f1d")));
    assert_eq!(decoder.decode(&hex("3f13 3f1d")), Ok(vec![]));
    assert_eq!(encoder.encode(&list), Ok(vec![0xbe]));
    assert_eq!(decoder.decode(&[0xbe]), Ok(list));
}

#[test]
fn test_refused_blocks() {
    let mut decoder = HpackDecoder::new(100);
    assert_eq!(decoder.decode(&[0x80]), Err(HpackError::InvalidIndex));
    assert_eq!(decoder.decode(&[0xff]), Err(HpackError::Truncated));
    assert_eq!(decoder.decode(&[0x40]), Err(HpackError::Truncated));
    assert_eq!(decoder.decode(&hex("4001 61")), Err(HpackError::Truncated));
    assert_eq!(decoder.decode(&hex("4001 6105 31")), Err(HpackError::Truncated));
    assert_eq!(decoder.decode(&hex("4081 61")), Err(HpackError::HuffmanCoded));
    assert_eq!(decoder.decode(&hex("7f00 0131")), Err(HpackError::InvalidIndex));
    assert_eq!(decoder.decode(&hex("0f2f 0131")), Err(HpackError::InvalidIndex));
    assert_eq!(decoder.decode(&hex("3f46")), Err(HpackError::InvalidSizeUpdate));
    assert_eq!(decoder.decode(&hex("3f45")), Ok(vec![]));
    assert_eq!(decoder.decode(&hex("82 20")), Err(HpackError::InvalidSizeUpdate));
    assert_eq!(decoder.decode(&hex("20 3f45 82")), Ok(fields(&[(":method", "GET")])));
    assert_eq!(decoder.decode(&hex("3f ffff ffff ff")), Err(HpackError::IntegerOverflow));
    decoder.set_limit(4096);
    assert_eq!(decoder.decode(&hex("3fe1 1f")), Ok(vec![]));
    assert_eq!(decoder.decode(&hex("3fe2 1f")), Err(HpackError::InvalidSizeUpdate));
}

#[test]
fn test_short_fields() {
    assert!(fields_are_short(&[]));
    assert!(fields_are_short(&fields(&[("a", "b"), ("", "")])));
}
