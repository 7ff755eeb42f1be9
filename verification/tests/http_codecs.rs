use photon::http2::frame::{Http2Frame, Http2FrameType};
use photon::http2::hpack::{Biterator, HeaderType, HpackDecoder, HpackEncoder};
use photon::websocket::WebSocketFrame;

#[test]
fn websocket_frame() {
    let frame_buff = vec![
        0x82, 0xff,
        0x00, 0x00, 0x00, 0x00, 0x00, 0x00, 0x00, 0x0d,
        0x12, 0x34, 0x56, 0x78,
        0x5a, 0x51, 0x3a, 0x14, 0x7d, 0x18, 0x76, 0x2f, 0x7d, 0x46, 0x3a, 0x1c, 0x6c,
    ];

    let mut frame = WebSocketFrame::from_owned(frame_buff).unwrap();
    frame.unmask_in_place();
    let s = String::from_utf8_lossy(frame.get_payload()).to_string();
    let frame = frame;

    assert_eq!(frame.fin, true);
    assert_eq!(frame.rsv, 0);
    assert_eq!(frame.opcode_byte, 2);
    assert_eq!(frame.masked, true);
    assert_eq!(frame.len, 127);
    assert_eq!(frame.ext_len, 13);
    assert_eq!(s, "Hello, World~");
}

#[test]
fn biterator() {
    let bytes = &[0, 1, 2, 3, 4, 5, 6, 7, 8, 9];
    let bits = [false, false, false, false, false, false, false, false, false, false, false, false, false, false, false, true, false, false, false, false, false, false, true, false, false, false, false, false, false, false, true, true, false, false, false, false, false, true, false, false, false, false, false, false, false, true, false, true, false, false, false, false, false, true, true, false, false, false, false, false, false, true, true, true, false, false, false, false, true, false, false, false, false, false, false, false, true, false, false, true];
    let biter = Biterator::new(bytes).collect_bits();

    assert_eq!(&bits as &[bool], biter.as_slice());
}

#[test]
fn hpack_decode() {
    let mut decoder = HpackDecoder::new(4096);
    let encoded = [
        0x82,
        0x85,
        0x26,
        0x40, 0x85, 0x35, 0x52, 0x17, 0xc9, 0x64, 0x85, 0x9c, 0xa3, 0x90, 0xb6, 0x7f,
        0x0, 0x82, 0xa8, 0xe9, 0x85, 0x35, 0x52, 0x17, 0xc9, 0x64,
        0x10, 0x84, 0xa8, 0xbd, 0xcb, 0x67, 0x85, 0x35, 0x52, 0x17, 0xc9, 0x64,
        0x0, 0x86, 0x9e, 0xd9, 0x65, 0xa4, 0x75, 0x7f, 0x85, 0x2d, 0x44, 0x3c, 0x85, 0x93,
        0x0, 0x88, 0xa8, 0xe9, 0x52, 0x7b, 0x65, 0x96, 0x91, 0xd5, 0x85, 0x2d, 0x44, 0x3c, 0x85, 0x93,
    ];
    let decoded: &[(&[u8], &[u8])] = &[(b":method", b"GET"), (b":path", b"/index.html"), (b"indexed", b"header"), (b"not", b"indexed"), (b"never", b"indexed"), (b"huffman", b"encoded"), (b"not huffman", b"encoded")];

    let mut dec = Vec::new();
    let mut pos = 0;

    while pos < encoded.len() {
        let opos = pos;
        let last = decoder.decode(&encoded, &mut pos).unwrap();
        let htyp = last.0;
        let last = if last.0 != HeaderType::TableSizeChange { (last.1, last.2) } else { continue; };

        dec.push(last.clone());

        println!("[{} - {} : {}] = \x1b[38;5;8m{:?}\x1b[0m({}, {})", opos, pos, pos - opos, htyp, String::from_utf8_lossy(&last.0), String::from_utf8_lossy(&last.1))
    }

    let dec_ref = dec.iter().map(|(h, v)| (h.as_slice(), v.as_slice())).collect::<Vec<(&[u8], &[u8])>>();

    assert_eq!(decoded, dec_ref.as_slice());
}

#[test]
fn hpack_encode() {
    let mut encoder = HpackEncoder::new(4096);
    let encoded = [
        0x82,
        0x85,
        0x40, 0x85, 0x35, 0x52, 0x17, 0xc9, 0x64, 0x85, 0x9c, 0xa3, 0x90, 0xb6, 0x7f,
        0x0, 0x82, 0xa8, 0xe9, 0x85, 0x35, 0x52, 0x17, 0xc9, 0x64,
        0x10, 0x84, 0xa8, 0xbd, 0xcb, 0x67, 0x85, 0x35, 0x52, 0x17, 0xc9, 0x64,
        0x0, 0x86, 0x9e, 0xd9, 0x65, 0xa4, 0x75, 0x7f, 0x85, 0x2d, 0x44, 0x3c, 0x85, 0x93,
        0x0, 0xb, 0x6e, 0x6f, 0x74, 0x20, 0x68, 0x75, 0x66, 0x66, 0x6d, 0x61, 0x6e, 0x7, 0x65, 0x6e, 0x63, 0x6f, 0x64, 0x65, 0x64
    ];
    let decoded: &[(HeaderType, &[u8], &[u8], Option<bool>)] = &[
        (HeaderType::Lookup, b":method", b"GET", None),
        (HeaderType::Lookup, b":path", b"/index.html", None),
        (HeaderType::Indexed, b"indexed", b"header", None),
        (HeaderType::NotIndexed, b"not", b"indexed", None),
        (HeaderType::NeverIndexed, b"never", b"indexed", None),
        (HeaderType::NotIndexed, b"huffman", b"encoded", Some(true)),
        (HeaderType::NotIndexed, b"not huffman", b"encoded", Some(false)),
    ];

    let mut buff = Vec::new();

    for &h in decoded {
        println!("encoding header");
        encoder.encode(&mut buff, h.0, h.1, h.2, h.3).unwrap();
    }

    assert_eq!(buff.as_slice(), encoded);
}

#[test]
fn http2_frame() {
    let frame_raw = [
        0u8, 0, 19,
        0, 1 | 8 | 32,
        0, 0, 0, 3,
        2,
        0, 0, 0, 1, 2,
        0x68, 0x65, 0x6c, 0x6c, 0x6f, 0x20, 0x77, 0x6f, 0x72, 0x6c, 0x64,
        0x68, 0x69,
    ];

    let frame = Http2Frame::from_owned(frame_raw.to_vec()).unwrap();
    let frame_buff = Http2Frame::create(frame.ftype, frame.flags, frame.stream_id, Some(frame.get_priority()), Some(frame.get_payload()), Some(frame.get_padding()));

    assert_eq!(frame.is_end_headers(), false);
    assert_eq!(frame.is_end_stream(), true);
    assert_eq!(frame.is_padded(), true);
    assert_eq!(frame.is_priority(), true);
    assert_eq!(frame.length, 19);
    assert_eq!(frame.ftype, Http2FrameType::Data);
    assert_eq!(frame.type_byte, 0);
    assert_eq!(frame.flags, 41);
    assert_eq!(frame.stream_id, 3);
    assert_eq!(frame.get_priority(), &[0, 0, 0, 1, 2]);
    assert_eq!(frame.get_payload(), b"hello world");
    assert_eq!(frame.get_padding(), b"hi");

    assert_eq!(frame_buff.as_slice(), &frame_raw);
}

#[test]
fn coders_take_their_table_limit() {
    let decoder = HpackDecoder::new(100);
    assert_eq!(decoder.inner.max_dynamic_size(), 100);
    let mut encoder = HpackEncoder::new(4096);
    assert_eq!(encoder.inner.max_dynamic_size(), 4096);
    let big = HpackDecoder::new(usize::MAX);
    assert_eq!(big.inner.max_dynamic_size(), u32::MAX);
}

#[test]
fn decoder_reads_the_tables() {
    let mut decoder = HpackDecoder::new(4096);
    // 0x82 is static entry 2, 0x84 static entry 4.
    let fields = decoder.decode_all(&[0x82, 0x84]).unwrap();
    assert_eq!(fields, vec![(b":method".to_vec(), b"GET".to_vec()), (b":path".to_vec(), b"/".to_vec())]);
    // A literal with incremental indexing, name from static entry 1, then
    // the new dynamic entry 62 by index.
    let mut block = vec![0x41, 0x0b];
    block.extend_from_slice(b"example.com");
    block.push(0xbe);
    let fields = decoder.decode_all(&block).unwrap();
    assert_eq!(fields.len(), 2);
    assert_eq!(fields[0], (b":authority".to_vec(), b"example.com".to_vec()));
    assert_eq!(fields[1], fields[0]);
    // Index 63 is past the tables.
    assert!(decoder.decode_all(&[0xbf]).is_none());
}

#[test]
fn encoder_looks_fields_up() {
    let mut encoder = HpackEncoder::new(4096);
    let mut dst = Vec::new();
    encoder.encode(&mut dst, HeaderType::Lookup, b":method", b"GET", Some(false)).unwrap();
    assert_eq!(dst, vec![0x82]);
    let mut dst = Vec::new();
    encoder.encode(&mut dst, HeaderType::Lookup, b":path", b"/x", Some(false)).unwrap();
    assert_eq!(dst, vec![0x04, 0x02, b'/', b'x']);
    let mut dst = Vec::new();
    encoder.encode(&mut dst, HeaderType::Indexed, b"x-a", b"1", Some(false)).unwrap();
    let mut dst = Vec::new();
    encoder.encode(&mut dst, HeaderType::Lookup, b"x-a", b"1", Some(false)).unwrap();
    assert_eq!(dst, vec![0xbe]);
}
