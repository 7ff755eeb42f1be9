use std::sync::Arc;

use photon::atomic_arc::AtomicArc;
use photon::codes::{detect_prot, method_code, method_from_code, sni_matches, version_code};
use photon::errno::{Errno, IO_ERROR};
use photon::http2::frame::Http2Settings;
use photon::http2::hpack::HpackError;
use photon::runtime::TokioSettings;
use photon::shared::{HeaderMap, HttpMethod, HttpVersion, LibError};
use photon::websocket::WebSocketFrame;

#[test]
fn error_numbers_and_messages() {
    assert_eq!(LibError::NotConnected.get_errno(), 0x103);
    assert_eq!(LibError::ProtocolError.get_errno(), 0x115);
    assert_eq!(LibError::Hpack(HpackError::InvalidIndex).get_errno(), 0x102);
    let io = LibError::Io(std::io::Error::from_raw_os_error(2));
    assert_eq!(io.get_errno(), 2 | IO_ERROR);
    assert_eq!(LibError::StreamClosed.to_string(), "Stream is closed\n");
    assert_eq!(LibError::Hpack(HpackError::InvalidIndex).to_string(), "InvalidIndex\n");
}

#[test]
fn method_and_version_codes() {
    for code in 1u8..=8 {
        assert_eq!(method_code(&method_from_code(code)), code);
    }
    assert_eq!(method_from_code(0), HttpMethod::Unknown(None));
    assert_eq!(method_from_code(200), HttpMethod::Unknown(None));
    assert_eq!(method_code(&HttpMethod::Unknown(Some("X".to_owned()))), 0);
    assert_eq!(version_code(&HttpVersion::Http11), 4);
    assert_eq!(version_code(&HttpVersion::Http3), 6);
}

#[test]
fn protocol_detection() {
    let mut preface = [0u8; 24];
    preface.copy_from_slice(b"PRI * HTTP/2.0\r\n\r\nSM\r\n\r\n");
    assert_eq!(detect_prot(&preface), 1);
    let mut tls = [0u8; 24];
    tls[0] = 22;
    assert_eq!(detect_prot(&tls), 2);
    let mut http = [0u8; 24];
    http.copy_from_slice(b"GET / HTTP/1.1\r\nHost: ab");
    assert_eq!(detect_prot(&http), 0);
}

#[test]
fn server_name_matching() {
    assert!(sni_matches("example.com", "example.com"));
    assert!(sni_matches("*.example.com", "www.example.com"));
    assert!(!sni_matches("*.example.com", "example.com"));
    assert!(!sni_matches("*.example.com", "a.b.example.com"));
    assert!(!sni_matches("www.example.com", "web.example.com"));
}

#[test]
fn websocket_frames_round_trip() {
    let mask = [1u8, 2, 3, 4];
    let bytes = WebSocketFrame::create(true, 1, Some(mask), b"hello");
    let mut frame = WebSocketFrame::from_owned(bytes).unwrap();
    assert!(frame.masked);
    assert_ne!(frame.get_payload(), b"hello");
    frame.unmask_in_place();
    assert_eq!(frame.get_payload(), b"hello");
    assert_eq!(frame.opcode_byte, 1);

    let long = vec![9u8; 300];
    let bytes = WebSocketFrame::create(false, 2, None, &long);
    let frame = WebSocketFrame::from_owned(bytes).unwrap();
    assert_eq!(frame.len, 126);
    assert_eq!(frame.ext_len, 300);
    assert!(!frame.fin);
    assert_eq!(frame.get_payload(), &long[..]);

    assert!(WebSocketFrame::from_owned(vec![0x81, 0x05, b'h']).is_none());
    assert!(WebSocketFrame::from_owned(vec![0x81]).is_none());
}

#[test]
fn runtime_settings() {
    let s = TokioSettings::default();
    assert!(s.multi_threaded);
    assert!(s.worker_threads.is_none());
    let t = TokioSettings::new_unset(false);
    assert!(!t.multi_threaded);
}

#[test]
fn atomic_arc_slot() {
    let slot: AtomicArc<u32> = AtomicArc::empty();
    assert!(slot.load().is_none());
    slot.store(Some(Arc::new(5)));
    assert_eq!(*slot.load().unwrap(), 5);
    let old = slot.swap(None);
    assert_eq!(*old.unwrap(), 5);
    assert!(slot.load().is_none());
    let full = AtomicArc::new(9u32);
    assert_eq!(*full.load().unwrap(), 9);
}

#[test]
fn settings_round_trip() {
    let s = Http2Settings::maximum();
    let back = Http2Settings::from(&s.to_vec());
    assert_eq!(back.max_frame_size, s.max_frame_size);
    assert_eq!(back.initial_window_size, s.initial_window_size);
    assert_eq!(back.enable_push, s.enable_push);
}

#[test]
fn header_map_operations() {
    let mut m = HeaderMap::new();
    m.add("a".to_owned(), "1".to_owned());
    m.add("a".to_owned(), "2".to_owned());
    assert_eq!(m.get("a").unwrap(), &vec!["1".to_owned(), "2".to_owned()]);
    assert_eq!(m.insert("a".to_owned(), vec!["3".to_owned()]), Some(vec!["1".to_owned(), "2".to_owned()]));
    assert!(m.contains_key("a"));
    assert_eq!(m.remove("a"), Some(vec!["3".to_owned()]));
    assert!(!m.contains_key("a"));
    assert_eq!(m.len(), 0);
}

#[test]
fn io_error_numbers() {
    let e = std::io::Error::from_raw_os_error(13);
    assert_eq!(e.get_errno(), 13 | IO_ERROR);
    let no_code = std::io::Error::new(std::io::ErrorKind::Other, "no code");
    assert_eq!(no_code.get_errno(), IO_ERROR);
    let lib = LibError::Io(std::io::Error::from_raw_os_error(13));
    assert_eq!(lib.io().and_then(|e| e.raw_os_error()), Some(13));
    assert!(LibError::InvalidFrame.io().is_none());
}

#[test]
fn method_names_read_back() {
    let methods = [
        HttpMethod::Get,
        HttpMethod::Head,
        HttpMethod::Post,
        HttpMethod::Put,
        HttpMethod::Delete,
        HttpMethod::Connect,
        HttpMethod::Options,
        HttpMethod::Trace,
    ];
    for m in methods {
        let text = m.to_string();
        assert_eq!(HttpMethod::from(&text), m);
        assert_eq!(HttpMethod::from(&text.to_ascii_lowercase()), m);
    }
    assert_eq!(HttpMethod::from("gEt"), HttpMethod::Get);
    assert_eq!(HttpMethod::from("BREW"), HttpMethod::Unknown(Some("BREW".to_owned())));
}
