use photon::http1::client::Http1RequestState;
use photon::http1::server::{h2c_settings, prior_knowledge_request, preface_tail_ok, Http1SocketState, ReadKind};
use photon::http1::{chunk_size, get_chunk, BodyPlan};
use photon::http2::frame::Http2Settings;
use photon::shared::{HttpMethod, HttpVersion, LibError};

fn lines(bytes: &[u8]) -> Vec<Vec<u8>> {
    let mut out = Vec::new();
    let mut cur = Vec::new();
    for &b in bytes {
        cur.push(b);
        if b == b'\n' {
            out.push(std::mem::take(&mut cur));
        }
    }
    if !cur.is_empty() {
        out.push(cur);
    }
    out
}

#[test]
fn request_head_is_read_back() {
    let mut client = Http1RequestState::new();
    client.path = "/test".to_owned();
    let bytes = client.send(b"").unwrap();
    assert!(client.sent && client.sent_head);

    let mut server = Http1SocketState::new();
    let ls = lines(&bytes);
    assert_eq!(server.read_kind(), ReadKind::StartLine);
    server.request_line(&ls[0]);
    for l in &ls[1..] {
        assert_eq!(server.read_kind(), ReadKind::HeaderLine);
        server.header_line(l);
    }
    assert!(server.client.valid);
    assert_eq!(server.client.path, "/test");
    assert_eq!(server.client.method, HttpMethod::Get);
    assert_eq!(server.client.version, HttpVersion::Http11);
    assert_eq!(server.client.headers.get("content-length").unwrap(), &vec!["0".to_owned()]);
    assert_eq!(server.read_kind(), ReadKind::Body(BodyPlan::Length(0)));
    server.body_exact(Vec::new());
    assert_eq!(server.read_kind(), ReadKind::Nothing);
    assert_eq!(server.client.path, "/test");
    assert_eq!(server.client.method, HttpMethod::Get);
    assert!(server.client.body_complete && server.client.body.is_empty());
}

#[test]
fn response_is_read_back() {
    let mut server = Http1SocketState::new();
    server.client.version = HttpVersion::Http11;
    let bytes = server.close(b"test").unwrap();
    assert!(server.closed);
    assert!(matches!(server.close(b""), Err(LibError::ConnectionClosed)));

    let mut client = Http1RequestState::new();
    client.send_head().unwrap();
    let text = String::from_utf8_lossy(&bytes).to_string();
    let (head, body) = text.split_at(text.find("\r\n\r\n").unwrap() + 4);
    assert_eq!(body, "test");
    let ls = lines(head.as_bytes());
    client.status_line(&ls[0]);
    for l in &ls[1..] {
        client.header_line(l);
    }
    assert_eq!(client.response.code, 200);
    assert_eq!(client.response.status, "OK");
    assert_eq!(client.response.version, HttpVersion::Http11);
    assert_eq!(client.read_kind(), ReadKind::Body(BodyPlan::Length(4)));
    client.body_exact(body.as_bytes().to_vec());
    assert_eq!(client.response.body, b"test".to_vec());
    assert_eq!(client.response.code, 200);
    assert_eq!(client.response.status, "OK");
    assert!(client.response.body_complete);
}

#[test]
fn chunked_response() {
    let mut server = Http1SocketState::new();
    server.client.version = HttpVersion::Http11;
    let first = server.write(b"abc").unwrap();
    let text = String::from_utf8(first).unwrap();
    assert!(text.starts_with("HTTP/1.1 200 OK\r\n"));
    assert!(text.contains("Transfer-Encoding: chunked\r\n"));
    assert!(text.ends_with("\r\n\r\n3\r\nabc\r\n"));
    let second = server.write(b"de").unwrap();
    assert_eq!(second, b"2\r\nde\r\n".to_vec());
    let last = server.close(b"").unwrap();
    assert_eq!(last, b"0\r\n\r\n0\r\n\r\n".to_vec());
    assert!(matches!(server.write(b"x"), Err(LibError::ConnectionClosed)));
}

#[test]
fn chunks_and_sizes() {
    let body = vec![7u8; 255];
    let chunk = get_chunk(&body);
    assert_eq!(&chunk[..4], b"ff\r\n");
    assert_eq!(chunk.len(), 4 + 255 + 2);
    assert_eq!(chunk_size(b"ff\r\n"), 255);
    assert_eq!(chunk_size(b" 1A \r\n"), 26);
    assert_eq!(chunk_size(b"+5\r\n"), 5);
    assert_eq!(chunk_size(b"zz\r\n"), 0);
    assert_eq!(chunk_size(b"-1\r\n"), 0);
    assert_eq!(get_chunk(b""), b"0\r\n\r\n".to_vec());
}

#[test]
fn http09_request() {
    let mut client = Http1RequestState::new();
    client.version = HttpVersion::Http09;
    client.path = "/old".to_owned();
    let bytes = client.send(b"ignored").unwrap();
    assert_eq!(bytes, b"GET /old\r\n".to_vec());
    assert!(client.response.head_complete);

    let mut server = Http1SocketState::new();
    server.request_line(&bytes);
    assert_eq!(server.client.version, HttpVersion::Http09);
    assert!(server.client.body_complete);
    assert_eq!(server.close(b"hi").unwrap(), b"hi".to_vec());
}

#[test]
fn malformed_lines() {
    let mut server = Http1SocketState::new();
    server.request_line(b"NONSENSE\r\n");
    assert!(!server.client.valid);
    assert_eq!(server.read_kind(), ReadKind::Nothing);

    let mut server = Http1SocketState::new();
    server.request_line(b"BREW /pot HTCPCP/1.0\r\n");
    assert!(server.client.valid);
    assert_eq!(server.client.method, HttpMethod::Unknown(Some("BREW".to_owned())));
    assert_eq!(server.client.version, HttpVersion::Unknown(Some("HTCPCP/1.0".to_owned())));
    server.header_line(b"no colon here\r\n");
    assert!(!server.client.valid);

    let mut server = Http1SocketState::new();
    server.request_line(b"get / http/1.0\r\n");
    server.header_line(b"Host: a.example\r\n");
    server.header_line(b"HOST: b.example\r\n");
    server.header_line(b"X-Thing:  one \r\n");
    server.header_line(b"x-thing: two\r\n");
    server.header_line(b"\r\n");
    assert_eq!(server.client.host, Some("a.example".to_owned()));
    assert_eq!(server.client.headers.get("x-thing").unwrap(), &vec!["one".to_owned(), "two".to_owned()]);
    assert_eq!(server.read_kind(), ReadKind::Body(BodyPlan::ToEnd));
}

#[test]
fn websocket_handshake() {
    let mut client = Http1RequestState::new();
    let key = [7u8; 16];
    let (wskey, _bytes) = client.websocket_upgrade(&key).unwrap();
    assert!(matches!(client.websocket_upgrade(&[1, 2, 3]), Err(LibError::Invalid)));

    let mut server = Http1SocketState::new();
    server.client.version = HttpVersion::Http11;
    server.client.headers.add("sec-websocket-key".to_owned(), wskey.clone());
    let key_bytes = server.websocket_key().unwrap();
    let answer = server.websocket_with_key(key_bytes).unwrap();
    let text = String::from_utf8(answer).unwrap();
    assert!(text.starts_with("HTTP/1.1 101 Switching Protocols\r\n"));

    let ls = lines(text.as_bytes());
    client.status_line(&ls[0]);
    for l in &ls[1..] {
        client.header_line(l);
    }
    assert!(client.websocket_accepted(&wskey).is_ok());
    assert!(matches!(client.websocket_accepted("something else"), Err(LibError::InvalidUpgrade)));
}

#[test]
fn websocket_upgrade_with_random_keys() {
    let mut a = Http1RequestState::new();
    let mut b = Http1RequestState::new();
    let (ka, bytes) = a.websocket_upgrade_random().unwrap();
    let (kb, _) = b.websocket_upgrade_random().unwrap();
    assert_eq!(ka.len(), 24);
    assert!(ka.ends_with("=="));
    assert_ne!(ka, kb);
    assert_eq!(a.headers.get("Sec-WebSocket-Key"), Some(&vec![ka.clone()]));
    assert_eq!(a.headers.get("Sec-WebSocket-Version"), Some(&vec!["13".to_owned()]));
    let text = String::from_utf8(bytes).unwrap();
    assert!(text.starts_with("GET / HTTP/1.1\r\n"));
    assert!(text.contains(&format!("Sec-WebSocket-Key: {}\r\n", ka)));
    assert!(text.ends_with("Content-Length: 0\r\n\r\n"));
    assert!(a.sent && a.sent_head);
    assert!(matches!(a.websocket_upgrade_random(), Err(LibError::ConnectionClosed)));
}

#[test]
fn websocket_accept_value_of_the_rfc() {
    let k = photon::websocket::accept_key(b"dGhlIHNhbXBsZSBub25jZQ==");
    assert_eq!(k, "s3pPLMBiTxaQ9kYGzzhZRbK+xOo=");
}

#[test]
fn h2c_settings_travel_in_base64() {
    let mut settings = Http2Settings::empty();
    settings.max_frame_size = Some(32768);
    settings.initial_window_size = Some(1000);
    let mut client = Http1RequestState::new();
    let bytes = client.h2c_upgrade(Some(settings), b"").unwrap();
    let text = String::from_utf8(bytes).unwrap();
    assert!(text.contains("Upgrade: h2c\r\n"));
    assert!(matches!(client.h2c_upgrade(None, b""), Err(LibError::ConnectionClosed)));

    let mut server = Http1SocketState::new();
    for l in lines(text.as_bytes()) {
        if !server.client.mpv_complete {
            server.request_line(&l);
        } else {
            server.header_line(&l);
        }
    }
    let read = h2c_settings(&server.client.headers);
    assert_eq!(read.max_frame_size, Some(32768));
    assert_eq!(read.initial_window_size, Some(1000));
    assert_eq!(read.header_table_size, None);

    let session = photon::http1::server::h2c_session(server.client);
    assert!(session.has_stream(1));
}

#[test]
fn prior_knowledge_preface() {
    let mut server = Http1SocketState::new();
    server.request_line(b"PRI * HTTP/2.0\r\n");
    server.header_line(b"\r\n");
    assert!(prior_knowledge_request(&server.client));
    server.body_data(&[], true);
    assert_eq!(server.client.method, HttpMethod::Unknown(Some("PRI".to_owned())));
    assert_eq!(server.client.path, "*");
    assert_eq!(server.client.version, HttpVersion::Unknown(Some("HTTP/2.0".to_owned())));
    assert!(server.client.body_complete);
    assert!(preface_tail_ok(b"SM\r\n\r\n"));
    assert!(!preface_tail_ok(b"SM\r\n\r\r"));

    let mut client = Http1RequestState::new();
    assert_eq!(client.prior_knowledge().unwrap(), b"PRI * HTTP/2.0\r\n\r\nSM\r\n\r\n".to_vec());
    client.send_head().unwrap();
    assert!(matches!(client.prior_knowledge(), Err(LibError::HeadersSent)));
}
