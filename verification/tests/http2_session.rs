use photon::http2::frame::{Http2Frame, Http2FrameType, Http2Settings};
use photon::http2::send::{header_frames, DataWait};
use photon::http2::session::{
    goaway_frame, is_preface, ping_frame, settings_frame, window_update_frame, Mode, SessionAction, SessionState,
    PREFACE,
};
use photon::shared::LibError;

fn frames_of(bytes: &[u8]) -> Vec<Http2Frame> {
    let mut out = Vec::new();
    let mut pos = 0;
    while pos < bytes.len() {
        let len = Http2Frame::frame_length(&bytes[pos..pos + 9]);
        let src = bytes[pos..pos + 9 + len].to_vec();
        assert!(Http2Frame::pad_fits(&src));
        out.push(Http2Frame::from_owned(src).unwrap());
        pos += 9 + len;
    }
    out
}

fn pairs(list: &[(&[u8], &[u8])]) -> Vec<(Vec<u8>, Vec<u8>)> {
    list.iter().map(|(n, v)| (n.to_vec(), v.to_vec())).collect()
}

fn handle_all(s: &mut SessionState, bytes: &[u8]) -> Vec<Result<Option<u32>, LibError>> {
    frames_of(bytes).into_iter().map(|f| s.handle(f).0).collect()
}

#[test]
fn headers_and_data_reach_the_server() {
    let mut client = SessionState::with(Mode::Client, true, Http2Settings::default());
    let mut server = SessionState::with(Mode::Server, true, Http2Settings::default());

    let sid = client.open_stream().unwrap();
    assert_eq!(sid, 1);
    let head: &[(&[u8], &[u8])] = &[(b":method", b"POST"), (b":path", b"/index.html"), (b"content-type", b"text/plain")];
    let bytes = client.send_headers(sid, false, head).unwrap().unwrap();
    let results = handle_all(&mut server, &bytes);
    assert_eq!(results.len(), 1);
    assert!(matches!(results[0], Ok(Some(1))));
    assert_eq!(server.take_headers(1), pairs(head));

    client.begin_data(sid, true).unwrap();
    let step = client.data_step(sid, true, b"hello, world", 0, client.max_frame_size()).unwrap();
    assert_eq!(step.pos, 12);
    assert_eq!(step.wait, DataWait::Nothing);
    let frames = frames_of(&step.bytes);
    assert_eq!(frames.len(), 1);
    assert!(frames[0].is_end_stream());
    for f in frames {
        let (r, acts) = server.handle(f);
        assert!(matches!(r, Ok(None)));
        assert_eq!(acts.len(), 3);
        assert!(matches!(acts[0], SessionAction::BodyReceived(1)));
    }
    let (body, end) = server.take_body(1);
    assert_eq!(body, b"hello, world".to_vec());
    assert!(end);
    assert_eq!(server.max_stream_id, 1);
}

#[test]
fn data_waits_for_window_credit() {
    let mut settings = Http2Settings::default();
    settings.initial_window_size = Some(4);
    let mut client = SessionState::with(Mode::Client, true, settings);
    let sid = client.open_stream().unwrap();
    let head: &[(&[u8], &[u8])] = &[(b":method", b"GET")];
    client.send_headers(sid, false, head).unwrap().unwrap();
    client.begin_data(sid, true).unwrap();
    let step = client.data_step(sid, true, b"abcdefgh", 0, client.max_frame_size()).unwrap();
    assert_eq!(step.pos, 4);
    assert_eq!(step.wait, DataWait::Stream);
    assert_eq!(client.window, 0);
    let frames = frames_of(&step.bytes);
    assert_eq!(frames.len(), 1);
    assert_eq!(frames[0].get_payload(), b"abcd");
    assert!(!frames[0].is_end_stream());
}

#[test]
fn data_is_cut_at_the_frame_size() {
    let mut settings = Http2Settings::default();
    settings.max_frame_size = Some(3);
    let mut client = SessionState::with(Mode::Client, true, settings);
    let sid = client.open_stream().unwrap();
    let head: &[(&[u8], &[u8])] = &[(b":method", b"GET")];
    client.send_headers(sid, false, head).unwrap();
    client.begin_data(sid, true).unwrap();
    let step = client.data_step(sid, true, b"abcdefg", 0, client.max_frame_size()).unwrap();
    let frames = frames_of(&step.bytes);
    let payloads: Vec<Vec<u8>> = frames.iter().map(|f| f.get_payload().to_vec()).collect();
    assert_eq!(payloads, vec![b"abc".to_vec(), b"def".to_vec(), b"g".to_vec()]);
    assert!(!frames[0].is_end_stream());
    assert!(frames[2].is_end_stream());
}

#[test]
fn open_stream_ids_and_limit() {
    let mut client = SessionState::with(Mode::Client, true, Http2Settings::default());
    assert_eq!(client.open_stream(), Some(1));
    assert_eq!(client.open_stream(), Some(3));
    let mut server = SessionState::with(Mode::Server, true, Http2Settings::default());
    assert_eq!(server.open_stream(), Some(2));
    let mut limited = Http2Settings::default();
    limited.max_concurrent_streams = Some(100);
    let mut c2 = SessionState::with(Mode::Client, true, limited);
    assert_eq!(c2.open_stream(), None);
    assert_eq!(c2.max_stream_id, 0);
}

#[test]
fn frames_on_unknown_streams_are_refused() {
    let mut server = SessionState::with(Mode::Server, true, Http2Settings::default());
    let data = photon::http2::send::end_stream_frame(5);
    let r = handle_all(&mut server, &data);
    assert!(matches!(r[0], Err(LibError::InvalidStream)));
    assert_eq!(server.max_stream_id, 5);
    let rst = photon::http2::session::rst_stream_frame(7, 0);
    assert!(matches!(handle_all(&mut server, &rst)[0], Err(LibError::InvalidStream)));
}

#[test]
fn ping_settings_window_goaway() {
    let mut s = SessionState::with(Mode::Server, true, Http2Settings::default());
    let f = frames_of(&ping_frame(false, b"12345678")).remove(0);
    let (r, acts) = s.handle(f);
    assert!(matches!(r, Ok(None)));
    match &acts[0] {
        SessionAction::Write(b) => assert_eq!(b, &ping_frame(true, b"12345678")),
        _ => panic!("expected a write"),
    }

    let mut new_settings = Http2Settings::empty();
    new_settings.max_frame_size = Some(20000);
    let f = frames_of(&settings_frame(&new_settings)).remove(0);
    let (_, acts) = s.handle(f);
    assert_eq!(s.settings.max_frame_size, Some(20000));
    assert_eq!(s.settings.header_table_size, Some(4096));
    assert!(matches!(&acts[0], SessionAction::Write(b) if b == &photon::http2::session::settings_ack_frame()));

    let before = s.window;
    let f = frames_of(&window_update_frame(0, 1000)).remove(0);
    let (r, _) = s.handle(f);
    assert!(matches!(r, Ok(None)));
    assert_eq!(s.window, before + 1000);

    let f = frames_of(&goaway_frame(0, 0, b"shutdown")).remove(0);
    let (r, acts) = s.handle(f);
    assert!(matches!(r, Ok(None)));
    assert!(s.goaway);
    assert!(s.goaway_frame.is_some());
    assert!(matches!(acts[0], SessionAction::SessionNotify));
}

#[test]
fn unknown_frame_types_depend_on_strictness() {
    let raw = Http2Frame::create(Http2FrameType::Invalid(0x42), 0, 0, None, Some(b"x"), None);
    let mut strict = SessionState::with(Mode::Server, true, Http2Settings::default());
    assert!(matches!(handle_all(&mut strict, &raw)[0], Err(LibError::ProtocolError)));
    let mut lax = SessionState::with(Mode::Server, false, Http2Settings::default());
    assert!(matches!(handle_all(&mut lax, &raw)[0], Ok(None)));
}

#[test]
fn push_promise_reaches_the_client() {
    let mut client = SessionState::with(Mode::Client, true, Http2Settings::default());
    let mut server = SessionState::with(Mode::Server, true, Http2Settings::default());
    let sid = client.open_stream().unwrap();
    let head: &[(&[u8], &[u8])] = &[(b":method", b"GET"), (b":path", b"/")];
    let bytes = client.send_headers(sid, true, head).unwrap().unwrap();
    handle_all(&mut server, &bytes);

    let promise = server.open_stream().unwrap();
    assert_eq!(promise, 2);
    let promised: &[(&[u8], &[u8])] = &[(b":method", b"GET"), (b":path", b"/style.css")];
    let bytes = server.send_push_promise(sid, promise, promised).unwrap().unwrap();
    let r = handle_all(&mut client, &bytes);
    assert!(matches!(r[0], Ok(Some(2))));
    assert!(client.has_stream(2));

    assert!(matches!(server.send_push_promise(sid, promise, promised), Err(LibError::InvalidStream)));
    assert!(matches!(client.send_push_promise(sid, 4, promised), Err(LibError::ProtocolError)));
}

#[test]
fn headers_cut_into_many_frames_arrive_whole() {
    let mut small = Http2Settings::default();
    small.max_frame_size = Some(1);
    let mut client = SessionState::with(Mode::Client, true, small);
    let mut server = SessionState::with(Mode::Server, true, Http2Settings::default());
    let sid = client.open_stream().unwrap();
    let head: &[(&[u8], &[u8])] = &[(b":method", b"GET"), (b":path", b"/a/b/c"), (b"accept", b"*/*")];
    let bytes = client.send_headers(sid, true, head).unwrap().unwrap();
    let frames = frames_of(&bytes);
    assert!(frames.len() > 3);
    assert_eq!(frames[0].ftype, Http2FrameType::Headers);
    assert!(frames[1..].iter().all(|f| f.ftype == Http2FrameType::Continuation));
    assert!(frames[..frames.len() - 1].iter().all(|f| f.get_payload().len() == 1));
    assert_eq!(frames[frames.len() - 1].get_payload().len(), 0);
    let results = handle_all(&mut server, &bytes);
    let (last, rest) = results.split_last().unwrap();
    assert!(rest.iter().all(|r| matches!(r, Ok(None))));
    assert!(matches!(last, Ok(Some(1))));
    assert_eq!(server.take_headers(1), pairs(head));
    let (body, end) = server.take_body(1);
    assert!(body.is_empty());
    assert!(end);
}

#[test]
fn response_headers_reach_the_client() {
    let mut client = SessionState::with(Mode::Client, true, Http2Settings::default());
    let mut server = SessionState::with(Mode::Server, true, Http2Settings::default());
    let sid = client.open_stream().unwrap();
    let req: &[(&[u8], &[u8])] = &[(b":method", b"GET"), (b":path", b"/")];
    let bytes = client.send_headers(sid, true, req).unwrap().unwrap();
    handle_all(&mut server, &bytes);
    let resp: &[(&[u8], &[u8])] = &[(b":status", b"204"), (b"server", b"photon")];
    let bytes = server.send_headers(sid, true, resp).unwrap().unwrap();
    let results = handle_all(&mut client, &bytes);
    assert_eq!(results.len(), 1);
    assert!(matches!(results[0], Ok(None)));
    assert_eq!(client.take_headers(sid), pairs(resp));
}

#[test]
fn header_blocks_are_continued() {
    let block: Vec<u8> = (0u8..8).collect();
    let bytes = header_frames(3, true, &block, 4);
    let frames = frames_of(&bytes);
    assert_eq!(frames.len(), 3);
    assert_eq!(frames[0].ftype, Http2FrameType::Headers);
    assert_eq!(frames[0].flags, 0);
    assert_eq!(frames[1].ftype, Http2FrameType::Continuation);
    assert_eq!(frames[1].get_payload(), &[4, 5, 6, 7]);
    assert_eq!(frames[2].ftype, Http2FrameType::Continuation);
    assert_eq!(frames[2].get_payload().len(), 0);
    assert_eq!(frames[2].flags, 5);

    let small = header_frames(3, false, &block, 100);
    let frames = frames_of(&small);
    assert_eq!(frames.len(), 1);
    assert_eq!(frames[0].flags, 4);
}

#[test]
fn headers_state_errors() {
    let mut server = SessionState::with(Mode::Server, true, Http2Settings::default());
    let head: &[(&[u8], &[u8])] = &[(b":status", b"200")];
    assert!(matches!(server.send_headers(1, false, head), Err(LibError::InvalidStream)));

    let mut client = SessionState::with(Mode::Client, true, Http2Settings::default());
    let sid = client.open_stream().unwrap();
    client.send_headers(sid, true, head).unwrap();
    assert!(matches!(client.begin_data(sid, false), Err(LibError::StreamClosed)));
    assert!(matches!(client.begin_data(9, false), Err(LibError::InvalidStream)));
}

#[test]
fn http2_session_exchange() {
    let mut client = SessionState::with(Mode::Client, true, Http2Settings::default());
    let mut server = SessionState::with(Mode::Server, true, Http2Settings::default());

    let acks = handle_all(&mut server, &settings_frame(&Http2Settings::default()));
    assert!(matches!(acks[0], Ok(None)));
    let acks = handle_all(&mut client, &settings_frame(&Http2Settings::default()));
    assert!(matches!(acks[0], Ok(None)));

    let stream_id = client.open_stream().unwrap();
    assert_eq!(stream_id, 1);
    let request: &[(&[u8], &[u8])] = &[
        (b":method", b"POST"),
        (b":scheme", b"https"),
        (b":authority", b"localhost"),
        (b":path", b"/index.html"),
        (b"accept", b"*/*"),
        (b"content-type", b"text/plain"),
        (b"content-length", b"12"),
    ];
    let head = client.send_headers(stream_id, false, request).unwrap().unwrap();
    client.begin_data(stream_id, true).unwrap();
    let body = client.data_step(stream_id, true, b"hello, world", 0, client.max_frame_size()).unwrap();

    let opened = handle_all(&mut server, &head);
    assert!(matches!(opened[0], Ok(Some(1))));
    let data = handle_all(&mut server, &body.bytes);
    assert!(matches!(data[0], Ok(None)));
    assert_eq!(server.take_headers(1), pairs(request));
    assert_eq!(server.take_body(1), (b"hello, world".to_vec(), true));

    let response: &[(&[u8], &[u8])] = &[(b":status", b"200"), (b"content-type", b"text/plain"), (b"content-length", b"12")];
    let head = server.send_headers(1, false, response).unwrap().unwrap();
    server.begin_data(1, true).unwrap();
    let body = server.data_step(1, true, b"hello world.", 0, server.max_frame_size()).unwrap();
    assert!(handle_all(&mut client, &head).iter().all(|r| matches!(r, Ok(None))));
    assert!(handle_all(&mut client, &body.bytes).iter().all(|r| matches!(r, Ok(None))));
    assert_eq!(client.take_headers(1), pairs(response));
    assert_eq!(client.take_body(1), (b"hello world.".to_vec(), true));

    let promise = server.open_stream().unwrap();
    assert_eq!(promise, 2);
    let promised: &[(&[u8], &[u8])] = &[
        (b":method", b"POST"),
        (b":scheme", b"https"),
        (b":authority", b"localhost"),
        (b":path", b"/login.php"),
    ];
    let push = server.send_push_promise(1, promise, promised).unwrap().unwrap();
    let pushed: &[(&[u8], &[u8])] = &[(b":status", b"200"), (b"content-type", b"text/json"), (b"content-length", b"17")];
    let push_head = server.send_headers(promise, false, pushed).unwrap().unwrap();
    server.begin_data(promise, true).unwrap();
    let push_body = server.data_step(promise, true, b"\"some rust thing\"", 0, server.max_frame_size()).unwrap();

    let r = handle_all(&mut client, &push);
    assert!(matches!(r[0], Ok(Some(2))));
    assert!(handle_all(&mut client, &push_head).iter().all(|r| matches!(r, Ok(None))));
    assert!(handle_all(&mut client, &push_body.bytes).iter().all(|r| matches!(r, Ok(None))));
    assert_eq!(client.take_headers(2), pairs(pushed));
    assert_eq!(client.take_body(2), (b"\"some rust thing\"".to_vec(), true));

    let r = handle_all(&mut server, &goaway_frame(0, 0, b"shutdown"));
    assert!(matches!(r[0], Ok(None)));
    assert!(server.goaway);
}

#[test]
fn preface_and_last_stream_ids() {
    assert!(is_preface(&PREFACE));
    assert!(is_preface(b"PRI * HTTP/2.0\r\n\r\nSM\r\n\r\n"));
    assert!(!is_preface(b"PRI * HTTP/2.0\r\n\r\nSM\r\n\r"));
    assert!(!is_preface(b"GET / HTTP/1.1\r\nHost: a\r\n\r\n"));

    let mut client = SessionState::with(Mode::Client, true, Http2Settings::empty());
    client.max_stream_id = u32::MAX - 1;
    assert!(client.next_id_fits());
    assert_eq!(client.open_stream(), Some(u32::MAX));
    assert!(!client.next_id_fits());
    let mut server = SessionState::with(Mode::Server, true, Http2Settings::empty());
    server.max_stream_id = u32::MAX - 1;
    assert!(!server.next_id_fits());
}
