//! The HTTP/2 session as a state machine: what a received frame does to the
//! session, and which bytes to send for each outgoing operation. Reading and
//! writing the connection and waking waiting tasks is left to the caller,
//! which performs the `SessionAction`s these functions return.

use vstd::prelude::*;
use crate::http2::frame::{Http2Frame, Http2FrameType, Http2Settings, frame_bytes, settings_bytes, u32_be, u32_to_be};
use crate::http2::hpack::{HpackDecoder, HpackEncoder, table_limit_of};

verus! {

/// The connection preface a client sends first.
/// (`PRI * HTTP/2.0\r\n\r\nSM\r\n\r\n`)
pub const PREFACE: [u8; 24] = [0x50, 0x52, 0x49, 0x20, 0x2a, 0x20, 0x48, 0x54, 0x54, 0x50, 0x2f, 0x32, 0x2e, 0x30, 0x0d, 0x0a, 0x0d, 0x0a, 0x53, 0x4d, 0x0d, 0x0a, 0x0d, 0x0a];

/// Whether `b` is the connection preface.
pub fn is_preface(b: &[u8]) -> (r: bool)
    ensures
        r == (b@ == PREFACE@),
{
    if b.len() != 24 {
        return false;
    }
    let mut i: usize = 0;
    while i < 24
        invariant
            b@.len() == 24,
            i <= 24,
            forall|j: int| 0 <= j < i ==> b@[j] == PREFACE@[j],
        decreases 24 - i,
    {
        if b[i] != PREFACE[i] {
            return false;
        }
        i = i + 1;
    }
    assert(b@ =~= PREFACE@);
    true
}

/// Which side of the connection the session plays; `Ambiguous` accepts both roles.
#[derive(Debug, Clone, Copy, PartialEq, Eq, Structural)]
pub enum Mode {
    Ambiguous,
    Client,
    Server,
}

impl Mode {
    pub fn is_ambiguous(&self) -> (r: bool)
        ensures
            r == (*self is Ambiguous),
    {
        if let Self::Ambiguous = self { true } else { false }
    }

    pub fn is_client(&self) -> (r: bool)
        ensures
            r == (*self is Client),
    {
        if let Self::Client = self { true } else { false }
    }

    pub fn is_server(&self) -> (r: bool)
        ensures
            r == (*self is Server),
    {
        if let Self::Server = self { true } else { false }
    }
}

/// The state of one stream.
#[derive(Debug)]
pub struct Http2Data {
    /// Opened by the peer (not by a local `send_headers`).
    pub new: bool,
    /// Send window.
    pub window: usize,
    pub stream_id: u32,
    pub reset: bool,
    /// The peer finished its headers / its body.
    pub end_head: bool,
    pub end_body: bool,
    /// This side finished its headers / its body.
    pub self_end_head: bool,
    pub self_end_body: bool,
    pub body: Vec<u8>,
    /// Header block fragments not yet decoded.
    pub head: Vec<u8>,
    pub headers: Vec<(Vec<u8>, Vec<u8>)>,
    pub ascociated: Option<u32>,
    /// The stream this one is promising, while its header block is incomplete.
    pub promising: Option<u32>,
    pub promise: Vec<u8>,
    pub push_headers: Vec<(Vec<u8>, Vec<u8>)>,
}

/// The byte views of a header list.
pub open spec fn pairs_view(v: Seq<(Vec<u8>, Vec<u8>)>) -> Seq<(Seq<u8>, Seq<u8>)> {
    v.map_values(|p: (Vec<u8>, Vec<u8>)| (p.0@, p.1@))
}

/// A stream's state as plain values.
pub struct StreamView {
    pub new: bool,
    pub window: usize,
    pub stream_id: u32,
    pub reset: bool,
    pub end_head: bool,
    pub end_body: bool,
    pub self_end_head: bool,
    pub self_end_body: bool,
    pub body: Seq<u8>,
    pub head: Seq<u8>,
    pub headers: Seq<(Seq<u8>, Seq<u8>)>,
    pub ascociated: Option<u32>,
    pub promising: Option<u32>,
    pub promise: Seq<u8>,
    pub push_headers: Seq<(Seq<u8>, Seq<u8>)>,
}

impl View for Http2Data {
    type V = StreamView;

    open spec fn view(&self) -> StreamView {
        StreamView {
            new: self.new,
            window: self.window,
            stream_id: self.stream_id,
            reset: self.reset,
            end_head: self.end_head,
            end_body: self.end_body,
            self_end_head: self.self_end_head,
            self_end_body: self.self_end_body,
            body: self.body@,
            head: self.head@,
            headers: pairs_view(self.headers@),
            ascociated: self.ascociated,
            promising: self.promising,
            promise: self.promise@,
            push_headers: pairs_view(self.push_headers@),
        }
    }
}

/// The window a new stream starts with.
pub open spec fn initial_window(sett: Http2Settings) -> usize {
    match sett.initial_window_size {
        Some(w) => w as usize,
        None => 65535,
    }
}

/// A stream nothing has happened on yet.
pub open spec fn empty_stream(stream_id: u32, sett: Http2Settings) -> StreamView {
    StreamView {
        new: true,
        window: initial_window(sett),
        stream_id,
        reset: false,
        end_head: false,
        end_body: false,
        self_end_head: false,
        self_end_body: false,
        body: Seq::empty(),
        head: Seq::empty(),
        headers: Seq::empty(),
        ascociated: None,
        promising: None,
        promise: Seq::empty(),
        push_headers: Seq::empty(),
    }
}

impl Http2Data {
    /// A stream nothing has happened on yet (see `empty_stream`).
    pub fn empty(stream_id: u32, sett: Http2Settings) -> (d: Self)
        ensures
            d@ == empty_stream(stream_id, sett),
    {
        let d = Self {
            new: true,
            window: match sett.initial_window_size {
                Some(w) => w as usize,
                None => 65535,
            },
            stream_id,
            reset: false,
            end_head: false,
            end_body: false,
            self_end_head: false,
            self_end_body: false,
            body: Vec::new(),
            head: Vec::new(),
            headers: Vec::new(),
            ascociated: None,
            promising: None,
            promise: Vec::new(),
            push_headers: Vec::new(),
        };
        assert(pairs_view(d.headers@) =~= Seq::empty());
        assert(pairs_view(d.push_headers@) =~= Seq::empty());
        d
    }
}

#[verifier::external_type_specification]
#[verifier::external_body]
#[verifier::reject_recursive_types(K)]
#[verifier::reject_recursive_types(V)]
#[verifier::reject_recursive_types(S)]
pub struct ExDashMap<K, V, S>(dashmap::DashMap<K, V, S>);

/// The entries of a stream table.
pub uninterp spec fn stream_table(m: dashmap::DashMap<u32, Http2Data>) -> Map<u32, Http2Data>;

/// The empty stream table.
pub open spec fn no_streams() -> Map<u32, Http2Data> {
    Map::empty()
}

/// `dashmap::DashMap::new`: an empty table.
#[verifier::external_body]
fn table_new() -> (r: dashmap::DashMap<u32, Http2Data>)
    ensures
        stream_table(r) == no_streams(),
{
    dashmap::DashMap::new()
}

/// `dashmap::DashMap::contains_key`.
#[verifier::external_body]
fn table_contains(m: &dashmap::DashMap<u32, Http2Data>, k: u32) -> (r: bool)
    ensures
        r == stream_table(*m).dom().contains(k),
{
    m.contains_key(&k)
}

/// `dashmap::DashMap::insert`: the entry for `k` becomes `v`.
#[verifier::external_body]
fn table_insert(m: &mut dashmap::DashMap<u32, Http2Data>, k: u32, v: Http2Data)
    ensures
        stream_table(*final(m)) == stream_table(*old(m)).insert(k, v),
{
    let _ = m.insert(k, v);
}

/// `dashmap::DashMap::remove`: takes the entry for `k` out.
#[verifier::external_body]
fn table_remove(m: &mut dashmap::DashMap<u32, Http2Data>, k: u32) -> (r: Option<Http2Data>)
    ensures
        stream_table(*final(m)) == stream_table(*old(m)).remove(k),
        r == (if stream_table(*old(m)).dom().contains(k) {
            Some(stream_table(*old(m))[k])
        } else {
            None
        }),
{
    m.remove(&k).map(|(_, v)| v)
}

/// What the caller must do after a state change, in order.
#[derive(Debug)]
pub enum SessionAction {
    /// Write these bytes to the connection.
    Write(Vec<u8>),
    /// Wake tasks waiting for the headers of a stream.
    HeadComplete(u32),
    /// Wake tasks waiting for body data of a stream.
    BodyReceived(u32),
    /// Wake tasks waiting on a stream (window or reset).
    StreamNotify(u32),
    /// Wake tasks waiting on the connection (window or GOAWAY).
    SessionNotify,
}

/// The plain values an action stands for.
pub enum ActionView {
    Write(Seq<u8>),
    HeadComplete(u32),
    BodyReceived(u32),
    StreamNotify(u32),
    SessionNotify,
}

impl View for SessionAction {
    type V = ActionView;

    open spec fn view(&self) -> ActionView {
        match self {
            SessionAction::Write(b) => ActionView::Write(b@),
            SessionAction::HeadComplete(i) => ActionView::HeadComplete(*i),
            SessionAction::BodyReceived(i) => ActionView::BodyReceived(*i),
            SessionAction::StreamNotify(i) => ActionView::StreamNotify(*i),
            SessionAction::SessionNotify => ActionView::SessionNotify,
        }
    }
}

/// The views of a list of actions.
pub open spec fn actions_view(v: Seq<SessionAction>) -> Seq<ActionView> {
    v.map_values(|a: SessionAction| a@)
}

/// The state of an HTTP/2 session.
#[derive(Debug)]
pub struct SessionState {
    pub mode: Mode,
    pub strict: bool,
    pub decoder: HpackDecoder<'static>,
    pub encoder: HpackEncoder<'static>,
    /// Highest stream id seen or opened.
    pub max_stream_id: u32,
    pub streams: dashmap::DashMap<u32, Http2Data>,
    pub goaway: bool,
    pub goaway_frame: Option<Http2Frame>,
    /// Connection send window.
    pub window: usize,
    /// The peer's settings.
    pub settings: Http2Settings,
}

impl SessionState {
    /// The streams by id, as plain values.
    pub open spec fn streams_view(&self) -> Map<u32, StreamView> {
        stream_table(self.streams).map_values(|d: Http2Data| d@)
    }

    /// A session with no stream, window and table sizes from `settings`.
    pub fn with(mode: Mode, strict: bool, settings: Http2Settings) -> (s: Self)
        ensures
            s.mode == mode,
            s.strict == strict,
            s.max_stream_id == 0,
            s.streams_view() == Map::<u32, StreamView>::empty(),
            !s.goaway,
            s.goaway_frame is None,
            s.window == initial_window(settings),
            s.settings == settings,
            ({
                let size = table_limit_of(
                    match settings.header_table_size {
                        Some(v) => v as usize,
                        None => 4096usize,
                    },
                );
                &&& s.decoder.state() == (Seq::<(Seq<u8>, Seq<u8>)>::empty(), size, size)
                &&& s.encoder.entries() == Seq::<(Seq<u8>, Seq<u8>)>::empty()
                &&& s.encoder.table_limit() == size
            }),
    {
        let table: usize = match settings.header_table_size {
            Some(v) => v as usize,
            None => 4096,
        };
        let s = Self {
            mode,
            strict,
            decoder: HpackDecoder::new(table),
            encoder: HpackEncoder::new(table),
            max_stream_id: 0,
            streams: table_new(),
            goaway: false,
            goaway_frame: None,
            window: match settings.initial_window_size {
                Some(w) => w as usize,
                None => 65535,
            },
            settings,
        };
        assert(s.streams_view() =~= Map::<u32, StreamView>::empty());
        s
    }

    /// Whether stream `id` exists.
    pub fn has_stream(&self, id: u32) -> (r: bool)
        ensures
            r == self.streams_view().dom().contains(id),
    {
        table_contains(&self.streams, id)
    }

    /// Takes stream `id` out of the table.
    pub(crate) fn take_stream(&mut self, id: u32) -> (r: Option<Http2Data>)
        ensures
            final(self).streams_view() == old(self).streams_view().remove(id),
            match r {
                Some(d) => old(self).streams_view().dom().contains(id) && d@ == old(self).streams_view()[id],
                None => !old(self).streams_view().dom().contains(id),
            },
            final(self).same_but_streams(*old(self)),
    {
        let r = table_remove(&mut self.streams, id);
        assert(self.streams_view() =~= old(self).streams_view().remove(id));
        r
    }

    /// Puts stream `id` (back) into the table.
    pub(crate) fn put_stream(&mut self, id: u32, d: Http2Data)
        ensures
            final(self).streams_view() == old(self).streams_view().insert(id, d@),
            final(self).same_but_streams(*old(self)),
    {
        table_insert(&mut self.streams, id, d);
        assert(self.streams_view() =~= old(self).streams_view().insert(id, d@));
    }

    /// All fields but the stream table are those of `o`.
    pub open spec fn same_but_streams(&self, o: SessionState) -> bool {
        &&& self.mode == o.mode
        &&& self.strict == o.strict
        &&& self.decoder == o.decoder
        &&& self.encoder == o.encoder
        &&& self.max_stream_id == o.max_stream_id
        &&& self.goaway == o.goaway
        &&& self.goaway_frame == o.goaway_frame
        &&& self.window == o.window
        &&& self.settings == o.settings
    }

    /// The id `open_stream` picks: the next id after the highest seen,
    /// odd for a client and even for a server.
    pub open spec fn next_stream_id(&self) -> int {
        let m = self.max_stream_id as int;
        match self.mode {
            Mode::Ambiguous => m + 1,
            Mode::Client => if m % 2 == 1 { m + 2 } else { m + 1 },
            Mode::Server => if m % 2 == 0 { m + 2 } else { m + 1 },
        }
    }

    /// Whether the next stream id fits in a `u32`.
    pub fn next_id_fits(&self) -> (r: bool)
        ensures
            r == (self.next_stream_id() <= u32::MAX),
    {
        let m = self.max_stream_id;
        if m == u32::MAX {
            false
        } else if self.mode.is_ambiguous() {
            true
        } else if self.mode.is_client() {
            m % 2 == 0 || m < u32::MAX - 1
        } else {
            m % 2 == 1 || m < u32::MAX - 1
        }
    }

    /// Reserves a stream id for a stream this side opens. The id is taken
    /// only when no concurrency limit is set or the id is above the limit.
    pub fn open_stream(&mut self) -> (r: Option<u32>)
        requires
            old(self).next_stream_id() <= u32::MAX,
        ensures
            match old(self).settings.max_concurrent_streams {
                Some(v) => old(self).next_stream_id() > v,
                None => true,
            } ==> r == Some(old(self).next_stream_id() as u32) && final(self).max_stream_id == r->0,
            !(match old(self).settings.max_concurrent_streams {
                Some(v) => old(self).next_stream_id() > v,
                None => true,
            }) ==> r is None && final(self).max_stream_id == old(self).max_stream_id,
            final(self).mode == old(self).mode,
            final(self).settings == old(self).settings,
            final(self).streams_view() == old(self).streams_view(),
            final(self).window == old(self).window,
            final(self).goaway == old(self).goaway,
    {
        let max_id = self.max_stream_id;
        let stream_id: u32 = if self.mode.is_ambiguous() {
            max_id + 1
        } else if self.mode.is_client() {
            if max_id % 2 == 1 { max_id + 2 } else { max_id + 1 }
        } else {
            if max_id % 2 == 0 { max_id + 2 } else { max_id + 1 }
        };
        let allowed = match self.settings.max_concurrent_streams {
            Some(v) => stream_id > v,
            None => true,
        };
        if allowed {
            self.max_stream_id = stream_id;
            Some(stream_id)
        } else {
            None
        }
    }
}

} // verus!

verus! {

/// The payload bytes of a frame.
pub open spec fn payload_of(f: Http2Frame) -> Seq<u8> {
    f.range_bytes(f.payload)
}

pub open spec fn end_stream_flag(f: Http2Frame) -> bool {
    f.flags & 0x01 != 0
}

pub open spec fn end_headers_flag(f: Http2Frame) -> bool {
    f.flags & 0x04 != 0
}

/// `new` is `old` with `k` items after it.
pub open spec fn extended<T>(old: Seq<T>, new: Seq<T>, k: nat) -> bool {
    new.len() == old.len() + k && new.subrange(0, old.len() as int) == old
}

/// A WINDOW_UPDATE frame.
pub open spec fn window_update_bytes(stream_id: u32, size: u32) -> Seq<u8> {
    frame_bytes(8, 0, stream_id, None, Some(u32_be(size)), None)
}

/// A PING frame.
pub open spec fn ping_bytes(ack: bool, payload: Seq<u8>) -> Seq<u8> {
    frame_bytes(6, if ack { 1 } else { 0 }, 0, None, Some(payload), None)
}

/// The SETTINGS acknowledgement.
pub open spec fn settings_ack_bytes() -> Seq<u8> {
    frame_bytes(4, 1, 0, None, None, None)
}

/// `base` updated with every setting `new` carries.
pub open spec fn merge_settings(base: Http2Settings, new: Http2Settings) -> Http2Settings {
    Http2Settings {
        header_table_size: if new.header_table_size is Some { new.header_table_size } else { base.header_table_size },
        enable_push: if new.enable_push is Some { new.enable_push } else { base.enable_push },
        max_concurrent_streams: if new.max_concurrent_streams is Some {
            new.max_concurrent_streams
        } else {
            base.max_concurrent_streams
        },
        initial_window_size: if new.initial_window_size is Some {
            new.initial_window_size
        } else {
            base.initial_window_size
        },
        max_frame_size: if new.max_frame_size is Some { new.max_frame_size } else { base.max_frame_size },
        max_header_list_size: if new.max_header_list_size is Some {
            new.max_header_list_size
        } else {
            base.max_header_list_size
        },
    }
}

/// A WINDOW_UPDATE frame.
pub fn window_update_frame(stream_id: u32, size: u32) -> (r: Vec<u8>)
    ensures
        r@ == window_update_bytes(stream_id, size),
{
    let b = u32_to_be(size);
    Http2Frame::create(Http2FrameType::WindowUpdate, 0, stream_id, None, Some(&b), None)
}

/// A PING frame carrying `buf`.
pub fn ping_frame(ack: bool, buf: &[u8]) -> (r: Vec<u8>)
    ensures
        r@ == ping_bytes(ack, buf@),
{
    Http2Frame::create(Http2FrameType::Ping, if ack { 1 } else { 0 }, 0, None, Some(buf), None)
}

/// The SETTINGS acknowledgement.
pub fn settings_ack_frame() -> (r: Vec<u8>)
    ensures
        r@ == settings_ack_bytes(),
{
    Http2Frame::create(Http2FrameType::Settings, 1, 0, None, None, None)
}

/// A SETTINGS frame announcing `settings`.
pub fn settings_frame(settings: &Http2Settings) -> (r: Vec<u8>)
    ensures
        r@ == frame_bytes(4, 0, 0, None, Some(settings_bytes(*settings)), None),
{
    let payload = settings.to_vec();
    Http2Frame::create(Http2FrameType::Settings, 0, 0, None, Some(payload.as_slice()), None)
}

/// A PRIORITY frame: the 32-bit dependency then the weight.
pub fn priority_frame(stream_id: u32, dependency: u32, weight: u8) -> (r: Vec<u8>)
    ensures
        r@ == frame_bytes(2, 0, stream_id, None, Some(u32_be(dependency).push(weight)), None),
{
    let mut p: Vec<u8> = Vec::new();
    let d = u32_to_be(dependency);
    crate::buf::push_all(&mut p, &d);
    p.push(weight);
    assert(p@ =~= u32_be(dependency).push(weight));
    Http2Frame::create(Http2FrameType::Priority, 0, stream_id, None, Some(p.as_slice()), None)
}

/// A RST_STREAM frame with an error code.
pub fn rst_stream_frame(stream_id: u32, code: u32) -> (r: Vec<u8>)
    ensures
        r@ == frame_bytes(3, 0, stream_id, None, Some(u32_be(code)), None),
{
    let c = u32_to_be(code);
    Http2Frame::create(Http2FrameType::RstStream, 0, stream_id, None, Some(&c), None)
}

/// A GOAWAY frame: last stream id, error code, then debug data.
pub fn goaway_frame(stream_id: u32, code: u32, buf: &[u8]) -> (r: Vec<u8>)
    ensures
        r@ == frame_bytes(7, 0, 0, None, Some(u32_be(stream_id) + u32_be(code) + buf@), None),
{
    let mut pay: Vec<u8> = Vec::new();
    let a = u32_to_be(stream_id);
    let b = u32_to_be(code);
    crate::buf::push_all(&mut pay, &a);
    crate::buf::push_all(&mut pay, &b);
    crate::buf::push_all(&mut pay, buf);
    Http2Frame::create(Http2FrameType::Goaway, 0, 0, None, Some(pay.as_slice()), None)
}

/// What a reader learns of a stream without changing it.
#[derive(Debug, Clone, Copy, PartialEq, Eq, Structural)]
pub struct StreamStatus {
    pub reset: bool,
    pub end_head: bool,
    pub end_body: bool,
    pub new: bool,
}

impl SessionState {
    /// The status of a stream.
    pub fn stream_status(&mut self, stream_id: u32) -> (r: Option<StreamStatus>)
        ensures
            final(self).streams_view() == old(self).streams_view(),
            final(self).same_but_streams(*old(self)),
            match r {
                Some(st) => old(self).streams_view().dom().contains(stream_id) && st == (StreamStatus {
                    reset: old(self).streams_view()[stream_id].reset,
                    end_head: old(self).streams_view()[stream_id].end_head,
                    end_body: old(self).streams_view()[stream_id].end_body,
                    new: old(self).streams_view()[stream_id].new,
                }),
                None => !old(self).streams_view().dom().contains(stream_id),
            },
    {
        let ghost ov = self.streams_view();
        match self.take_stream(stream_id) {
            Some(d) => {
                let st = StreamStatus { reset: d.reset, end_head: d.end_head, end_body: d.end_body, new: d.new };
                let ghost dv = d@;
                self.put_stream(stream_id, d);
                assert(self.streams_view() =~= ov);
                Some(st)
            },
            None => None,
        }
    }

    /// Takes the decoded headers of a stream, leaving its list empty.
    pub fn take_headers(&mut self, stream_id: u32) -> (r: Vec<(Vec<u8>, Vec<u8>)>)
        requires
            old(self).streams_view().dom().contains(stream_id),
        ensures
            pairs_view(r@) == old(self).streams_view()[stream_id].headers,
            final(self).streams_view() == old(self).streams_view().insert(
                stream_id,
                StreamView { headers: Seq::empty(), ..old(self).streams_view()[stream_id] },
            ),
            final(self).same_but_streams(*old(self)),
    {
        let ghost ov = self.streams_view();
        let mut d = match self.take_stream(stream_id) {
            Some(d) => d,
            None => {
                return Vec::new();
            },
        };
        let mut out: Vec<(Vec<u8>, Vec<u8>)> = Vec::new();
        std::mem::swap(&mut out, &mut d.headers);
        let ghost dv = d@;
        self.put_stream(stream_id, d);
        assert(pairs_view(Seq::<(Vec<u8>, Vec<u8>)>::empty()) =~= Seq::empty());
        assert(self.streams_view() =~= ov.insert(stream_id, dv));
        out
    }

    /// Takes the body received on a stream so far, leaving it empty; also
    /// whether the peer ended the body.
    pub fn take_body(&mut self, stream_id: u32) -> (r: (Vec<u8>, bool))
        requires
            old(self).streams_view().dom().contains(stream_id),
        ensures
            r.0@ == old(self).streams_view()[stream_id].body,
            r.1 == old(self).streams_view()[stream_id].end_body,
            final(self).streams_view() == old(self).streams_view().insert(
                stream_id,
                StreamView { body: Seq::empty(), ..old(self).streams_view()[stream_id] },
            ),
            final(self).same_but_streams(*old(self)),
    {
        let ghost ov = self.streams_view();
        let mut d = match self.take_stream(stream_id) {
            Some(d) => d,
            None => {
                return (Vec::new(), false);
            },
        };
        let mut out: Vec<u8> = Vec::new();
        std::mem::swap(&mut out, &mut d.body);
        let end = d.end_body;
        let ghost dv = d@;
        self.put_stream(stream_id, d);
        assert(self.streams_view() =~= ov.insert(stream_id, dv));
        (out, end)
    }
}

} // verus!
