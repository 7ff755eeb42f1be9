//! The server side of an HTTP/1.x connection: reading a request line by
//! line and writing the response. The caller reads what `read_kind` asks
//! for and writes the bytes these functions return.

use vstd::prelude::*;
use crate::http1::{
    BodyPlan, HeaderLine, body_plan, body_plan_of, chunk_bytes, chunk_size, chunk_size_of, get_chunk,
    header_block, index_of_from, last_chunk, line_blank, line_chars, line_name, line_value, parse_header_line,
    push_chars, push_header_block, push_str, split3, text_bytes, values_present,
};
use crate::shared::{
    HeaderMap, HttpClient, HttpMethod, HttpVersion, LibError, LibResult, method_from_spec, texts, version_wire,
};
use crate::encoding::{base64_decode, base64_decoded, base64_encode, base64_text};
use crate::http2::frame::{Http2Settings, settings_bytes, settings_from_bytes};
use crate::http2::session::{Http2Data, Mode, SessionState, StreamView, empty_stream, initial_window, pairs_view};
use crate::websocket::{accept_key, accept_text};
use crate::text::{
    chars_of, eq_ignore_case, lower_range, lower_seq, radix_chars, radix_digits, range_eq_ignore_case,
    text_of, string_from_chars, trim_crlf_end, trim_end_crlf,
};

verus! {

/// What reading a version name gives: HTTP/1.0 and HTTP/1.1 (any case),
/// else the text itself.
pub open spec fn version_of(p: Seq<char>, v: HttpVersion) -> bool {
    if eq_ignore_case(p, seq!['h', 't', 't', 'p', '/', '1', '.', '0']) {
        v == HttpVersion::Http10
    } else if eq_ignore_case(p, seq!['h', 't', 't', 'p', '/', '1', '.', '1']) {
        v == HttpVersion::Http11
    } else {
        v matches HttpVersion::Unknown(Some(t)) && t@ == p
    }
}

/// Reads a version name from `s[start..end]`.
pub fn version_from(s: &[char], start: usize, end: usize) -> (v: HttpVersion)
    requires
        start <= end <= s@.len(),
    ensures
        version_of(s@.subrange(start as int, end as int), v),
{
    let h10 = chars_of("http/1.0");
    let h11 = chars_of("http/1.1");
    proof {
        reveal_strlit("http/1.0");
        reveal_strlit("http/1.1");
    }
    assert(h10@ =~= seq!['h', 't', 't', 'p', '/', '1', '.', '0']);
    assert(h11@ =~= seq!['h', 't', 't', 'p', '/', '1', '.', '1']);
    if range_eq_ignore_case(s, start, end, h10.as_slice()) {
        HttpVersion::Http10
    } else if range_eq_ignore_case(s, start, end, h11.as_slice()) {
        HttpVersion::Http11
    } else {
        HttpVersion::Unknown(Some(string_from_chars(vstd::slice::slice_subrange(s, start, end))))
    }
}

/// The pieces of a start line: its text without trailing CR and LF, split
/// at the first two spaces.
pub open spec fn start_line_parts(line: Seq<u8>) -> Seq<Seq<char>> {
    split3(trim_end_crlf(text_of(line)))
}

/// Splits a start line; the pieces' bounds in the returned chars.
pub fn split_start_line(line: &[u8]) -> (r: (Vec<char>, usize, Vec<(usize, usize)>))
    ensures
        r.0@.subrange(0, r.1 as int) == trim_end_crlf(text_of(line@)),
        r.1 <= r.0@.len(),
        r.2@.len() == start_line_parts(line@).len(),
        forall|k: int|
            0 <= k < r.2@.len() ==> r.2@[k].0 <= r.2@[k].1 <= r.1 && #[trigger] r.0@.subrange(
                r.2@[k].0 as int,
                r.2@[k].1 as int,
            ) == start_line_parts(line@)[k],
{
    let s = line_chars(line);
    let n = s.len();
    let e = trim_crlf_end(s.as_slice(), 0, n);
    assert(s@.subrange(0, n as int) =~= s@);
    let t = vstd::slice::slice_subrange(s.as_slice(), 0, e);
    let ghost ts = t@;
    let mut parts: Vec<(usize, usize)> = Vec::new();
    match crate::http1::index_from(t, 0, ' ') {
        None => {
            parts.push((0, e));
            assert(ts.subrange(0, e as int) =~= ts);
        },
        Some(i) => {
            proof {
                crate::http1::lemma_index_of_from_bounds(ts, 0, ' ');
            }
            match crate::http1::index_from(t, i + 1, ' ') {
                None => {
                    parts.push((0, i));
                    parts.push((i + 1, e));
                },
                Some(j) => {
                    proof {
                        crate::http1::lemma_index_of_from_bounds(ts, i + 1, ' ');
                    }
                    parts.push((0, i));
                    parts.push((i + 1, j));
                    parts.push((j + 1, e));
                },
            }
        },
    }
    proof {
        assert forall|k: int| 0 <= k < parts@.len() implies parts@[k].0 <= parts@[k].1 <= e && #[trigger] s@.subrange(
            parts@[k].0 as int,
            parts@[k].1 as int,
        ) == start_line_parts(line@)[k] by {
            assert(s@.subrange(parts@[k].0 as int, parts@[k].1 as int) =~= ts.subrange(
                parts@[k].0 as int,
                parts@[k].1 as int,
            ));
        }
    }
    (s, e, parts)
}

/// The name `host`.
pub open spec fn host_name() -> Seq<char> {
    seq!['h', 'o', 's', 't']
}

/// What the request line `line` does to the request being read. `GET`
/// and a path alone is an HTTP/0.9 request, complete at once; any other
/// line needs a method, a path and a version; a line with fewer pieces
/// makes the request invalid.
pub open spec fn request_line_rule(o: HttpClient, n: HttpClient, line: Seq<u8>) -> bool {
    let parts = start_line_parts(line);
    &&& n.mpv_complete
    &&& n.headers == o.headers
    &&& n.body == o.body
    &&& n.host == o.host
    &&& n.scheme == o.scheme
    &&& if parts.len() == 2 && eq_ignore_case(parts[0], seq!['g', 'e', 't']) {
        &&& n.valid == o.valid
        &&& n.method == HttpMethod::Get
        &&& n.path@ == parts[1]
        &&& n.version == HttpVersion::Http09
        &&& n.head_complete
        &&& n.body_complete
    } else if parts.len() != 3 {
        &&& !n.valid
        &&& n.method == o.method
        &&& n.path == o.path
        &&& n.version == o.version
        &&& n.head_complete == o.head_complete
        &&& n.body_complete == o.body_complete
    } else {
        &&& n.valid == o.valid
        &&& method_from_spec(parts[0], n.method)
        &&& n.path@ == parts[1]
        &&& version_of(parts[2], n.version)
        &&& n.head_complete == o.head_complete
        &&& n.body_complete == o.body_complete
    }
}

/// What the header line `line` does to the request being read: a blank
/// line ends the head; a line without a colon makes the request invalid;
/// the first `Host` line sets the host; any other field is added under its
/// lower-cased name.
pub open spec fn request_header_rule(o: HttpClient, n: HttpClient, line: Seq<u8>) -> bool {
    let s = text_of(line);
    &&& n.mpv_complete == o.mpv_complete
    &&& n.body_complete == o.body_complete
    &&& n.method == o.method
    &&& n.path == o.path
    &&& n.version == o.version
    &&& n.body == o.body
    &&& n.scheme == o.scheme
    &&& n.headers.wf()
    &&& if line_blank(s) {
        n.head_complete && n.valid == o.valid && n.host == o.host && n.headers == o.headers
    } else if index_of_from(s, 0, ':') is None {
        !n.valid && n.head_complete == o.head_complete && n.host == o.host && n.headers == o.headers
    } else if eq_ignore_case(line_name(s), host_name()) {
        &&& n.valid == o.valid
        &&& n.head_complete == o.head_complete
        &&& n.headers == o.headers
        &&& match o.host {
            Some(h) => n.host == Some(h),
            None => n.host matches Some(h) && h@ == line_value(s),
        }
    } else {
        &&& n.valid == o.valid
        &&& n.head_complete == o.head_complete
        &&& n.host == o.host
        &&& n.headers.lookup(lower_seq(line_name(s))) == Some(
            match o.headers.lookup(lower_seq(line_name(s))) {
                Some(vs) => vs.push(line_value(s)),
                None => seq![line_value(s)],
            },
        )
        &&& forall|k: Seq<char>| k != lower_seq(line_name(s)) ==> n.headers.lookup(k) == o.headers.lookup(k)
    }
}

/// What the next step of reading a message reads.
#[derive(Debug, Clone, Copy, PartialEq, Eq, Structural)]
pub enum ReadKind {
    /// Nothing: the message is invalid or complete.
    Nothing,
    /// The start line.
    StartLine,
    /// A header line.
    HeaderLine,
    /// Body, delimited as given.
    Body(BodyPlan),
}

/// The state of the server side of an HTTP/1.x connection.
#[derive(Debug)]
pub struct Http1SocketState {
    pub client: HttpClient,
    pub sent_head: bool,
    pub closed: bool,
    pub code: u16,
    pub status: String,
    pub headers: HeaderMap,
    pub version_override: Option<HttpVersion>,
}

/// The text of a response head.
pub open spec fn response_head_text(version: Seq<char>, code: u16, status: Seq<char>, headers: HeaderMap) -> Seq<
    char,
> {
    version + seq![' '] + radix_digits(code as nat, 10) + seq![' '] + status + seq!['\r', '\n'] + header_block(
        headers.entries@,
    ) + seq!['\r', '\n']
}

impl Http1SocketState {
    /// The well-formedness the operations keep.
    pub open spec fn wf(&self) -> bool {
        &&& self.client.headers.wf()
        &&& values_present(self.client.headers)
        &&& self.headers.wf()
    }

    /// Every field but the response headers is that of `o`.
    pub open spec fn same_but_headers(&self, o: Self) -> bool {
        &&& self.client == o.client
        &&& self.sent_head == o.sent_head
        &&& self.closed == o.closed
        &&& self.code == o.code
        &&& self.status == o.status
        &&& self.version_override == o.version_override
    }

    /// The version the response is written with.
    pub open spec fn response_version(&self) -> Seq<char> {
        match self.version_override {
            Some(v) => version_wire(v),
            None => version_wire(self.client.version),
        }
    }

    /// The bytes of the response head (none for HTTP/0.9).
    pub open spec fn head_bytes(&self) -> Seq<u8> {
        if self.client.version is Http09 {
            Seq::empty()
        } else {
            vstd::utf8::encode_utf8(
                response_head_text(self.response_version(), self.code, self.status@, self.headers),
            )
        }
    }

    /// A fresh connection: nothing read, status 200 OK, no headers.
    pub fn new() -> (s: Self)
        ensures
            s.wf(),
            s.client.is_fresh(),
            !s.sent_head,
            !s.closed,
            s.code == 200,
            s.status@ == seq!['O', 'K'],
            s.headers.entries@.len() == 0,
            s.version_override is None,
    {
        let status = String::from_str("OK");
        proof {
            reveal_strlit("OK");
        }
        let client = HttpClient::default();
        assert(values_present(client.headers)) by {
            assert forall|n: Seq<char>| #[trigger] client.headers.lookup(n) is None by {}
        }
        Self {
            client,
            sent_head: false,
            closed: false,
            code: 200,
            status,
            headers: HeaderMap::new(),
            version_override: None,
        }
    }

    /// What the next `read_client` step reads.
    pub open spec fn read_kind_of(&self) -> ReadKind {
        if !self.client.valid || self.client.body_complete && self.client.head_complete && self.client.mpv_complete {
            ReadKind::Nothing
        } else if !self.client.mpv_complete {
            ReadKind::StartLine
        } else if !self.client.head_complete {
            ReadKind::HeaderLine
        } else {
            ReadKind::Body(body_plan_of(self.client.headers, self.client.version is Http10))
        }
    }

    /// What the next `read_client` step reads.
    pub fn read_kind(&self) -> (r: ReadKind)
        requires
            self.wf(),
        ensures
            r == self.read_kind_of(),
    {
        if !self.client.valid {
            ReadKind::Nothing
        } else if !self.client.mpv_complete {
            ReadKind::StartLine
        } else if !self.client.head_complete {
            ReadKind::HeaderLine
        } else if !self.client.body_complete {
            ReadKind::Body(body_plan(&self.client.headers, self.client.version.is_http10()))
        } else {
            ReadKind::Nothing
        }
    }

    /// Applies the request line (see `request_line_rule`).
    pub fn request_line(&mut self, line: &[u8])
        requires
            old(self).wf(),
        ensures
            final(self).wf(),
            request_line_rule(old(self).client, final(self).client, line@),
            final(self).sent_head == old(self).sent_head,
            final(self).closed == old(self).closed,
            final(self).headers == old(self).headers,
            final(self).code == old(self).code,
            final(self).status == old(self).status,
            final(self).version_override == old(self).version_override,
    {
        let (s, _e, parts) = split_start_line(line);
        let ghost ps = start_line_parts(line@);
        proof {
            if parts@.len() >= 1 {
                assert(s@.subrange(parts@[0].0 as int, parts@[0].1 as int) == ps[0]);
            }
            if parts@.len() >= 2 {
                assert(s@.subrange(parts@[1].0 as int, parts@[1].1 as int) == ps[1]);
            }
            if parts@.len() >= 3 {
                assert(s@.subrange(parts@[2].0 as int, parts@[2].1 as int) == ps[2]);
            }
        }
        if parts.len() == 2 && range_eq_ignore_case(s.as_slice(), parts[0].0, parts[0].1, &['g', 'e', 't']) {
            proof {
                assert(s@.subrange(parts@[0].0 as int, parts@[0].1 as int) == ps[0]);
            }
            self.client.method = HttpMethod::Get;
            self.client.path = string_from_chars(vstd::slice::slice_subrange(s.as_slice(), parts[1].0, parts[1].1));
            self.client.version = HttpVersion::Http09;
            self.client.head_complete = true;
            self.client.body_complete = true;
            proof {
                assert(s@.subrange(parts@[1].0 as int, parts@[1].1 as int) == ps[1]);
            }
        } else if parts.len() != 3 {
            proof {
                if parts.len() == 2 {
                    assert(s@.subrange(parts@[0].0 as int, parts@[0].1 as int) == ps[0]);
                }
            }
            self.client.valid = false;
        } else {
            proof {
                assert(s@.subrange(parts@[0].0 as int, parts@[0].1 as int) == ps[0]);
                assert(s@.subrange(parts@[1].0 as int, parts@[1].1 as int) == ps[1]);
                assert(s@.subrange(parts@[2].0 as int, parts@[2].1 as int) == ps[2]);
            }
            self.client.method = HttpMethod::from_chars(s.as_slice(), parts[0].0, parts[0].1);
            self.client.path = string_from_chars(vstd::slice::slice_subrange(s.as_slice(), parts[1].0, parts[1].1));
            self.client.version = version_from(s.as_slice(), parts[2].0, parts[2].1);
        }
        self.client.mpv_complete = true;
    }

    /// Applies a header line (see `request_header_rule`).
    pub fn header_line(&mut self, line: &[u8])
        requires
            old(self).wf(),
        ensures
            final(self).wf(),
            request_header_rule(old(self).client, final(self).client, line@),
            final(self).sent_head == old(self).sent_head,
            final(self).closed == old(self).closed,
            final(self).headers == old(self).headers,
            final(self).code == old(self).code,
            final(self).status == old(self).status,
            final(self).version_override == old(self).version_override,
    {
        let s = line_chars(line);
        match parse_header_line(s.as_slice()) {
            HeaderLine::Blank => {
                self.client.head_complete = true;
            },
            HeaderLine::Invalid => {
                self.client.valid = false;
            },
            HeaderLine::Field(name, value) => {
                let nc = chars_of(name.as_str());
                let n = nc.len();
                assert(nc@.subrange(0, n as int) =~= nc@);
                if range_eq_ignore_case(nc.as_slice(), 0, n, &['h', 'o', 's', 't']) {
                    if self.client.host.is_none() {
                        self.client.host = Some(value);
                    }
                } else {
                    let lower = string_from_chars(lower_range(nc.as_slice(), 0, n).as_slice());
                    let ghost old_headers = self.client.headers;
                    self.client.headers.add(lower, value);
                    proof {
                        assert forall|k: Seq<char>| #[trigger] self.client.headers.lookup(k) is Some implies self.client.headers.lookup(k)->0.len()
                            > 0 by {
                            if k != lower@ {
                                assert(old_headers.lookup(k) == self.client.headers.lookup(k));
                            }
                        }
                    }
                }
            },
        }
    }

    /// Reads a chunk size line: the size of the chunk that follows; size 0
    /// ends the body.
    pub fn chunk_line(&mut self, line: &[u8]) -> (r: usize)
        ensures
            r == chunk_size_of(line@),
            final(self).client.body_complete == (old(self).client.body_complete || r == 0),
            final(self).client.body == old(self).client.body,
            final(self).client.headers == old(self).client.headers,
            final(self).client.valid == old(self).client.valid,
            final(self).client.head_complete == old(self).client.head_complete,
            final(self).client.mpv_complete == old(self).client.mpv_complete,
            final(self).client.version == old(self).client.version,
            final(self).headers == old(self).headers,
            final(self).sent_head == old(self).sent_head,
            final(self).closed == old(self).closed,
            final(self).client == (HttpClient {
                body: final(self).client.body,
                body_complete: final(self).client.body_complete,
                ..old(self).client
            }),
            final(self).code == old(self).code,
            final(self).status == old(self).status,
            final(self).version_override == old(self).version_override,
    {
        let len = chunk_size(line);
        if len == 0 {
            self.client.body_complete = true;
        }
        len
    }

    /// Body bytes read: appended, and with `complete` the body ends.
    pub fn body_data(&mut self, data: &[u8], complete: bool)
        ensures
            final(self).client.body@ == old(self).client.body@ + data@,
            final(self).client.body_complete == (old(self).client.body_complete || complete),
            final(self).client.headers == old(self).client.headers,
            final(self).client.valid == old(self).client.valid,
            final(self).client.head_complete == old(self).client.head_complete,
            final(self).client.mpv_complete == old(self).client.mpv_complete,
            final(self).client.version == old(self).client.version,
            final(self).headers == old(self).headers,
            final(self).sent_head == old(self).sent_head,
            final(self).closed == old(self).closed,
            final(self).client == (HttpClient {
                body: final(self).client.body,
                body_complete: final(self).client.body_complete,
                ..old(self).client
            }),
            final(self).code == old(self).code,
            final(self).status == old(self).status,
            final(self).version_override == old(self).version_override,
    {
        crate::buf::push_all(&mut self.client.body, data);
        if complete {
            self.client.body_complete = true;
        }
    }

    /// The whole body, of a known length: it replaces what was read and ends it.
    pub fn body_exact(&mut self, data: Vec<u8>)
        ensures
            final(self).client.body@ == data@,
            final(self).client.body_complete,
            final(self).client.headers == old(self).client.headers,
            final(self).client.valid == old(self).client.valid,
            final(self).client.head_complete == old(self).client.head_complete,
            final(self).client.mpv_complete == old(self).client.mpv_complete,
            final(self).client.version == old(self).client.version,
            final(self).headers == old(self).headers,
            final(self).sent_head == old(self).sent_head,
            final(self).closed == old(self).closed,
            final(self).client == (HttpClient {
                body: final(self).client.body,
                body_complete: final(self).client.body_complete,
                ..old(self).client
            }),
            final(self).code == old(self).code,
            final(self).status == old(self).status,
            final(self).version_override == old(self).version_override,
    {
        self.client.body = data;
        self.client.body_complete = true;
    }

    /// Builds the response head: status line, header lines, blank line.
    fn head_text(&self) -> (r: Vec<u8>)
        requires
            !(self.client.version is Http09),
        ensures
            r@ == self.head_bytes(),
    {
        let version = match &self.version_override {
            Some(v) => v.to_string_unknown(),
            None => self.client.version.to_string_unknown(),
        };
        let mut t: Vec<char> = Vec::new();
        push_str(&mut t, version.as_str());
        t.push(' ');
        let code = radix_chars(self.code as usize, 10);
        push_chars(&mut t, code.as_slice());
        t.push(' ');
        push_str(&mut t, self.status.as_str());
        t.push('\r');
        t.push('\n');
        push_header_block(&mut t, &self.headers);
        t.push('\r');
        t.push('\n');
        assert(t@ =~= response_head_text(self.response_version(), self.code, self.status@, self.headers));
        text_bytes(t.as_slice())
    }

    /// Starts the response: the head's bytes (none for HTTP/0.9). Once the
    /// head is sent the connection refuses a second one.
    pub fn send_head(&mut self) -> (r: LibResult<Vec<u8>>)
        ensures
            old(self).sent_head ==> r == Err::<Vec<u8>, LibError>(LibError::ConnectionClosed) && *final(self) == *old(self),
            !old(self).sent_head ==> (r matches Ok(b) && b@ == old(self).head_bytes() && final(self).sent_head
                && final(self).closed == old(self).closed && final(self).headers == old(self).headers
                && final(self).client == old(self).client && final(self).code == old(self).code
                && final(self).status == old(self).status && final(self).version_override == old(self).version_override),
    {
        if self.sent_head {
            return Err(LibError::ConnectionClosed);
        }
        let bytes = if self.client.version.is_http09() {
            Vec::new()
        } else {
            self.head_text()
        };
        self.sent_head = true;
        Ok(bytes)
    }

    /// Writes part of the body. HTTP/0.9 writes it as is; otherwise the
    /// first write sends the head with `Transfer-Encoding: chunked` and each
    /// write sends one chunk. Refused once the response is closed.
    pub fn write(&mut self, body: &[u8]) -> (r: LibResult<Vec<u8>>)
        requires
            old(self).wf(),
        ensures
            final(self).wf(),
            final(self).client == old(self).client,
            final(self).closed == old(self).closed,
            final(self).sent_head == (old(self).sent_head || !old(self).closed),
            old(self).closed ==> r == Err::<Vec<u8>, LibError>(LibError::ConnectionClosed) && *final(self) == *old(self),
            !old(self).closed && old(self).client.version is Http09 ==> (r matches Ok(b) && b@ == body@
                && final(self).headers == old(self).headers),
            !old(self).closed && !(old(self).client.version is Http09) && old(self).sent_head ==> (r matches Ok(b)
                && b@ == chunk_bytes(body@) && final(self).headers == old(self).headers),
            !old(self).closed && !(old(self).client.version is Http09) && !old(self).sent_head ==> (r matches Ok(b)
                && b@ == final(self).head_bytes() + chunk_bytes(body@) && final(self).headers.lookup(
                seq!['T', 'r', 'a', 'n', 's', 'f', 'e', 'r', '-', 'E', 'n', 'c', 'o', 'd', 'i', 'n', 'g'],
            ) == Some(seq![seq!['c', 'h', 'u', 'n', 'k', 'e', 'd']]) && (forall|k: Seq<char>|
                k != seq!['T', 'r', 'a', 'n', 's', 'f', 'e', 'r', '-', 'E', 'n', 'c', 'o', 'd', 'i', 'n', 'g']
                    ==> final(self).headers.lookup(k) == old(self).headers.lookup(k))),
            final(self).code == old(self).code,
            final(self).status == old(self).status,
            final(self).version_override == old(self).version_override,
    {
        if self.closed {
            return Err(LibError::ConnectionClosed);
        }
        if self.client.version.is_http09() {
            self.sent_head = true;
            let mut out: Vec<u8> = Vec::new();
            crate::buf::push_all(&mut out, body);
            return Ok(out);
        }
        let mut out: Vec<u8> = Vec::new();
        if !self.sent_head {
            let name = String::from_str("Transfer-Encoding");
            let value = String::from_str("chunked");
            proof {
                reveal_strlit("Transfer-Encoding");
                reveal_strlit("chunked");
            }
            assert(name@ =~= seq!['T', 'r', 'a', 'n', 's', 'f', 'e', 'r', '-', 'E', 'n', 'c', 'o', 'd', 'i', 'n', 'g']);
            assert(value@ =~= seq!['c', 'h', 'u', 'n', 'k', 'e', 'd']);
            let mut values: Vec<String> = Vec::new();
            values.push(value);
            assert(texts(values@) =~= seq![seq!['c', 'h', 'u', 'n', 'k', 'e', 'd']]);
            let _ = self.headers.insert(name, values);
            out = self.head_text();
            self.sent_head = true;
        }
        let chunk = get_chunk(body);
        crate::buf::push_all(&mut out, chunk.as_slice());
        Ok(out)
    }

    /// Ends the response with the last of the body. Before the head it
    /// sends the head with `Content-Length` and the body; after it, one
    /// chunk and the last chunk (HTTP/0.9: the body as is, and it does not
    /// close). Refused once the response is closed.
    pub fn close(&mut self, body: &[u8]) -> (r: LibResult<Vec<u8>>)
        requires
            old(self).wf(),
        ensures
            final(self).wf(),
            final(self).client == old(self).client,
            final(self).sent_head,
            final(self).code == old(self).code,
            final(self).status == old(self).status,
            final(self).version_override == old(self).version_override,
            !old(self).sent_head ==> (r matches Ok(b) && b@ == final(self).head_bytes() + body@ && final(self).closed
                && final(self).headers.lookup(seq!['C', 'o', 'n', 't', 'e', 'n', 't', '-', 'L', 'e', 'n', 'g', 't', 'h'])
                == Some(seq![radix_digits(body@.len(), 10)]) && (forall|k: Seq<char>|
                k != seq!['C', 'o', 'n', 't', 'e', 'n', 't', '-', 'L', 'e', 'n', 'g', 't', 'h'] ==> final(self).headers.lookup(k) == old(self).headers.lookup(k))),
            old(self).sent_head && old(self).closed ==> r == Err::<Vec<u8>, LibError>(LibError::ConnectionClosed)
                && *final(self) == *old(self),
            old(self).sent_head && !old(self).closed && old(self).client.version is Http09 ==> (r matches Ok(b) && b@
                == body@ && *final(self) == *old(self)),
            old(self).sent_head && !old(self).closed && !(old(self).client.version is Http09) ==> (r matches Ok(b) && b@
                == chunk_bytes(body@) + last_chunk() && final(self).closed && final(self).headers == old(self).headers),
    {
        if !self.sent_head {
            let name = String::from_str("Content-Length");
            proof {
                reveal_strlit("Content-Length");
            }
            assert(name@ =~= seq!['C', 'o', 'n', 't', 'e', 'n', 't', '-', 'L', 'e', 'n', 'g', 't', 'h']);
            let digits = radix_chars(body.len(), 10);
            let value = string_from_chars(digits.as_slice());
            let mut values: Vec<String> = Vec::new();
            values.push(value);
            assert(texts(values@) =~= seq![radix_digits(body@.len(), 10)]);
            let _ = self.headers.insert(name, values);
            let mut out = match self.send_head() {
                Ok(b) => b,
                Err(e) => {
                    return Err(e);
                },
            };
            crate::buf::push_all(&mut out, body);
            self.closed = true;
            return Ok(out);
        }
        if self.closed {
            return Err(LibError::ConnectionClosed);
        }
        if self.client.version.is_http09() {
            let mut out: Vec<u8> = Vec::new();
            crate::buf::push_all(&mut out, body);
            return Ok(out);
        }
        let mut out = get_chunk(body);
        out.push(48);
        out.push(13);
        out.push(10);
        out.push(13);
        out.push(10);
        assert(out@ =~= chunk_bytes(body@) + last_chunk());
        self.closed = true;
        Ok(out)
    }

    /// Back to a fresh response for the next request on the connection:
    /// the request is cleared, status 200 OK, no headers, nothing sent.
    pub fn reset(&mut self)
        ensures
            final(self).wf(),
            final(self).client.is_fresh(),
            !final(self).sent_head,
            !final(self).closed,
            final(self).code == 200,
            final(self).status@ == seq!['O', 'K'],
            final(self).headers.entries@.len() == 0,
            final(self).version_override == old(self).version_override,
    {
        self.client.reset();
        self.code = 200;
        self.status = String::from_str("OK");
        proof {
            reveal_strlit("OK");
        }
        self.headers.clear();
        self.sent_head = false;
        self.closed = false;
        assert(values_present(self.client.headers)) by {
            assert forall|n: Seq<char>| #[trigger] self.client.headers.lookup(n) is None by {}
        }
    }

    /// Adds a value under `header`.
    pub fn add_header(&mut self, header: &str, value: &str)
        requires
            old(self).headers.wf(),
        ensures
            final(self).headers.wf(),
            final(self).headers.lookup(header@) == Some(match old(self).headers.lookup(header@) {
                Some(vs) => vs.push(value@),
                None => seq![value@],
            }),
            forall|n: Seq<char>| n != header@ ==> final(self).headers.lookup(n) == old(self).headers.lookup(n),
            final(self).same_but_headers(*old(self)),
    {
        self.headers.add(String::from_str(header), String::from_str(value));
    }

    /// Makes `value` the only value under `header`.
    pub fn set_header(&mut self, header: &str, value: &str)
        requires
            old(self).headers.wf(),
        ensures
            final(self).headers.wf(),
            final(self).headers.lookup(header@) == Some(seq![value@]),
            forall|n: Seq<char>| n != header@ ==> final(self).headers.lookup(n) == old(self).headers.lookup(n),
            final(self).same_but_headers(*old(self)),
    {
        let mut values: Vec<String> = Vec::new();
        values.push(String::from_str(value));
        assert(texts(values@) =~= seq![value@]);
        let _ = self.headers.insert(String::from_str(header), values);
    }

    /// Removes `header`, returning its values.
    pub fn del_header(&mut self, header: &str) -> (r: Option<Vec<String>>)
        requires
            old(self).headers.wf(),
        ensures
            final(self).headers.wf(),
            final(self).headers.lookup(header@) is None,
            forall|n: Seq<char>| n != header@ ==> final(self).headers.lookup(n) == old(self).headers.lookup(n),
            match r {
                Some(v) => old(self).headers.lookup(header@) == Some(texts(v@)),
                None => old(self).headers.lookup(header@) is None,
            },
            final(self).same_but_headers(*old(self)),
    {
        self.headers.remove(header)
    }

    /// Answers a WebSocket handshake for `key`: status 101 Switching
    /// Protocols, the upgrade headers with the accept value, and an empty
    /// closing body (see `close`).
    pub fn websocket_with_key(&mut self, key: Vec<u8>) -> (r: LibResult<Vec<u8>>)
        requires
            old(self).wf(),
        ensures
            final(self).wf(),
            final(self).code == 101,
            final(self).status@ == seq!['S', 'w', 'i', 't', 'c', 'h', 'i', 'n', 'g', ' ', 'P', 'r', 'o', 't', 'o', 'c', 'o', 'l', 's'],
            final(self).headers.lookup(seq!['S', 'e', 'c', '-', 'W', 'e', 'b', 'S', 'o', 'c', 'k', 'e', 't', '-', 'A', 'c', 'c', 'e', 'p', 't'])
                == Some(seq![accept_text(key@)]),
            final(self).headers.lookup(seq!['U', 'p', 'g', 'r', 'a', 'd', 'e']) == Some(seq![seq!['w', 'e', 'b', 's', 'o', 'c', 'k', 'e', 't']]),
            final(self).headers.lookup(seq!['C', 'o', 'n', 'n', 'e', 'c', 't', 'i', 'o', 'n']) == Some(seq![seq!['U', 'p', 'g', 'r', 'a', 'd', 'e']]),
            !old(self).sent_head ==> (r matches Ok(b) && b@ == final(self).head_bytes() && final(self).closed),
            old(self).sent_head && old(self).closed ==> r == Err::<Vec<u8>, LibError>(LibError::ConnectionClosed),
    {
        let reskey = accept_key(key.as_slice());
        self.code = 101;
        self.status = String::from_str("Switching Protocols");
        proof {
            reveal_strlit("Switching Protocols");
            reveal_strlit("Connection");
            reveal_strlit("Upgrade");
            reveal_strlit("websocket");
            reveal_strlit("Sec-WebSocket-Accept");
        }
        self.set_header("Connection", "Upgrade");
        self.set_header("Upgrade", "websocket");
        self.set_header("Sec-WebSocket-Accept", reskey.as_str());
        assert("Connection"@ =~= seq!['C', 'o', 'n', 'n', 'e', 'c', 't', 'i', 'o', 'n']);
        assert("Upgrade"@ =~= seq!['U', 'p', 'g', 'r', 'a', 'd', 'e']);
        assert("websocket"@ =~= seq!['w', 'e', 'b', 's', 'o', 'c', 'k', 'e', 't']);
        assert("Sec-WebSocket-Accept"@ =~= seq!['S', 'e', 'c', '-', 'W', 'e', 'b', 'S', 'o', 'c', 'k', 'e', 't', '-', 'A', 'c', 'c', 'e', 'p', 't']);
        let empty: Vec<u8> = Vec::new();
        self.close(empty.as_slice())
    }

    /// The key of a WebSocket handshake: the bytes of the first
    /// `sec-websocket-key` value, if the request has one.
    pub fn websocket_key(&self) -> (r: Option<Vec<u8>>)
        requires
            self.wf(),
        ensures
            match self.client.headers.lookup(seq!['s', 'e', 'c', '-', 'w', 'e', 'b', 's', 'o', 'c', 'k', 'e', 't', '-', 'k', 'e', 'y']) {
                Some(v) => r matches Some(k) && k@ == vstd::utf8::encode_utf8(v[0]),
                None => r is None,
            },
    {
        let name = "sec-websocket-key";
        proof {
            reveal_strlit("sec-websocket-key");
        }
        assert(name@ =~= seq!['s', 'e', 'c', '-', 'w', 'e', 'b', 's', 'o', 'c', 'k', 'e', 't', '-', 'k', 'e', 'y']);
        match self.client.headers.get(name) {
            Some(v) => {
                assert(self.client.headers.lookup(name@) matches Some(vs) && vs.len() > 0);
                let b = v[0].as_str().as_bytes();
                let mut k: Vec<u8> = Vec::new();
                crate::buf::push_all(&mut k, b);
                Some(k)
            },
            None => None,
        }
    }

    /// Answers an h2c upgrade: status 101 Switching Protocols, the upgrade
    /// headers (announcing `settings` in `HTTP2-Settings` when given), and
    /// an empty closing body (see `close`).
    pub fn h2c_answer(&mut self, settings: Option<Http2Settings>) -> (r: LibResult<Vec<u8>>)
        requires
            old(self).wf(),
        ensures
            final(self).wf(),
            final(self).code == 101,
            final(self).headers.lookup(seq!['U', 'p', 'g', 'r', 'a', 'd', 'e']) == Some(seq![seq!['h', '2', 'c']]),
            match settings {
                Some(st) => final(self).headers.lookup(seq!['H', 'T', 'T', 'P', '2', '-', 'S', 'e', 't', 't', 'i', 'n', 'g', 's'])
                    == Some(seq![base64_text(settings_bytes(st))]),
                None => final(self).headers.lookup(seq!['C', 'o', 'n', 'n', 'e', 'c', 't', 'i', 'o', 'n']) == Some(seq![seq!['U', 'p', 'g', 'r', 'a', 'd', 'e']]),
            },
            !old(self).sent_head ==> (r matches Ok(b) && b@ == final(self).head_bytes() && final(self).closed),
            old(self).sent_head && old(self).closed ==> r == Err::<Vec<u8>, LibError>(LibError::ConnectionClosed),
    {
        self.code = 101;
        self.status = String::from_str("Switching Protocols");
        proof {
            reveal_strlit("Connection");
            reveal_strlit("Upgrade");
            reveal_strlit("h2c");
            reveal_strlit("HTTP2-Settings");
        }
        assert("Connection"@ =~= seq!['C', 'o', 'n', 'n', 'e', 'c', 't', 'i', 'o', 'n']);
        assert("Upgrade"@ =~= seq!['U', 'p', 'g', 'r', 'a', 'd', 'e']);
        assert("h2c"@ =~= seq!['h', '2', 'c']);
        assert("HTTP2-Settings"@ =~= seq!['H', 'T', 'T', 'P', '2', '-', 'S', 'e', 't', 't', 'i', 'n', 'g', 's']);
        match settings {
            Some(st) => {
                self.set_header("Connection", "Upgrade, HTTP2-Settings");
                self.set_header("Upgrade", "h2c");
                let enc = base64_encode(st.to_vec().as_slice());
                self.set_header("HTTP2-Settings", enc.as_str());
            },
            None => {
                self.set_header("Upgrade", "h2c");
                self.set_header("Connection", "Upgrade");
            },
        }
        let empty: Vec<u8> = Vec::new();
        self.close(empty.as_slice())
    }
}

/// The settings a server session starts with after an h2c upgrade: those
/// the client sent base64-encoded in `http2-settings` (no setting when
/// that does not decode), else the defaults without push.
pub open spec fn h2c_settings_of(headers: HeaderMap) -> Http2Settings {
    match headers.lookup(seq!['h', 't', 't', 'p', '2', '-', 's', 'e', 't', 't', 'i', 'n', 'g', 's']) {
        Some(v) => settings_from_bytes(
            match base64_decoded(vstd::utf8::encode_utf8(v[0])) {
                Some(b) => b,
                None => Seq::empty(),
            },
        ),
        None => Http2Settings {
            header_table_size: Some(4096),
            enable_push: None,
            max_concurrent_streams: None,
            initial_window_size: Some(65535),
            max_frame_size: Some(65535),
            max_header_list_size: None,
        },
    }
}

/// The settings of an h2c upgrade request (see `h2c_settings_of`).
pub fn h2c_settings(headers: &HeaderMap) -> (r: Http2Settings)
    requires
        headers.wf(),
        values_present(*headers),
    ensures
        r == h2c_settings_of(*headers),
{
    let name = "http2-settings";
    proof {
        reveal_strlit("http2-settings");
    }
    assert(name@ =~= seq!['h', 't', 't', 'p', '2', '-', 's', 'e', 't', 't', 'i', 'n', 'g', 's']);
    match headers.get(name) {
        Some(v) => {
            assert(headers.lookup(name@) matches Some(vs) && vs.len() > 0);
            let text = v[0].as_str().as_bytes();
            let buff = match base64_decode(text) {
                Some(b) => b,
                None => Vec::new(),
            };
            Http2Settings::from(buff.as_slice())
        },
        None => Http2Settings::default_no_push(),
    }
}

/// The fields of a header map as name and value bytes, entry by entry.
pub open spec fn header_pairs(entries: Seq<(String, Vec<String>)>) -> Seq<(Seq<u8>, Seq<u8>)>
    decreases entries.len(),
{
    if entries.len() == 0 {
        Seq::empty()
    } else {
        let e = entries.last();
        header_pairs(entries.drop_last()) + texts(e.1@).map_values(
            |v: Seq<char>| (vstd::utf8::encode_utf8(e.0@), vstd::utf8::encode_utf8(v)),
        )
    }
}

/// The fields of a header map as name and value bytes.
pub fn header_byte_pairs(m: &HeaderMap) -> (r: Vec<(Vec<u8>, Vec<u8>)>)
    ensures
        pairs_view(r@) == header_pairs(m.entries@),
{
    let mut out: Vec<(Vec<u8>, Vec<u8>)> = Vec::new();
    let mut i: usize = 0;
    while i < m.entries.len()
        invariant
            i <= m.entries@.len(),
            pairs_view(out@) == header_pairs(m.entries@.subrange(0, i as int)),
        decreases m.entries@.len() - i,
    {
        let ghost before = pairs_view(out@);
        let name = m.entries[i].0.as_str().as_bytes();
        let values = &m.entries[i].1;
        let mut j: usize = 0;
        while j < values.len()
            invariant
                i < m.entries@.len(),
                j <= values@.len(),
                values@ == m.entries@[i as int].1@,
                name@ == vstd::utf8::encode_utf8(m.entries@[i as int].0@),
                pairs_view(out@) == before + texts(values@.subrange(0, j as int)).map_values(
                    |v: Seq<char>| (vstd::utf8::encode_utf8(m.entries@[i as int].0@), vstd::utf8::encode_utf8(v)),
                ),
            decreases values@.len() - j,
        {
            let mut nb: Vec<u8> = Vec::new();
            crate::buf::push_all(&mut nb, name);
            let mut vb: Vec<u8> = Vec::new();
            crate::buf::push_all(&mut vb, values[j].as_str().as_bytes());
            let ghost prev = out@;
            out.push((nb, vb));
            j = j + 1;
            assert(pairs_view(out@) =~= pairs_view(prev).push((vstd::utf8::encode_utf8(m.entries@[i as int].0@), vstd::utf8::encode_utf8(values@[j - 1]@))));
            assert(texts(values@.subrange(0, j as int)) =~= texts(values@.subrange(0, j - 1)).push(values@[j - 1]@));
            assert(pairs_view(out@) =~= before + texts(values@.subrange(0, j as int)).map_values(
                |v: Seq<char>| (vstd::utf8::encode_utf8(m.entries@[i as int].0@), vstd::utf8::encode_utf8(v)),
            ));
        }
        assert(values@.subrange(0, values@.len() as int) =~= values@);
        i = i + 1;
        assert(m.entries@.subrange(0, i as int).drop_last() =~= m.entries@.subrange(0, i - 1));
    }
    assert(m.entries@.subrange(0, m.entries@.len() as int) =~= m.entries@);
    out
}

/// The server session an h2c upgrade starts: settings from the request
/// (see `h2c_settings_of`), and stream 1 holding the upgraded request, its
/// head and body complete.
pub fn h2c_session(client: HttpClient) -> (s: SessionState)
    requires
        client.headers.wf(),
        values_present(client.headers),
    ensures
        s.mode == Mode::Server,
        s.strict,
        s.settings == h2c_settings_of(client.headers),
        s.max_stream_id == 0,
        s.window == initial_window(s.settings),
        s.streams_view() == Map::<u32, StreamView>::empty().insert(
            1,
            StreamView {
                end_head: true,
                end_body: true,
                body: client.body@,
                headers: header_pairs(client.headers.entries@),
                ..empty_stream(1, s.settings)
            },
        ),
{
    let settings = h2c_settings(&client.headers);
    let mut h2 = SessionState::with(Mode::Server, true, settings);
    let mut curr = Http2Data::empty(1, settings);
    curr.end_head = true;
    curr.end_body = true;
    curr.headers = header_byte_pairs(&client.headers);
    curr.body = client.body;
    let ghost cv = curr@;
    h2.put_stream(1, curr);
    assert(h2.streams_view() =~= Map::<u32, StreamView>::empty().insert(1, cv));
    h2
}

/// Whether a request is the HTTP/2 connection preface read as HTTP/1
/// (`PRI * HTTP/2.0` with no headers).
pub open spec fn is_preface_request(c: HttpClient) -> bool {
    &&& c.method matches HttpMethod::Unknown(Some(m)) && m@ == seq!['P', 'R', 'I']
    &&& c.path@ == seq!['*']
    &&& c.version matches HttpVersion::Unknown(Some(v)) && v@ == seq!['H', 'T', 'T', 'P', '/', '2', '.', '0']
    &&& c.headers.entries@.len() == 0
}

/// Whether a request is the HTTP/2 connection preface read as HTTP/1.
pub fn prior_knowledge_request(c: &HttpClient) -> (r: bool)
    ensures
        r == is_preface_request(*c),
{
    let pri = String::from_str("PRI");
    let star = String::from_str("*");
    let h2 = String::from_str("HTTP/2.0");
    proof {
        reveal_strlit("PRI");
        reveal_strlit("*");
        reveal_strlit("HTTP/2.0");
    }
    assert(pri@ =~= seq!['P', 'R', 'I']);
    assert(star@ =~= seq!['*']);
    assert(h2@ =~= seq!['H', 'T', 'T', 'P', '/', '2', '.', '0']);
    let m = match &c.method {
        HttpMethod::Unknown(Some(m)) => *m == pri,
        _ => false,
    };
    let v = match &c.version {
        HttpVersion::Unknown(Some(v)) => *v == h2,
        _ => false,
    };
    m && c.path == star && v && c.headers.len() == 0
}

/// The rest of the preface after its first line: `SM` CR LF CR LF.
pub fn preface_tail_ok(fin: &[u8]) -> (r: bool)
    ensures
        r == (fin@ == seq![0x53u8, 0x4du8, 0x0du8, 0x0au8, 0x0du8, 0x0au8]),
{
    if fin.len() != 6 {
        return false;
    }
    let r = fin[0] == 0x53 && fin[1] == 0x4d && fin[2] == 0x0d && fin[3] == 0x0a && fin[4] == 0x0d && fin[5] == 0x0a;
    if r {
        assert(fin@ =~= seq![0x53u8, 0x4du8, 0x0du8, 0x0au8, 0x0du8, 0x0au8]);
    }
    r
}

} // verus!
