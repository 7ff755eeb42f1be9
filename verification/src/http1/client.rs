//! The client side of an HTTP/1.x connection: writing the request and
//! reading the response line by line. The caller reads what `read_kind`
//! asks for and writes the bytes these functions return.

use vstd::prelude::*;
use crate::encoding::{base64_encode, base64_text};
use crate::http1::{
    HeaderLine, body_plan, body_plan_of, chunk_bytes, chunk_size, chunk_size_of, get_chunk, header_block,
    index_of_from, last_chunk, line_blank, line_chars, line_name, line_value, parse_header_line,
    push_header_block, push_str, text_bytes, values_present,
};
use crate::http1::server::{
    ReadKind, h2c_settings, h2c_settings_of, split_start_line, start_line_parts, version_from, version_of,
};
use crate::http2::frame::{Http2Settings, settings_bytes};
use crate::http2::session::{Mode, PREFACE, SessionState};
use crate::shared::{
    HeaderMap, HttpMethod, HttpResponse, HttpVersion, LibError, LibResult, method_wire, texts, version_wire,
};
use crate::text::{chars_of, lower_range, lower_seq, parse_radix, parse_unsigned, radix_digits, string_from_chars};
use crate::websocket::{accept_key, accept_text};

verus! {

/// What the status line `line` does to the response being read: it needs
/// a version, a code and a reason; a code that is not a number reads as 0;
/// a line with fewer pieces makes the response invalid.
pub open spec fn status_line_rule(o: HttpResponse, n: HttpResponse, line: Seq<u8>) -> bool {
    let parts = start_line_parts(line);
    &&& n.vcs_complete
    &&& n.head_complete == o.head_complete
    &&& n.body_complete == o.body_complete
    &&& n.headers == o.headers
    &&& n.body == o.body
    &&& if parts.len() != 3 {
        &&& !n.valid
        &&& n.version == o.version
        &&& n.code == o.code
        &&& n.status == o.status
    } else {
        &&& n.valid == o.valid
        &&& version_of(parts[0], n.version)
        &&& n.code == (match parse_unsigned(parts[1], 10, 65535) {
            Some(v) => v as u16,
            None => 0,
        })
        &&& n.status@ == parts[2]
    }
}

/// What the header line `line` does to the response being read: a blank
/// line ends the head; a line without a colon makes the response invalid;
/// any other field is added under its lower-cased name.
pub open spec fn response_header_rule(o: HttpResponse, n: HttpResponse, line: Seq<u8>) -> bool {
    let s = crate::text::text_of(line);
    &&& n.vcs_complete == o.vcs_complete
    &&& n.body_complete == o.body_complete
    &&& n.version == o.version
    &&& n.code == o.code
    &&& n.status == o.status
    &&& n.body == o.body
    &&& n.headers.wf()
    &&& if line_blank(s) {
        n.head_complete && n.valid == o.valid && n.headers == o.headers
    } else if index_of_from(s, 0, ':') is None {
        !n.valid && n.head_complete == o.head_complete && n.headers == o.headers
    } else {
        &&& n.valid == o.valid
        &&& n.head_complete == o.head_complete
        &&& n.headers.lookup(lower_seq(line_name(s))) == Some(
            match o.headers.lookup(lower_seq(line_name(s))) {
                Some(vs) => vs.push(line_value(s)),
                None => seq![line_value(s)],
            },
        )
        &&& forall|k: Seq<char>| k != lower_seq(line_name(s)) ==> n.headers.lookup(k) == o.headers.lookup(k)
    }
}

/// The text of a request head.
pub open spec fn request_head_text(method: Seq<char>, path: Seq<char>, version: Seq<char>, headers: HeaderMap) -> Seq<
    char,
> {
    method + seq![' '] + path + seq![' '] + version + seq!['\r', '\n'] + header_block(headers.entries@) + seq![
        '\r',
        '\n',
    ]
}

/// The name `Connection`.
pub open spec fn ws_connection_name() -> Seq<char> {
    seq!['C', 'o', 'n', 'n', 'e', 'c', 't', 'i', 'o', 'n']
}

/// The name `Upgrade`.
pub open spec fn ws_upgrade_name() -> Seq<char> {
    seq!['U', 'p', 'g', 'r', 'a', 'd', 'e']
}

/// The name `Sec-WebSocket-Version`.
pub open spec fn ws_version_name() -> Seq<char> {
    seq!['S', 'e', 'c', '-', 'W', 'e', 'b', 'S', 'o', 'c', 'k', 'e', 't', '-', 'V', 'e', 'r', 's', 'i', 'o', 'n']
}

/// The name `Sec-WebSocket-Key`.
pub open spec fn ws_key_name() -> Seq<char> {
    seq!['S', 'e', 'c', '-', 'W', 'e', 'b', 'S', 'o', 'c', 'k', 'e', 't', '-', 'K', 'e', 'y']
}

/// The name `Content-Length`.
pub open spec fn content_length_name() -> Seq<char> {
    seq!['C', 'o', 'n', 't', 'e', 'n', 't', '-', 'L', 'e', 'n', 'g', 't', 'h']
}

/// What asking for a WebSocket upgrade with `key` does, from `o` to `n`
/// with result `r`: a key of another size than 16 is refused and nothing
/// changes; otherwise the four upgrade headers are set and the request is
/// sent with an empty body (see `send`).
pub open spec fn ws_upgrade_outcome(
    o: Http1RequestState,
    n: Http1RequestState,
    key: Seq<u8>,
    r: LibResult<(String, Vec<u8>)>,
) -> bool {
    if key.len() != 16 {
        r == Err::<(String, Vec<u8>), LibError>(LibError::Invalid) && n == o
    } else {
        &&& n.path == o.path
        &&& n.method == o.method
        &&& n.version == o.version
        &&& n.headers.lookup(ws_connection_name()) == Some(seq![seq!['u', 'p', 'g', 'r', 'a', 'd', 'e']])
        &&& n.headers.lookup(ws_upgrade_name()) == Some(seq![seq!['w', 'e', 'b', 's', 'o', 'c', 'k', 'e', 't']])
        &&& n.headers.lookup(ws_version_name()) == Some(seq![seq!['1', '3']])
        &&& n.headers.lookup(ws_key_name()) == Some(seq![base64_text(key)])
        &&& if o.sent && o.sent_head {
            r == Err::<(String, Vec<u8>), LibError>(LibError::ConnectionClosed)
        } else {
            r matches Ok((k, b)) && k@ == base64_text(key) && b@ == (if !o.sent && o.version is Http09 {
                if o.sent_head {
                    Seq::empty()
                } else {
                    o.head_bytes()
                }
            } else if !o.sent_head {
                n.head_bytes()
            } else {
                chunk_bytes(Seq::empty()) + last_chunk()
            })
        }
    }
}

/// Sixteen random bytes from rand's thread-local generator.
#[verifier::external_body]
fn random_key() -> (r: [u8; 16]) {
    let mut key = [0u8; 16];
    rand::Rng::fill(&mut rand::rng(), &mut key);
    key
}

/// The state of the client side of an HTTP/1.x connection.
#[derive(Debug)]
pub struct Http1RequestState {
    pub response: HttpResponse,
    pub sent_head: bool,
    pub sent: bool,
    pub path: String,
    pub method: HttpMethod,
    pub version: HttpVersion,
    pub headers: HeaderMap,
}

impl Http1RequestState {
    /// The well-formedness the operations keep.
    pub open spec fn wf(&self) -> bool {
        &&& self.response.headers.wf()
        &&& values_present(self.response.headers)
        &&& self.headers.wf()
    }

    /// The bytes of the request head: `GET path` for HTTP/0.9, else the
    /// request line, the header lines and a blank line.
    pub open spec fn head_bytes(&self) -> Seq<u8> {
        if self.version is Http09 {
            vstd::utf8::encode_utf8(seq!['G', 'E', 'T', ' '] + self.path@ + seq!['\r', '\n'])
        } else {
            vstd::utf8::encode_utf8(
                request_head_text(method_wire(self.method), self.path@, version_wire(self.version), self.headers),
            )
        }
    }

    /// A fresh request: `GET /` over HTTP/1.1, no headers, nothing sent.
    pub fn new() -> (s: Self)
        ensures
            s.wf(),
            s.response.is_fresh(),
            !s.sent_head,
            !s.sent,
            s.path@ == seq!['/'],
            s.method == HttpMethod::Get,
            s.version == HttpVersion::Http11,
            s.headers.entries@.len() == 0,
    {
        let path = String::from_str("/");
        proof {
            reveal_strlit("/");
        }
        let response = HttpResponse::default();
        assert(values_present(response.headers)) by {
            assert forall|n: Seq<char>| #[trigger] response.headers.lookup(n) is None by {}
        }
        Self {
            response,
            sent_head: false,
            sent: false,
            path,
            method: HttpMethod::Get,
            version: HttpVersion::Http11,
            headers: HeaderMap::new(),
        }
    }

    /// What the next `read_response` step reads: for HTTP/0.9 there is no
    /// status line or head, only the body, to the end of the connection.
    pub open spec fn read_kind_of(&self) -> ReadKind {
        if !self.response.valid {
            ReadKind::Nothing
        } else if !self.response.vcs_complete && !(self.version is Http09) {
            ReadKind::StartLine
        } else if !self.response.head_complete && !(self.version is Http09) {
            ReadKind::HeaderLine
        } else if !self.response.body_complete {
            ReadKind::Body(
                body_plan_of(self.response.headers, self.response.version is Http10 || self.response.version is Http09),
            )
        } else {
            ReadKind::Nothing
        }
    }

    /// What the next `read_response` step reads.
    pub fn read_kind(&self) -> (r: ReadKind)
        requires
            self.wf(),
        ensures
            r == self.read_kind_of(),
    {
        if !self.response.valid {
            ReadKind::Nothing
        } else if !self.response.vcs_complete && !self.version.is_http09() {
            ReadKind::StartLine
        } else if !self.response.head_complete && !self.version.is_http09() {
            ReadKind::HeaderLine
        } else if !self.response.body_complete {
            let to_end = self.response.version.is_http10() || self.response.version.is_http09();
            ReadKind::Body(body_plan(&self.response.headers, to_end))
        } else {
            ReadKind::Nothing
        }
    }

    /// Applies the status line (see `status_line_rule`).
    pub fn status_line(&mut self, line: &[u8])
        requires
            old(self).wf(),
        ensures
            final(self).wf(),
            status_line_rule(old(self).response, final(self).response, line@),
            final(self).sent_head == old(self).sent_head,
            final(self).sent == old(self).sent,
            final(self).version == old(self).version,
            final(self).headers == old(self).headers,
            final(self).path == old(self).path,
            final(self).method == old(self).method,
    {
        let (s, _e, parts) = split_start_line(line);
        let ghost ps = start_line_parts(line@);
        if parts.len() != 3 {
            self.response.valid = false;
        } else {
            proof {
                assert(s@.subrange(parts@[0].0 as int, parts@[0].1 as int) == ps[0]);
                assert(s@.subrange(parts@[1].0 as int, parts@[1].1 as int) == ps[1]);
                assert(s@.subrange(parts@[2].0 as int, parts@[2].1 as int) == ps[2]);
            }
            self.response.version = version_from(s.as_slice(), parts[0].0, parts[0].1);
            self.response.code = match parse_radix(s.as_slice(), parts[1].0, parts[1].1, 10) {
                Some(v) => if v <= 65535 { v as u16 } else { 0 },
                None => 0,
            };
            self.response.status = string_from_chars(
                vstd::slice::slice_subrange(s.as_slice(), parts[2].0, parts[2].1),
            );
        }
        self.response.vcs_complete = true;
    }

    /// Applies a header line (see `response_header_rule`).
    pub fn header_line(&mut self, line: &[u8])
        requires
            old(self).wf(),
        ensures
            final(self).wf(),
            response_header_rule(old(self).response, final(self).response, line@),
            final(self).sent_head == old(self).sent_head,
            final(self).sent == old(self).sent,
            final(self).version == old(self).version,
            final(self).headers == old(self).headers,
            final(self).path == old(self).path,
            final(self).method == old(self).method,
    {
        let s = line_chars(line);
        match parse_header_line(s.as_slice()) {
            HeaderLine::Blank => {
                self.response.head_complete = true;
            },
            HeaderLine::Invalid => {
                self.response.valid = false;
            },
            HeaderLine::Field(name, value) => {
                let nc = chars_of(name.as_str());
                let n = nc.len();
                let lower = string_from_chars(lower_range(nc.as_slice(), 0, n).as_slice());
                assert(nc@.subrange(0, n as int) =~= nc@);
                let ghost old_headers = self.response.headers;
                self.response.headers.add(lower, value);
                proof {
                    assert forall|k: Seq<char>| #[trigger] self.response.headers.lookup(k) is Some implies self.response.headers.lookup(
                        k,
                    )->0.len() > 0 by {
                        if k != lower@ {
                            assert(old_headers.lookup(k) == self.response.headers.lookup(k));
                        }
                    }
                }
            },
        }
    }

    /// Reads a chunk size line: the size of the chunk that follows; size 0
    /// ends the body.
    pub fn chunk_line(&mut self, line: &[u8]) -> (r: usize)
        ensures
            r == chunk_size_of(line@),
            final(self).response.body_complete == (old(self).response.body_complete || r == 0),
            final(self).response.body == old(self).response.body,
            final(self).response.headers == old(self).response.headers,
            final(self).response.valid == old(self).response.valid,
            final(self).response.head_complete == old(self).response.head_complete,
            final(self).response.vcs_complete == old(self).response.vcs_complete,
            final(self).response.version == old(self).response.version,
            final(self).headers == old(self).headers,
            final(self).version == old(self).version,
            final(self).response == (HttpResponse {
                body: final(self).response.body,
                body_complete: final(self).response.body_complete,
                ..old(self).response
            }),
            final(self).sent_head == old(self).sent_head,
            final(self).sent == old(self).sent,
            final(self).path == old(self).path,
            final(self).method == old(self).method,
    {
        let len = chunk_size(line);
        if len == 0 {
            self.response.body_complete = true;
        }
        len
    }

    /// Body bytes read: appended, and with `complete` the body ends.
    pub fn body_data(&mut self, data: &[u8], complete: bool)
        ensures
            final(self).response.body@ == old(self).response.body@ + data@,
            final(self).response.body_complete == (old(self).response.body_complete || complete),
            final(self).response.headers == old(self).response.headers,
            final(self).response.valid == old(self).response.valid,
            final(self).response.head_complete == old(self).response.head_complete,
            final(self).response.vcs_complete == old(self).response.vcs_complete,
            final(self).response.version == old(self).response.version,
            final(self).headers == old(self).headers,
            final(self).version == old(self).version,
            final(self).response == (HttpResponse {
                body: final(self).response.body,
                body_complete: final(self).response.body_complete,
                ..old(self).response
            }),
            final(self).sent_head == old(self).sent_head,
            final(self).sent == old(self).sent,
            final(self).path == old(self).path,
            final(self).method == old(self).method,
    {
        crate::buf::push_all(&mut self.response.body, data);
        if complete {
            self.response.body_complete = true;
        }
    }

    /// The whole body, of a known length: it replaces what was read and ends it.
    pub fn body_exact(&mut self, data: Vec<u8>)
        ensures
            final(self).response.body@ == data@,
            final(self).response.body_complete,
            final(self).response.headers == old(self).response.headers,
            final(self).response.valid == old(self).response.valid,
            final(self).response.head_complete == old(self).response.head_complete,
            final(self).response.vcs_complete == old(self).response.vcs_complete,
            final(self).response.version == old(self).response.version,
            final(self).headers == old(self).headers,
            final(self).version == old(self).version,
            final(self).response == (HttpResponse {
                body: final(self).response.body,
                body_complete: final(self).response.body_complete,
                ..old(self).response
            }),
            final(self).sent_head == old(self).sent_head,
            final(self).sent == old(self).sent,
            final(self).path == old(self).path,
            final(self).method == old(self).method,
    {
        self.response.body = data;
        self.response.body_complete = true;
    }

    /// Builds the request head.
    fn head_text(&self) -> (r: Vec<u8>)
        ensures
            r@ == self.head_bytes(),
    {
        let mut t: Vec<char> = Vec::new();
        if self.version.is_http09() {
            t.push('G');
            t.push('E');
            t.push('T');
            t.push(' ');
            push_str(&mut t, self.path.as_str());
            t.push('\r');
            t.push('\n');
            assert(t@ =~= seq!['G', 'E', 'T', ' '] + self.path@ + seq!['\r', '\n']);
        } else {
            let m = self.method.to_string_unknown();
            let v = self.version.to_string_unknown();
            push_str(&mut t, m.as_str());
            t.push(' ');
            push_str(&mut t, self.path.as_str());
            t.push(' ');
            push_str(&mut t, v.as_str());
            t.push('\r');
            t.push('\n');
            push_header_block(&mut t, &self.headers);
            t.push('\r');
            t.push('\n');
            assert(t@ =~= request_head_text(method_wire(self.method), self.path@, version_wire(self.version), self.headers));
        }
        text_bytes(t.as_slice())
    }

    /// Every field but the request headers is that of `o`.
    pub open spec fn same_but_headers(&self, o: Self) -> bool {
        &&& self.response == o.response
        &&& self.sent_head == o.sent_head
        &&& self.sent == o.sent
        &&& self.path == o.path
        &&& self.method == o.method
        &&& self.version == o.version
    }

    /// Sends the request head. For HTTP/0.9 the response then has no status
    /// line or head to read. Once sent, a second head is refused.
    pub fn send_head(&mut self) -> (r: LibResult<Vec<u8>>)
        ensures
            old(self).sent_head ==> r == Err::<Vec<u8>, LibError>(LibError::ConnectionClosed) && *final(self) == *old(self),
            !old(self).sent_head ==> (r matches Ok(b) && b@ == old(self).head_bytes()),
            !old(self).sent_head ==> final(self).sent_head,
            final(self).sent == old(self).sent,
            final(self).path == old(self).path,
            final(self).method == old(self).method,
            final(self).version == old(self).version,
            final(self).headers == old(self).headers,
            final(self).response.headers == old(self).response.headers,
            final(self).response.valid == old(self).response.valid,
            final(self).response.body == old(self).response.body,
            final(self).response.body_complete == old(self).response.body_complete,
            !old(self).sent_head && old(self).version is Http09 ==> final(self).response.vcs_complete
                && final(self).response.head_complete,
            !(!old(self).sent_head && old(self).version is Http09) ==> final(self).response.vcs_complete == old(
                self).response.vcs_complete && final(self).response.head_complete == old(self).response.head_complete,
    {
        if self.sent_head {
            return Err(LibError::ConnectionClosed);
        }
        let bytes = self.head_text();
        self.sent_head = true;
        if self.version.is_http09() {
            self.response.vcs_complete = true;
            self.response.head_complete = true;
        }
        Ok(bytes)
    }

    /// Writes part of the body. For HTTP/0.9 only the head goes out (the
    /// first time); otherwise the first write sends the head with
    /// `Transfer-Encoding: chunked` and each write sends one chunk. Refused
    /// once the request is sent.
    pub fn write(&mut self, body: &[u8]) -> (r: LibResult<Vec<u8>>)
        requires
            old(self).wf(),
        ensures
            final(self).wf(),
            final(self).sent == old(self).sent,
            old(self).sent ==> r == Err::<Vec<u8>, LibError>(LibError::ConnectionClosed) && *final(self) == *old(self),
            !old(self).sent ==> final(self).sent_head,
            !old(self).sent && old(self).version is Http09 ==> (r matches Ok(b) && b@ == (if old(self).sent_head {
                Seq::empty()
            } else {
                old(self).head_bytes()
            })),
            !old(self).sent && !(old(self).version is Http09) && old(self).sent_head ==> (r matches Ok(b) && b@
                == chunk_bytes(body@) && final(self).headers == old(self).headers),
            !old(self).sent && !(old(self).version is Http09) && !old(self).sent_head ==> (r matches Ok(b) && b@
                == final(self).head_bytes() + chunk_bytes(body@) && final(self).headers.lookup(
                seq!['T', 'r', 'a', 'n', 's', 'f', 'e', 'r', '-', 'E', 'n', 'c', 'o', 'd', 'i', 'n', 'g'],
            ) == Some(seq![seq!['c', 'h', 'u', 'n', 'k', 'e', 'd']]) && (forall|k: Seq<char>|
                k != seq!['T', 'r', 'a', 'n', 's', 'f', 'e', 'r', '-', 'E', 'n', 'c', 'o', 'd', 'i', 'n', 'g']
                    ==> final(self).headers.lookup(k) == old(self).headers.lookup(k))),
            final(self).path == old(self).path,
            final(self).method == old(self).method,
            final(self).version == old(self).version,
    {
        if self.sent {
            return Err(LibError::ConnectionClosed);
        }
        if self.version.is_http09() {
            if !self.sent_head {
                return self.send_head();
            }
            return Ok(Vec::new());
        }
        let mut out: Vec<u8> = Vec::new();
        if !self.sent_head {
            let name = String::from_str("Transfer-Encoding");
            let value = String::from_str("chunked");
            proof {
                reveal_strlit("Transfer-Encoding");
                reveal_strlit("chunked");
            }
            assert(name@ =~= seq!['T', 'r', 'a', 'n', 's', 'f', 'e', 'r', '-', 'E', 'n', 'c', 'o', 'd', 'i', 'n', 'g']);
            assert(value@ =~= seq!['c', 'h', 'u', 'n', 'k', 'e', 'd']);
            let mut values: Vec<String> = Vec::new();
            values.push(value);
            assert(texts(values@) =~= seq![seq!['c', 'h', 'u', 'n', 'k', 'e', 'd']]);
            let _ = self.headers.insert(name, values);
            out = self.head_text();
            self.sent_head = true;
        }
        let chunk = get_chunk(body);
        crate::buf::push_all(&mut out, chunk.as_slice());
        Ok(out)
    }

    /// Ends the request with the last of the body. Before the head it sends
    /// the head with `Content-Length` and the body; after it, one chunk and
    /// the last chunk. For HTTP/0.9 only the head goes out. Refused once
    /// the request is sent.
    pub fn send(&mut self, body: &[u8]) -> (r: LibResult<Vec<u8>>)
        requires
            old(self).wf(),
        ensures
            final(self).wf(),
            final(self).path == old(self).path,
            final(self).method == old(self).method,
            final(self).version == old(self).version,
            !old(self).sent && old(self).version is Http09 ==> (r matches Ok(b) && b@ == (if old(self).sent_head {
                Seq::empty()
            } else {
                old(self).head_bytes()
            }) && final(self).sent && final(self).sent_head && final(self).headers == old(self).headers),
            !(!old(self).sent && old(self).version is Http09) && !old(self).sent_head ==> (r matches Ok(b) && b@
                == final(self).head_bytes() + body@ && final(self).sent && final(self).sent_head
                && final(self).headers.lookup(seq!['C', 'o', 'n', 't', 'e', 'n', 't', '-', 'L', 'e', 'n', 'g', 't', 'h'])
                == Some(seq![radix_digits(body@.len(), 10)]) && (forall|k: Seq<char>|
                k != seq!['C', 'o', 'n', 't', 'e', 'n', 't', '-', 'L', 'e', 'n', 'g', 't', 'h'] ==> final(self).headers.lookup(k) == old(self).headers.lookup(k))),
            !old(self).sent && !(old(self).version is Http09) && old(self).sent_head ==> (r matches Ok(b) && b@
                == chunk_bytes(body@) + last_chunk() && *final(self) == *old(self)),
            old(self).sent && old(self).sent_head ==> r == Err::<Vec<u8>, LibError>(LibError::ConnectionClosed)
                && *final(self) == *old(self),
    {
        if !self.sent && self.version.is_http09() {
            let out = if !self.sent_head {
                match self.send_head() {
                    Ok(b) => b,
                    Err(e) => {
                        return Err(e);
                    },
                }
            } else {
                Vec::new()
            };
            self.sent = true;
            return Ok(out);
        }
        if !self.sent_head {
            let name = String::from_str("Content-Length");
            proof {
                reveal_strlit("Content-Length");
            }
            assert(name@ =~= seq!['C', 'o', 'n', 't', 'e', 'n', 't', '-', 'L', 'e', 'n', 'g', 't', 'h']);
            let digits = crate::text::radix_chars(body.len(), 10);
            let value = string_from_chars(digits.as_slice());
            let mut values: Vec<String> = Vec::new();
            values.push(value);
            assert(texts(values@) =~= seq![radix_digits(body@.len(), 10)]);
            let _ = self.headers.insert(name, values);
            let mut out = self.head_text();
            self.sent_head = true;
            crate::buf::push_all(&mut out, body);
            self.sent = true;
            return Ok(out);
        }
        if self.sent {
            return Err(LibError::ConnectionClosed);
        }
        let mut out = get_chunk(body);
        out.push(48);
        out.push(13);
        out.push(10);
        out.push(13);
        out.push(10);
        assert(out@ =~= chunk_bytes(body@) + last_chunk());
        Ok(out)
    }

    /// Back to a fresh request: the response is cleared, `GET` with an
    /// empty path over HTTP/1.1, no headers, nothing sent.
    pub fn reset(&mut self)
        ensures
            final(self).wf(),
            final(self).response.is_fresh(),
            !final(self).sent_head,
            !final(self).sent,
            final(self).path@ == Seq::<char>::empty(),
            final(self).method == HttpMethod::Get,
            final(self).version == HttpVersion::Http11,
            final(self).headers.entries@.len() == 0,
    {
        self.response.reset();
        self.method = HttpMethod::Get;
        self.path = String::new();
        self.version = HttpVersion::Http11;
        self.headers.clear();
        self.sent_head = false;
        self.sent = false;
        assert(values_present(self.response.headers)) by {
            assert forall|n: Seq<char>| #[trigger] self.response.headers.lookup(n) is None by {}
        }
    }

    /// Adds a value under `header`.
    pub fn add_header(&mut self, header: &str, value: &str)
        requires
            old(self).headers.wf(),
        ensures
            final(self).headers.wf(),
            final(self).headers.lookup(header@) == Some(match old(self).headers.lookup(header@) {
                Some(vs) => vs.push(value@),
                None => seq![value@],
            }),
            forall|n: Seq<char>| n != header@ ==> final(self).headers.lookup(n) == old(self).headers.lookup(n),
            final(self).same_but_headers(*old(self)),
    {
        self.headers.add(String::from_str(header), String::from_str(value));
    }

    /// Makes `value` the only value under `header`.
    pub fn set_header(&mut self, header: &str, value: &str)
        requires
            old(self).headers.wf(),
        ensures
            final(self).headers.wf(),
            final(self).headers.lookup(header@) == Some(seq![value@]),
            forall|n: Seq<char>| n != header@ ==> final(self).headers.lookup(n) == old(self).headers.lookup(n),
            final(self).same_but_headers(*old(self)),
    {
        let mut values: Vec<String> = Vec::new();
        values.push(String::from_str(value));
        assert(texts(values@) =~= seq![value@]);
        let _ = self.headers.insert(String::from_str(header), values);
    }

    /// Removes `header`, returning its values.
    pub fn del_header(&mut self, header: &str) -> (r: Option<Vec<String>>)
        requires
            old(self).headers.wf(),
        ensures
            final(self).headers.wf(),
            final(self).headers.lookup(header@) is None,
            forall|n: Seq<char>| n != header@ ==> final(self).headers.lookup(n) == old(self).headers.lookup(n),
            match r {
                Some(v) => old(self).headers.lookup(header@) == Some(texts(v@)),
                None => old(self).headers.lookup(header@) is None,
            },
            final(self).same_but_headers(*old(self)),
    {
        self.headers.remove(header)
    }

    /// Asks for a WebSocket upgrade with a 16-byte key: the upgrade headers
    /// with the key in base64, sent with an empty body (see `send`). Gives
    /// the base64 key and the bytes to write; another key size is refused.
    pub fn websocket_upgrade(&mut self, key: &[u8]) -> (r: LibResult<(String, Vec<u8>)>)
        requires
            old(self).wf(),
        ensures
            final(self).wf(),
            ws_upgrade_outcome(*old(self), *final(self), key@, r),
    {
        if key.len() != 16 {
            return Err(LibError::Invalid);
        }
        let wskey = base64_encode(key);
        proof {
            reveal_strlit("Connection");
            reveal_strlit("upgrade");
            reveal_strlit("Upgrade");
            reveal_strlit("websocket");
            reveal_strlit("Sec-WebSocket-Version");
            reveal_strlit("13");
            reveal_strlit("Sec-WebSocket-Key");
        }
        self.set_header("Connection", "upgrade");
        self.set_header("Upgrade", "websocket");
        self.set_header("Sec-WebSocket-Version", "13");
        self.set_header("Sec-WebSocket-Key", wskey.as_str());
        assert("Connection"@ =~= ws_connection_name());
        assert("upgrade"@ =~= seq!['u', 'p', 'g', 'r', 'a', 'd', 'e']);
        assert("Upgrade"@ =~= ws_upgrade_name());
        assert("websocket"@ =~= seq!['w', 'e', 'b', 's', 'o', 'c', 'k', 'e', 't']);
        assert("Sec-WebSocket-Version"@ =~= ws_version_name());
        assert("13"@ =~= seq!['1', '3']);
        assert("Sec-WebSocket-Key"@ =~= ws_key_name());
        let ghost mid = *self;
        let empty: Vec<u8> = Vec::new();
        assert(content_length_name() != ws_key_name());
        assert(content_length_name() != ws_connection_name());
        assert(content_length_name() != ws_upgrade_name());
        assert(content_length_name() != ws_version_name());
        match self.send(empty.as_slice()) {
            Ok(b) => {
                assert(b@ == self.head_bytes() + Seq::<u8>::empty() ==> b@ == self.head_bytes());
                Ok((wskey, b))
            },
            Err(e) => Err(e),
        }
    }

    /// Asks for a WebSocket upgrade with a fresh random 16-byte key (see
    /// `websocket_upgrade`).
    pub fn websocket_upgrade_random(&mut self) -> (r: LibResult<(String, Vec<u8>)>)
        requires
            old(self).wf(),
        ensures
            final(self).wf(),
            exists|key: Seq<u8>| key.len() == 16 && ws_upgrade_outcome(*old(self), *final(self), key, r),
    {
        let key = random_key();
        let r = self.websocket_upgrade(&key);
        assert(key@.len() == 16);
        r
    }

    /// Checks the answer to a WebSocket upgrade asked with the base64 key
    /// `bkey`: status 101 and an accept value made from that key.
    pub fn websocket_accepted(&self, bkey: &str) -> (r: LibResult<()>)
        requires
            self.wf(),
        ensures
            self.response.code != 101 ==> r == Err::<(), LibError>(LibError::NotAccepted),
            self.response.code == 101 ==> (r is Ok <==> (self.response.headers.lookup(
                seq!['s', 'e', 'c', '-', 'w', 'e', 'b', 's', 'o', 'c', 'k', 'e', 't', '-', 'a', 'c', 'c', 'e', 'p', 't'],
            ) matches Some(v) && v[0] == accept_text(vstd::utf8::encode_utf8(bkey@)))),
            r is Err ==> (r == Err::<(), LibError>(LibError::NotAccepted) || r == Err::<(), LibError>(
                LibError::InvalidUpgrade,
            )),
    {
        let acckey = accept_key(bkey.as_bytes());
        if self.response.code != 101 {
            return Err(LibError::NotAccepted);
        }
        let name = "sec-websocket-accept";
        proof {
            reveal_strlit("sec-websocket-accept");
        }
        assert(name@ =~= seq!['s', 'e', 'c', '-', 'w', 'e', 'b', 's', 'o', 'c', 'k', 'e', 't', '-', 'a', 'c', 'c', 'e', 'p', 't']);
        match self.response.headers.get(name) {
            Some(v) => {
                assert(self.response.headers.lookup(name@) matches Some(vs) && vs.len() > 0);
                if v[0] == acckey {
                    Ok(())
                } else {
                    Err(LibError::InvalidUpgrade)
                }
            },
            None => Err(LibError::InvalidUpgrade),
        }
    }

    /// Starts HTTP/2 with prior knowledge: the connection preface, unless
    /// the request already sent its head or all of it.
    pub fn prior_knowledge(&self) -> (r: LibResult<Vec<u8>>)
        ensures
            self.sent ==> r == Err::<Vec<u8>, LibError>(LibError::ConnectionClosed),
            !self.sent && self.sent_head ==> r == Err::<Vec<u8>, LibError>(LibError::HeadersSent),
            !self.sent && !self.sent_head ==> (r matches Ok(b) && b@ == PREFACE@),
    {
        if self.sent {
            return Err(LibError::ConnectionClosed);
        }
        if self.sent_head {
            return Err(LibError::HeadersSent);
        }
        let mut b: Vec<u8> = Vec::new();
        crate::buf::push_all(&mut b, &PREFACE);
        Ok(b)
    }

    /// Sets the headers of an h2c upgrade request.
    fn set_h2c_headers(&mut self, settings: Option<Http2Settings>)
        requires
            old(self).wf(),
        ensures
            final(self).wf(),
            final(self).same_but_headers(*old(self)),
            final(self).headers.lookup(seq!['U', 'p', 'g', 'r', 'a', 'd', 'e']) == Some(seq![seq!['h', '2', 'c']]),
            settings is Some ==> final(self).headers.lookup(
                seq!['H', 'T', 'T', 'P', '2', '-', 'S', 'e', 't', 't', 'i', 'n', 'g', 's'],
            ) == Some(seq![base64_text(settings_bytes(settings->0))]),
    {
        proof {
            reveal_strlit("Upgrade");
            reveal_strlit("h2c");
            reveal_strlit("HTTP2-Settings");
        }
        assert("Upgrade"@ =~= seq!['U', 'p', 'g', 'r', 'a', 'd', 'e']);
        assert("h2c"@ =~= seq!['h', '2', 'c']);
        assert("HTTP2-Settings"@ =~= seq!['H', 'T', 'T', 'P', '2', '-', 'S', 'e', 't', 't', 'i', 'n', 'g', 's']);
        proof {
            reveal_strlit("Connection");
        }
        assert("Connection"@.len() != "Upgrade"@.len());
        assert("HTTP2-Settings"@.len() != "Upgrade"@.len());
        match settings {
            Some(st) => {
                self.set_header("Connection", "Upgrade, HTTP2-Settings");
                self.set_header("Upgrade", "h2c");
                let enc = base64_encode(st.to_vec().as_slice());
                self.set_header("HTTP2-Settings", enc.as_str());
            },
            None => {
                self.set_header("Upgrade", "h2c");
                self.set_header("Connection", "Upgrade");
            },
        }
    }

    #[verifier::rlimit(40)]
    /// Asks for an h2c upgrade: the upgrade headers (announcing `settings`
    /// in `HTTP2-Settings` when given), sent with `body` (see `send`).
    /// Refused once the request sent its head or all of it.
    pub fn h2c_upgrade(&mut self, settings: Option<Http2Settings>, body: &[u8]) -> (r: LibResult<Vec<u8>>)
        requires
            old(self).wf(),
        ensures
            final(self).wf(),
            old(self).sent ==> r == Err::<Vec<u8>, LibError>(LibError::ConnectionClosed) && *final(self) == *old(self),
            !old(self).sent && old(self).sent_head ==> r == Err::<Vec<u8>, LibError>(LibError::HeadersSent)
                && *final(self) == *old(self),
            !old(self).sent && !old(self).sent_head && !(old(self).version is Http09) ==> (r matches Ok(b) && b@
                == final(self).head_bytes() + body@ && final(self).headers.lookup(seq!['U', 'p', 'g', 'r', 'a', 'd', 'e'])
                == Some(seq![seq!['h', '2', 'c']])),
            !old(self).sent && !old(self).sent_head && settings is Some ==> final(self).headers.lookup(
                seq!['H', 'T', 'T', 'P', '2', '-', 'S', 'e', 't', 't', 'i', 'n', 'g', 's'],
            ) == Some(seq![base64_text(settings_bytes(settings->0))]),
    {
        if self.sent {
            return Err(LibError::ConnectionClosed);
        }
        if self.sent_head {
            return Err(LibError::HeadersSent);
        }
        self.set_h2c_headers(settings);
        let ghost mid = self.headers;
        let r = self.send(body);
        proof {
            let cl = seq!['C', 'o', 'n', 't', 'e', 'n', 't', '-', 'L', 'e', 'n', 'g', 't', 'h'];
            let hs = seq!['H', 'T', 'T', 'P', '2', '-', 'S', 'e', 't', 't', 'i', 'n', 'g', 's'];
            let up = seq!['U', 'p', 'g', 'r', 'a', 'd', 'e'];
            assert(hs[0] != cl[0]);
            assert(up.len() != cl.len());
        }
        r
    }
}

/// The client session an answered h2c upgrade starts: on status 101, with
/// the settings the server announced (see `h2c_settings_of`); otherwise
/// the upgrade was not accepted.
pub fn h2c_client_session(response: &HttpResponse) -> (r: LibResult<SessionState>)
    requires
        response.headers.wf(),
        values_present(response.headers),
    ensures
        response.code != 101 ==> r is Err && r->Err_0 is NotAccepted,
        response.code == 101 ==> (r matches Ok(s) && s.mode == Mode::Client && s.strict && s.settings == h2c_settings_of(
            response.headers,
        ) && s.max_stream_id == 0 && s.streams_view().len() == 0),
{
    if response.code != 101 {
        return Err(LibError::NotAccepted);
    }
    let settings = h2c_settings(&response.headers);
    let s = SessionState::with(Mode::Client, true, settings);
    Ok(s)
}

} // verus!
