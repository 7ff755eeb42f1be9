//! The server side of one HTTP/2 stream: turning the headers and body the
//! session received into a request, and the response head into header
//! fields. The caller sends the fields and data through the session and
//! waits when a step says so.

use vstd::prelude::*;
use crate::http1::server::header_byte_pairs;
use crate::http1::server::header_pairs;
use crate::http2::session::{SessionState, StreamView, pairs_view};
use crate::shared::{HeaderMap, HttpClient, HttpMethod, LibError, LibResult, method_from_spec, texts};
use crate::text::{radix_chars, radix_digits, text_of, utf8_lossy};

verus! {

/// The text of the last field named `name` (names and values read as
/// text), if any.
pub open spec fn last_field(fields: Seq<(Seq<u8>, Seq<u8>)>, name: Seq<char>) -> Option<Seq<char>>
    decreases fields.len(),
{
    if fields.len() == 0 {
        None
    } else if text_of(fields.last().0) == name {
        Some(text_of(fields.last().1))
    } else {
        last_field(fields.drop_last(), name)
    }
}

/// The texts of the values of the fields named `name`, in order.
pub open spec fn field_values(fields: Seq<(Seq<u8>, Seq<u8>)>, name: Seq<char>) -> Seq<Seq<char>>
    decreases fields.len(),
{
    if fields.len() == 0 {
        Seq::empty()
    } else if text_of(fields.last().0) == name {
        field_values(fields.drop_last(), name).push(text_of(fields.last().1))
    } else {
        field_values(fields.drop_last(), name)
    }
}

/// The values a header map holds under a name after more are added.
pub open spec fn merged(before: Option<Seq<Seq<char>>>, more: Seq<Seq<char>>) -> Option<Seq<Seq<char>>> {
    match before {
        Some(vs) => Some(vs + more),
        None => if more.len() == 0 {
            None
        } else {
            Some(more)
        },
    }
}

pub open spec fn pseudo_method() -> Seq<char> {
    seq![':', 'm', 'e', 't', 'h', 'o', 'd']
}

pub open spec fn pseudo_scheme() -> Seq<char> {
    seq![':', 's', 'c', 'h', 'e', 'm', 'e']
}

pub open spec fn pseudo_authority() -> Seq<char> {
    seq![':', 'a', 'u', 't', 'h', 'o', 'r', 'i', 't', 'y']
}

pub open spec fn pseudo_path() -> Seq<char> {
    seq![':', 'p', 'a', 't', 'h']
}

pub open spec fn pseudo_status() -> Seq<char> {
    seq![':', 's', 't', 'a', 't', 'u', 's']
}

/// Whether a name is one of the request pseudo-headers.
pub open spec fn is_request_pseudo(n: Seq<char>) -> bool {
    n == pseudo_method() || n == pseudo_scheme() || n == pseudo_authority() || n == pseudo_path()
}

/// What applying the fields of a request head does: the last `:method`,
/// `:scheme`, `:authority` and `:path` set the method, scheme, host and
/// path; every other field is added to the headers in order.
pub open spec fn request_fields_rule(o: HttpClient, n: HttpClient, fields: Seq<(Seq<u8>, Seq<u8>)>) -> bool {
    &&& match last_field(fields, pseudo_method()) {
        Some(m) => method_from_spec(m, n.method),
        None => n.method == o.method,
    }
    &&& match last_field(fields, pseudo_scheme()) {
        Some(v) => n.scheme matches Some(s) && s@ == v,
        None => n.scheme == o.scheme,
    }
    &&& match last_field(fields, pseudo_authority()) {
        Some(v) => n.host matches Some(s) && s@ == v,
        None => n.host == o.host,
    }
    &&& match last_field(fields, pseudo_path()) {
        Some(v) => n.path@ == v,
        None => n.path == o.path,
    }
    &&& n.headers.wf()
    &&& forall|k: Seq<char>|
        !is_request_pseudo(k) ==> #[trigger] n.headers.lookup(k) == merged(o.headers.lookup(k), field_values(fields, k))
    &&& forall|k: Seq<char>| is_request_pseudo(k) ==> #[trigger] n.headers.lookup(k) == o.headers.lookup(k)
}

/// Applies the fields of a request head to a request (see
/// `request_fields_rule`); the head is then complete.
pub fn apply_request_fields(client: &mut HttpClient, fields: Vec<(Vec<u8>, Vec<u8>)>)
    requires
        old(client).headers.wf(),
    ensures
        request_fields_rule(*old(client), *final(client), pairs_view(fields@)),
        final(client).head_complete,
        final(client).valid == old(client).valid,
        final(client).mpv_complete == old(client).mpv_complete,
        final(client).body_complete == old(client).body_complete,
        final(client).version == old(client).version,
        final(client).body == old(client).body,
{
    let ghost o = *client;
    let ghost fv = pairs_view(fields@);
    client.head_complete = true;
    let mut i: usize = 0;
    while i < fields.len()
        invariant
            i <= fields@.len(),
            fv == pairs_view(fields@),
            client.head_complete,
            client.valid == o.valid,
            client.mpv_complete == o.mpv_complete,
            client.body_complete == o.body_complete,
            client.version == o.version,
            client.body == o.body,
            request_fields_rule(o, *client, fv.subrange(0, i as int)),
        decreases fields@.len() - i,
    {
        let ghost pre = fv.subrange(0, i as int);
        let ghost next = fv.subrange(0, i + 1);
        assert(next.drop_last() =~= pre);
        let ghost before = *client;
        let header = utf8_lossy(fields[i].0.as_slice());
        let value = utf8_lossy(fields[i].1.as_slice());
        proof {
            reveal_strlit(":method");
            reveal_strlit(":scheme");
            reveal_strlit(":authority");
            reveal_strlit(":path");
        }
        let m = String::from_str(":method");
        let sc = String::from_str(":scheme");
        let au = String::from_str(":authority");
        let pa = String::from_str(":path");
        assert(m@ =~= pseudo_method());
        assert(sc@ =~= pseudo_scheme());
        assert(au@ =~= pseudo_authority());
        assert(pa@ =~= pseudo_path());
        if header == m {
            client.method = HttpMethod::from(value.as_str());
        } else if header == sc {
            client.scheme = Some(value);
        } else if header == au {
            client.host = Some(value);
        } else if header == pa {
            client.path = value;
        } else {
            let ghost hv = header@;
            let ghost vv = value@;
            client.headers.add(header, value);
            proof {
                assert forall|k: Seq<char>| !is_request_pseudo(k) implies #[trigger] client.headers.lookup(k)
                    == merged(o.headers.lookup(k), field_values(next, k)) by {
                    if k == hv {
                        assert(field_values(next, k) == field_values(pre, k).push(vv));
                        assert(field_values(pre, k).push(vv) =~= field_values(pre, k) + seq![vv]);
                        if o.headers.lookup(k) is Some {
                            assert(o.headers.lookup(k)->0 + field_values(pre, k) + seq![vv] =~= (o.headers.lookup(k)->0 + field_values(pre, k)).push(vv));
                        }
                    }
                }
            }
        }
        i = i + 1;
    }
    assert(fv.subrange(0, fields@.len() as int) =~= fv);
}

/// What a reader waits for after a step.
#[derive(Debug, Clone, Copy, PartialEq, Eq, Structural)]
pub enum ReadWait {
    /// Nothing: step again.
    Nothing,
    /// The stream's headers being complete.
    HeadComplete,
    /// More body data on the stream.
    BodyReceived,
}

/// The fields of a response head: `:status`, then the headers.
pub open spec fn response_fields(status: u16, headers: HeaderMap) -> Seq<(Seq<u8>, Seq<u8>)> {
    seq![(vstd::utf8::encode_utf8(pseudo_status()), vstd::utf8::encode_utf8(radix_digits(status as nat, 10)))]
        + header_pairs(headers.entries@)
}

/// The state of the server side of one HTTP/2 stream.
#[derive(Debug)]
pub struct Http2SocketState {
    pub stream_id: u32,
    pub client: HttpClient,
    pub is_reset: bool,
    pub status: u16,
    pub headers: HeaderMap,
    pub sent_head: bool,
    pub closed: bool,
}

impl Http2SocketState {
    /// A socket for a stream of the session; an unknown stream is refused.
    pub fn new(stream_id: u32, session: &mut SessionState) -> (r: LibResult<Self>)
        ensures
            final(session).streams_view() == old(session).streams_view(),
            final(session).same_but_streams(*old(session)),
            old(session).streams_view().dom().contains(stream_id) ==> (r matches Ok(s) && s.stream_id == stream_id
                && s.client.is_fresh() && !s.is_reset && s.status == 200 && s.headers.entries@.len() == 0
                && !s.sent_head && !s.closed),
            !old(session).streams_view().dom().contains(stream_id) ==> r == Err::<Self, LibError>(LibError::InvalidStream),
    {
        if session.has_stream(stream_id) {
            Ok(Self {
                stream_id,
                client: HttpClient::default(),
                is_reset: false,
                status: 200,
                headers: HeaderMap::new(),
                sent_head: false,
                closed: false,
            })
        } else {
            Err(LibError::InvalidStream)
        }
    }

    /// One step of reading the request. A reset stream marks the socket
    /// reset. Until the head is complete: wait for it unless the stream's
    /// headers are complete or the caller already waited (`resumed`), then
    /// take them as the request head. Then: take the body received so far;
    /// the body is complete when the peer ended it; wait for more if none
    /// had come.
    pub fn read_client_step(&mut self, session: &mut SessionState, resumed: bool) -> (r: ReadWait)
        requires
            old(session).streams_view().dom().contains(old(self).stream_id),
            old(self).client.headers.wf(),
        ensures
            final(self).client.headers.wf(),
            final(self).stream_id == old(self).stream_id,
            final(self).status == old(self).status,
            final(self).headers == old(self).headers,
            final(self).sent_head == old(self).sent_head,
            final(self).closed == old(self).closed,
            !old(session).streams_view()[old(self).stream_id].reset ==> final(self).is_reset == old(self).is_reset,
            final(session).same_but_streams(*old(session)),
            ({
                let sv = old(session).streams_view()[old(self).stream_id];
                let sid = old(self).stream_id;
                if sv.reset {
                    &&& final(self).is_reset
                    &&& final(self).client == old(self).client
                    &&& final(session).streams_view() == old(session).streams_view()
                    &&& r == ReadWait::Nothing
                } else if !old(self).client.head_complete {
                    if !sv.end_head && !resumed {
                        &&& *final(self) == *old(self)
                        &&& final(session).streams_view() == old(session).streams_view()
                        &&& r == ReadWait::HeadComplete
                    } else {
                        &&& final(self).client.head_complete
                        &&& final(self).client.valid == old(self).client.valid
                        &&& final(self).client.mpv_complete == old(self).client.mpv_complete
                        &&& final(self).client.version == old(self).client.version
                        &&& request_fields_rule(old(self).client, final(self).client, sv.headers)
                        &&& final(self).client.body == old(self).client.body
                        &&& final(self).client.body_complete == old(self).client.body_complete
                        &&& final(session).streams_view() == old(session).streams_view().insert(
                            sid,
                            StreamView { headers: Seq::empty(), ..sv },
                        )
                        &&& r == ReadWait::Nothing
                    }
                } else if !old(self).client.body_complete {
                    &&& final(self).client.body@ == old(self).client.body@ + sv.body
                    &&& final(self).client.body_complete == sv.end_body
                    &&& final(self).client == (HttpClient {
                        body: final(self).client.body,
                        body_complete: final(self).client.body_complete,
                        ..old(self).client
                    })
                    &&& final(session).streams_view() == old(session).streams_view().insert(
                        sid,
                        StreamView { body: Seq::empty(), ..sv },
                    )
                    &&& r == (if sv.body.len() == 0 { ReadWait::BodyReceived } else { ReadWait::Nothing })
                } else {
                    &&& *final(self) == *old(self)
                    &&& final(session).streams_view() == old(session).streams_view()
                    &&& r == ReadWait::Nothing
                }
            }),
    {
        let sid = self.stream_id;
        let st = match session.stream_status(sid) {
            Some(st) => st,
            None => {
                return ReadWait::Nothing;
            },
        };
        if st.reset {
            self.is_reset = true;
            ReadWait::Nothing
        } else if !self.client.head_complete {
            if !st.end_head && !resumed {
                return ReadWait::HeadComplete;
            }
            let fields = session.take_headers(sid);
            apply_request_fields(&mut self.client, fields);
            ReadWait::Nothing
        } else if !self.client.body_complete {
            let (body, end) = session.take_body(sid);
            let avail = body.len();
            crate::buf::push_all(&mut self.client.body, body.as_slice());
            self.client.body_complete = end;
            if avail == 0 {
                ReadWait::BodyReceived
            } else {
                ReadWait::Nothing
            }
        } else {
            ReadWait::Nothing
        }
    }

    /// The fields of the response head (see `response_fields`), once; the
    /// headers are used up. A second head is refused.
    pub fn send_head(&mut self) -> (r: LibResult<Vec<(Vec<u8>, Vec<u8>)>>)
        requires
            old(self).headers.wf(),
        ensures
            final(self).headers.wf(),
            old(self).sent_head ==> r == Err::<Vec<(Vec<u8>, Vec<u8>)>, LibError>(LibError::HeadersSent)
                && *final(self) == *old(self),
            !old(self).sent_head ==> (r matches Ok(f) && pairs_view(f@) == response_fields(old(self).status, old(self).headers)
                && final(self).sent_head && final(self).headers.entries@.len() == 0),
            final(self).client == old(self).client,
            final(self).closed == old(self).closed,
            final(self).stream_id == old(self).stream_id,
    {
        if self.sent_head {
            return Err(LibError::HeadersSent);
        }
        self.sent_head = true;
        let mut fields: Vec<(Vec<u8>, Vec<u8>)> = Vec::new();
        let name = ":status";
        proof {
            reveal_strlit(":status");
        }
        assert(name@ =~= pseudo_status());
        let mut nb: Vec<u8> = Vec::new();
        crate::buf::push_all(&mut nb, name.as_bytes());
        let digits = crate::text::string_from_chars(radix_chars(self.status as usize, 10).as_slice());
        let mut vb: Vec<u8> = Vec::new();
        crate::buf::push_all(&mut vb, digits.as_str().as_bytes());
        fields.push((nb, vb));
        let ghost a = fields@;
        let mut rest = header_byte_pairs(&self.headers);
        let ghost b = rest@;
        fields.append(&mut rest);
        proof {
            crate::http2::recv::lemma_pairs_view_append(a, b);
            assert(pairs_view(a) =~= seq![(vstd::utf8::encode_utf8(pseudo_status()), vstd::utf8::encode_utf8(radix_digits(old(self).status as nat, 10)))]);
        }
        self.headers.clear();
        Ok(fields)
    }

    /// The response head still to send before body data, if any: with a
    /// length, `content-length` is set to it first.
    pub fn pending_head(&mut self, content_length: Option<usize>) -> (r: Option<Vec<(Vec<u8>, Vec<u8>)>>)
        requires
            old(self).headers.wf(),
        ensures
            final(self).headers.wf(),
            final(self).sent_head,
            old(self).sent_head ==> r is None && *final(self) == *old(self),
            !old(self).sent_head && content_length is None ==> (r matches Some(f) && pairs_view(f@) == response_fields(
                old(self).status,
                old(self).headers,
            )),
            !old(self).sent_head && content_length is Some ==> (r matches Some(f) && exists|h: HeaderMap|
                pairs_view(f@) == response_fields(old(self).status, h) && h.lookup(
                    seq!['c', 'o', 'n', 't', 'e', 'n', 't', '-', 'l', 'e', 'n', 'g', 't', 'h'],
                ) == Some(seq![radix_digits(content_length->0 as nat, 10)]) && (forall|k: Seq<char>|
                    k != seq!['c', 'o', 'n', 't', 'e', 'n', 't', '-', 'l', 'e', 'n', 'g', 't', 'h'] ==> h.lookup(k)
                        == old(self).headers.lookup(k))),
            final(self).client == old(self).client,
            final(self).closed == old(self).closed,
            final(self).stream_id == old(self).stream_id,
    {
        if self.sent_head {
            return None;
        }
        if let Some(len) = content_length {
            let digits = crate::text::string_from_chars(radix_chars(len, 10).as_slice());
            let name = "content-length";
            proof {
                reveal_strlit("content-length");
            }
            assert(name@ =~= seq!['c', 'o', 'n', 't', 'e', 'n', 't', '-', 'l', 'e', 'n', 'g', 't', 'h']);
            self.set_header(name, digits.as_str());
        }
        let ghost h = self.headers;
        match self.send_head() {
            Ok(f) => Some(f),
            Err(_) => None,
        }
    }

    /// Adds a value under `header`.
    pub fn add_header(&mut self, header: &str, value: &str)
        requires
            old(self).headers.wf(),
        ensures
            final(self).headers.wf(),
            final(self).headers.lookup(header@) == Some(match old(self).headers.lookup(header@) {
                Some(vs) => vs.push(value@),
                None => seq![value@],
            }),
            forall|n: Seq<char>| n != header@ ==> final(self).headers.lookup(n) == old(self).headers.lookup(n),
            final(self).client == old(self).client,
            final(self).sent_head == old(self).sent_head,
            final(self).closed == old(self).closed,
            final(self).status == old(self).status,
            final(self).stream_id == old(self).stream_id,
    {
        self.headers.add(String::from_str(header), String::from_str(value));
    }

    /// Makes `value` the only value under `header`.
    pub fn set_header(&mut self, header: &str, value: &str)
        requires
            old(self).headers.wf(),
        ensures
            final(self).headers.wf(),
            final(self).headers.lookup(header@) == Some(seq![value@]),
            forall|n: Seq<char>| n != header@ ==> final(self).headers.lookup(n) == old(self).headers.lookup(n),
            final(self).client == old(self).client,
            final(self).sent_head == old(self).sent_head,
            final(self).closed == old(self).closed,
            final(self).status == old(self).status,
            final(self).stream_id == old(self).stream_id,
    {
        let mut values: Vec<String> = Vec::new();
        values.push(String::from_str(value));
        assert(texts(values@) =~= seq![value@]);
        let _ = self.headers.insert(String::from_str(header), values);
    }

    /// Removes `header`, returning its values.
    pub fn del_header(&mut self, header: &str) -> (r: Option<Vec<String>>)
        requires
            old(self).headers.wf(),
        ensures
            final(self).headers.wf(),
            final(self).headers.lookup(header@) is None,
            forall|n: Seq<char>| n != header@ ==> final(self).headers.lookup(n) == old(self).headers.lookup(n),
            match r {
                Some(v) => old(self).headers.lookup(header@) == Some(texts(v@)),
                None => old(self).headers.lookup(header@) is None,
            },
            final(self).client == old(self).client,
            final(self).sent_head == old(self).sent_head,
            final(self).closed == old(self).closed,
            final(self).status == old(self).status,
            final(self).stream_id == old(self).stream_id,
    {
        self.headers.remove(header)
    }
}

} // verus!
