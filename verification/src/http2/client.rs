//! The client side of one HTTP/2 stream: the request head as header
//! fields, and the response read from what the session received. The
//! caller sends the fields and data through the session and waits when a
//! step says so.

use vstd::prelude::*;
use crate::http1::server::{header_byte_pairs, header_pairs};
use crate::http2::server::{
    ReadWait, field_values, last_field, merged, pseudo_authority, pseudo_method, pseudo_path, pseudo_scheme,
    pseudo_status,
};
use crate::http2::session::{SessionState, StreamView, pairs_view};
use crate::shared::{HeaderMap, HttpMethod, HttpResponse, LibError, LibResult, method_wire, texts};
use crate::text::{chars_of, parse_radix, parse_unsigned, radix_chars, radix_digits, utf8_lossy};

verus! {

/// What applying the fields of a response head does: the last `:status`
/// sets the code (0 when it is not a number); every other field is added
/// to the headers in order.
pub open spec fn response_fields_rule(o: HttpResponse, n: HttpResponse, fields: Seq<(Seq<u8>, Seq<u8>)>) -> bool {
    &&& match last_field(fields, pseudo_status()) {
        Some(v) => n.code == (match parse_unsigned(v, 10, 65535) {
            Some(c) => c as u16,
            None => 0,
        }),
        None => n.code == o.code,
    }
    &&& n.headers.wf()
    &&& forall|k: Seq<char>|
        k != pseudo_status() ==> #[trigger] n.headers.lookup(k) == merged(o.headers.lookup(k), field_values(fields, k))
    &&& n.headers.lookup(pseudo_status()) == o.headers.lookup(pseudo_status())
}

/// Reads a status code: a number up to 65535, else 0.
fn status_code(value: &str) -> (r: u16)
    ensures
        r == (match parse_unsigned(value@, 10, 65535) {
            Some(c) => c as u16,
            None => 0,
        }),
{
    let cs = chars_of(value);
    let n = cs.len();
    assert(cs@.subrange(0, n as int) =~= cs@);
    match parse_radix(cs.as_slice(), 0, n, 10) {
        Some(v) => if v <= 65535 { v as u16 } else { 0 },
        None => 0,
    }
}

/// Applies the fields of a response head to a response (see
/// `response_fields_rule`); the head is then complete.
pub fn apply_response_fields(response: &mut HttpResponse, fields: Vec<(Vec<u8>, Vec<u8>)>)
    requires
        old(response).headers.wf(),
    ensures
        response_fields_rule(*old(response), *final(response), pairs_view(fields@)),
        final(response).head_complete,
        final(response).valid == old(response).valid,
        final(response).vcs_complete == old(response).vcs_complete,
        final(response).body_complete == old(response).body_complete,
        final(response).version == old(response).version,
        final(response).status == old(response).status,
        final(response).body == old(response).body,
{
    let ghost o = *response;
    let ghost fv = pairs_view(fields@);
    response.head_complete = true;
    let mut i: usize = 0;
    while i < fields.len()
        invariant
            i <= fields@.len(),
            fv == pairs_view(fields@),
            response.head_complete,
            response.valid == o.valid,
            response.vcs_complete == o.vcs_complete,
            response.body_complete == o.body_complete,
            response.version == o.version,
            response.status == o.status,
            response.body == o.body,
            response_fields_rule(o, *response, fv.subrange(0, i as int)),
        decreases fields@.len() - i,
    {
        let ghost pre = fv.subrange(0, i as int);
        let ghost next = fv.subrange(0, i + 1);
        assert(next.drop_last() =~= pre);
        let header = utf8_lossy(fields[i].0.as_slice());
        let value = utf8_lossy(fields[i].1.as_slice());
        proof {
            reveal_strlit(":status");
        }
        let st = String::from_str(":status");
        assert(st@ =~= pseudo_status());
        if header == st {
            response.code = status_code(value.as_str());
        } else {
            let ghost hv = header@;
            let ghost vv = value@;
            response.headers.add(header, value);
            proof {
                assert forall|k: Seq<char>| k != pseudo_status() implies #[trigger] response.headers.lookup(k) == merged(
                    o.headers.lookup(k),
                    field_values(next, k),
                ) by {
                    if k == hv {
                        assert(field_values(next, k) == field_values(pre, k).push(vv));
                        assert(field_values(pre, k).push(vv) =~= field_values(pre, k) + seq![vv]);
                        if o.headers.lookup(k) is Some {
                            assert(o.headers.lookup(k)->0 + field_values(pre, k) + seq![vv] =~= (o.headers.lookup(k)->0
                                + field_values(pre, k)).push(vv));
                        }
                    }
                }
            }
        }
        i = i + 1;
    }
    assert(fv.subrange(0, fields@.len() as int) =~= fv);
}

/// The fields of a request head: `:method`, `:scheme`, `:authority` and
/// `:path`, then the headers.
pub open spec fn request_fields(
    method: HttpMethod,
    scheme: Seq<char>,
    authority: Seq<char>,
    path: Seq<char>,
    headers: HeaderMap,
) -> Seq<(Seq<u8>, Seq<u8>)> {
    seq![
        (vstd::utf8::encode_utf8(pseudo_method()), vstd::utf8::encode_utf8(method_wire(method))),
        (vstd::utf8::encode_utf8(pseudo_scheme()), vstd::utf8::encode_utf8(scheme)),
        (vstd::utf8::encode_utf8(pseudo_authority()), vstd::utf8::encode_utf8(authority)),
        (vstd::utf8::encode_utf8(pseudo_path()), vstd::utf8::encode_utf8(path)),
    ] + header_pairs(headers.entries@)
}

/// A name and value pair from two strings.
fn text_pair(name: &str, value: &str) -> (r: (Vec<u8>, Vec<u8>))
    ensures
        r.0@ == vstd::utf8::encode_utf8(name@),
        r.1@ == vstd::utf8::encode_utf8(value@),
{
    let mut nb: Vec<u8> = Vec::new();
    crate::buf::push_all(&mut nb, name.as_bytes());
    let mut vb: Vec<u8> = Vec::new();
    crate::buf::push_all(&mut vb, value.as_bytes());
    (nb, vb)
}

/// The state of the client side of one HTTP/2 stream.
#[derive(Debug)]
pub struct Http2RequestState {
    pub stream_id: u32,
    pub path: String,
    pub method: HttpMethod,
    pub authority: String,
    pub scheme: String,
    pub headers: HeaderMap,
    pub sent_head: bool,
    pub sent: bool,
    pub response: HttpResponse,
    pub is_reset: bool,
}

impl Http2RequestState {
    /// A request on a stream of the session (`GET /`, no authority or
    /// scheme yet); an unknown stream is refused.
    pub fn new(stream_id: u32, session: &mut SessionState) -> (r: LibResult<Self>)
        ensures
            final(session).streams_view() == old(session).streams_view(),
            final(session).same_but_streams(*old(session)),
            old(session).streams_view().dom().contains(stream_id) ==> (r matches Ok(s) && s.stream_id == stream_id
                && s.path@ == seq!['/'] && s.method == HttpMethod::Get && s.authority@.len() == 0 && s.scheme@.len() == 0
                && s.headers.entries@.len() == 0 && !s.sent_head && !s.sent && s.response.is_fresh() && !s.is_reset),
            !old(session).streams_view().dom().contains(stream_id) ==> r == Err::<Self, LibError>(LibError::InvalidStream),
    {
        if session.has_stream(stream_id) {
            let path = String::from_str("/");
            proof {
                reveal_strlit("/");
            }
            Ok(Self {
                stream_id,
                path,
                method: HttpMethod::Get,
                authority: String::new(),
                scheme: String::new(),
                headers: HeaderMap::new(),
                sent_head: false,
                sent: false,
                response: HttpResponse::default(),
                is_reset: false,
            })
        } else {
            Err(LibError::InvalidStream)
        }
    }

    /// One step of reading the response, as `read_client_step` of the
    /// server side reads a request: a reset stream marks the request reset;
    /// the head is taken once the stream's headers are complete or the
    /// caller waited; then the body received so far.
    pub fn read_response_step(&mut self, session: &mut SessionState, resumed: bool) -> (r: ReadWait)
        requires
            old(session).streams_view().dom().contains(old(self).stream_id),
            old(self).response.headers.wf(),
        ensures
            final(self).response.headers.wf(),
            final(self).stream_id == old(self).stream_id,
            final(self).path == old(self).path,
            final(self).method == old(self).method,
            final(self).authority == old(self).authority,
            final(self).scheme == old(self).scheme,
            final(self).headers == old(self).headers,
            final(self).sent_head == old(self).sent_head,
            final(self).sent == old(self).sent,
            !old(session).streams_view()[old(self).stream_id].reset ==> final(self).is_reset == old(self).is_reset,
            final(session).same_but_streams(*old(session)),
            ({
                let sv = old(session).streams_view()[old(self).stream_id];
                let sid = old(self).stream_id;
                if sv.reset {
                    &&& final(self).is_reset
                    &&& final(self).response == old(self).response
                    &&& final(session).streams_view() == old(session).streams_view()
                    &&& r == ReadWait::Nothing
                } else if !old(self).response.head_complete {
                    if !sv.end_head && !resumed {
                        &&& *final(self) == *old(self)
                        &&& final(session).streams_view() == old(session).streams_view()
                        &&& r == ReadWait::HeadComplete
                    } else {
                        &&& final(self).response.head_complete
                        &&& final(self).response.valid == old(self).response.valid
                        &&& final(self).response.vcs_complete == old(self).response.vcs_complete
                        &&& final(self).response.version == old(self).response.version
                        &&& final(self).response.status == old(self).response.status
                        &&& response_fields_rule(old(self).response, final(self).response, sv.headers)
                        &&& final(self).response.body == old(self).response.body
                        &&& final(self).response.body_complete == old(self).response.body_complete
                        &&& final(session).streams_view() == old(session).streams_view().insert(
                            sid,
                            StreamView { headers: Seq::empty(), ..sv },
                        )
                        &&& r == ReadWait::Nothing
                    }
                } else if !old(self).response.body_complete {
                    &&& final(self).response.body@ == old(self).response.body@ + sv.body
                    &&& final(self).response.body_complete == sv.end_body
                    &&& final(self).response == (HttpResponse {
                        body: final(self).response.body,
                        body_complete: final(self).response.body_complete,
                        ..old(self).response
                    })
                    &&& final(session).streams_view() == old(session).streams_view().insert(
                        sid,
                        StreamView { body: Seq::empty(), ..sv },
                    )
                    &&& r == (if sv.body.len() == 0 { ReadWait::BodyReceived } else { ReadWait::Nothing })
                } else {
                    &&& *final(self) == *old(self)
                    &&& final(session).streams_view() == old(session).streams_view()
                    &&& r == ReadWait::Nothing
                }
            }),
    {
        let sid = self.stream_id;
        let st = match session.stream_status(sid) {
            Some(st) => st,
            None => {
                return ReadWait::Nothing;
            },
        };
        if st.reset {
            self.is_reset = true;
            ReadWait::Nothing
        } else if !self.response.head_complete {
            if !st.end_head && !resumed {
                return ReadWait::HeadComplete;
            }
            let fields = session.take_headers(sid);
            apply_response_fields(&mut self.response, fields);
            ReadWait::Nothing
        } else if !self.response.body_complete {
            let (body, end) = session.take_body(sid);
            let avail = body.len();
            crate::buf::push_all(&mut self.response.body, body.as_slice());
            self.response.body_complete = end;
            if avail == 0 {
                ReadWait::BodyReceived
            } else {
                ReadWait::Nothing
            }
        } else {
            ReadWait::Nothing
        }
    }

    /// The fields of the request head (see `request_fields`), once; the
    /// headers are used up. A second head is refused.
    pub fn send_head(&mut self) -> (r: LibResult<Vec<(Vec<u8>, Vec<u8>)>>)
        requires
            old(self).headers.wf(),
        ensures
            final(self).headers.wf(),
            old(self).sent_head ==> r == Err::<Vec<(Vec<u8>, Vec<u8>)>, LibError>(LibError::HeadersSent)
                && *final(self) == *old(self),
            !old(self).sent_head ==> (r matches Ok(f) && pairs_view(f@) == request_fields(
                old(self).method,
                old(self).scheme@,
                old(self).authority@,
                old(self).path@,
                old(self).headers,
            ) && final(self).sent_head && final(self).headers.entries@.len() == 0),
            final(self).response == old(self).response,
            final(self).sent == old(self).sent,
            final(self).stream_id == old(self).stream_id,
    {
        if self.sent_head {
            return Err(LibError::HeadersSent);
        }
        self.sent_head = true;
        proof {
            reveal_strlit(":method");
            reveal_strlit(":scheme");
            reveal_strlit(":authority");
            reveal_strlit(":path");
        }
        assert(":method"@ =~= pseudo_method());
        assert(":scheme"@ =~= pseudo_scheme());
        assert(":authority"@ =~= pseudo_authority());
        assert(":path"@ =~= pseudo_path());
        let m = self.method.to_string_unknown();
        let mut fields: Vec<(Vec<u8>, Vec<u8>)> = Vec::new();
        fields.push(text_pair(":method", m.as_str()));
        fields.push(text_pair(":scheme", self.scheme.as_str()));
        fields.push(text_pair(":authority", self.authority.as_str()));
        fields.push(text_pair(":path", self.path.as_str()));
        let ghost a = fields@;
        let mut rest = header_byte_pairs(&self.headers);
        let ghost b = rest@;
        fields.append(&mut rest);
        proof {
            crate::http2::recv::lemma_pairs_view_append(a, b);
            assert(pairs_view(a) =~= seq![
                (vstd::utf8::encode_utf8(pseudo_method()), vstd::utf8::encode_utf8(method_wire(old(self).method))),
                (vstd::utf8::encode_utf8(pseudo_scheme()), vstd::utf8::encode_utf8(old(self).scheme@)),
                (vstd::utf8::encode_utf8(pseudo_authority()), vstd::utf8::encode_utf8(old(self).authority@)),
                (vstd::utf8::encode_utf8(pseudo_path()), vstd::utf8::encode_utf8(old(self).path@)),
            ]);
        }
        self.headers.clear();
        Ok(fields)
    }

    /// The request head still to send before body data, if any: with a
    /// length, `content-length` is set to it first.
    pub fn pending_head(&mut self, content_length: Option<usize>) -> (r: Option<Vec<(Vec<u8>, Vec<u8>)>>)
        requires
            old(self).headers.wf(),
        ensures
            final(self).headers.wf(),
            final(self).sent_head,
            old(self).sent_head ==> r is None && *final(self) == *old(self),
            !old(self).sent_head && content_length is None ==> (r matches Some(f) && pairs_view(f@) == request_fields(
                old(self).method,
                old(self).scheme@,
                old(self).authority@,
                old(self).path@,
                old(self).headers,
            )),
            !old(self).sent_head && content_length is Some ==> (r matches Some(f) && exists|h: HeaderMap|
                pairs_view(f@) == request_fields(old(self).method, old(self).scheme@, old(self).authority@, old(self).path@, h)
                    && h.lookup(seq!['c', 'o', 'n', 't', 'e', 'n', 't', '-', 'l', 'e', 'n', 'g', 't', 'h']) == Some(
                    seq![radix_digits(content_length->0 as nat, 10)],
                ) && (forall|k: Seq<char>|
                    k != seq!['c', 'o', 'n', 't', 'e', 'n', 't', '-', 'l', 'e', 'n', 'g', 't', 'h'] ==> h.lookup(k)
                        == old(self).headers.lookup(k))),
            final(self).response == old(self).response,
            final(self).sent == old(self).sent,
            final(self).stream_id == old(self).stream_id,
    {
        if self.sent_head {
            return None;
        }
        if let Some(len) = content_length {
            let digits = crate::text::string_from_chars(radix_chars(len, 10).as_slice());
            let name = "content-length";
            proof {
                reveal_strlit("content-length");
            }
            assert(name@ =~= seq!['c', 'o', 'n', 't', 'e', 'n', 't', '-', 'l', 'e', 'n', 'g', 't', 'h']);
            let mut values: Vec<String> = Vec::new();
            values.push(String::from_str(digits.as_str()));
            assert(texts(values@) =~= seq![digits@]);
            let _ = self.headers.insert(String::from_str(name), values);
        }
        match self.send_head() {
            Ok(f) => Some(f),
            Err(_) => None,
        }
    }

    /// Adds a value under `header`.
    pub fn add_header(&mut self, header: &str, value: &str)
        requires
            old(self).headers.wf(),
        ensures
            final(self).headers.wf(),
            final(self).headers.lookup(header@) == Some(match old(self).headers.lookup(header@) {
                Some(vs) => vs.push(value@),
                None => seq![value@],
            }),
            forall|n: Seq<char>| n != header@ ==> final(self).headers.lookup(n) == old(self).headers.lookup(n),
            final(self).response == old(self).response,
            final(self).sent_head == old(self).sent_head,
            final(self).stream_id == old(self).stream_id,
    {
        self.headers.add(String::from_str(header), String::from_str(value));
    }

    /// Makes `value` the only value under `header`.
    pub fn set_header(&mut self, header: &str, value: &str)
        requires
            old(self).headers.wf(),
        ensures
            final(self).headers.wf(),
            final(self).headers.lookup(header@) == Some(seq![value@]),
            forall|n: Seq<char>| n != header@ ==> final(self).headers.lookup(n) == old(self).headers.lookup(n),
            final(self).response == old(self).response,
            final(self).sent_head == old(self).sent_head,
            final(self).stream_id == old(self).stream_id,
    {
        let mut values: Vec<String> = Vec::new();
        values.push(String::from_str(value));
        assert(texts(values@) =~= seq![value@]);
        let _ = self.headers.insert(String::from_str(header), values);
    }

    /// Removes `header`, returning its values.
    pub fn del_header(&mut self, header: &str) -> (r: Option<Vec<String>>)
        requires
            old(self).headers.wf(),
        ensures
            final(self).headers.wf(),
            final(self).headers.lookup(header@) is None,
            forall|n: Seq<char>| n != header@ ==> final(self).headers.lookup(n) == old(self).headers.lookup(n),
            match r {
                Some(v) => old(self).headers.lookup(header@) == Some(texts(v@)),
                None => old(self).headers.lookup(header@) is None,
            },
            final(self).response == old(self).response,
            final(self).sent_head == old(self).sent_head,
            final(self).stream_id == old(self).stream_id,
    {
        self.headers.remove(header)
    }
}

} // verus!
