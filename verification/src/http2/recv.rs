//! What a received frame does to a session: one rule per frame type, and
//! `handle`, which applies the rule of the frame's type.

use vstd::prelude::*;
use crate::http2::frame::{Http2Frame, Http2FrameType, Http2Settings, be32, read_be32, settings_from_bytes};
use crate::http2::hpack::{
    HpackDecoder, HpackError, block_at, block_complete, block_fields, fields_small, huffman_fn, literal_block,
    literals_framed,
};
use crate::http2::session::{
    ActionView, Http2Data, SessionAction, SessionState, StreamView, actions_view, empty_stream, end_headers_flag,
    end_stream_flag, extended, merge_settings, pairs_view, payload_of, ping_bytes, ping_frame, settings_ack_bytes,
    settings_ack_frame, window_update_bytes, window_update_frame,
};
use crate::shared::{LibError, LibResult};

verus! {

impl SessionState {
    /// Every field but the stream table, the decoder and the highest stream
    /// id are those of `o`.
    pub open spec fn rest_same(&self, o: SessionState) -> bool {
        &&& self.mode == o.mode
        &&& self.strict == o.strict
        &&& self.encoder == o.encoder
        &&& self.goaway == o.goaway
        &&& self.goaway_frame == o.goaway_frame
        &&& self.window == o.window
        &&& self.settings == o.settings
    }

    /// What a DATA frame does: the payload goes to the stream's body, the
    /// END_STREAM flag ends it, waiting readers are woken and both windows
    /// are credited back; an unknown stream is refused.
    pub open spec fn data_rule(
        o: SessionState,
        n: SessionState,
        f: Http2Frame,
        r: LibResult<Option<u32>>,
        acts: Seq<ActionView>,
    ) -> bool {
        let sid = f.stream_id;
        let ov = o.streams_view();
        &&& n.rest_same(o)
        &&& n.decoder == o.decoder
        &&& if ov.dom().contains(sid) {
            &&& n.streams_view() == ov.insert(
                sid,
                StreamView {
                    body: ov[sid].body + payload_of(f),
                    end_body: ov[sid].end_body || end_stream_flag(f),
                    ..ov[sid]
                },
            )
            &&& r matches Ok(None)
            &&& acts == seq![
                ActionView::BodyReceived(sid),
                ActionView::Write(window_update_bytes(0, f.length)),
                ActionView::Write(window_update_bytes(sid, f.length)),
            ]
        } else {
            &&& n.streams_view() == ov
            &&& r matches Err(LibError::InvalidStream)
            &&& acts.len() == 0
        }
    }

    fn handle_data(&mut self, frame: &Http2Frame) -> (res: (LibResult<Option<u32>>, Vec<SessionAction>))
        requires
            frame.range_ok(frame.payload),
        ensures
            Self::data_rule(*old(self), *final(self), *frame, res.0, actions_view(res.1@)),
            final(self).max_stream_id == old(self).max_stream_id,
    {
        let sid = frame.stream_id;
        match self.take_stream(sid) {
            Some(mut s) => {
                crate::buf::push_all(&mut s.body, frame.get_payload());
                if frame.is_end_stream() {
                    s.end_body = true;
                }
                let ghost sv = s@;
                self.put_stream(sid, s);
                let mut acts: Vec<SessionAction> = Vec::new();
                acts.push(SessionAction::BodyReceived(sid));
                acts.push(SessionAction::Write(window_update_frame(0, frame.length)));
                acts.push(SessionAction::Write(window_update_frame(sid, frame.length)));
                proof {
                    let ov = old(self).streams_view();
                    assert(sv == StreamView {
                        body: ov[sid].body + payload_of(*frame),
                        end_body: ov[sid].end_body || end_stream_flag(*frame),
                        ..ov[sid]
                    });
                    assert(self.streams_view() =~= ov.insert(sid, sv));
                    assert(actions_view(acts@) =~= seq![
                        ActionView::BodyReceived(sid),
                        ActionView::Write(window_update_bytes(0, frame.length)),
                        ActionView::Write(window_update_bytes(sid, frame.length)),
                    ]);
                }
                (Ok(None), acts)
            },
            None => {
                proof {
                    assert(self.streams_view() =~= old(self).streams_view());
                }
                let acts: Vec<SessionAction> = Vec::new();
                assert(actions_view(acts@) =~= Seq::<ActionView>::empty());
                (Err(LibError::InvalidStream), acts)
            },
        }
    }
}

/// The views of two header lists put together.
pub proof fn lemma_pairs_view_append(a: Seq<(Vec<u8>, Vec<u8>)>, b: Seq<(Vec<u8>, Vec<u8>)>)
    ensures
        pairs_view(a + b) == pairs_view(a) + pairs_view(b),
{
    assert(pairs_view(a + b) =~= pairs_view(a) + pairs_view(b));
}

/// A header block has been decoded onto the end of `before`: the block is
/// complete and `after` is `before` with one entry per field of the block.
pub open spec fn headers_decoded(
    block: Seq<u8>,
    before: Seq<(Seq<u8>, Seq<u8>)>,
    after: Seq<(Seq<u8>, Seq<u8>)>,
) -> bool {
    block_complete(block, 0) && extended(before, after, block_fields(block, 0))
}

/// A header block is decoded with the decoder's tables as they were
/// (`d0`): the result is `Ok` exactly when the decoder takes the whole
/// block, and then the fields it gives are appended to `before` and the
/// tables are left as the block leaves them (`d1`). So a block made of
/// literals the encoder wrote for some fields (see `literal_block`) is
/// decoded into exactly those fields.
pub open spec fn literals_decoded(
    block: Seq<u8>,
    r: LibResult<Option<u32>>,
    before: Seq<(Seq<u8>, Seq<u8>)>,
    after: Seq<(Seq<u8>, Seq<u8>)>,
    d0: HpackDecoder<'static>,
    d1: HpackDecoder<'static>,
) -> bool {
    let o = block_at(block, 0, d0.state(), huffman_fn());
    &&& r is Ok <==> o is Some
    &&& r is Ok ==> (o matches Some((fs, st)) && after == before + fs && d1.state() == st)
    &&& forall|fs: Seq<(Seq<u8>, Seq<u8>)>|
        #[trigger] literal_block(fs) == block && fields_small(fs) && literals_framed(fs) ==> r is Ok && after
            == before + fs
}

/// The error a header block the decoder refused gives.
pub open spec fn hpack_refused() -> LibResult<Option<u32>> {
    Err(LibError::Hpack(HpackError::InvalidHeaderField))
}

/// Appends decoded header fields to a list.
fn append_fields(list: &mut Vec<(Vec<u8>, Vec<u8>)>, dec: Vec<(Vec<u8>, Vec<u8>)>)
    ensures
        pairs_view(final(list)@) == pairs_view(old(list)@) + pairs_view(dec@),
{
    let mut dec = dec;
    let ghost d = dec@;
    list.append(&mut dec);
    proof {
        lemma_pairs_view_append(old(list)@, d);
    }
}

impl SessionState {
    /// What a HEADERS frame does. On a known stream (only a client, or an
    /// ambiguous session, takes one) the fragment joins the stream's pending
    /// block; on an unknown stream (only a server, or an ambiguous session,
    /// takes one) a new stream starts with it and is announced once its
    /// headers are complete. With END_HEADERS the block is decoded into the
    /// header list, unless the decoder refuses it.
    pub open spec fn headers_rule(
        o: SessionState,
        n: SessionState,
        f: Http2Frame,
        r: LibResult<Option<u32>>,
        acts: Seq<ActionView>,
    ) -> bool {
        let sid = f.stream_id;
        let ov = o.streams_view();
        let nv = n.streams_view();
        let pay = payload_of(f);
        &&& n.rest_same(o)
        &&& if ov.dom().contains(sid) && (o.mode is Client || o.mode is Ambiguous) {
            let hv = ov[sid].head + pay;
            if !end_headers_flag(f) {
                &&& nv == ov.insert(
                    sid,
                    StreamView { head: hv, end_body: ov[sid].end_body || end_stream_flag(f), ..ov[sid] },
                )
                &&& r == Ok::<Option<u32>, LibError>(None)
                &&& acts.len() == 0
                &&& n.decoder == o.decoder
            } else {
                &&& literals_decoded(hv, r, ov[sid].headers, nv[sid].headers, o.decoder, n.decoder)
                &&& if r is Err {
                    &&& r == hpack_refused()
                    &&& nv == ov.insert(sid, StreamView { head: hv, ..ov[sid] })
                    &&& acts.len() == 0
                } else {
                    &&& nv == ov.insert(
                        sid,
                        StreamView {
                            head: Seq::empty(),
                            headers: nv[sid].headers,
                            end_head: true,
                            end_body: ov[sid].end_body || end_stream_flag(f),
                            ..ov[sid]
                        },
                    )
                    &&& headers_decoded(hv, ov[sid].headers, nv[sid].headers)
                    &&& r == Ok::<Option<u32>, LibError>(None)
                    &&& acts == seq![ActionView::HeadComplete(sid)]
                }
            }
        } else if !ov.dom().contains(sid) && (o.mode is Server || o.mode is Ambiguous) {
            let base = StreamView { head: pay, end_body: end_stream_flag(f), ..empty_stream(sid, o.settings) };
            &&& acts.len() == 0
            &&& if !end_headers_flag(f) {
                &&& nv == ov.insert(sid, base)
                &&& r == Ok::<Option<u32>, LibError>(None)
                &&& n.decoder == o.decoder
            } else {
                &&& literals_decoded(pay, r, Seq::empty(), nv[sid].headers, o.decoder, n.decoder)
                &&& if r is Err {
                    &&& r == hpack_refused()
                    &&& nv == ov
                } else {
                    &&& nv == ov.insert(
                        sid,
                        StreamView { head: Seq::empty(), headers: nv[sid].headers, end_head: true, ..base },
                    )
                    &&& headers_decoded(pay, Seq::empty(), nv[sid].headers)
                    &&& r == Ok::<Option<u32>, LibError>(Some(sid))
                }
            }
        } else {
            &&& r == Err::<Option<u32>, LibError>(LibError::ProtocolError)
            &&& nv == ov
            &&& acts.len() == 0
            &&& n.decoder == o.decoder
        }
    }

    fn handle_headers(&mut self, frame: &Http2Frame) -> (res: (LibResult<Option<u32>>, Vec<SessionAction>))
        requires
            frame.range_ok(frame.payload),
        ensures
            Self::headers_rule(*old(self), *final(self), *frame, res.0, actions_view(res.1@)),
            final(self).max_stream_id == old(self).max_stream_id,
    {
        let sid = frame.stream_id;
        let client_side = self.mode.is_client() || self.mode.is_ambiguous();
        let server_side = self.mode.is_server() || self.mode.is_ambiguous();
        let mut acts: Vec<SessionAction> = Vec::new();
        let ghost ov = old(self).streams_view();
        assert(actions_view(acts@) =~= Seq::<ActionView>::empty());
        match self.take_stream(sid) {
            Some(mut s) => {
                if !client_side {
                    let ghost sv = s@;
                    self.put_stream(sid, s);
                    assert(self.streams_view() =~= ov);
                    return (Err(LibError::ProtocolError), acts);
                }
                crate::buf::push_all(&mut s.head, frame.get_payload());
                if frame.is_end_headers() {
                    match self.decoder.decode_all(s.head.as_slice()) {
                        Some(dec) => {
                            let ghost hv = s.head@;
                            append_fields(&mut s.headers, dec);
                            s.end_head = true;
                            s.head.clear();
                            if frame.is_end_stream() {
                                s.end_body = true;
                            }
                            let ghost sv = s@;
                            self.put_stream(sid, s);
                            acts.push(SessionAction::HeadComplete(sid));
                            proof {
                                assert(sv == StreamView {
                                    head: Seq::empty(),
                                    headers: sv.headers,
                                    end_head: true,
                                    end_body: ov[sid].end_body || end_stream_flag(*frame),
                                    ..ov[sid]
                                });
                                assert(self.streams_view() =~= ov.insert(sid, sv));
                                assert(sv.headers.subrange(0, ov[sid].headers.len() as int) =~= ov[sid].headers);
                                assert(actions_view(acts@) =~= seq![ActionView::HeadComplete(sid)]);
                            }
                            (Ok(None), acts)
                        },
                        None => {
                            let ghost sv = s@;
                            self.put_stream(sid, s);
                            proof {
                                assert(sv == StreamView { head: ov[sid].head + payload_of(*frame), ..ov[sid] });
                                assert(self.streams_view() =~= ov.insert(sid, sv));
                            }
                            (Err(LibError::Hpack(HpackError::InvalidHeaderField)), acts)
                        },
                    }
                } else {
                    if frame.is_end_stream() {
                        s.end_body = true;
                    }
                    let ghost sv = s@;
                    self.put_stream(sid, s);
                    proof {
                        assert(sv == StreamView {
                            head: ov[sid].head + payload_of(*frame),
                            end_body: ov[sid].end_body || end_stream_flag(*frame),
                            ..ov[sid]
                        });
                        assert(self.streams_view() =~= ov.insert(sid, sv));
                    }
                    (Ok(None), acts)
                }
            },
            None => {
                if !server_side {
                    assert(self.streams_view() =~= ov);
                    return (Err(LibError::ProtocolError), acts);
                }
                let mut s = Http2Data::empty(sid, self.settings);
                crate::buf::push_all(&mut s.head, frame.get_payload());
                if frame.is_end_stream() {
                    s.end_body = true;
                }
                let end_headers = frame.is_end_headers();
                if end_headers {
                    match self.decoder.decode_all(s.head.as_slice()) {
                        Some(dec) => {
                            s.end_head = true;
                            append_fields(&mut s.headers, dec);
                            s.head.clear();
                        },
                        None => {
                            assert(self.streams_view() =~= ov);
                            return (Err(LibError::Hpack(HpackError::InvalidHeaderField)), acts);
                        },
                    }
                }
                let ghost sv = s@;
                self.put_stream(sid, s);
                proof {
                    assert(self.streams_view() =~= ov.insert(sid, sv));
                    let base = StreamView {
                        head: payload_of(*frame),
                        end_body: end_stream_flag(*frame),
                        ..empty_stream(sid, old(self).settings)
                    };
                    assert(Seq::<u8>::empty() + payload_of(*frame) =~= payload_of(*frame));
                    if end_headers {
                        assert(sv == StreamView {
                            head: Seq::empty(),
                            headers: sv.headers,
                            end_head: true,
                            ..base
                        });
                        assert(sv.headers.subrange(0, 0) =~= Seq::<(Seq<u8>, Seq<u8>)>::empty());
                    } else {
                        assert(sv == base);
                    }
                }
                if end_headers {
                    (Ok(Some(sid)), acts)
                } else {
                    (Ok(None), acts)
                }
            },
        }
    }
}

} // verus!

verus! {

impl SessionState {
    /// What a PUSH_PROMISE frame does. Only a client (or an ambiguous
    /// session) takes one, on a known stream, promising a stream id not in
    /// use; the first four payload bytes name the promised stream and the
    /// rest starts its header block. The promised stream is created and the
    /// associated stream remembers it; with END_HEADERS the block is decoded
    /// and the promised stream announced.
    pub open spec fn push_promise_rule(
        o: SessionState,
        n: SessionState,
        f: Http2Frame,
        r: LibResult<Option<u32>>,
        acts: Seq<ActionView>,
    ) -> bool {
        let sid = f.stream_id;
        let ov = o.streams_view();
        let nv = n.streams_view();
        let pay = payload_of(f);
        let p = be32(pay, 0) as u32;
        let block = pay.subrange(4, pay.len() as int);
        &&& n.rest_same(o)
        &&& acts.len() == 0
        &&& if (o.mode is Client || o.mode is Ambiguous) && pay.len() >= 4 && !ov.dom().contains(p)
            && ov.dom().contains(sid) {
            let base = StreamView { promise: block, end_body: end_stream_flag(f), ..empty_stream(p, o.settings) };
            let assoc = StreamView { promising: Some(p), ..ov[sid] };
            if !end_headers_flag(f) {
                &&& nv == ov.insert(p, base).insert(sid, assoc)
                &&& r == Ok::<Option<u32>, LibError>(None)
                &&& n.decoder == o.decoder
            } else {
                &&& literals_decoded(block, r, Seq::empty(), nv[p].push_headers, o.decoder, n.decoder)
                &&& if r is Err {
                    &&& r == hpack_refused()
                    &&& nv == ov
                } else {
                    &&& nv == ov.insert(
                        p,
                        StreamView { promise: Seq::empty(), push_headers: nv[p].push_headers, ..base },
                    ).insert(sid, assoc)
                    &&& headers_decoded(block, Seq::empty(), nv[p].push_headers)
                    &&& r == Ok::<Option<u32>, LibError>(Some(p))
                }
            }
        } else {
            &&& r == Err::<Option<u32>, LibError>(LibError::ProtocolError)
            &&& nv == ov
            &&& n.decoder == o.decoder
        }
    }

    fn handle_push_promise(&mut self, frame: &Http2Frame) -> (res: (LibResult<Option<u32>>, Vec<SessionAction>))
        requires
            frame.range_ok(frame.payload),
        ensures
            Self::push_promise_rule(*old(self), *final(self), *frame, res.0, actions_view(res.1@)),
            final(self).max_stream_id == old(self).max_stream_id,
    {
        let sid = frame.stream_id;
        let acts: Vec<SessionAction> = Vec::new();
        let ghost ov = old(self).streams_view();
        assert(actions_view(acts@) =~= Seq::<ActionView>::empty());
        let pay = frame.get_payload();
        if !((self.mode.is_client() || self.mode.is_ambiguous()) && pay.len() >= 4) {
            return (Err(LibError::ProtocolError), acts);
        }
        let promised = read_be32(pay, 0);
        if self.has_stream(promised) {
            return (Err(LibError::ProtocolError), acts);
        }
        match self.take_stream(sid) {
            None => {
                assert(self.streams_view() =~= ov);
                (Err(LibError::ProtocolError), acts)
            },
            Some(mut shard) => {
                let mut stream = Http2Data::empty(promised, self.settings);
                crate::buf::push_all(&mut stream.promise, vstd::slice::slice_subrange(pay, 4, pay.len()));
                let end_headers = frame.is_end_headers();
                if end_headers {
                    match self.decoder.decode_all(stream.promise.as_slice()) {
                        Some(dec) => {
                            append_fields(&mut stream.push_headers, dec);
                            stream.promise.clear();
                        },
                        None => {
                            let ghost hv = shard@;
                            self.put_stream(sid, shard);
                            assert(self.streams_view() =~= ov);
                            return (Err(LibError::Hpack(HpackError::InvalidHeaderField)), acts);
                        },
                    }
                }
                if frame.is_end_stream() {
                    stream.end_body = true;
                }
                let ghost pv = stream@;
                self.put_stream(promised, stream);
                shard.promising = Some(promised);
                let ghost av = shard@;
                self.put_stream(sid, shard);
                proof {
                    let pay = payload_of(*frame);
                    let block = pay.subrange(4, pay.len() as int);
                    assert(Seq::<u8>::empty() + block =~= block);
                    let base = StreamView {
                        promise: block,
                        end_body: end_stream_flag(*frame),
                        ..empty_stream(promised, old(self).settings)
                    };
                    assert(av == StreamView { promising: Some(promised), ..ov[sid] });
                    assert(self.streams_view() =~= ov.insert(promised, pv).insert(sid, av));
                    if end_headers {
                        assert(pv == StreamView { promise: Seq::empty(), push_headers: pv.push_headers, ..base });
                        assert(pv.push_headers.subrange(0, 0) =~= Seq::<(Seq<u8>, Seq<u8>)>::empty());
                    } else {
                        assert(pv == base);
                    }
                }
                if end_headers {
                    (Ok(Some(promised)), acts)
                } else {
                    (Ok(None), acts)
                }
            },
        }
    }
}

} // verus!

verus! {

impl SessionState {
    /// What a CONTINUATION frame does. On a stream that is promising another
    /// (known, distinct) stream, the fragment joins the promised stream's
    /// block, and END_HEADERS decodes it, ends the promise and announces the
    /// promised stream. Otherwise the fragment joins the stream's own block,
    /// END_STREAM ends its body, and END_HEADERS decodes the block, wakes
    /// readers of the headers and announces the stream if the peer opened it.
    pub open spec fn continuation_rule(
        o: SessionState,
        n: SessionState,
        f: Http2Frame,
        r: LibResult<Option<u32>>,
        acts: Seq<ActionView>,
    ) -> bool {
        let sid = f.stream_id;
        let ov = o.streams_view();
        let nv = n.streams_view();
        let pay = payload_of(f);
        let sh = ov[sid];
        &&& n.rest_same(o)
        &&& if !ov.dom().contains(sid) {
            &&& r == Err::<Option<u32>, LibError>(LibError::InvalidStream)
            &&& nv == ov
            &&& acts.len() == 0
            &&& n.decoder == o.decoder
        } else if sh.promising is Some && sh.promising->0 != sid && ov.dom().contains(sh.promising->0) {
            let p = sh.promising->0;
            let pv = ov[p].promise + pay;
            &&& acts.len() == 0
            &&& if !end_headers_flag(f) {
                &&& nv == ov.insert(p, StreamView { promise: pv, ..ov[p] })
                &&& r == Ok::<Option<u32>, LibError>(None)
                &&& n.decoder == o.decoder
            } else {
                &&& literals_decoded(pv, r, ov[p].push_headers, nv[p].push_headers, o.decoder, n.decoder)
                &&& if r is Err {
                    &&& r == hpack_refused()
                    &&& nv == ov.insert(p, StreamView { promise: pv, ..ov[p] })
                } else {
                    &&& nv == ov.insert(
                        p,
                        StreamView { promise: Seq::empty(), push_headers: nv[p].push_headers, ..ov[p] },
                    ).insert(sid, StreamView { promising: None, ..sh })
                    &&& headers_decoded(pv, ov[p].push_headers, nv[p].push_headers)
                    &&& r == Ok::<Option<u32>, LibError>(Some(p))
                }
            }
        } else {
            let hv = sh.head + pay;
            let eb = sh.end_body || end_stream_flag(f);
            if !end_headers_flag(f) {
                &&& nv == ov.insert(sid, StreamView { head: hv, end_body: eb, ..sh })
                &&& r == Ok::<Option<u32>, LibError>(None)
                &&& acts.len() == 0
                &&& n.decoder == o.decoder
            } else {
                &&& literals_decoded(hv, r, sh.headers, nv[sid].headers, o.decoder, n.decoder)
                &&& if r is Err {
                    &&& r == hpack_refused()
                    &&& nv == ov.insert(sid, StreamView { head: hv, end_body: eb, ..sh })
                    &&& acts.len() == 0
                } else {
                    &&& nv == ov.insert(
                        sid,
                        StreamView {
                            head: Seq::empty(),
                            headers: nv[sid].headers,
                            end_head: true,
                            end_body: eb,
                            ..sh
                        },
                    )
                    &&& headers_decoded(hv, sh.headers, nv[sid].headers)
                    &&& r == Ok::<Option<u32>, LibError>(if sh.new { Some(sid) } else { None })
                    &&& acts == seq![ActionView::HeadComplete(sid)]
                }
            }
        }
    }

    /// The promised stream's part of a CONTINUATION frame.
    fn continue_promise(&mut self, frame: &Http2Frame, p: u32, promised: Http2Data) -> (r: LibResult<Option<u32>>)
        requires
            frame.range_ok(frame.payload),
            !old(self).streams_view().dom().contains(p),
        ensures
            final(self).rest_same(*old(self)),
            final(self).max_stream_id == old(self).max_stream_id,
            ({
                let ov = old(self).streams_view();
                let nv = final(self).streams_view();
                let pv = promised@.promise + payload_of(*frame);
                &&& end_headers_flag(*frame) ==> literals_decoded(pv, r, promised@.push_headers, nv[p].push_headers, old(self).decoder, final(self).decoder)
                &&& if !end_headers_flag(*frame) {
                    &&& nv == ov.insert(p, StreamView { promise: pv, ..promised@ })
                    &&& r == Ok::<Option<u32>, LibError>(None)
                    &&& final(self).decoder == old(self).decoder
                } else if r is Err {
                    &&& r == hpack_refused()
                    &&& nv == ov.insert(p, StreamView { promise: pv, ..promised@ })
                } else {
                    &&& nv == ov.insert(
                        p,
                        StreamView { promise: Seq::empty(), push_headers: nv[p].push_headers, ..promised@ },
                    )
                    &&& headers_decoded(pv, promised@.push_headers, nv[p].push_headers)
                    &&& r == Ok::<Option<u32>, LibError>(Some(p))
                }
            }),
    {
        let mut promised = promised;
        let ghost pv0 = promised@;
        crate::buf::push_all(&mut promised.promise, frame.get_payload());
        if frame.is_end_headers() {
            match self.decoder.decode_all(promised.promise.as_slice()) {
                Some(dec) => {
                    append_fields(&mut promised.push_headers, dec);
                    promised.promise.clear();
                    let ghost v = promised@;
                    self.put_stream(p, promised);
                    proof {
                        assert(v == StreamView { promise: Seq::empty(), push_headers: v.push_headers, ..pv0 });
                        assert(v.push_headers.subrange(0, pv0.push_headers.len() as int) =~= pv0.push_headers);
                    }
                    Ok(Some(p))
                },
                None => {
                    let ghost v = promised@;
                    self.put_stream(p, promised);
                    assert(v == StreamView { promise: pv0.promise + payload_of(*frame), ..pv0 });
                    Err(LibError::Hpack(HpackError::InvalidHeaderField))
                },
            }
        } else {
            let ghost v = promised@;
            self.put_stream(p, promised);
            assert(v == StreamView { promise: pv0.promise + payload_of(*frame), ..pv0 });
            Ok(None)
        }
    }

    /// The promised stream's part of a CONTINUATION frame, with the
    /// promising stream `sid` (taken out of the table) put back, its promise
    /// ended once the block is decoded.
    fn continue_promised(&mut self, frame: &Http2Frame, sid: u32, shard: Http2Data, p: u32) -> (r: LibResult<
        Option<u32>,
    >)
        requires
            frame.range_ok(frame.payload),
            !old(self).streams_view().dom().contains(sid),
            old(self).streams_view().dom().contains(p),
            p != sid,
        ensures
            final(self).rest_same(*old(self)),
            final(self).max_stream_id == old(self).max_stream_id,
            ({
                let ov = old(self).streams_view();
                let nv = final(self).streams_view();
                let pv = ov[p].promise + payload_of(*frame);
                &&& end_headers_flag(*frame) ==> literals_decoded(pv, r, ov[p].push_headers, nv[p].push_headers, old(self).decoder, final(self).decoder)
                &&& if !end_headers_flag(*frame) {
                    &&& nv == ov.insert(p, StreamView { promise: pv, ..ov[p] }).insert(sid, shard@)
                    &&& r == Ok::<Option<u32>, LibError>(None)
                    &&& final(self).decoder == old(self).decoder
                } else if r is Err {
                    &&& r == hpack_refused()
                    &&& nv == ov.insert(p, StreamView { promise: pv, ..ov[p] }).insert(sid, shard@)
                } else {
                    &&& nv == ov.insert(
                        p,
                        StreamView { promise: Seq::empty(), push_headers: nv[p].push_headers, ..ov[p] },
                    ).insert(sid, StreamView { promising: None, ..shard@ })
                    &&& headers_decoded(pv, ov[p].push_headers, nv[p].push_headers)
                    &&& r == Ok::<Option<u32>, LibError>(Some(p))
                }
            }),
    {
        let mut shard = shard;
        let ghost ov = old(self).streams_view();
        let promised = match self.take_stream(p) {
            Some(d) => d,
            None => {
                assert(false);
                return Err(LibError::InvalidStream);
            },
        };
        let ghost mid = self.streams_view();
        assert(mid =~= ov.remove(p));
        let r = self.continue_promise(frame, p, promised);
        let ghost after = self.streams_view();
        let done = match r {
            Ok(Some(_)) => true,
            _ => false,
        };
        if done {
            shard.promising = None;
        }
        let ghost sv = shard@;
        self.put_stream(sid, shard);
        proof {
            if done {
                assert(sv == StreamView { promising: None, ..shard@ });
                assert(self.streams_view() =~= ov.insert(
                    p,
                    StreamView { promise: Seq::empty(), push_headers: after[p].push_headers, ..ov[p] },
                ).insert(sid, sv));
            } else {
                assert(self.streams_view() =~= ov.insert(
                    p,
                    StreamView { promise: ov[p].promise + payload_of(*frame), ..ov[p] },
                ).insert(sid, sv));
            }
        }
        r
    }

    fn handle_continuation(&mut self, frame: &Http2Frame) -> (res: (LibResult<Option<u32>>, Vec<SessionAction>))
        requires
            frame.range_ok(frame.payload),
        ensures
            Self::continuation_rule(*old(self), *final(self), *frame, res.0, actions_view(res.1@)),
            final(self).max_stream_id == old(self).max_stream_id,
    {
        let sid = frame.stream_id;
        let ghost ov = old(self).streams_view();
        let shard = match self.take_stream(sid) {
            Some(s) => s,
            None => {
                let acts: Vec<SessionAction> = Vec::new();
                assert(actions_view(acts@) =~= Seq::<ActionView>::empty());
                assert(self.streams_view() =~= ov);
                return (Err(LibError::InvalidStream), acts);
            },
        };
        let ghost rest = self.streams_view();
        let target: Option<u32> = match shard.promising {
            Some(p) => if p != sid && self.has_stream(p) { Some(p) } else { None },
            None => None,
        };
        match target {
            Some(p) => {
                let r = self.continue_promised(frame, sid, shard, p);
                let acts: Vec<SessionAction> = Vec::new();
                proof {
                    assert(actions_view(acts@) =~= Seq::<ActionView>::empty());
                    let nv = self.streams_view();
                    assert(rest[p] == ov[p]);
                    if !end_headers_flag(*frame) || r is Err {
                        assert(nv =~= ov.insert(p, StreamView { promise: ov[p].promise + payload_of(*frame), ..ov[p] }));
                    } else {
                        assert(nv =~= ov.insert(
                            p,
                            StreamView { promise: Seq::empty(), push_headers: nv[p].push_headers, ..ov[p] },
                        ).insert(sid, StreamView { promising: None, ..ov[sid] }));
                    }
                }
                (r, acts)
            },
            None => {
                let r = self.continue_head(frame, sid, shard);
                proof {
                    let nv = self.streams_view();
                    if r.0 is Ok && end_headers_flag(*frame) {
                        assert(nv =~= ov.insert(
                            sid,
                            StreamView {
                                head: Seq::empty(),
                                headers: nv[sid].headers,
                                end_head: true,
                                end_body: ov[sid].end_body || end_stream_flag(*frame),
                                ..ov[sid]
                            },
                        ));
                    } else {
                        assert(nv =~= ov.insert(
                            sid,
                            StreamView {
                                head: ov[sid].head + payload_of(*frame),
                                end_body: ov[sid].end_body || end_stream_flag(*frame),
                                ..ov[sid]
                            },
                        ));
                    }
                }
                r
            },
        }
    }

    /// The stream's own part of a CONTINUATION frame.
    fn continue_head(&mut self, frame: &Http2Frame, sid: u32, shard: Http2Data) -> (res: (
        LibResult<Option<u32>>,
        Vec<SessionAction>,
    ))
        requires
            frame.range_ok(frame.payload),
            !old(self).streams_view().dom().contains(sid),
        ensures
            final(self).rest_same(*old(self)),
            final(self).max_stream_id == old(self).max_stream_id,
            ({
                let ov = old(self).streams_view();
                let nv = final(self).streams_view();
                let sh = shard@;
                let hv = sh.head + payload_of(*frame);
                let eb = sh.end_body || end_stream_flag(*frame);
                let r = res.0;
                let acts = actions_view(res.1@);
                &&& end_headers_flag(*frame) ==> literals_decoded(hv, r, sh.headers, nv[sid].headers, old(self).decoder, final(self).decoder)
                &&& if !end_headers_flag(*frame) {
                    &&& nv == ov.insert(sid, StreamView { head: hv, end_body: eb, ..sh })
                    &&& r == Ok::<Option<u32>, LibError>(None)
                    &&& acts.len() == 0
                    &&& final(self).decoder == old(self).decoder
                } else if r is Err {
                    &&& r == hpack_refused()
                    &&& nv == ov.insert(sid, StreamView { head: hv, end_body: eb, ..sh })
                    &&& acts.len() == 0
                } else {
                    &&& nv == ov.insert(
                        sid,
                        StreamView { head: Seq::empty(), headers: nv[sid].headers, end_head: true, end_body: eb, ..sh },
                    )
                    &&& headers_decoded(hv, sh.headers, nv[sid].headers)
                    &&& r == Ok::<Option<u32>, LibError>(if sh.new { Some(sid) } else { None })
                    &&& acts == seq![ActionView::HeadComplete(sid)]
                }
            }),
    {
        let mut shard = shard;
        let mut acts: Vec<SessionAction> = Vec::new();
        let ghost ov = old(self).streams_view();
        let ghost s0 = shard@;
        assert(actions_view(acts@) =~= Seq::<ActionView>::empty());
        crate::buf::push_all(&mut shard.head, frame.get_payload());
        if frame.is_end_stream() {
            shard.end_body = true;
        }
        if frame.is_end_headers() {
            match self.decoder.decode_all(shard.head.as_slice()) {
                Some(dec) => {
                    append_fields(&mut shard.headers, dec);
                    shard.end_head = true;
                    shard.head.clear();
                    let opened = shard.new;
                    let ghost sv = shard@;
                    self.put_stream(sid, shard);
                    acts.push(SessionAction::HeadComplete(sid));
                    proof {
                        assert(sv.headers.subrange(0, s0.headers.len() as int) =~= s0.headers);
                        assert(self.streams_view() =~= ov.insert(sid, sv));
                        assert(actions_view(acts@) =~= seq![ActionView::HeadComplete(sid)]);
                    }
                    if opened {
                        (Ok(Some(sid)), acts)
                    } else {
                        (Ok(None), acts)
                    }
                },
                None => {
                    let ghost sv = shard@;
                    self.put_stream(sid, shard);
                    assert(self.streams_view() =~= ov.insert(sid, sv));
                    (Err(LibError::Hpack(HpackError::InvalidHeaderField)), acts)
                },
            }
        } else {
            let ghost sv = shard@;
            self.put_stream(sid, shard);
            assert(self.streams_view() =~= ov.insert(sid, sv));
            (Ok(None), acts)
        }
    }
}

} // verus!

verus! {

impl SessionState {
    /// Every field but the stream table and the highest stream id is that of `o`.
    pub open spec fn all_but_streams(&self, o: SessionState) -> bool {
        &&& self.rest_same(o)
        &&& self.decoder == o.decoder
    }

    /// What a RST_STREAM frame does: the stream is marked reset and its
    /// waiters woken; an unknown stream is refused.
    pub open spec fn rst_stream_rule(
        o: SessionState,
        n: SessionState,
        f: Http2Frame,
        r: LibResult<Option<u32>>,
        acts: Seq<ActionView>,
    ) -> bool {
        let sid = f.stream_id;
        let ov = o.streams_view();
        &&& n.all_but_streams(o)
        &&& if ov.dom().contains(sid) {
            &&& n.streams_view() == ov.insert(sid, StreamView { reset: true, ..ov[sid] })
            &&& r == Ok::<Option<u32>, LibError>(None)
            &&& acts == seq![ActionView::StreamNotify(sid)]
        } else {
            &&& n.streams_view() == ov
            &&& r == Err::<Option<u32>, LibError>(LibError::InvalidStream)
            &&& acts.len() == 0
        }
    }

    fn handle_rst_stream(&mut self, frame: &Http2Frame) -> (res: (LibResult<Option<u32>>, Vec<SessionAction>))
        ensures
            Self::rst_stream_rule(*old(self), *final(self), *frame, res.0, actions_view(res.1@)),
            final(self).max_stream_id == old(self).max_stream_id,
    {
        let sid = frame.stream_id;
        let ghost ov = old(self).streams_view();
        let mut acts: Vec<SessionAction> = Vec::new();
        match self.take_stream(sid) {
            Some(mut s) => {
                s.reset = true;
                let ghost sv = s@;
                self.put_stream(sid, s);
                acts.push(SessionAction::StreamNotify(sid));
                assert(self.streams_view() =~= ov.insert(sid, sv));
                assert(actions_view(acts@) =~= seq![ActionView::StreamNotify(sid)]);
                (Ok(None), acts)
            },
            None => {
                assert(self.streams_view() =~= ov);
                assert(actions_view(acts@) =~= Seq::<ActionView>::empty());
                (Err(LibError::InvalidStream), acts)
            },
        }
    }

    /// What a SETTINGS frame does: unless it is an acknowledgement, every
    /// setting it carries replaces the session's, and it is acknowledged.
    pub open spec fn settings_rule(
        o: SessionState,
        n: SessionState,
        f: Http2Frame,
        r: LibResult<Option<u32>>,
        acts: Seq<ActionView>,
    ) -> bool {
        &&& n.mode == o.mode
        &&& n.strict == o.strict
        &&& n.decoder == o.decoder
        &&& n.encoder == o.encoder
        &&& n.goaway == o.goaway
        &&& n.goaway_frame == o.goaway_frame
        &&& n.window == o.window
        &&& n.streams_view() == o.streams_view()
        &&& r == Ok::<Option<u32>, LibError>(None)
        &&& if f.flags & 0x01 != 0 {
            &&& n.settings == o.settings
            &&& acts.len() == 0
        } else {
            &&& n.settings == merge_settings(o.settings, settings_from_bytes(payload_of(f)))
            &&& acts == seq![ActionView::Write(settings_ack_bytes())]
        }
    }

    fn handle_settings(&mut self, frame: &Http2Frame) -> (res: (LibResult<Option<u32>>, Vec<SessionAction>))
        requires
            frame.flags & 0x01 == 0 ==> frame.range_ok(frame.payload),
        ensures
            Self::settings_rule(*old(self), *final(self), *frame, res.0, actions_view(res.1@)),
            final(self).max_stream_id == old(self).max_stream_id,
    {
        let mut acts: Vec<SessionAction> = Vec::new();
        if !frame.is_ack() {
            let sett = Http2Settings::from(frame.get_payload());
            if let Some(v) = sett.header_table_size {
                self.settings.header_table_size = Some(v);
            }
            if let Some(v) = sett.enable_push {
                self.settings.enable_push = Some(v);
            }
            if let Some(v) = sett.max_concurrent_streams {
                self.settings.max_concurrent_streams = Some(v);
            }
            if let Some(v) = sett.initial_window_size {
                self.settings.initial_window_size = Some(v);
            }
            if let Some(v) = sett.max_frame_size {
                self.settings.max_frame_size = Some(v);
            }
            if let Some(v) = sett.max_header_list_size {
                self.settings.max_header_list_size = Some(v);
            }
            acts.push(SessionAction::Write(settings_ack_frame()));
            assert(actions_view(acts@) =~= seq![ActionView::Write(settings_ack_bytes())]);
        } else {
            assert(actions_view(acts@) =~= Seq::<ActionView>::empty());
        }
        (Ok(None), acts)
    }

    /// What a PING frame does: unless it is an acknowledgement, it is
    /// answered with an acknowledgement carrying the same payload.
    pub open spec fn ping_rule(
        o: SessionState,
        n: SessionState,
        f: Http2Frame,
        r: LibResult<Option<u32>>,
        acts: Seq<ActionView>,
    ) -> bool {
        &&& n.all_but_streams(o)
        &&& n.streams_view() == o.streams_view()
        &&& r == Ok::<Option<u32>, LibError>(None)
        &&& acts == (if f.flags & 0x01 != 0 {
            Seq::empty()
        } else {
            seq![ActionView::Write(ping_bytes(true, payload_of(f)))]
        })
    }

    fn handle_ping(&mut self, frame: &Http2Frame) -> (res: (LibResult<Option<u32>>, Vec<SessionAction>))
        requires
            frame.flags & 0x01 == 0 ==> frame.range_ok(frame.payload),
        ensures
            Self::ping_rule(*old(self), *final(self), *frame, res.0, actions_view(res.1@)),
            final(self).max_stream_id == old(self).max_stream_id,
    {
        let mut acts: Vec<SessionAction> = Vec::new();
        if !frame.is_ack() {
            acts.push(SessionAction::Write(ping_frame(true, frame.get_payload())));
            assert(actions_view(acts@) =~= seq![ActionView::Write(ping_bytes(true, payload_of(*frame)))]);
        } else {
            assert(actions_view(acts@) =~= Seq::<ActionView>::empty());
        }
        (Ok(None), acts)
    }

    /// Whether a WINDOW_UPDATE frame's increment fits the window it credits.
    pub open spec fn window_update_fits(&self, f: Http2Frame) -> bool {
        let pay = payload_of(f);
        pay.len() == 4 ==> if f.stream_id == 0 {
            self.window + be32(pay, 0) <= usize::MAX
        } else {
            self.streams_view().dom().contains(f.stream_id) ==> self.streams_view()[f.stream_id].window + be32(
                pay,
                0,
            ) <= usize::MAX
        }
    }

    /// What a WINDOW_UPDATE frame does: its four payload bytes credit the
    /// connection window (stream 0) or a known stream's window, and waiters
    /// are woken. Another payload size, or an unknown stream, is refused.
    pub open spec fn window_update_rule(
        o: SessionState,
        n: SessionState,
        f: Http2Frame,
        r: LibResult<Option<u32>>,
        acts: Seq<ActionView>,
    ) -> bool {
        let sid = f.stream_id;
        let pay = payload_of(f);
        let ov = o.streams_view();
        &&& n.mode == o.mode
        &&& n.strict == o.strict
        &&& n.decoder == o.decoder
        &&& n.encoder == o.encoder
        &&& n.goaway == o.goaway
        &&& n.goaway_frame == o.goaway_frame
        &&& n.settings == o.settings
        &&& if pay.len() != 4 {
            &&& r == Err::<Option<u32>, LibError>(LibError::ProtocolError)
            &&& n.window == o.window
            &&& n.streams_view() == ov
            &&& acts.len() == 0
        } else if sid == 0 {
            &&& r == Ok::<Option<u32>, LibError>(None)
            &&& n.window == o.window + be32(pay, 0)
            &&& n.streams_view() == ov
            &&& acts == seq![ActionView::SessionNotify]
        } else if ov.dom().contains(sid) {
            &&& r == Ok::<Option<u32>, LibError>(None)
            &&& n.window == o.window
            &&& n.streams_view() == ov.insert(sid, StreamView { window: (ov[sid].window + be32(pay, 0)) as usize, ..ov[sid] })
            &&& acts == seq![ActionView::StreamNotify(sid)]
        } else {
            &&& r == Err::<Option<u32>, LibError>(LibError::InvalidStream)
            &&& n.window == o.window
            &&& n.streams_view() == ov
            &&& acts.len() == 0
        }
    }

    fn handle_window_update(&mut self, frame: &Http2Frame) -> (res: (LibResult<Option<u32>>, Vec<SessionAction>))
        requires
            frame.range_ok(frame.payload),
            old(self).window_update_fits(*frame),
        ensures
            Self::window_update_rule(*old(self), *final(self), *frame, res.0, actions_view(res.1@)),
            final(self).max_stream_id == old(self).max_stream_id,
    {
        let sid = frame.stream_id;
        let ghost ov = old(self).streams_view();
        let mut acts: Vec<SessionAction> = Vec::new();
        let pay = frame.get_payload();
        if pay.len() != 4 {
            assert(actions_view(acts@) =~= Seq::<ActionView>::empty());
            return (Err(LibError::ProtocolError), acts);
        }
        let size = read_be32(pay, 0);
        if sid == 0 {
            self.window = self.window + size as usize;
            acts.push(SessionAction::SessionNotify);
            assert(actions_view(acts@) =~= seq![ActionView::SessionNotify]);
            return (Ok(None), acts);
        }
        match self.take_stream(sid) {
            Some(mut s) => {
                s.window = s.window + size as usize;
                let ghost sv = s@;
                self.put_stream(sid, s);
                acts.push(SessionAction::StreamNotify(sid));
                assert(self.streams_view() =~= ov.insert(sid, sv));
                assert(actions_view(acts@) =~= seq![ActionView::StreamNotify(sid)]);
                (Ok(None), acts)
            },
            None => {
                assert(self.streams_view() =~= ov);
                assert(actions_view(acts@) =~= Seq::<ActionView>::empty());
                (Err(LibError::InvalidStream), acts)
            },
        }
    }
}

} // verus!

verus! {

/// Whether handling a frame reads its payload (and so needs it in range).
pub open spec fn uses_payload(f: Http2Frame) -> bool {
    match f.ftype {
        Http2FrameType::Priority | Http2FrameType::RstStream | Http2FrameType::Goaway | Http2FrameType::Invalid(
            _,
        ) => false,
        Http2FrameType::Settings | Http2FrameType::Ping => f.flags & 0x01 == 0,
        _ => true,
    }
}

impl SessionState {
    /// The session with its highest stream id raised to `id`, if above.
    pub open spec fn seen(self, id: u32) -> SessionState {
        SessionState { max_stream_id: if id > self.max_stream_id { id } else { self.max_stream_id }, ..self }
    }

    /// What a frame of each type does to the session `o` (whose highest
    /// stream id already counts the frame's), giving `n`, the result `r` and
    /// the actions `acts`. PRIORITY is ignored, GOAWAY is recorded and wakes
    /// the session's waiters, and a frame of unknown type is refused in
    /// strict mode and ignored otherwise.
    pub open spec fn frame_rule(
        o: SessionState,
        n: SessionState,
        f: Http2Frame,
        r: LibResult<Option<u32>>,
        acts: Seq<ActionView>,
    ) -> bool {
        &&& n.max_stream_id == o.max_stream_id
        &&& match f.ftype {
            Http2FrameType::Data => Self::data_rule(o, n, f, r, acts),
            Http2FrameType::Headers => Self::headers_rule(o, n, f, r, acts),
            Http2FrameType::RstStream => Self::rst_stream_rule(o, n, f, r, acts),
            Http2FrameType::Settings => Self::settings_rule(o, n, f, r, acts),
            Http2FrameType::PushPromise => Self::push_promise_rule(o, n, f, r, acts),
            Http2FrameType::Ping => Self::ping_rule(o, n, f, r, acts),
            Http2FrameType::WindowUpdate => Self::window_update_rule(o, n, f, r, acts),
            Http2FrameType::Continuation => Self::continuation_rule(o, n, f, r, acts),
            Http2FrameType::Goaway => {
                &&& n.goaway
                &&& n.goaway_frame == Some(f)
                &&& n.mode == o.mode
                &&& n.strict == o.strict
                &&& n.decoder == o.decoder
                &&& n.encoder == o.encoder
                &&& n.window == o.window
                &&& n.settings == o.settings
                &&& n.streams_view() == o.streams_view()
                &&& r == Ok::<Option<u32>, LibError>(None)
                &&& acts == seq![ActionView::SessionNotify]
            },
            _ => {
                &&& n.all_but_streams(o)
                &&& n.streams_view() == o.streams_view()
                &&& acts.len() == 0
                &&& r == (if f.ftype is Invalid && o.strict {
                    Err::<Option<u32>, LibError>(LibError::ProtocolError)
                } else {
                    Ok(None)
                })
            },
        }
    }

    /// Applies a received frame. The highest stream id seen is raised to
    /// the frame's, then the rule of the frame's type applies (see
    /// `frame_rule`). `Ok(Some(id))` announces a stream whose headers the
    /// peer completed; the returned actions are for the caller to perform.
    pub fn handle(&mut self, frame: Http2Frame) -> (res: (LibResult<Option<u32>>, Vec<SessionAction>))
        requires
            uses_payload(frame) ==> frame.range_ok(frame.payload),
            frame.ftype is WindowUpdate ==> old(self).window_update_fits(frame),
        ensures
            Self::frame_rule(old(self).seen(frame.stream_id), *final(self), frame, res.0, actions_view(res.1@)),
    {
        if frame.stream_id > self.max_stream_id {
            self.max_stream_id = frame.stream_id;
        }
        assert(self.streams_view() == old(self).streams_view());
        match frame.ftype {
            Http2FrameType::Data => self.handle_data(&frame),
            Http2FrameType::Headers => self.handle_headers(&frame),
            Http2FrameType::RstStream => self.handle_rst_stream(&frame),
            Http2FrameType::Settings => self.handle_settings(&frame),
            Http2FrameType::PushPromise => self.handle_push_promise(&frame),
            Http2FrameType::Ping => self.handle_ping(&frame),
            Http2FrameType::WindowUpdate => self.handle_window_update(&frame),
            Http2FrameType::Continuation => self.handle_continuation(&frame),
            Http2FrameType::Goaway => {
                self.goaway = true;
                self.goaway_frame = Some(frame);
                let mut acts: Vec<SessionAction> = Vec::new();
                acts.push(SessionAction::SessionNotify);
                assert(actions_view(acts@) =~= seq![ActionView::SessionNotify]);
                (Ok(None), acts)
            },
            Http2FrameType::Priority => {
                let acts: Vec<SessionAction> = Vec::new();
                assert(actions_view(acts@) =~= Seq::<ActionView>::empty());
                (Ok(None), acts)
            },
            Http2FrameType::Invalid(_) => {
                let acts: Vec<SessionAction> = Vec::new();
                assert(actions_view(acts@) =~= Seq::<ActionView>::empty());
                if self.strict {
                    (Err(LibError::ProtocolError), acts)
                } else {
                    (Ok(None), acts)
                }
            },
        }
    }
}

} // verus!
