//! What sending on a session does: the checks and state changes of each
//! outgoing operation, and the frames its bytes are cut into. Writing the
//! bytes and waiting for window credit is left to the caller.

use vstd::prelude::*;
use crate::http2::frame::{Http2Frame, Http2FrameType, frame_bytes, u32_be, u32_to_be};
use crate::http2::hpack::{
    HeaderType, field_views, fields_short, fields_small, hpack_literal, literal_block, literal_framed, literals_framed,
};
use crate::http2::session::{Http2Data, SessionState, StreamView, empty_stream};
use crate::shared::{LibError, LibResult};

verus! {

/// A frame with only a payload.
pub open spec fn simple_frame(type_byte: u8, flags: u8, stream_id: u32, payload: Seq<u8>) -> Seq<u8> {
    frame_bytes(type_byte, flags, stream_id, None, Some(payload), None)
}

/// CONTINUATION frames carrying `s[pos..]`: `k` pieces of `size` bytes with
/// no flags, then the rest with `last_flags`.
pub open spec fn cont_frames(stream_id: u32, s: Seq<u8>, pos: int, size: int, k: nat, last_flags: u8) -> Seq<u8>
    decreases k,
{
    if k == 0 {
        simple_frame(9, last_flags, stream_id, s.subrange(pos, s.len() as int))
    } else {
        simple_frame(9, 0, stream_id, s.subrange(pos, pos + size)) + cont_frames(
            stream_id,
            s,
            pos + size,
            size,
            (k - 1) as nat,
            last_flags,
        )
    }
}

/// How many full CONTINUATION pieces follow the first frame of a block of
/// `len` bytes cut at `mfs`.
pub open spec fn cont_count(len: nat, mfs: nat) -> nat {
    if len % mfs == 0 {
        (len / mfs - 1) as nat
    } else {
        len / mfs
    }
}

/// Whether a header block of `len` bytes can be cut at `mfs`: it fits one
/// frame, or it is a whole number of frames.
pub open spec fn headers_fit(len: nat, mfs: nat) -> bool {
    len < mfs || (mfs > 0 && len % mfs == 0)
}

/// The HEADERS frame, then the CONTINUATION frames, that carry a header
/// block; the last one has END_HEADERS, and END_STREAM too when `end`.
pub open spec fn header_frames_bytes(stream_id: u32, end: bool, enc: Seq<u8>, mfs: nat) -> Seq<u8> {
    let fl: u8 = if end { 5 } else { 4 };
    if enc.len() < mfs {
        simple_frame(1, fl, stream_id, enc)
    } else {
        simple_frame(1, 0, stream_id, enc.subrange(0, mfs as int)) + cont_frames(
            stream_id,
            enc,
            mfs as int,
            mfs as int,
            cont_count(enc.len(), mfs),
            fl,
        )
    }
}

/// Whether a promised header block of `len` bytes can be cut at `mfs`
/// (the first frame also carries the four-byte promised stream id).
pub open spec fn push_fit(len: nat, mfs: nat) -> bool {
    len + 4 < mfs || (mfs >= 4 && if len % mfs == 0 {
        len > 0
    } else {
        len % mfs + 4 >= mfs
    })
}

/// The PUSH_PROMISE frame, then the CONTINUATION frames, that promise
/// stream `promise_id` on `associate_id` with a header block.
pub open spec fn push_frames_bytes(associate_id: u32, promise_id: u32, enc: Seq<u8>, mfs: nat) -> Seq<u8> {
    if enc.len() + 4 < mfs {
        simple_frame(5, 4, associate_id, u32_be(promise_id) + enc)
    } else {
        simple_frame(5, 0, associate_id, u32_be(promise_id) + enc.subrange(0, mfs - 4)) + cont_frames(
            associate_id,
            enc,
            mfs - 4,
            mfs as int,
            cont_count(enc.len(), mfs),
            4,
        )
    }
}

/// Appends the CONTINUATION frames of `cont_frames`.
fn push_cont_frames(buff: &mut Vec<u8>, stream_id: u32, s: &[u8], pos: usize, size: usize, k: usize, last_flags: u8)
    requires
        pos + k * size <= s@.len(),
    ensures
        final(buff)@ == old(buff)@ + cont_frames(stream_id, s@, pos as int, size as int, k as nat, last_flags),
{
    let ghost goal = old(buff)@ + cont_frames(stream_id, s@, pos as int, size as int, k as nat, last_flags);
    let mut pos = pos;
    let mut left = k;
    while left > 0
        invariant
            pos + left * size <= s@.len(),
            buff@ + cont_frames(stream_id, s@, pos as int, size as int, left as nat, last_flags) == goal,
        decreases left,
    {
        assert(left * size == (left - 1) * size + size) by (nonlinear_arith)
            requires
                left > 0,
        ;
        assert((left - 1) * size >= 0) by (nonlinear_arith)
            requires
                left > 0,
        ;
        let n = s.len();
        assert(pos + size <= n);
        let piece = vstd::slice::slice_subrange(s, pos, pos + size);
        let f = Http2Frame::create(Http2FrameType::Continuation, 0, stream_id, None, Some(piece), None);
        let ghost before = buff@;
        crate::buf::push_all(buff, f.as_slice());
        assert(buff@ + cont_frames(stream_id, s@, (pos + size) as int, size as int, (left - 1) as nat, last_flags)
            =~= before + cont_frames(stream_id, s@, pos as int, size as int, left as nat, last_flags));
        pos = pos + size;
        left = left - 1;
    }
    let rest = vstd::slice::slice_subrange(s, pos, s.len());
    let f = Http2Frame::create(Http2FrameType::Continuation, last_flags, stream_id, None, Some(rest), None);
    crate::buf::push_all(buff, f.as_slice());
}

/// Cuts a header block into frames of at most `mfs` payload bytes (see
/// `header_frames_bytes`).
pub fn header_frames(stream_id: u32, end: bool, enc: &[u8], mfs: usize) -> (r: Vec<u8>)
    requires
        headers_fit(enc@.len(), mfs as nat),
    ensures
        r@ == header_frames_bytes(stream_id, end, enc@, mfs as nat),
{
    let fl: u8 = if end { 5 } else { 4 };
    if enc.len() < mfs {
        Http2Frame::create(Http2FrameType::Headers, fl, stream_id, None, Some(enc), None)
    } else {
        let first = vstd::slice::slice_subrange(enc, 0, mfs);
        let mut buff = Http2Frame::create(Http2FrameType::Headers, 0, stream_id, None, Some(first), None);
        proof {
            vstd::arithmetic::div_mod::lemma_fundamental_div_mod(enc@.len() as int, mfs as int);
            assert(enc@.len() / (mfs as nat) >= 1) by (nonlinear_arith)
                requires
                    enc@.len() >= mfs,
                    mfs > 0,
            ;
        }
        let chunks = enc.len() / mfs - 1;
        proof {
            assert(mfs + chunks * mfs == enc@.len()) by (nonlinear_arith)
                requires
                    chunks == enc@.len() / (mfs as nat) - 1,
                    enc@.len() == mfs * (enc@.len() / (mfs as nat)),
            ;
        }
        push_cont_frames(&mut buff, stream_id, enc, mfs, mfs, chunks, fl);
        buff
    }
}

/// Cuts a promised header block into frames of at most `mfs` payload bytes
/// (see `push_frames_bytes`).
pub fn push_promise_frames(associate_id: u32, promise_id: u32, enc: &[u8], mfs: usize) -> (r: Vec<u8>)
    requires
        push_fit(enc@.len(), mfs as nat),
    ensures
        r@ == push_frames_bytes(associate_id, promise_id, enc@, mfs as nat),
{
    let id = u32_to_be(promise_id);
    let mut pay: Vec<u8> = Vec::new();
    crate::buf::push_all(&mut pay, &id);
    if enc.len() < mfs && mfs - enc.len() > 4 {
        crate::buf::push_all(&mut pay, enc);
        Http2Frame::create(Http2FrameType::PushPromise, 4, associate_id, None, Some(pay.as_slice()), None)
    } else {
        crate::buf::push_all(&mut pay, vstd::slice::slice_subrange(enc, 0, mfs - 4));
        let mut buff = Http2Frame::create(Http2FrameType::PushPromise, 0, associate_id, None, Some(pay.as_slice()), None);
        let q = enc.len() / mfs;
        proof {
            vstd::arithmetic::div_mod::lemma_fundamental_div_mod(enc@.len() as int, mfs as int);
            if enc@.len() % (mfs as nat) == 0 {
                assert(q >= 1) by (nonlinear_arith)
                    requires
                        enc@.len() == mfs * q + 0,
                        enc@.len() > 0,
                        mfs > 0,
                ;
            }
        }
        let chunks = if enc.len() % mfs == 0 { q - 1 } else { q };
        proof {
            let len = enc@.len() as int;
            let m = mfs as int;
            if len % m == 0 {
                assert(m - 4 + chunks * m <= len) by (nonlinear_arith)
                    requires
                        chunks == q - 1,
                        len == m * q,
                ;
            } else {
                assert(m - 4 + chunks * m <= len) by (nonlinear_arith)
                    requires
                        chunks == q,
                        len == m * q + len % m,
                        len % m + 4 >= m,
                ;
            }
        }
        push_cont_frames(&mut buff, associate_id, enc, mfs - 4, mfs, chunks, 4);
        buff
    }
}

} // verus!

verus! {

/// The largest frame payload the peer accepts (16384 unless it said otherwise).
pub open spec fn frame_limit(s: SessionState) -> nat {
    match s.settings.max_frame_size {
        Some(v) => v as nat,
        None => 16384,
    }
}

impl SessionState {
    /// The largest frame payload the peer accepts.
    pub fn max_frame_size(&self) -> (r: usize)
        ensures
            r == frame_limit(*self),
    {
        match self.settings.max_frame_size {
            Some(v) => v as usize,
            None => 16384,
        }
    }

    /// Every field but the stream table and the encoder is that of `o`.
    pub open spec fn same_but_streams_encoder(&self, o: SessionState) -> bool {
        &&& self.mode == o.mode
        &&& self.strict == o.strict
        &&& self.decoder == o.decoder
        &&& self.max_stream_id == o.max_stream_id
        &&& self.goaway == o.goaway
        &&& self.goaway_frame == o.goaway_frame
        &&& self.window == o.window
        &&& self.settings == o.settings
    }

    /// Why headers cannot be sent on a stream, if they cannot. A server (or
    /// an ambiguous session) answers on a known stream; a client (or an
    /// ambiguous session) opens an unknown one; a stream that already sent
    /// its headers or its end is closed to them.
    pub open spec fn headers_refusal(o: SessionState, stream_id: u32) -> Option<LibError> {
        let ov = o.streams_view();
        if ov.dom().contains(stream_id) && (o.mode is Server || o.mode is Ambiguous) {
            if ov[stream_id].self_end_head || ov[stream_id].self_end_body {
                Some(LibError::StreamClosed)
            } else {
                None
            }
        } else if !ov.dom().contains(stream_id) && (o.mode is Client || o.mode is Ambiguous) {
            None
        } else {
            Some(LibError::InvalidStream)
        }
    }

    /// The streams once headers are sent on `stream_id`: it records that its
    /// headers, and with `end` its body, are sent; an unknown stream is
    /// created for it first (as opened by this side).
    pub open spec fn headers_begun(o: SessionState, stream_id: u32, end: bool) -> Map<u32, StreamView> {
        let ov = o.streams_view();
        let s = if ov.dom().contains(stream_id) {
            ov[stream_id]
        } else {
            StreamView { new: false, ..empty_stream(stream_id, o.settings) }
        };
        ov.insert(stream_id, StreamView { self_end_head: true, self_end_body: end, ..s })
    }

    /// The state part of sending headers (see `begin_headers_rule`).
    pub fn begin_headers(&mut self, stream_id: u32, end: bool) -> (r: LibResult<()>)
        ensures
            match Self::headers_refusal(*old(self), stream_id) {
                Some(e) => r == Err::<(), LibError>(e) && final(self).streams_view() == old(self).streams_view(),
                None => r == Ok::<(), LibError>(()) && final(self).streams_view() == Self::headers_begun(
                    *old(self),
                    stream_id,
                    end,
                ),
            },
            final(self).same_but_streams(*old(self)),
    {
        let ghost ov = old(self).streams_view();
        let server_side = self.mode.is_server() || self.mode.is_ambiguous();
        let client_side = self.mode.is_client() || self.mode.is_ambiguous();
        match self.take_stream(stream_id) {
            Some(mut s) => {
                if !server_side || s.self_end_head || s.self_end_body {
                    let ghost sv = s@;
                    self.put_stream(stream_id, s);
                    assert(self.streams_view() =~= ov);
                    if !server_side {
                        return Err(LibError::InvalidStream);
                    }
                    return Err(LibError::StreamClosed);
                }
                s.self_end_head = true;
                s.self_end_body = end;
                let ghost sv = s@;
                self.put_stream(stream_id, s);
                assert(self.streams_view() =~= ov.insert(stream_id, sv));
                Ok(())
            },
            None => {
                if !client_side {
                    assert(self.streams_view() =~= ov);
                    return Err(LibError::InvalidStream);
                }
                let mut s = Http2Data::empty(stream_id, self.settings);
                s.new = false;
                s.self_end_head = true;
                s.self_end_body = end;
                let ghost sv = s@;
                self.put_stream(stream_id, s);
                assert(self.streams_view() =~= ov.insert(stream_id, sv));
                Ok(())
            },
        }
    }

    /// Encodes header fields, each as a Huffman-coded literal not added to
    /// the dynamic table, into one header block (see `literal_block`).
    /// Fails with the encoder's error, which fields under 2^30 bytes never
    /// meet.
    pub fn encode_headers(&mut self, headers: &[(&[u8], &[u8])]) -> (r: LibResult<Vec<u8>>)
        ensures
            final(self).same_but_streams_encoder(*old(self)),
            final(self).streams_view() == old(self).streams_view(),
            r is Err ==> r->Err_0 is Hpack,
            r matches Ok(b) ==> b@ == literal_block(field_views(headers@)),
            fields_short(field_views(headers@)) ==> r is Ok,
            fields_small(field_views(headers@)) ==> literals_framed(field_views(headers@)),
    {
        let mut buff: Vec<u8> = Vec::new();
        let mut i: usize = 0;
        let ghost fv = field_views(headers@);
        while i < headers.len()
            invariant
                i <= headers@.len(),
                fv == field_views(headers@),
                self.same_but_streams_encoder(*old(self)),
                self.streams_view() == old(self).streams_view(),
                buff@ == literal_block(fv.subrange(0, i as int)),
                fields_small(fv) ==> forall|j: int| 0 <= j < i ==> #[trigger] literal_framed(fv[j].0, fv[j].1, 3),
            decreases headers@.len() - i,
        {
            let (name, value) = headers[i];
            assert(fv[i as int] == (name@, value@));
            let ghost before = buff@;
            let res = self.encoder.encode(&mut buff, HeaderType::NotIndexed, name, value, None);
            match res {
                Ok(()) => {},
                Err(e) => {
                    proof {
                        if fields_short(fv) {
                            assert(fv[i as int].0.len() < 0x4000_0000);
                            assert(res is Ok);
                        }
                    }
                    return Err(LibError::Hpack(e));
                },
            }
            i = i + 1;
            assert(fv.subrange(0, i as int).drop_last() =~= fv.subrange(0, i - 1));
            assert(buff@ == before + hpack_literal(name@, value@, 3));
            proof {
                if fields_small(fv) {
                    assert(fv[i - 1].0.len() < 0x400_0000);
                    assert(literal_framed(fv[i - 1].0, fv[i - 1].1, 3));
                }
            }
        }
        assert(fv.subrange(0, i as int) =~= fv);
        Ok(buff)
    }

    /// Sends headers on a stream: the checks and state change of
    /// `begin_headers`, then the fields encoded into one block and cut into
    /// frames (see `header_frames`). `Ok(None)` when the block cannot be cut
    /// at the peer's frame size (see `headers_fit`).
    pub fn send_headers(&mut self, stream_id: u32, end: bool, headers: &[(&[u8], &[u8])]) -> (r: LibResult<
        Option<Vec<u8>>,
    >)
        ensures
            match Self::headers_refusal(*old(self), stream_id) {
                Some(e) => r == Err::<Option<Vec<u8>>, LibError>(e) && final(self).streams_view() == old(
                    self,
                ).streams_view(),
                None => (r is Err ==> r->Err_0 is Hpack && !fields_short(field_views(headers@)))
                    && final(self).streams_view() == Self::headers_begun(*old(self), stream_id, end),
            },
            final(self).same_but_streams_encoder(*old(self)),
            ({
                let blk = literal_block(field_views(headers@));
                &&& r matches Ok(Some(b)) ==> headers_fit(blk.len(), frame_limit(*old(self))) && b@
                    == header_frames_bytes(stream_id, end, blk, frame_limit(*old(self)))
                &&& r matches Ok(None) ==> !headers_fit(blk.len(), frame_limit(*old(self)))
                &&& r is Ok && fields_small(field_views(headers@)) ==> literals_framed(field_views(headers@))
            }),
    {
        let ghost o = *old(self);
        match self.begin_headers(stream_id, end) {
            Ok(()) => {},
            Err(e) => {
                return Err(e);
            },
        }
        let ghost mid = *self;
        let enc = match self.encode_headers(headers) {
            Ok(enc) => enc,
            Err(e) => {
                return Err(e);
            },
        };
        let mfs = self.max_frame_size();
        if enc.len() < mfs || (mfs > 0 && enc.len() % mfs == 0) {
            let b = header_frames(stream_id, end, enc.as_slice(), mfs);
            assert(headers_fit(enc@.len(), frame_limit(o)) && b@ == header_frames_bytes(
                stream_id,
                end,
                enc@,
                frame_limit(o),
            ));
            Ok(Some(b))
        } else {
            Ok(None)
        }
    }

    /// Why a push cannot be promised, if it cannot: a client cannot push,
    /// and the promised stream must be new while the associated one exists.
    pub open spec fn push_refusal(o: SessionState, associate_id: u32, promise_id: u32) -> Option<LibError> {
        let ov = o.streams_view();
        if o.mode is Client {
            Some(LibError::ProtocolError)
        } else if ov.dom().contains(promise_id) || !ov.dom().contains(associate_id) {
            Some(LibError::InvalidStream)
        } else {
            None
        }
    }

    /// The streams once a push is promised: the promised stream exists,
    /// associated with `associate_id`.
    pub open spec fn push_begun(o: SessionState, associate_id: u32, promise_id: u32) -> Map<u32, StreamView> {
        o.streams_view().insert(
            promise_id,
            StreamView { ascociated: Some(associate_id), ..empty_stream(promise_id, o.settings) },
        )
    }

    /// The state part of promising a push (see `push_refusal` and `push_begun`).
    pub fn begin_push_promise(&mut self, associate_id: u32, promise_id: u32) -> (r: LibResult<()>)
        ensures
            match Self::push_refusal(*old(self), associate_id, promise_id) {
                Some(e) => r == Err::<(), LibError>(e) && final(self).streams_view() == old(self).streams_view(),
                None => r == Ok::<(), LibError>(()) && final(self).streams_view() == Self::push_begun(
                    *old(self),
                    associate_id,
                    promise_id,
                ),
            },
            final(self).same_but_streams(*old(self)),
    {
        if self.mode.is_client() {
            return Err(LibError::ProtocolError);
        }
        if self.has_stream(promise_id) || !self.has_stream(associate_id) {
            return Err(LibError::InvalidStream);
        }
        let mut s = Http2Data::empty(promise_id, self.settings);
        s.ascociated = Some(associate_id);
        let ghost sv = s@;
        self.put_stream(promise_id, s);
        Ok(())
    }

    /// Promises a push: the checks and state change of
    /// `begin_push_promise`, then the fields encoded into one block and cut
    /// into frames (see `push_promise_frames`). `Ok(None)` when the block
    /// cannot be cut at the peer's frame size (see `push_fit`).
    pub fn send_push_promise(&mut self, associate_id: u32, promise_id: u32, headers: &[(&[u8], &[u8])]) -> (r:
        LibResult<Option<Vec<u8>>>)
        ensures
            match Self::push_refusal(*old(self), associate_id, promise_id) {
                Some(e) => r == Err::<Option<Vec<u8>>, LibError>(e) && final(self).streams_view() == old(
                    self,
                ).streams_view(),
                None => (r is Err ==> r->Err_0 is Hpack && !fields_short(field_views(headers@)))
                    && final(self).streams_view() == Self::push_begun(*old(self), associate_id, promise_id),
            },
            final(self).same_but_streams_encoder(*old(self)),
            ({
                let blk = literal_block(field_views(headers@));
                &&& r matches Ok(Some(b)) ==> push_fit(blk.len(), frame_limit(*old(self))) && b@ == push_frames_bytes(
                    associate_id,
                    promise_id,
                    blk,
                    frame_limit(*old(self)),
                )
                &&& r matches Ok(None) ==> !push_fit(blk.len(), frame_limit(*old(self)))
                &&& r is Ok && fields_small(field_views(headers@)) ==> literals_framed(field_views(headers@))
            }),
    {
        let ghost o = *old(self);
        match self.begin_push_promise(associate_id, promise_id) {
            Ok(()) => {},
            Err(e) => {
                return Err(e);
            },
        }
        let enc = match self.encode_headers(headers) {
            Ok(enc) => enc,
            Err(e) => {
                return Err(e);
            },
        };
        let mfs = self.max_frame_size();
        let n = enc.len();
        let fits = if n < mfs && mfs - n > 4 {
            true
        } else if mfs >= 4 {
            if n % mfs == 0 {
                n > 0
            } else {
                n % mfs >= mfs - 4
            }
        } else {
            false
        };
        if fits {
            let b = push_promise_frames(associate_id, promise_id, enc.as_slice(), mfs);
            assert(push_fit(enc@.len(), frame_limit(o)) && b@ == push_frames_bytes(
                associate_id,
                promise_id,
                enc@,
                frame_limit(o),
            ));
            Ok(Some(b))
        } else {
            Ok(None)
        }
    }
}

} // verus!

verus! {

/// A DATA frame carrying `buf[a..b]`, with END_STREAM when `end` and it
/// reaches the end of `buf`.
pub open spec fn data_frame(stream_id: u32, end: bool, buf: Seq<u8>, a: int, b: int) -> Seq<u8> {
    simple_frame(0, if end && b == buf.len() { 1 } else { 0 }, stream_id, buf.subrange(a, b))
}

/// DATA frames carrying `buf[pos..]`: `k` frames of `size` bytes, then one
/// of `rem` bytes.
pub open spec fn data_frames(stream_id: u32, end: bool, buf: Seq<u8>, pos: int, size: int, k: nat, rem: int) -> Seq<
    u8,
>
    decreases k,
{
    if k == 0 {
        data_frame(stream_id, end, buf, pos, pos + rem)
    } else {
        data_frame(stream_id, end, buf, pos, pos + size) + data_frames(
            stream_id,
            end,
            buf,
            pos + size,
            size,
            (k - 1) as nat,
            rem,
        )
    }
}

/// The DATA frames that send `n` bytes of `buf` from `pos`, cut at `mfs`.
pub open spec fn data_burst(stream_id: u32, end: bool, buf: Seq<u8>, pos: int, n: nat, mfs: nat) -> Seq<u8> {
    data_frames(stream_id, end, buf, pos, mfs as int, n / mfs, (n % mfs) as int)
}

/// The lone DATA frame that ends a stream with no body left to send.
pub open spec fn end_stream_bytes(stream_id: u32) -> Seq<u8> {
    frame_bytes(0, 1, stream_id, None, None, None)
}

/// The lone DATA frame that ends a stream with no body left to send.
pub fn end_stream_frame(stream_id: u32) -> (r: Vec<u8>)
    ensures
        r@ == end_stream_bytes(stream_id),
{
    Http2Frame::create(Http2FrameType::Data, 0x01, stream_id, None, None, None)
}

/// Appends the DATA frames of `data_frames`.
fn push_data_frames(
    buff: &mut Vec<u8>,
    stream_id: u32,
    end: bool,
    buf: &[u8],
    pos: usize,
    size: usize,
    k: usize,
    rem: usize,
)
    requires
        pos + k * size + rem <= buf@.len(),
    ensures
        final(buff)@ == old(buff)@ + data_frames(stream_id, end, buf@, pos as int, size as int, k as nat, rem as int),
{
    let ghost goal = old(buff)@ + data_frames(stream_id, end, buf@, pos as int, size as int, k as nat, rem as int);
    let n = buf.len();
    let mut pos = pos;
    let mut left = k;
    while left > 0
        invariant
            n == buf@.len(),
            pos + left * size + rem <= n,
            buff@ + data_frames(stream_id, end, buf@, pos as int, size as int, left as nat, rem as int) == goal,
        decreases left,
    {
        assert(left * size == (left - 1) * size + size) by (nonlinear_arith)
            requires
                left > 0,
        ;
        assert((left - 1) * size >= 0) by (nonlinear_arith)
            requires
                left > 0,
        ;
        let end_pos = pos + size;
        let flags: u8 = if end && end_pos == n { 1 } else { 0 };
        let f = Http2Frame::create(
            Http2FrameType::Data,
            flags,
            stream_id,
            None,
            Some(vstd::slice::slice_subrange(buf, pos, end_pos)),
            None,
        );
        let ghost before = buff@;
        crate::buf::push_all(buff, f.as_slice());
        assert(buff@ + data_frames(stream_id, end, buf@, end_pos as int, size as int, (left - 1) as nat, rem as int)
            =~= before + data_frames(stream_id, end, buf@, pos as int, size as int, left as nat, rem as int));
        pos = end_pos;
        left = left - 1;
    }
    let end_pos = pos + rem;
    let flags: u8 = if end && end_pos == n { 1 } else { 0 };
    let f = Http2Frame::create(
        Http2FrameType::Data,
        flags,
        stream_id,
        None,
        Some(vstd::slice::slice_subrange(buf, pos, end_pos)),
        None,
    );
    crate::buf::push_all(buff, f.as_slice());
}

/// What the sender waits for after a step of sending data.
#[derive(Debug, Clone, Copy, PartialEq, Eq, Structural)]
pub enum DataWait {
    /// Nothing: send the next step right away.
    Nothing,
    /// Credit for the stream's window.
    Stream,
    /// Credit for the connection's window.
    Session,
}

/// One step of sending data: the bytes to write, where the next step
/// starts, and what to wait for before it.
#[derive(Debug)]
pub struct DataStep {
    pub bytes: Vec<u8>,
    pub pos: usize,
    pub wait: DataWait,
}

/// The smallest of three numbers.
pub open spec fn min3(a: nat, b: nat, c: nat) -> nat {
    if a <= b && a <= c {
        a
    } else if b <= c {
        b
    } else {
        c
    }
}

impl SessionState {
    /// Why data cannot be sent on a stream, if it cannot: the stream must
    /// exist and have neither ended its body nor been reset.
    pub open spec fn data_refusal(o: SessionState, stream_id: u32) -> Option<LibError> {
        let ov = o.streams_view();
        if !ov.dom().contains(stream_id) {
            Some(LibError::InvalidStream)
        } else if ov[stream_id].self_end_body || ov[stream_id].reset {
            Some(LibError::StreamClosed)
        } else {
            None
        }
    }

    /// The state part of sending data: checks the stream (see
    /// `data_refusal`) and, with `end`, records that its body ends.
    pub fn begin_data(&mut self, stream_id: u32, end: bool) -> (r: LibResult<()>)
        ensures
            match Self::data_refusal(*old(self), stream_id) {
                Some(e) => r == Err::<(), LibError>(e) && final(self).streams_view() == old(self).streams_view(),
                None => r == Ok::<(), LibError>(()) && final(self).streams_view() == old(self).streams_view().insert(
                    stream_id,
                    StreamView { self_end_body: end, ..old(self).streams_view()[stream_id] },
                ),
            },
            final(self).same_but_streams(*old(self)),
    {
        let ghost ov = old(self).streams_view();
        match self.take_stream(stream_id) {
            None => {
                assert(self.streams_view() =~= ov);
                Err(LibError::InvalidStream)
            },
            Some(mut s) => {
                if s.self_end_body || s.reset {
                    let ghost sv = s@;
                    self.put_stream(stream_id, s);
                    assert(self.streams_view() =~= ov);
                    return Err(LibError::StreamClosed);
                }
                s.self_end_body = end;
                let ghost sv = s@;
                self.put_stream(stream_id, s);
                assert(self.streams_view() =~= ov.insert(stream_id, sv));
                Ok(())
            },
        }
    }

    /// How many bytes the next step of sending `len - pos` bytes on a
    /// stream may send: no more than is left and than either window allows.
    pub open spec fn data_quota(o: SessionState, stream_id: u32, len: nat, pos: nat) -> nat {
        min3((len - pos) as nat, o.window as nat, o.streams_view()[stream_id].window as nat)
    }

    /// One step of sending `buf` from `pos` on a stream. A reset stream is
    /// refused. Otherwise as many bytes as both windows allow (see
    /// `data_quota`) are taken from both windows and cut into DATA frames
    /// of at most `mfs` bytes (see `data_burst`), `mfs` being the peer's
    /// frame size limit as it stood when sending began; the step then waits
    /// for the stream's window if it is used up, else for the connection's
    /// if that is.
    pub fn data_step(&mut self, stream_id: u32, end: bool, buf: &[u8], pos: usize, mfs: usize) -> (r: LibResult<
        DataStep,
    >)
        requires
            pos < buf@.len(),
            old(self).streams_view().dom().contains(stream_id),
            mfs == 0 ==> Self::data_quota(*old(self), stream_id, buf@.len(), pos as nat) == 0,
        ensures
            ({
                let ov = old(self).streams_view();
                let s = ov[stream_id];
                let q = Self::data_quota(*old(self), stream_id, buf@.len(), pos as nat);
                if s.reset {
                    &&& r == Err::<DataStep, LibError>(LibError::ResetStream)
                    &&& final(self).streams_view() == ov
                    &&& final(self).window == old(self).window
                } else {
                    let sw = (s.window - q) as usize;
                    let cw = (old(self).window - q) as usize;
                    &&& r matches Ok(step)
                    &&& step.pos == pos + q
                    &&& step.bytes@ == (if q > 0 {
                        data_burst(stream_id, end, buf@, pos as int, q, mfs as nat)
                    } else {
                        Seq::empty()
                    })
                    &&& step.wait == (if sw == 0 {
                        DataWait::Stream
                    } else if cw == 0 {
                        DataWait::Session
                    } else {
                        DataWait::Nothing
                    })
                    &&& final(self).window == cw
                    &&& final(self).streams_view() == ov.insert(stream_id, StreamView { window: sw, ..s })
                }
            }),
            final(self).mode == old(self).mode,
            final(self).strict == old(self).strict,
            final(self).decoder == old(self).decoder,
            final(self).encoder == old(self).encoder,
            final(self).max_stream_id == old(self).max_stream_id,
            final(self).goaway == old(self).goaway,
            final(self).goaway_frame == old(self).goaway_frame,
            final(self).settings == old(self).settings,
    {
        let ghost ov = old(self).streams_view();
        let ghost o = *old(self);
        let mut s = match self.take_stream(stream_id) {
            Some(s) => s,
            None => {
                return Err(LibError::InvalidStream);
            },
        };
        if s.reset {
            let ghost sv = s@;
            self.put_stream(stream_id, s);
            assert(self.streams_view() =~= ov);
            return Err(LibError::ResetStream);
        }
        let left = buf.len() - pos;
        let mut max = left;
        if self.window < max {
            max = self.window;
        }
        if s.window < max {
            max = s.window;
        }
        assert(max == Self::data_quota(o, stream_id, buf@.len(), pos as nat));
        self.window = self.window - max;
        s.window = s.window - max;
        let sw = s.window;
        let cw = self.window;
        let ghost sv = s@;
        self.put_stream(stream_id, s);
        assert(self.streams_view() =~= ov.insert(stream_id, sv));
        let mut bytes: Vec<u8> = Vec::new();
        if max > 0 {
            let chunks = max / mfs;
            let rem = max % mfs;
            proof {
                vstd::arithmetic::div_mod::lemma_fundamental_div_mod(max as int, mfs as int);
                assert(chunks * mfs == mfs * chunks) by (nonlinear_arith);
            }
            push_data_frames(&mut bytes, stream_id, end, buf, pos, mfs, chunks, rem);
            assert(bytes@ =~= data_burst(stream_id, end, buf@, pos as int, max as nat, mfs as nat));
        }
        let wait = if sw == 0 {
            DataWait::Stream
        } else if cw == 0 {
            DataWait::Session
        } else {
            DataWait::Nothing
        };
        Ok(DataStep { bytes, pos: pos + max, wait })
    }
}

} // verus!
