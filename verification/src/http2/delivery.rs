//! What a frame one session writes does at the session that reads it.

use vstd::prelude::*;
use crate::http2::frame::{
    Http2Frame, Http2FrameType, Http2Settings, frame_bytes, frame_type_of, kept_parts, lemma_be32_of_u32_be,
    be32, lemma_create_then_parse, lemma_settings_roundtrip, settings_bytes, u32_be,
};
use crate::http2::hpack::{fields_small, literal_block, literals_framed};
use crate::http2::send::{
    cont_count, cont_frames, data_burst, data_frame, data_frames, header_frames_bytes, headers_fit, push_fit,
    push_frames_bytes, simple_frame,
};
use crate::http2::session::{
    ActionView, SessionState, StreamView, empty_stream, end_headers_flag, end_stream_flag, merge_settings, payload_of,
    ping_bytes, settings_ack_bytes, window_update_bytes,
};
use crate::shared::{LibError, LibResult};

verus! {

/// A frame with only a payload, read back: its type, flags, stream and payload.
pub proof fn lemma_simple_frame_read_back(type_byte: u8, flags: u8, stream_id: u32, payload: Seq<u8>, f: Http2Frame)
    requires
        flags & 0x28 == 0,
        payload.len() < 16777216,
        f.parsed_from(simple_frame(type_byte, flags, stream_id, payload)),
    ensures
        f.ftype == frame_type_of(type_byte),
        f.flags == flags,
        f.stream_id == stream_id,
        f.length == payload.len(),
        f.range_ok(f.payload),
        payload_of(f) == payload,
{
    let src = simple_frame(type_byte, flags, stream_id, payload);
    assert(kept_parts(None, Some(payload), None) == (None::<Seq<u8>>, Some(payload), None::<Seq<u8>>));
    lemma_create_then_parse(type_byte, flags, stream_id, None, Some(payload), None, f);
    assert(src[4] == (flags | 0u8 | 0u8));
    assert((flags | 0u8 | 0u8) == flags) by (bit_vector);
}

/// A DATA frame written for a stream the reader knows appends its payload
/// to the stream's body, ends the body when it carries END_STREAM, wakes
/// the body's readers and credits both windows back.
pub proof fn lemma_data_delivered(
    flags: u8,
    stream_id: u32,
    payload: Seq<u8>,
    f: Http2Frame,
    o: SessionState,
    n: SessionState,
    r: LibResult<Option<u32>>,
    acts: Seq<ActionView>,
)
    requires
        flags & 0x28 == 0,
        payload.len() < 16777216,
        f.parsed_from(simple_frame(0, flags, stream_id, payload)),
        o.streams_view().dom().contains(stream_id),
        SessionState::frame_rule(o.seen(f.stream_id), n, f, r, acts),
    ensures
        n.streams_view()[stream_id].body == o.streams_view()[stream_id].body + payload,
        n.streams_view()[stream_id].end_body == (o.streams_view()[stream_id].end_body || flags & 0x01 != 0),
        r == Ok::<Option<u32>, LibError>(None),
        acts == seq![
            ActionView::BodyReceived(stream_id),
            ActionView::Write(window_update_bytes(0, payload.len() as u32)),
            ActionView::Write(window_update_bytes(stream_id, payload.len() as u32)),
        ],
{
    lemma_simple_frame_read_back(0, flags, stream_id, payload, f);
    assert(o.seen(f.stream_id).streams_view() == o.streams_view());
}

/// How many frames carry a header block of `len` bytes cut at `mfs` (see
/// `header_frames_bytes`).
pub open spec fn header_piece_count(len: nat, mfs: nat) -> nat {
    if len < mfs {
        1
    } else {
        len / mfs + 1
    }
}

/// Frame `i` of those that carry a header block that can be cut at `mfs`
/// (see `headers_fit`): a whole block in one HEADERS frame; else a
/// HEADERS frame and CONTINUATION frames of `mfs` bytes, and an empty
/// last CONTINUATION frame with the flags.
pub open spec fn header_piece(stream_id: u32, end: bool, blk: Seq<u8>, mfs: nat, i: nat) -> Seq<u8> {
    let fl: u8 = if end { 5 } else { 4 };
    if blk.len() < mfs {
        simple_frame(1, fl, stream_id, blk)
    } else if i == 0 {
        simple_frame(1, 0, stream_id, blk.subrange(0, mfs as int))
    } else if i < blk.len() / mfs {
        simple_frame(9, 0, stream_id, blk.subrange(((i * mfs) as int), (((i + 1) * mfs) as int)))
    } else {
        simple_frame(9, fl, stream_id, Seq::empty())
    }
}

/// The frames carrying a header block, from frame `i` on.
pub open spec fn header_pieces(stream_id: u32, end: bool, blk: Seq<u8>, mfs: nat, i: nat) -> Seq<u8>
    decreases header_piece_count(blk.len(), mfs) - i,
{
    if i >= header_piece_count(blk.len(), mfs) {
        Seq::empty()
    } else {
        header_piece(stream_id, end, blk, mfs, i) + header_pieces(stream_id, end, blk, mfs, i + 1)
    }
}

proof fn lemma_cont_pieces(stream_id: u32, end: bool, blk: Seq<u8>, mfs: nat, j: nat)
    requires
        mfs > 0,
        blk.len() >= mfs,
        blk.len() % mfs == 0,
        1 <= j <= blk.len() / mfs,
    ensures
        cont_frames(stream_id, blk, ((j * mfs) as int), mfs as int, (blk.len() / mfs - j) as nat, if end { 5u8 } else { 4u8 })
            == header_pieces(stream_id, end, blk, mfs, j),
    decreases blk.len() / mfs - j,
{
    let q = blk.len() / mfs;
    let fl: u8 = if end { 5 } else { 4 };
    vstd::arithmetic::div_mod::lemma_fundamental_div_mod(blk.len() as int, mfs as int);
    if j == q {
        assert(((q * mfs) as int) == blk.len()) by (nonlinear_arith)
            requires
                blk.len() == mfs * q + blk.len() % mfs,
                blk.len() % mfs == 0,
        ;
        assert(blk.subrange(((j * mfs) as int), blk.len() as int) =~= Seq::<u8>::empty());
        assert(header_pieces(stream_id, end, blk, mfs, j + 1) == Seq::<u8>::empty());
        assert(header_pieces(stream_id, end, blk, mfs, j) =~= header_piece(stream_id, end, blk, mfs, j));
    } else {
        assert(((j * mfs) as int) + mfs == (((j + 1) * mfs) as int)) by (nonlinear_arith);
        lemma_cont_pieces(stream_id, end, blk, mfs, j + 1);
    }
}

/// The bytes `header_frames_bytes` gives for a block that can be cut are
/// its frames one after the other (see `header_piece`).
pub proof fn lemma_header_frames_split(stream_id: u32, end: bool, blk: Seq<u8>, mfs: nat)
    requires
        headers_fit(blk.len(), mfs),
    ensures
        header_frames_bytes(stream_id, end, blk, mfs) == header_pieces(stream_id, end, blk, mfs, 0),
{
    if blk.len() < mfs {
        assert(header_pieces(stream_id, end, blk, mfs, 1) == Seq::<u8>::empty());
        assert(header_pieces(stream_id, end, blk, mfs, 0) =~= header_piece(stream_id, end, blk, mfs, 0));
    } else {
        assert(blk.len() / mfs >= 1) by (nonlinear_arith)
            requires
                blk.len() >= mfs,
                mfs > 0,
        ;
        lemma_cont_pieces(stream_id, end, blk, mfs, 1);
        assert(((1 * mfs) as int) == mfs);
    }
}

/// The stream as a reader has it before a header block: the known one, or
/// a new one.
pub open spec fn stream_before_headers(o: SessionState, stream_id: u32) -> StreamView {
    if o.streams_view().dom().contains(stream_id) {
        o.streams_view()[stream_id]
    } else {
        empty_stream(stream_id, o.settings)
    }
}

/// The known stream is taking a pushed header block, which CONTINUATION
/// frames on it go to.
pub open spec fn promising_elsewhere(o: SessionState, stream_id: u32) -> bool {
    o.streams_view()[stream_id].promising matches Some(p) && p != stream_id && o.streams_view().dom().contains(p)
}

/// A reader in states `states` handled `frames`, the frames carrying a
/// header block `blk` cut at `mfs`, one after the other, with results
/// `rs` and actions `acts`.
#[verifier::opaque]
pub open spec fn header_frames_handled(
    stream_id: u32,
    end: bool,
    blk: Seq<u8>,
    mfs: nat,
    frames: Seq<Http2Frame>,
    states: Seq<SessionState>,
    rs: Seq<LibResult<Option<u32>>>,
    acts: Seq<Seq<ActionView>>,
) -> bool {
    &&& frames.len() == header_piece_count(blk.len(), mfs)
    &&& states.len() == frames.len() + 1
    &&& rs.len() == frames.len()
    &&& acts.len() == frames.len()
    &&& forall|i: int|
        #![trigger frames[i]]
        0 <= i < frames.len() ==> frames[i].parsed_from(header_piece(stream_id, end, blk, mfs, i as nat))
            && SessionState::frame_rule(states[i].seen(frames[i].stream_id), states[i + 1], frames[i], rs[i], acts[i])
}

/// What handling frame `i` of a header block was.
proof fn lemma_handled_at(
    stream_id: u32,
    end: bool,
    blk: Seq<u8>,
    mfs: nat,
    frames: Seq<Http2Frame>,
    states: Seq<SessionState>,
    rs: Seq<LibResult<Option<u32>>>,
    acts: Seq<Seq<ActionView>>,
    i: int,
)
    requires
        header_frames_handled(stream_id, end, blk, mfs, frames, states, rs, acts),
        0 <= i < header_piece_count(blk.len(), mfs),
    ensures
        frames.len() == header_piece_count(blk.len(), mfs),
        states.len() == frames.len() + 1,
        rs.len() == frames.len(),
        acts.len() == frames.len(),
        frames[i].parsed_from(header_piece(stream_id, end, blk, mfs, i as nat)),
        SessionState::frame_rule(states[i].seen(frames[i].stream_id), states[i + 1], frames[i], rs[i], acts[i]),
{
    reveal(header_frames_handled);
}

/// A frame carrying part of a header block, read back.
proof fn lemma_piece_read_back(stream_id: u32, end: bool, blk: Seq<u8>, mfs: nat, i: nat, f: Http2Frame)
    requires
        headers_fit(blk.len(), mfs),
        blk.len() < 16777216,
        i < header_piece_count(blk.len(), mfs),
        f.parsed_from(header_piece(stream_id, end, blk, mfs, i)),
    ensures
        f.stream_id == stream_id,
        f.range_ok(f.payload),
        blk.len() < mfs ==> {
            &&& f.ftype == Http2FrameType::Headers
            &&& end_headers_flag(f)
            &&& end_stream_flag(f) == end
            &&& payload_of(f) == blk
        },
        blk.len() >= mfs && i == 0 ==> {
            &&& f.ftype == Http2FrameType::Headers
            &&& !end_headers_flag(f)
            &&& !end_stream_flag(f)
            &&& payload_of(f) == blk.subrange(0, mfs as int)
        },
        blk.len() >= mfs && 0 < i < blk.len() / mfs ==> {
            &&& f.ftype == Http2FrameType::Continuation
            &&& !end_headers_flag(f)
            &&& !end_stream_flag(f)
            &&& payload_of(f) == blk.subrange(((i * mfs) as int), (((i + 1) * mfs) as int))
        },
        blk.len() >= mfs && i == blk.len() / mfs ==> {
            &&& f.ftype == Http2FrameType::Continuation
            &&& end_headers_flag(f)
            &&& end_stream_flag(f) == end
            &&& payload_of(f) == Seq::<u8>::empty()
        },
{
    let fl: u8 = if end { 5 } else { 4 };
    assert((5u8 & 0x28) == 0 && (4u8 & 0x28) == 0 && (0u8 & 0x28) == 0) by (bit_vector);
    assert((5u8 & 0x04) != 0 && (4u8 & 0x04) != 0 && (5u8 & 0x01) != 0 && (4u8 & 0x01) == 0) by (bit_vector);
    assert((0u8 & 0x04) == 0 && (0u8 & 0x01) == 0) by (bit_vector);
    if blk.len() >= mfs {
        assert(blk.len() / mfs >= 1) by (nonlinear_arith)
            requires
                blk.len() >= mfs,
                mfs > 0,
        ;
    }
    if blk.len() < mfs {
        lemma_simple_frame_read_back(1, fl, stream_id, blk, f);
    } else if i == 0 {
        lemma_simple_frame_read_back(1, 0, stream_id, blk.subrange(0, mfs as int), f);
    } else if i < blk.len() / mfs {
        assert((((i + 1) * mfs) as int) <= blk.len()) by (nonlinear_arith)
            requires
                i + 1 <= blk.len() / mfs,
                mfs > 0,
        {
            vstd::arithmetic::div_mod::lemma_fundamental_div_mod(blk.len() as int, mfs as int);
            assert((((i + 1) * mfs) as int) <= (blk.len() / mfs) * mfs);
        }
        assert(((i * mfs) as int) <= (((i + 1) * mfs) as int)) by (nonlinear_arith);
        lemma_simple_frame_read_back(9, 0, stream_id, blk.subrange(((i * mfs) as int), (((i + 1) * mfs) as int)), f);
    } else {
        lemma_simple_frame_read_back(9, fl, stream_id, Seq::empty(), f);
    }
}

/// A HEADERS frame without END_HEADERS or END_STREAM starts the pending block.
proof fn lemma_first_piece_step(
    o: SessionState,
    n: SessionState,
    f: Http2Frame,
    r: LibResult<Option<u32>>,
    acts: Seq<ActionView>,
)
    requires
        f.ftype == Http2FrameType::Headers,
        !end_headers_flag(f),
        !end_stream_flag(f),
        !o.streams_view().dom().contains(f.stream_id) ==> (o.mode is Server || o.mode is Ambiguous),
        o.streams_view().dom().contains(f.stream_id) ==> (o.mode is Client || o.mode is Ambiguous)
            && o.streams_view()[f.stream_id].head.len() == 0,
        SessionState::frame_rule(o.seen(f.stream_id), n, f, r, acts),
    ensures
        n.streams_view() == o.streams_view().insert(
            f.stream_id,
            StreamView { head: payload_of(f), ..stream_before_headers(o, f.stream_id) },
        ),
        r == Ok::<Option<u32>, LibError>(None),
        n.mode == o.mode,
        n.settings == o.settings,
{
    assert(o.seen(f.stream_id).streams_view() == o.streams_view());
    assert(Seq::<u8>::empty() + payload_of(f) =~= payload_of(f));
    if o.streams_view().dom().contains(f.stream_id) {
        assert(n.streams_view() =~= o.streams_view().insert(
            f.stream_id,
            StreamView { head: payload_of(f), ..stream_before_headers(o, f.stream_id) },
        ));
    }
}

/// A CONTINUATION frame without END_HEADERS or END_STREAM, on a stream not
/// taking a pushed block, adds to the pending block.
proof fn lemma_middle_piece_step(
    o: SessionState,
    n: SessionState,
    f: Http2Frame,
    r: LibResult<Option<u32>>,
    acts: Seq<ActionView>,
)
    requires
        f.ftype == Http2FrameType::Continuation,
        !end_headers_flag(f),
        !end_stream_flag(f),
        o.streams_view().dom().contains(f.stream_id),
        !promising_elsewhere(o, f.stream_id),
        SessionState::frame_rule(o.seen(f.stream_id), n, f, r, acts),
    ensures
        n.streams_view() == o.streams_view().insert(
            f.stream_id,
            StreamView { head: o.streams_view()[f.stream_id].head + payload_of(f), ..o.streams_view()[f.stream_id] },
        ),
        r == Ok::<Option<u32>, LibError>(None),
        n.mode == o.mode,
        n.settings == o.settings,
{
    assert(o.seen(f.stream_id).streams_view() == o.streams_view());
    assert(n.streams_view() =~= o.streams_view().insert(
        f.stream_id,
        StreamView { head: o.streams_view()[f.stream_id].head + payload_of(f), ..o.streams_view()[f.stream_id] },
    ));
}

/// After the first `j` frames of a block cut in several, the reader's
/// stream holds the first `j` pieces as its pending block.
proof fn lemma_header_pieces_progress(
    stream_id: u32,
    end: bool,
    fields: Seq<(Seq<u8>, Seq<u8>)>,
    mfs: nat,
    frames: Seq<Http2Frame>,
    states: Seq<SessionState>,
    rs: Seq<LibResult<Option<u32>>>,
    acts: Seq<Seq<ActionView>>,
    j: nat,
)
    requires
        headers_fit(literal_block(fields).len(), mfs),
        literal_block(fields).len() < 16777216,
        literal_block(fields).len() >= mfs,
        header_frames_handled(stream_id, end, literal_block(fields), mfs, frames, states, rs, acts),
        !states[0].streams_view().dom().contains(stream_id) ==> (states[0].mode is Server
            || states[0].mode is Ambiguous),
        states[0].streams_view().dom().contains(stream_id) ==> {
            &&& states[0].mode is Client || states[0].mode is Ambiguous
            &&& states[0].streams_view()[stream_id].head.len() == 0
            &&& !promising_elsewhere(states[0], stream_id)
        },
        1 <= j <= literal_block(fields).len() / mfs,
    ensures
        states[j as int].streams_view() == states[0].streams_view().insert(
            stream_id,
            StreamView {
                head: literal_block(fields).subrange(0, ((j * mfs) as int)),
                ..stream_before_headers(states[0], stream_id)
            },
        ),
        states[j as int].mode == states[0].mode,
        states[j as int].settings == states[0].settings,
        forall|i: int| 0 <= i < j ==> rs[i] == Ok::<Option<u32>, LibError>(None),
    decreases j,
{
    let blk = literal_block(fields);
    let o = states[0];
    let ov = o.streams_view();
    let base = stream_before_headers(o, stream_id);
    if j == 1 {
        lemma_handled_at(stream_id, end, blk, mfs, frames, states, rs, acts, 0);
        let f = frames[0];
        lemma_piece_read_back(stream_id, end, blk, mfs, 0, f);
        lemma_first_piece_step(o, states[1], f, rs[0], acts[0]);
        assert(((1 * mfs) as int) == mfs);
    } else {
        let k = (j - 1) as nat;
        lemma_header_pieces_progress(stream_id, end, fields, mfs, frames, states, rs, acts, k);
        assert(k < header_piece_count(blk.len(), mfs));
        lemma_handled_at(stream_id, end, blk, mfs, frames, states, rs, acts, k as int);
        let f = frames[k as int];
        lemma_piece_read_back(stream_id, end, blk, mfs, k, f);
        let sk = states[k as int];
        assert(sk.streams_view()[stream_id] == StreamView {
            head: blk.subrange(0, ((k * mfs) as int)),
            ..base
        });
        assert(!promising_elsewhere(sk, stream_id)) by {
            if ov.dom().contains(stream_id) {
                if let Some(p) = ov[stream_id].promising {
                    if p != stream_id {
                        assert(sk.streams_view().dom().contains(p) == ov.dom().contains(p));
                    }
                }
            } else {
                assert(sk.streams_view()[stream_id].promising is None);
            }
        }
        lemma_middle_piece_step(sk, states[j as int], f, rs[k as int], acts[k as int]);
        assert(j == k + 1);
        assert(((k * mfs) as int) <= ((j * mfs) as int)) by (nonlinear_arith)
            requires
                k <= j,
        ;
        assert(((j * mfs) as int) <= blk.len()) by (nonlinear_arith)
            requires
                j <= blk.len() / mfs,
                mfs > 0,
        {
            vstd::arithmetic::div_mod::lemma_fundamental_div_mod(blk.len() as int, mfs as int);
            assert(j * mfs <= (blk.len() / mfs) * mfs);
        }
        assert(((k * mfs) as int) + mfs == ((j * mfs) as int)) by (nonlinear_arith)
            requires
                j == k + 1,
        ;
        assert(blk.subrange(0, ((k * mfs) as int)) + blk.subrange(((k * mfs) as int), ((j * mfs) as int))
            =~= blk.subrange(0, ((j * mfs) as int)));
        assert(states[j as int].streams_view() =~= ov.insert(
            stream_id,
            StreamView { head: blk.subrange(0, ((j * mfs) as int)), ..base },
        ));
    }
}

/// The header fields that `send_headers` writes (each name and value under
/// 2^26 bytes, the block under 2^24 bytes) reach the reader whole, in one
/// frame or cut into several: on a stream the reader does not know, a
/// server opens the stream with exactly those fields; on a stream it knows
/// with no block under way, a client appends them to the stream's fields.
/// Either way the head is complete and the body ends if the sender ended
/// the stream; only the last frame reports anything.
#[verifier::rlimit(40)]
pub proof fn lemma_headers_delivered(
    stream_id: u32,
    end: bool,
    fields: Seq<(Seq<u8>, Seq<u8>)>,
    mfs: nat,
    frames: Seq<Http2Frame>,
    states: Seq<SessionState>,
    rs: Seq<LibResult<Option<u32>>>,
    acts: Seq<Seq<ActionView>>,
)
    requires
        fields_small(fields),
        literals_framed(fields),
        headers_fit(literal_block(fields).len(), mfs),
        literal_block(fields).len() < 16777216,
        header_frames_handled(stream_id, end, literal_block(fields), mfs, frames, states, rs, acts),
        !states[0].streams_view().dom().contains(stream_id) ==> (states[0].mode is Server
            || states[0].mode is Ambiguous),
        states[0].streams_view().dom().contains(stream_id) ==> {
            &&& states[0].mode is Client || states[0].mode is Ambiguous
            &&& states[0].streams_view()[stream_id].head.len() == 0
            &&& frames.len() > 1 ==> !promising_elsewhere(states[0], stream_id)
        },
    ensures
        ({
            let o = states[0];
            let ov = o.streams_view();
            let base = stream_before_headers(o, stream_id);
            let sv = states.last().streams_view()[stream_id];
            &&& states.last().streams_view() == ov.insert(stream_id, sv)
            &&& sv.headers == base.headers + fields
            &&& sv.end_head
            &&& sv.end_body == (base.end_body || end)
            &&& sv.head.len() == 0
            &&& rs.last() == (if !ov.dom().contains(stream_id) || (frames.len() > 1 && base.new) {
                Ok::<Option<u32>, LibError>(Some(stream_id))
            } else {
                Ok::<Option<u32>, LibError>(None)
            })
            &&& forall|i: int| 0 <= i < rs.len() - 1 ==> rs[i] == Ok::<Option<u32>, LibError>(None)
        }),
{
    let blk = literal_block(fields);
    let o = states[0];
    let ov = o.streams_view();
    let base = stream_before_headers(o, stream_id);
    lemma_handled_at(stream_id, end, blk, mfs, frames, states, rs, acts, 0);
    let last = (frames.len() - 1) as nat;
    lemma_handled_at(stream_id, end, blk, mfs, frames, states, rs, acts, last as int);
    let f = frames[last as int];
    lemma_piece_read_back(stream_id, end, blk, mfs, last, f);
    if blk.len() < mfs {
        assert(o.seen(f.stream_id).streams_view() == ov);
        assert(Seq::<u8>::empty() + blk =~= blk);
        assert(Seq::<(Seq<u8>, Seq<u8>)>::empty() + fields =~= fields);
        assert(states.last() == states[1]);
        let n = states[1];
        assert(n.streams_view() =~= ov.insert(stream_id, n.streams_view()[stream_id]));
    } else {
        let q = blk.len() / mfs;
        assert(blk.len() / mfs >= 1) by (nonlinear_arith)
            requires
                blk.len() >= mfs,
                mfs > 0,
        ;
        lemma_header_pieces_progress(stream_id, end, fields, mfs, frames, states, rs, acts, q);
        let sq = states[q as int];
        assert(sq.seen(f.stream_id).streams_view() == sq.streams_view());
        vstd::arithmetic::div_mod::lemma_fundamental_div_mod(blk.len() as int, mfs as int);
        assert(((q * mfs) as int) == blk.len()) by (nonlinear_arith)
            requires
                blk.len() == mfs * q + blk.len() % mfs,
                blk.len() % mfs == 0,
        ;
        assert(blk.subrange(0, ((q * mfs) as int)) + Seq::<u8>::empty() =~= blk);
        assert(states.last() == states[(q + 1) as int]);
        let n = states[(q + 1) as int];
        assert(n.streams_view() =~= ov.insert(stream_id, n.streams_view()[stream_id]));
    }
}

/// Where the promised block's piece `i` ends: the PUSH_PROMISE frame
/// carries `mfs - 4` bytes of it, each CONTINUATION frame before the last
/// `mfs`.
pub open spec fn push_off(mfs: nat, i: nat) -> int {
    mfs - 4 + ((i * mfs) as int)
}

/// How many frames carry a promised block of `len` bytes cut at `mfs`
/// (see `push_frames_bytes`).
pub open spec fn push_piece_count(len: nat, mfs: nat) -> nat {
    if len + 4 < mfs {
        1
    } else {
        cont_count(len, mfs) + 2
    }
}

/// Frame `i` of those that promise a stream with a block that can be cut
/// at `mfs` (see `push_fit`): the PUSH_PROMISE frame with the promised id
/// and the start of the block, then CONTINUATION frames, the last one with
/// END_HEADERS.
pub open spec fn push_piece(associate_id: u32, promise_id: u32, blk: Seq<u8>, mfs: nat, i: nat) -> Seq<u8> {
    let k = cont_count(blk.len(), mfs);
    if blk.len() + 4 < mfs {
        simple_frame(5, 4, associate_id, u32_be(promise_id) + blk)
    } else if i == 0 {
        simple_frame(5, 0, associate_id, u32_be(promise_id) + blk.subrange(0, mfs - 4))
    } else if i <= k {
        simple_frame(9, 0, associate_id, blk.subrange(push_off(mfs, (i - 1) as nat), push_off(mfs, i)))
    } else {
        simple_frame(9, 4, associate_id, blk.subrange(push_off(mfs, k), blk.len() as int))
    }
}

/// The frames promising a stream, from frame `i` on.
pub open spec fn push_pieces(associate_id: u32, promise_id: u32, blk: Seq<u8>, mfs: nat, i: nat) -> Seq<u8>
    decreases push_piece_count(blk.len(), mfs) - i,
{
    if i >= push_piece_count(blk.len(), mfs) {
        Seq::empty()
    } else {
        push_piece(associate_id, promise_id, blk, mfs, i) + push_pieces(associate_id, promise_id, blk, mfs, i + 1)
    }
}

/// The offsets of the pieces of a promised block that is cut in several.
proof fn lemma_push_offsets(len: nat, mfs: nat, i: nat)
    requires
        len + 4 >= mfs,
        push_fit(len, mfs),
        i <= cont_count(len, mfs),
    ensures
        mfs >= 4,
        push_off(mfs, 0) == mfs - 4,
        0 <= push_off(mfs, i) <= push_off(mfs, cont_count(len, mfs)) <= len,
        push_off(mfs, i) + mfs == push_off(mfs, i + 1),
        i > 0 ==> push_off(mfs, (i - 1) as nat) + mfs == push_off(mfs, i),
        len - push_off(mfs, cont_count(len, mfs)) <= 4,
{
    let m: int = mfs as int;
    let qq: int = (len / mfs) as int;
    let rr: int = (len % mfs) as int;
    let k: int = cont_count(len, mfs) as int;
    let ii: int = i as int;
    vstd::arithmetic::div_mod::lemma_fundamental_div_mod(len as int, m);
    assert(len == m * qq + rr);
    assert(0 <= rr < m);
    assert(0 * m == 0) by (nonlinear_arith);
    assert(ii * m <= k * m) by (nonlinear_arith)
        requires
            ii <= k,
            m > 0,
    ;
    assert(ii * m >= 0) by (nonlinear_arith)
        requires
            ii >= 0,
            m > 0,
    ;
    assert(ii * m + m == (ii + 1) * m) by (nonlinear_arith);
    if i > 0 {
        assert((ii - 1) * m + m == ii * m) by (nonlinear_arith);
    }
    if rr == 0 {
        assert(qq >= 1) by (nonlinear_arith)
            requires
                len == m * qq + rr,
                rr == 0,
                len > 0,
                m > 0,
        ;
        assert(k == qq - 1);
        assert(m - 4 + k * m == len - 4) by (nonlinear_arith)
            requires
                k == qq - 1,
                len == m * qq,
        ;
    } else {
        assert(k == qq);
        assert(m - 4 + k * m == len - rr + m - 4) by (nonlinear_arith)
            requires
                k == qq,
                len == m * qq + rr,
        ;
    }
}

proof fn lemma_push_cont_pieces(associate_id: u32, promise_id: u32, blk: Seq<u8>, mfs: nat, j: nat)
    requires
        blk.len() + 4 >= mfs,
        push_fit(blk.len(), mfs),
        1 <= j <= cont_count(blk.len(), mfs) + 1,
    ensures
        cont_frames(
            associate_id,
            blk,
            push_off(mfs, (j - 1) as nat),
            mfs as int,
            (cont_count(blk.len(), mfs) + 1 - j) as nat,
            4,
        ) == push_pieces(associate_id, promise_id, blk, mfs, j),
    decreases cont_count(blk.len(), mfs) + 1 - j,
{
    let k = cont_count(blk.len(), mfs);
    lemma_push_offsets(blk.len(), mfs, (j - 1) as nat);
    if j == k + 1 {
        assert(push_pieces(associate_id, promise_id, blk, mfs, j + 1) == Seq::<u8>::empty());
        assert(push_pieces(associate_id, promise_id, blk, mfs, j) =~= push_piece(associate_id, promise_id, blk, mfs, j));
    } else {
        lemma_push_offsets(blk.len(), mfs, j);
        lemma_push_cont_pieces(associate_id, promise_id, blk, mfs, j + 1);
    }
}

/// The bytes `push_frames_bytes` gives for a block that can be cut are its
/// frames one after the other (see `push_piece`).
pub proof fn lemma_push_frames_split(associate_id: u32, promise_id: u32, blk: Seq<u8>, mfs: nat)
    requires
        push_fit(blk.len(), mfs),
    ensures
        push_frames_bytes(associate_id, promise_id, blk, mfs) == push_pieces(associate_id, promise_id, blk, mfs, 0),
{
    if blk.len() + 4 < mfs {
        assert(push_pieces(associate_id, promise_id, blk, mfs, 1) == Seq::<u8>::empty());
        assert(push_pieces(associate_id, promise_id, blk, mfs, 0) =~= push_piece(associate_id, promise_id, blk, mfs, 0));
    } else {
        lemma_push_offsets(blk.len(), mfs, 0);
        lemma_push_cont_pieces(associate_id, promise_id, blk, mfs, 1);
    }
}

/// A reader in states `states` handled `frames`, the frames promising
/// stream `promise_id` with block `blk` cut at `mfs`, one after the other,
/// with results `rs` and actions `acts`.
#[verifier::opaque]
pub open spec fn push_frames_handled(
    associate_id: u32,
    promise_id: u32,
    blk: Seq<u8>,
    mfs: nat,
    frames: Seq<Http2Frame>,
    states: Seq<SessionState>,
    rs: Seq<LibResult<Option<u32>>>,
    acts: Seq<Seq<ActionView>>,
) -> bool {
    &&& frames.len() == push_piece_count(blk.len(), mfs)
    &&& states.len() == frames.len() + 1
    &&& rs.len() == frames.len()
    &&& acts.len() == frames.len()
    &&& forall|i: int|
        #![trigger frames[i]]
        0 <= i < frames.len() ==> frames[i].parsed_from(push_piece(associate_id, promise_id, blk, mfs, i as nat))
            && SessionState::frame_rule(states[i].seen(frames[i].stream_id), states[i + 1], frames[i], rs[i], acts[i])
}

/// What handling frame `i` of a promise was.
proof fn lemma_push_handled_at(
    associate_id: u32,
    promise_id: u32,
    blk: Seq<u8>,
    mfs: nat,
    frames: Seq<Http2Frame>,
    states: Seq<SessionState>,
    rs: Seq<LibResult<Option<u32>>>,
    acts: Seq<Seq<ActionView>>,
    i: int,
)
    requires
        push_frames_handled(associate_id, promise_id, blk, mfs, frames, states, rs, acts),
        0 <= i < push_piece_count(blk.len(), mfs),
    ensures
        frames.len() == push_piece_count(blk.len(), mfs),
        states.len() == frames.len() + 1,
        rs.len() == frames.len(),
        acts.len() == frames.len(),
        frames[i].parsed_from(push_piece(associate_id, promise_id, blk, mfs, i as nat)),
        SessionState::frame_rule(states[i].seen(frames[i].stream_id), states[i + 1], frames[i], rs[i], acts[i]),
{
    reveal(push_frames_handled);
}

/// The streams while a promise is under way: the promised stream holds
/// `part` of the block, and the associated one points to it.
pub open spec fn promise_pending(o: SessionState, associate_id: u32, promise_id: u32, part: Seq<u8>) -> Map<
    u32,
    StreamView,
> {
    o.streams_view().insert(
        promise_id,
        StreamView { promise: part, ..empty_stream(promise_id, o.settings) },
    ).insert(associate_id, StreamView { promising: Some(promise_id), ..o.streams_view()[associate_id] })
}

/// The PUSH_PROMISE frame of a promise cut in several frames starts it.
proof fn lemma_push_first_step(
    associate_id: u32,
    promise_id: u32,
    part: Seq<u8>,
    o: SessionState,
    n: SessionState,
    f: Http2Frame,
    r: LibResult<Option<u32>>,
    acts: Seq<ActionView>,
)
    requires
        f.ftype == Http2FrameType::PushPromise,
        f.stream_id == associate_id,
        !end_headers_flag(f),
        !end_stream_flag(f),
        payload_of(f) == u32_be(promise_id) + part,
        o.mode is Client || o.mode is Ambiguous,
        o.streams_view().dom().contains(associate_id),
        !o.streams_view().dom().contains(promise_id),
        SessionState::frame_rule(o.seen(f.stream_id), n, f, r, acts),
    ensures
        n.streams_view() == promise_pending(o, associate_id, promise_id, part),
        r == Ok::<Option<u32>, LibError>(None),
        n.mode == o.mode,
        n.settings == o.settings,
{
    lemma_be32_of_u32_be(promise_id);
    let pay = payload_of(f);
    assert(pay.subrange(0, 4) =~= u32_be(promise_id));
    assert(be32(pay, 0) == be32(u32_be(promise_id), 0));
    assert(pay.subrange(4, pay.len() as int) =~= part);
    assert(o.seen(f.stream_id).streams_view() == o.streams_view());
}

/// A middle CONTINUATION frame of a promise adds to the promised block.
proof fn lemma_push_middle_step(
    associate_id: u32,
    promise_id: u32,
    part: Seq<u8>,
    base: SessionState,
    o: SessionState,
    n: SessionState,
    f: Http2Frame,
    r: LibResult<Option<u32>>,
    acts: Seq<ActionView>,
)
    requires
        f.ftype == Http2FrameType::Continuation,
        f.stream_id == associate_id,
        !end_headers_flag(f),
        !end_stream_flag(f),
        base.streams_view().dom().contains(associate_id),
        !base.streams_view().dom().contains(promise_id),
        o.streams_view() == promise_pending(base, associate_id, promise_id, part),
        o.settings == base.settings,
        SessionState::frame_rule(o.seen(f.stream_id), n, f, r, acts),
    ensures
        n.streams_view() == promise_pending(base, associate_id, promise_id, part + payload_of(f)),
        r == Ok::<Option<u32>, LibError>(None),
        n.mode == o.mode,
        n.settings == o.settings,
{
    assert(promise_id != associate_id);
    assert(o.seen(f.stream_id).streams_view() == o.streams_view());
    assert(n.streams_view() =~= promise_pending(base, associate_id, promise_id, part + payload_of(f)));
}

/// A promise in one frame creates the promised stream with its fields.
proof fn lemma_push_single_step(
    associate_id: u32,
    promise_id: u32,
    fields: Seq<(Seq<u8>, Seq<u8>)>,
    o: SessionState,
    n: SessionState,
    f: Http2Frame,
    r: LibResult<Option<u32>>,
    acts: Seq<ActionView>,
)
    requires
        fields_small(fields),
        literals_framed(fields),
        f.ftype == Http2FrameType::PushPromise,
        f.stream_id == associate_id,
        end_headers_flag(f),
        !end_stream_flag(f),
        payload_of(f) == u32_be(promise_id) + literal_block(fields),
        o.mode is Client || o.mode is Ambiguous,
        o.streams_view().dom().contains(associate_id),
        !o.streams_view().dom().contains(promise_id),
        SessionState::frame_rule(o.seen(f.stream_id), n, f, r, acts),
    ensures
        n.streams_view() == o.streams_view().insert(
            promise_id,
            StreamView { push_headers: fields, ..empty_stream(promise_id, o.settings) },
        ).insert(associate_id, StreamView { promising: Some(promise_id), ..o.streams_view()[associate_id] }),
        r == Ok::<Option<u32>, LibError>(Some(promise_id)),
{
    lemma_be32_of_u32_be(promise_id);
    let pay = payload_of(f);
    assert(pay.subrange(0, 4) =~= u32_be(promise_id));
    assert(be32(pay, 0) == be32(u32_be(promise_id), 0));
    assert(pay.subrange(4, pay.len() as int) =~= literal_block(fields));
    assert(Seq::<(Seq<u8>, Seq<u8>)>::empty() + fields =~= fields);
    assert(o.seen(f.stream_id).streams_view() == o.streams_view());
    let nv = n.streams_view();
    assert(nv =~= o.streams_view().insert(
        promise_id,
        StreamView { push_headers: fields, ..empty_stream(promise_id, o.settings) },
    ).insert(associate_id, StreamView { promising: Some(promise_id), ..o.streams_view()[associate_id] }));
}

/// The last CONTINUATION frame of a promise decodes the promised block
/// into the promised stream's fields, and the associated stream stops
/// pointing to it.
proof fn lemma_push_last_step(
    associate_id: u32,
    promise_id: u32,
    fields: Seq<(Seq<u8>, Seq<u8>)>,
    part: Seq<u8>,
    base: SessionState,
    o: SessionState,
    n: SessionState,
    f: Http2Frame,
    r: LibResult<Option<u32>>,
    acts: Seq<ActionView>,
)
    requires
        fields_small(fields),
        literals_framed(fields),
        f.ftype == Http2FrameType::Continuation,
        f.stream_id == associate_id,
        end_headers_flag(f),
        part + payload_of(f) == literal_block(fields),
        base.streams_view().dom().contains(associate_id),
        !base.streams_view().dom().contains(promise_id),
        o.streams_view() == promise_pending(base, associate_id, promise_id, part),
        o.settings == base.settings,
        SessionState::frame_rule(o.seen(f.stream_id), n, f, r, acts),
    ensures
        n.streams_view() == base.streams_view().insert(
            promise_id,
            StreamView { push_headers: fields, ..empty_stream(promise_id, base.settings) },
        ).insert(associate_id, StreamView { promising: None, ..base.streams_view()[associate_id] }),
        r == Ok::<Option<u32>, LibError>(Some(promise_id)),
{
    assert(promise_id != associate_id);
    assert(o.seen(f.stream_id).streams_view() == o.streams_view());
    assert(Seq::<(Seq<u8>, Seq<u8>)>::empty() + fields =~= fields);
    let nv = n.streams_view();
    assert(nv =~= base.streams_view().insert(
        promise_id,
        StreamView { push_headers: fields, ..empty_stream(promise_id, base.settings) },
    ).insert(associate_id, StreamView { promising: None, ..base.streams_view()[associate_id] }));
}

/// After the first `j` frames of a promise cut in several, the promised
/// stream holds the first `j` pieces.
proof fn lemma_push_progress(
    associate_id: u32,
    promise_id: u32,
    fields: Seq<(Seq<u8>, Seq<u8>)>,
    mfs: nat,
    frames: Seq<Http2Frame>,
    states: Seq<SessionState>,
    rs: Seq<LibResult<Option<u32>>>,
    acts: Seq<Seq<ActionView>>,
    j: nat,
)
    requires
        push_fit(literal_block(fields).len(), mfs),
        literal_block(fields).len() + 4 >= mfs,
        mfs < 16777216,
        push_frames_handled(associate_id, promise_id, literal_block(fields), mfs, frames, states, rs, acts),
        states[0].mode is Client || states[0].mode is Ambiguous,
        states[0].streams_view().dom().contains(associate_id),
        !states[0].streams_view().dom().contains(promise_id),
        1 <= j <= cont_count(literal_block(fields).len(), mfs) + 1,
    ensures
        states[j as int].streams_view() == promise_pending(
            states[0],
            associate_id,
            promise_id,
            literal_block(fields).subrange(0, push_off(mfs, (j - 1) as nat)),
        ),
        states[j as int].mode == states[0].mode,
        states[j as int].settings == states[0].settings,
        forall|i: int| 0 <= i < j ==> rs[i] == Ok::<Option<u32>, LibError>(None),
    decreases j,
{
    let blk = literal_block(fields);
    let o = states[0];
    assert((0u8 & 0x28) == 0 && (0u8 & 0x04) == 0 && (0u8 & 0x01) == 0) by (bit_vector);
    if j == 1 {
        lemma_push_handled_at(associate_id, promise_id, blk, mfs, frames, states, rs, acts, 0);
        lemma_push_offsets(blk.len(), mfs, 0);
        let f = frames[0];
        lemma_simple_frame_read_back(5, 0, associate_id, u32_be(promise_id) + blk.subrange(0, mfs - 4), f);
        lemma_push_first_step(associate_id, promise_id, blk.subrange(0, mfs - 4), o, states[1], f, rs[0], acts[0]);
    } else {
        let k = (j - 1) as nat;
        lemma_push_progress(associate_id, promise_id, fields, mfs, frames, states, rs, acts, k);
        lemma_push_offsets(blk.len(), mfs, k);
        lemma_push_handled_at(associate_id, promise_id, blk, mfs, frames, states, rs, acts, k as int);
        let f = frames[k as int];
        let a = push_off(mfs, (k - 1) as nat);
        let b = push_off(mfs, k);
        lemma_simple_frame_read_back(9, 0, associate_id, blk.subrange(a, b), f);
        lemma_push_middle_step(
            associate_id,
            promise_id,
            blk.subrange(0, a),
            o,
            states[k as int],
            states[j as int],
            f,
            rs[k as int],
            acts[k as int],
        );
        assert(blk.subrange(0, a) + blk.subrange(a, b) =~= blk.subrange(0, b));
    }
}

/// The promise that `send_push_promise` writes (each name and value under
/// 2^26 bytes, each frame under 2^24 bytes), read by a client that knows
/// the associated stream and not the promised one, creates the promised
/// stream with exactly the promised fields, the associated stream pointing
/// to it while the promise is cut in one frame; only the last frame
/// reports the promised stream.
#[verifier::rlimit(40)]
pub proof fn lemma_push_promise_delivered(
    associate_id: u32,
    promise_id: u32,
    fields: Seq<(Seq<u8>, Seq<u8>)>,
    mfs: nat,
    frames: Seq<Http2Frame>,
    states: Seq<SessionState>,
    rs: Seq<LibResult<Option<u32>>>,
    acts: Seq<Seq<ActionView>>,
)
    requires
        fields_small(fields),
        literals_framed(fields),
        push_fit(literal_block(fields).len(), mfs),
        if literal_block(fields).len() + 4 < mfs {
            literal_block(fields).len() + 4 < 16777216
        } else {
            mfs < 16777216
        },
        push_frames_handled(associate_id, promise_id, literal_block(fields), mfs, frames, states, rs, acts),
        states[0].mode is Client || states[0].mode is Ambiguous,
        states[0].streams_view().dom().contains(associate_id),
        !states[0].streams_view().dom().contains(promise_id),
    ensures
        ({
            let o = states[0];
            let ov = o.streams_view();
            &&& states.last().streams_view() == ov.insert(
                promise_id,
                StreamView { push_headers: fields, ..empty_stream(promise_id, o.settings) },
            ).insert(
                associate_id,
                StreamView {
                    promising: if frames.len() == 1 { Some(promise_id) } else { None },
                    ..ov[associate_id]
                },
            )
            &&& rs.last() == Ok::<Option<u32>, LibError>(Some(promise_id))
            &&& forall|i: int| 0 <= i < rs.len() - 1 ==> rs[i] == Ok::<Option<u32>, LibError>(None)
        }),
{
    let blk = literal_block(fields);
    let o = states[0];
    let ov = o.streams_view();
    lemma_push_handled_at(associate_id, promise_id, blk, mfs, frames, states, rs, acts, 0);
    let last = (frames.len() - 1) as nat;
    lemma_push_handled_at(associate_id, promise_id, blk, mfs, frames, states, rs, acts, last as int);
    let f = frames[last as int];
    assert((4u8 & 0x28) == 0 && (4u8 & 0x04) != 0 && (4u8 & 0x01) == 0) by (bit_vector);
    if blk.len() + 4 < mfs {
        lemma_simple_frame_read_back(5, 4, associate_id, u32_be(promise_id) + blk, f);
        lemma_push_single_step(associate_id, promise_id, fields, o, states[1], f, rs[0], acts[0]);
        assert(states.last() == states[1]);
    } else {
        let k = cont_count(blk.len(), mfs);
        lemma_push_offsets(blk.len(), mfs, k);
        lemma_push_progress(associate_id, promise_id, fields, mfs, frames, states, rs, acts, k + 1);
        let a = push_off(mfs, k);
        lemma_simple_frame_read_back(9, 4, associate_id, blk.subrange(a, blk.len() as int), f);
        assert(blk.subrange(0, a) + blk.subrange(a, blk.len() as int) =~= blk);
        lemma_push_last_step(
            associate_id,
            promise_id,
            fields,
            blk.subrange(0, a),
            o,
            states[(k + 1) as int],
            states[(k + 2) as int],
            f,
            rs[(k + 1) as int],
            acts[(k + 1) as int],
        );
        assert(states.last() == states[(k + 2) as int]);
    }
}

/// Frame `i` of the DATA frames that send `n` bytes of `buf` from `pos`
/// cut at `mfs` (see `data_burst`): full frames, then the rest.
pub open spec fn data_piece(stream_id: u32, end: bool, buf: Seq<u8>, pos: nat, n: nat, mfs: nat, i: nat) -> Seq<u8> {
    if i < n / mfs {
        data_frame(stream_id, end, buf, pos + ((i * mfs) as int), pos + (((i + 1) * mfs) as int))
    } else {
        data_frame(stream_id, end, buf, pos + ((i * mfs) as int), (pos + n) as int)
    }
}

/// The DATA frames of a burst, from frame `i` on.
pub open spec fn data_pieces(stream_id: u32, end: bool, buf: Seq<u8>, pos: nat, n: nat, mfs: nat, i: nat) -> Seq<u8>
    decreases n / mfs + 1 - i,
{
    if i > n / mfs {
        Seq::empty()
    } else {
        data_piece(stream_id, end, buf, pos, n, mfs, i) + data_pieces(stream_id, end, buf, pos, n, mfs, i + 1)
    }
}

/// Offsets of the frames of a burst of `n` bytes cut at `mfs`.
proof fn lemma_burst_offsets(n: nat, mfs: nat, j: nat)
    requires
        mfs > 0,
        j <= n / mfs,
    ensures
        ((j * mfs) as int) <= n,
        j == n / mfs ==> n - ((j * mfs) as int) == n % mfs,
        n % mfs < mfs,
        ((j * mfs) as int) + mfs == (((j + 1) * mfs) as int),
        j > 0 ==> (((j - 1) as nat * mfs) as int) + mfs == ((j * mfs) as int),
{
    let qq: int = (n / mfs) as int;
    let rr: int = (n % mfs) as int;
    let m: int = mfs as int;
    let jj: int = j as int;
    vstd::arithmetic::div_mod::lemma_fundamental_div_mod(n as int, m);
    assert(n == m * qq + rr);
    assert(0 <= rr < m);
    assert(jj * m <= qq * m) by (nonlinear_arith)
        requires
            jj <= qq,
            m > 0,
    ;
    assert(m * qq == qq * m) by (nonlinear_arith);
    assert(jj * m + m == (jj + 1) * m) by (nonlinear_arith);
    if j > 0 {
        assert((jj - 1) * m + m == jj * m) by (nonlinear_arith);
    }
}

proof fn lemma_data_frames_pieces(stream_id: u32, end: bool, buf: Seq<u8>, pos: nat, n: nat, mfs: nat, j: nat)
    requires
        mfs > 0,
        j <= n / mfs,
    ensures
        data_frames(stream_id, end, buf, pos + ((j * mfs) as int), mfs as int, (n / mfs - j) as nat, (n % mfs) as int)
            == data_pieces(stream_id, end, buf, pos, n, mfs, j),
    decreases n / mfs - j,
{
    lemma_burst_offsets(n, mfs, j);
    if j == n / mfs {
        assert(data_pieces(stream_id, end, buf, pos, n, mfs, j + 1) == Seq::<u8>::empty());
        assert(data_pieces(stream_id, end, buf, pos, n, mfs, j) =~= data_piece(stream_id, end, buf, pos, n, mfs, j));
    } else {
        lemma_data_frames_pieces(stream_id, end, buf, pos, n, mfs, j + 1);
    }
}

/// The bytes of a DATA burst are its frames one after the other (see
/// `data_piece`).
pub proof fn lemma_data_burst_split(stream_id: u32, end: bool, buf: Seq<u8>, pos: nat, n: nat, mfs: nat)
    requires
        mfs > 0,
    ensures
        data_burst(stream_id, end, buf, pos as int, n, mfs) == data_pieces(stream_id, end, buf, pos, n, mfs, 0),
{
    lemma_data_frames_pieces(stream_id, end, buf, pos, n, mfs, 0);
    assert(((0 * mfs) as int) == 0);
}

/// A reader in states `states` handled `frames`, the frames of a DATA
/// burst, one after the other, with results `rs` and actions `acts`.
#[verifier::opaque]
pub open spec fn data_frames_handled(
    stream_id: u32,
    end: bool,
    buf: Seq<u8>,
    pos: nat,
    n: nat,
    mfs: nat,
    frames: Seq<Http2Frame>,
    states: Seq<SessionState>,
    rs: Seq<LibResult<Option<u32>>>,
    acts: Seq<Seq<ActionView>>,
) -> bool {
    &&& frames.len() == n / mfs + 1
    &&& states.len() == frames.len() + 1
    &&& rs.len() == frames.len()
    &&& acts.len() == frames.len()
    &&& forall|i: int|
        #![trigger frames[i]]
        0 <= i < frames.len() ==> frames[i].parsed_from(data_piece(stream_id, end, buf, pos, n, mfs, i as nat))
            && SessionState::frame_rule(states[i].seen(frames[i].stream_id), states[i + 1], frames[i], rs[i], acts[i])
}

/// What handling frame `i` of a DATA burst was.
proof fn lemma_data_handled_at(
    stream_id: u32,
    end: bool,
    buf: Seq<u8>,
    pos: nat,
    n: nat,
    mfs: nat,
    frames: Seq<Http2Frame>,
    states: Seq<SessionState>,
    rs: Seq<LibResult<Option<u32>>>,
    acts: Seq<Seq<ActionView>>,
    i: int,
)
    requires
        data_frames_handled(stream_id, end, buf, pos, n, mfs, frames, states, rs, acts),
        0 <= i <= n / mfs,
    ensures
        frames.len() == n / mfs + 1,
        states.len() == frames.len() + 1,
        rs.len() == frames.len(),
        acts.len() == frames.len(),
        frames[i].parsed_from(data_piece(stream_id, end, buf, pos, n, mfs, i as nat)),
        SessionState::frame_rule(states[i].seen(frames[i].stream_id), states[i + 1], frames[i], rs[i], acts[i]),
{
    reveal(data_frames_handled);
}

/// A DATA frame on a stream the reader knows appends to its body.
proof fn lemma_data_piece_step(
    end: bool,
    payload: Seq<u8>,
    o: SessionState,
    n: SessionState,
    f: Http2Frame,
    r: LibResult<Option<u32>>,
    acts: Seq<ActionView>,
)
    requires
        f.ftype == Http2FrameType::Data,
        payload_of(f) == payload,
        end_stream_flag(f) == end,
        o.streams_view().dom().contains(f.stream_id),
        SessionState::frame_rule(o.seen(f.stream_id), n, f, r, acts),
    ensures
        n.streams_view() == o.streams_view().insert(
            f.stream_id,
            StreamView {
                body: o.streams_view()[f.stream_id].body + payload,
                end_body: o.streams_view()[f.stream_id].end_body || end,
                ..o.streams_view()[f.stream_id]
            },
        ),
        r == Ok::<Option<u32>, LibError>(None),
{
    assert(o.seen(f.stream_id).streams_view() == o.streams_view());
}

/// Where frame `i` of a DATA burst ends in `buf`.
pub open spec fn data_piece_end(pos: nat, n: nat, mfs: nat, i: nat) -> int {
    if i < n / mfs {
        pos + (((i + 1) * mfs) as int)
    } else {
        (pos + n) as int
    }
}

/// Frame `i` of a DATA burst appends its piece of `buf` to the stream's body.
proof fn lemma_data_frame_at(
    stream_id: u32,
    end: bool,
    buf: Seq<u8>,
    pos: nat,
    n: nat,
    mfs: nat,
    frames: Seq<Http2Frame>,
    states: Seq<SessionState>,
    rs: Seq<LibResult<Option<u32>>>,
    acts: Seq<Seq<ActionView>>,
    i: nat,
)
    requires
        0 < mfs < 16777216,
        pos + n <= buf.len(),
        data_frames_handled(stream_id, end, buf, pos, n, mfs, frames, states, rs, acts),
        i <= n / mfs,
        states[i as int].streams_view().dom().contains(stream_id),
    ensures
        ({
            let a = pos + ((i * mfs) as int);
            let b = data_piece_end(pos, n, mfs, i);
            let sv = states[i as int].streams_view();
            &&& a <= b <= buf.len()
            &&& i < n / mfs ==> b == a + mfs
            &&& i == n / mfs ==> b == pos + n
            &&& states[(i + 1) as int].streams_view() == sv.insert(
                stream_id,
                StreamView {
                    body: sv[stream_id].body + buf.subrange(a, b),
                    end_body: sv[stream_id].end_body || (end && b == buf.len()),
                    ..sv[stream_id]
                },
            )
            &&& rs[i as int] == Ok::<Option<u32>, LibError>(None)
        }),
{
    lemma_burst_offsets(n, mfs, i);
    lemma_data_handled_at(stream_id, end, buf, pos, n, mfs, frames, states, rs, acts, i as int);
    let f = frames[i as int];
    let a = pos + ((i * mfs) as int);
    let b = data_piece_end(pos, n, mfs, i);
    if i < n / mfs {
        lemma_burst_offsets(n, mfs, i + 1);
    }
    let fl: u8 = if end && b == buf.len() { 1 } else { 0 };
    assert((1u8 & 0x28) == 0 && (0u8 & 0x28) == 0 && (1u8 & 0x01) != 0 && (0u8 & 0x01) == 0) by (bit_vector);
    lemma_simple_frame_read_back(0, fl, stream_id, buf.subrange(a, b), f);
    lemma_data_piece_step(
        end && b == buf.len(),
        buf.subrange(a, b),
        states[i as int],
        states[(i + 1) as int],
        f,
        rs[i as int],
        acts[i as int],
    );
}

/// After the first `j` frames of a DATA burst, the stream's body has the
/// first `j` pieces.
proof fn lemma_data_progress(
    stream_id: u32,
    end: bool,
    buf: Seq<u8>,
    pos: nat,
    n: nat,
    mfs: nat,
    frames: Seq<Http2Frame>,
    states: Seq<SessionState>,
    rs: Seq<LibResult<Option<u32>>>,
    acts: Seq<Seq<ActionView>>,
    j: nat,
)
    requires
        0 < mfs < 16777216,
        pos + n <= buf.len(),
        data_frames_handled(stream_id, end, buf, pos, n, mfs, frames, states, rs, acts),
        states[0].streams_view().dom().contains(stream_id),
        j <= n / mfs,
    ensures
        ({
            let ov = states[0].streams_view();
            let s0 = ov[stream_id];
            states[j as int].streams_view() == ov.insert(
                stream_id,
                StreamView {
                    body: s0.body + buf.subrange(pos as int, pos + ((j * mfs) as int)),
                    end_body: s0.end_body || (end && j > 0 && pos + ((j * mfs) as int) == buf.len()),
                    ..s0
                },
            )
        }),
        forall|i: int| 0 <= i < j ==> rs[i] == Ok::<Option<u32>, LibError>(None),
    decreases j,
{
    let ov = states[0].streams_view();
    let s0 = ov[stream_id];
    lemma_burst_offsets(n, mfs, j);
    if j == 0 {
        assert(((0 * mfs) as int) == 0);
        assert(buf.subrange(pos as int, pos as int) =~= Seq::<u8>::empty());
        assert(s0.body + Seq::<u8>::empty() =~= s0.body);
        assert(states[0].streams_view() =~= ov.insert(stream_id, s0));
        assert(StreamView { body: s0.body + buf.subrange(pos as int, pos as int), end_body: s0.end_body, ..s0 } == s0);
    } else {
        let k = (j - 1) as nat;
        lemma_data_progress(stream_id, end, buf, pos, n, mfs, frames, states, rs, acts, k);
        lemma_data_frame_at(stream_id, end, buf, pos, n, mfs, frames, states, rs, acts, k);
        let a = pos + ((k * mfs) as int);
        let b = pos + ((j * mfs) as int);
        assert(data_piece_end(pos, n, mfs, k) == b);
        assert(buf.subrange(pos as int, a) + buf.subrange(a, b) =~= buf.subrange(pos as int, b));
        let sj = states[j as int].streams_view()[stream_id];
        assert(sj.body =~= s0.body + buf.subrange(pos as int, b));
        assert(states[j as int].streams_view() =~= ov.insert(
            stream_id,
            StreamView {
                body: s0.body + buf.subrange(pos as int, b),
                end_body: s0.end_body || (end && j > 0 && b == buf.len()),
                ..s0
            },
        ));
    }
}

/// The bytes `send_data` writes in one step (a DATA burst sending `n`
/// bytes of `buf` from `pos`, cut at a frame size under 2^24), read by a
/// session that knows the stream, append exactly `buf[pos..pos + n]` to
/// the stream's body, and end the body when the burst reaches the end of
/// `buf` on a stream the sender ends; nothing but the body changes.
#[verifier::rlimit(30)]
pub proof fn lemma_data_burst_delivered(
    stream_id: u32,
    end: bool,
    buf: Seq<u8>,
    pos: nat,
    n: nat,
    mfs: nat,
    frames: Seq<Http2Frame>,
    states: Seq<SessionState>,
    rs: Seq<LibResult<Option<u32>>>,
    acts: Seq<Seq<ActionView>>,
)
    requires
        0 < mfs < 16777216,
        pos + n <= buf.len(),
        data_frames_handled(stream_id, end, buf, pos, n, mfs, frames, states, rs, acts),
        states[0].streams_view().dom().contains(stream_id),
    ensures
        ({
            let ov = states[0].streams_view();
            let s0 = ov[stream_id];
            states.last().streams_view() == ov.insert(
                stream_id,
                StreamView {
                    body: s0.body + buf.subrange(pos as int, (pos + n) as int),
                    end_body: s0.end_body || (end && pos + n == buf.len()),
                    ..s0
                },
            )
        }),
        forall|i: int| 0 <= i < rs.len() ==> rs[i] == Ok::<Option<u32>, LibError>(None),
{
    let q = n / mfs;
    let ov = states[0].streams_view();
    let s0 = ov[stream_id];
    lemma_burst_offsets(n, mfs, q);
    lemma_data_handled_at(stream_id, end, buf, pos, n, mfs, frames, states, rs, acts, 0);
    lemma_data_progress(stream_id, end, buf, pos, n, mfs, frames, states, rs, acts, q);
    lemma_data_frame_at(stream_id, end, buf, pos, n, mfs, frames, states, rs, acts, q);
    let a = pos + ((q * mfs) as int);
    let b = pos + n;
    assert(buf.subrange(pos as int, a) + buf.subrange(a, b as int) =~= buf.subrange(pos as int, b as int));
    let sn = states[(q + 1) as int].streams_view()[stream_id];
    assert(sn.body =~= s0.body + buf.subrange(pos as int, (pos + n) as int));
    assert(q > 0 && a == buf.len() ==> b == buf.len());
    assert(states.last() == states[(q + 1) as int]);
    assert(states[(q + 1) as int].streams_view() =~= ov.insert(
        stream_id,
        StreamView {
            body: s0.body + buf.subrange(pos as int, (pos + n) as int),
            end_body: s0.end_body || (end && pos + n == buf.len()),
            ..s0
        },
    ));
}

/// A SETTINGS frame written with some settings sets exactly those settings
/// at the reader (keeping the others) and is acknowledged.
#[verifier::rlimit(40)]
pub proof fn lemma_settings_delivered(
    s: Http2Settings,
    f: Http2Frame,
    o: SessionState,
    n: SessionState,
    r: LibResult<Option<u32>>,
    acts: Seq<ActionView>,
)
    requires
        f.parsed_from(frame_bytes(4, 0, 0, None, Some(settings_bytes(s)), None)),
        SessionState::frame_rule(o.seen(f.stream_id), n, f, r, acts),
    ensures
        n.settings == merge_settings(o.settings, s),
        r == Ok::<Option<u32>, LibError>(None),
        acts == seq![ActionView::Write(settings_ack_bytes())],
        n.streams_view() == o.streams_view(),
        n.window == o.window,
{
    assert(settings_bytes(s).len() <= 36);
    assert((0u8 & 0x28) == 0) by (bit_vector);
    lemma_simple_frame_read_back(4, 0, 0, settings_bytes(s), f);
    lemma_settings_roundtrip(s);
    assert((0u8 & 0x01) == 0) by (bit_vector);
    assert(o.seen(f.stream_id).streams_view() == o.streams_view());
}

/// A PING frame that is not an acknowledgement is answered with an
/// acknowledgement carrying the same payload.
pub proof fn lemma_ping_answered(
    payload: Seq<u8>,
    f: Http2Frame,
    o: SessionState,
    n: SessionState,
    r: LibResult<Option<u32>>,
    acts: Seq<ActionView>,
)
    requires
        payload.len() < 16777216,
        f.parsed_from(ping_bytes(false, payload)),
        SessionState::frame_rule(o.seen(f.stream_id), n, f, r, acts),
    ensures
        acts == seq![ActionView::Write(ping_bytes(true, payload))],
        r == Ok::<Option<u32>, LibError>(None),
        n.streams_view() == o.streams_view(),
{
    assert((0u8 & 0x28) == 0) by (bit_vector);
    assert((0u8 & 0x01) == 0) by (bit_vector);
    lemma_simple_frame_read_back(6, 0, 0, payload, f);
    assert(o.seen(f.stream_id).streams_view() == o.streams_view());
}

/// A WINDOW_UPDATE frame for the connection credits the reader's
/// connection window with its increment.
pub proof fn lemma_window_update_delivered(
    size: u32,
    f: Http2Frame,
    o: SessionState,
    n: SessionState,
    r: LibResult<Option<u32>>,
    acts: Seq<ActionView>,
)
    requires
        f.parsed_from(window_update_bytes(0, size)),
        SessionState::frame_rule(o.seen(f.stream_id), n, f, r, acts),
    ensures
        n.window == o.window + size,
        r == Ok::<Option<u32>, LibError>(None),
        acts == seq![ActionView::SessionNotify],
        n.streams_view() == o.streams_view(),
{
    assert((0u8 & 0x28) == 0) by (bit_vector);
    lemma_be32_of_u32_be(size);
    lemma_simple_frame_read_back(8, 0, 0, u32_be(size), f);
    assert(o.seen(f.stream_id).streams_view() == o.streams_view());
}

/// A RST_STREAM frame on a stream the session knows (as `handle` takes it,
/// from the session `o` before the frame) marks that stream reset and wakes
/// its waiters, with no other change to any stream; from then on sending
/// data on it is refused. On a stream the session does not know, it is
/// refused and nothing changes.
pub proof fn lemma_rst_stream_resets(
    o: SessionState,
    n: SessionState,
    f: Http2Frame,
    r: LibResult<Option<u32>>,
    acts: Seq<ActionView>,
)
    requires
        f.ftype == Http2FrameType::RstStream,
        SessionState::frame_rule(o.seen(f.stream_id), n, f, r, acts),
    ensures
        o.streams_view().dom().contains(f.stream_id) ==> {
            let sid = f.stream_id;
            &&& n.streams_view().dom() == o.streams_view().dom()
            &&& n.streams_view()[sid].reset
            &&& n.streams_view()[sid] == (StreamView { reset: true, ..o.streams_view()[sid] })
            &&& forall|k: u32| k != sid && o.streams_view().dom().contains(k) ==> #[trigger] n.streams_view()[k]
                == o.streams_view()[k]
            &&& r == Ok::<Option<u32>, LibError>(None)
            &&& acts == seq![ActionView::StreamNotify(sid)]
            &&& SessionState::data_refusal(n, sid) == Some(LibError::StreamClosed)
        },
        !o.streams_view().dom().contains(f.stream_id) ==> {
            &&& n.streams_view() == o.streams_view()
            &&& r == Err::<Option<u32>, LibError>(LibError::InvalidStream)
            &&& acts.len() == 0
        },
        n.max_stream_id >= o.max_stream_id,
        n.max_stream_id >= f.stream_id,
{
    let o2 = o.seen(f.stream_id);
    assert(o2.streams_view() == o.streams_view());
}

/// Whatever a frame does, after `handle` the highest stream id the session
/// has seen is the larger of the one before and the frame's, so a stream
/// this side opens later gets an id above every id seen.
pub proof fn lemma_handle_raises_max_stream_id(
    o: SessionState,
    n: SessionState,
    f: Http2Frame,
    r: LibResult<Option<u32>>,
    acts: Seq<ActionView>,
)
    requires
        SessionState::frame_rule(o.seen(f.stream_id), n, f, r, acts),
    ensures
        n.max_stream_id == (if f.stream_id > o.max_stream_id { f.stream_id } else { o.max_stream_id }),
        n.max_stream_id >= o.max_stream_id,
        n.max_stream_id >= f.stream_id,
        n.next_stream_id() > f.stream_id,
{
}

/// The ids a session picks for the streams it opens: above every id seen,
/// odd for a client, even for a server, and the next id for an ambiguous
/// session.
pub proof fn lemma_stream_id_parity(s: SessionState)
    ensures
        s.next_stream_id() > s.max_stream_id,
        s.mode is Client ==> s.next_stream_id() % 2 == 1 && s.next_stream_id() <= s.max_stream_id + 2,
        s.mode is Server ==> s.next_stream_id() % 2 == 0 && s.next_stream_id() <= s.max_stream_id + 2,
        s.mode is Ambiguous ==> s.next_stream_id() == s.max_stream_id + 1,
{
}

/// One step of sending data sends no more than is left and than either
/// window allows, and as much as the smallest of the three.
pub proof fn lemma_data_quota_bounds(o: SessionState, stream_id: u32, len: nat, pos: nat)
    requires
        pos <= len,
    ensures
        ({
            let q = SessionState::data_quota(o, stream_id, len, pos);
            let sw = o.streams_view()[stream_id].window;
            &&& q <= len - pos
            &&& q <= o.window
            &&& q <= sw
            &&& (q == len - pos || q == o.window || q == sw)
        }),
{
}

} // verus!
