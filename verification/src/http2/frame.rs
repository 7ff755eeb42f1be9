//! HTTP/2 frames and settings.

use std::ops::Range;
use vstd::prelude::*;

verus! {

/// Value of the 24-bit big-endian integer at `i`.
pub open spec fn be24(s: Seq<u8>, i: int) -> nat {
    s[i] as nat * 65536 + s[i + 1] as nat * 256 + s[i + 2] as nat
}

/// Value of the 32-bit big-endian integer at `i`.
pub open spec fn be32(s: Seq<u8>, i: int) -> nat {
    s[i] as nat * 16777216 + s[i + 1] as nat * 65536 + s[i + 2] as nat * 256 + s[i + 3] as nat
}

/// Value of the 16-bit big-endian integer at `i`.
pub open spec fn be16(s: Seq<u8>, i: int) -> nat {
    s[i] as nat * 256 + s[i + 1] as nat
}

/// The four big-endian bytes of `v`.
pub open spec fn u32_be(v: u32) -> Seq<u8> {
    seq![(v / 16777216) as u8, ((v / 65536) % 256) as u8, ((v / 256) % 256) as u8, (v % 256) as u8]
}

/// Reading back the big-endian bytes of `v` gives `v`.
pub proof fn lemma_be32_of_u32_be(v: u32)
    ensures
        u32_be(v).len() == 4,
        be32(u32_be(v), 0) == v,
{
}

pub fn u32_to_be(v: u32) -> (b: [u8; 4])
    ensures
        b@ == u32_be(v),
{
    let b = [(v / 16777216) as u8, ((v / 65536) % 256) as u8, ((v / 256) % 256) as u8, (v % 256) as u8];
    assert(b@ =~= u32_be(v));
    b
}

/// Reads the 32-bit big-endian integer at `i`.
pub fn read_be32(s: &[u8], i: usize) -> (v: u32)
    requires
        i + 4 <= s@.len(),
    ensures
        v == be32(s@, i as int),
{
    s[i] as u32 * 16777216 + s[i + 1] as u32 * 65536 + s[i + 2] as u32 * 256 + s[i + 3] as u32
}

/// The kind of an HTTP/2 frame, from its type byte.
#[derive(Debug, Clone, Copy, PartialEq, Eq, Structural)]
pub enum Http2FrameType {
    Data,
    Headers,
    Priority,
    RstStream,
    Settings,
    PushPromise,
    Ping,
    Goaway,
    WindowUpdate,
    Continuation,
    Invalid(u8),
}

/// The frame kind a type byte names.
pub open spec fn frame_type_of(v: u8) -> Http2FrameType {
    match v {
        0 => Http2FrameType::Data,
        1 => Http2FrameType::Headers,
        2 => Http2FrameType::Priority,
        3 => Http2FrameType::RstStream,
        4 => Http2FrameType::Settings,
        5 => Http2FrameType::PushPromise,
        6 => Http2FrameType::Ping,
        7 => Http2FrameType::Goaway,
        8 => Http2FrameType::WindowUpdate,
        9 => Http2FrameType::Continuation,
        v => Http2FrameType::Invalid(v),
    }
}

/// The type byte a frame kind is written with.
pub open spec fn frame_type_byte(t: Http2FrameType) -> u8 {
    match t {
        Http2FrameType::Data => 0,
        Http2FrameType::Headers => 1,
        Http2FrameType::Priority => 2,
        Http2FrameType::RstStream => 3,
        Http2FrameType::Settings => 4,
        Http2FrameType::PushPromise => 5,
        Http2FrameType::Ping => 6,
        Http2FrameType::Goaway => 7,
        Http2FrameType::WindowUpdate => 8,
        Http2FrameType::Continuation => 9,
        Http2FrameType::Invalid(v) => v,
    }
}

impl Http2FrameType {
    /// The frame kind a type byte names; bytes above 9 give `Invalid`.
    pub fn from_byte(value: u8) -> (t: Self)
        ensures
            t == frame_type_of(value),
    {
        match value {
            0 => Self::Data,
            1 => Self::Headers,
            2 => Self::Priority,
            3 => Self::RstStream,
            4 => Self::Settings,
            5 => Self::PushPromise,
            6 => Self::Ping,
            7 => Self::Goaway,
            8 => Self::WindowUpdate,
            9 => Self::Continuation,
            v => Self::Invalid(v),
        }
    }

    /// The type byte this frame kind is written with.
    pub fn to_byte(self) -> (b: u8)
        ensures
            b == frame_type_byte(self),
    {
        match self {
            Self::Data => 0,
            Self::Headers => 1,
            Self::Priority => 2,
            Self::RstStream => 3,
            Self::Settings => 4,
            Self::PushPromise => 5,
            Self::Ping => 6,
            Self::Goaway => 7,
            Self::WindowUpdate => 8,
            Self::Continuation => 9,
            Self::Invalid(v) => v,
        }
    }
}

impl From<u8> for Http2FrameType {
    fn from(value: u8) -> (t: Self) {
        Self::from_byte(value)
    }
}

impl vstd::std_specs::convert::FromSpecImpl<u8> for Http2FrameType {
    open spec fn obeys_from_spec() -> bool {
        true
    }

    open spec fn from_spec(v: u8) -> Self {
        frame_type_of(v)
    }
}

impl From<Http2FrameType> for u8 {
    fn from(value: Http2FrameType) -> (b: u8) {
        value.to_byte()
    }
}

impl vstd::std_specs::convert::FromSpecImpl<Http2FrameType> for u8 {
    open spec fn obeys_from_spec() -> bool {
        true
    }

    open spec fn from_spec(v: Http2FrameType) -> u8 {
        frame_type_byte(v)
    }
}

/// Reading a type byte and writing the kind back gives the same byte.
pub proof fn lemma_frame_type_byte_roundtrip(b: u8)
    ensures
        frame_type_byte(frame_type_of(b)) == b,
{
}

/// A kind that is not `Invalid` survives being written and read back.
pub proof fn lemma_frame_type_roundtrip(t: Http2FrameType)
    requires
        t matches Http2FrameType::Invalid(v) ==> v > 9,
    ensures
        frame_type_of(frame_type_byte(t)) == t,
{
}

} // verus!

verus! {

/// `o`'s length, or 0 when absent.
pub open spec fn opt_len(o: Option<Seq<u8>>) -> nat {
    match o {
        Some(s) => s.len(),
        None => 0,
    }
}

/// `o`'s bytes, or nothing when absent.
pub open spec fn opt_bytes(o: Option<Seq<u8>>) -> Seq<u8> {
    match o {
        Some(s) => s,
        None => Seq::empty(),
    }
}

/// The view of an optional byte slice.
pub open spec fn opt_view(o: Option<&[u8]>) -> Option<Seq<u8>> {
    match o {
        Some(s) => Some(s@),
        None => None,
    }
}

/// Payload length of a frame built from the given parts (padding adds its length byte).
pub open spec fn parts_len(p: Option<Seq<u8>>, y: Option<Seq<u8>>, d: Option<Seq<u8>>) -> nat {
    opt_len(p) + opt_len(y) + (if d is Some { opt_len(d) + 1 } else { 0 })
}

/// The parts `create` keeps: a priority block only of 5 bytes, a payload only
/// under 2^24 bytes, padding only under 256 bytes; all are dropped when the
/// frame would exceed 2^24 bytes of payload.
pub open spec fn kept_parts(p: Option<Seq<u8>>, y: Option<Seq<u8>>, d: Option<Seq<u8>>) -> (
    Option<Seq<u8>>,
    Option<Seq<u8>>,
    Option<Seq<u8>>,
) {
    let p1 = if p is Some && opt_len(p) == 5 { p } else { None };
    let y1 = if y is Some && opt_len(y) < 16777216 { y } else { None };
    let d1 = if d is Some && opt_len(d) < 256 { d } else { None };
    if parts_len(p1, y1, d1) > 16777216 {
        (None, None, None)
    } else {
        (p1, y1, d1)
    }
}

/// The bytes of a frame built by `create`: the 9-byte header (24-bit
/// length, type, flags with the PRIORITY and PADDED bits added when those
/// parts are present, stream id), then the pad length, priority block,
/// payload and padding.
pub open spec fn frame_bytes(
    type_byte: u8,
    flags: u8,
    stream_id: u32,
    p: Option<Seq<u8>>,
    y: Option<Seq<u8>>,
    d: Option<Seq<u8>>,
) -> Seq<u8> {
    let (p1, y1, d1) = kept_parts(p, y, d);
    let length = parts_len(p1, y1, d1);
    let fl = flags | (if p1 is Some { 0x20u8 } else { 0u8 }) | (if d1 is Some { 0x08u8 } else { 0u8 });
    seq![((length / 65536) % 256) as u8, ((length / 256) % 256) as u8, (length % 256) as u8, type_byte, fl]
        + u32_be(stream_id) + (if d1 is Some { seq![opt_len(d1) as u8] } else { Seq::empty() })
        + opt_bytes(p1) + opt_bytes(y1) + opt_bytes(d1)
}

/// One HTTP/2 frame: the raw bytes and the header fields read from them,
/// with the byte ranges of its priority block, payload and padding.
#[derive(Debug)]
pub struct Http2Frame {
    pub source: Vec<u8>,
    pub length: u32,
    pub type_byte: u8,
    pub flags: u8,
    pub stream_id: u32,
    pub pad_len: u8,
    pub priority: Range<usize>,
    pub payload: Range<usize>,
    pub padding: Range<usize>,
    pub ftype: Http2FrameType,
}

impl Clone for Http2Frame {
    fn clone(&self) -> (c: Self)
        ensures
            c.source@ == self.source@,
            c.length == self.length,
            c.type_byte == self.type_byte,
            c.flags == self.flags,
            c.stream_id == self.stream_id,
            c.pad_len == self.pad_len,
            c.priority == self.priority,
            c.payload == self.payload,
            c.padding == self.padding,
            c.ftype == self.ftype,
    {
        let mut source: Vec<u8> = Vec::new();
        crate::buf::push_all(&mut source, self.source.as_slice());
        assert(source@ =~= self.source@);
        Self {
            source,
            length: self.length,
            type_byte: self.type_byte,
            flags: self.flags,
            stream_id: self.stream_id,
            pad_len: self.pad_len,
            priority: Range { start: self.priority.start, end: self.priority.end },
            payload: Range { start: self.payload.start, end: self.payload.end },
            padding: Range { start: self.padding.start, end: self.padding.end },
            ftype: self.ftype,
        }
    }
}

/// Whether `from_owned` parses `src` (it needs the 9 header bytes, and the
/// pad length byte when the PADDED flag is set).
pub open spec fn frame_parses(src: Seq<u8>) -> bool {
    src.len() >= 9 && !(src[4] & 0x08 != 0 && src.len() < 10)
}

/// Inputs on which `from_owned` would subtract a pad length larger than the frame.
pub open spec fn pad_underflows(src: Seq<u8>) -> bool {
    src.len() >= 10 && src[4] & 0x08 != 0 && src[9] as nat > be24(src, 0) + 9
}

/// Applies the size limits of `kept_parts`.
fn keep_parts<'a>(priority: Option<&'a [u8]>, payload: Option<&'a [u8]>, padding: Option<&'a [u8]>) -> (r: (
    Option<&'a [u8]>,
    Option<&'a [u8]>,
    Option<&'a [u8]>,
    usize,
))
    ensures
        (opt_view(r.0), opt_view(r.1), opt_view(r.2)) == kept_parts(
            opt_view(priority),
            opt_view(payload),
            opt_view(padding),
        ),
        r.3 == parts_len(opt_view(r.0), opt_view(r.1), opt_view(r.2)),
        r.3 <= 16777216,
{
    let mut prio: Option<&[u8]> = None;
    if let Some(s) = priority {
        if s.len() == 5 {
            prio = Some(s);
        }
    }
    let mut pay: Option<&[u8]> = None;
    if let Some(s) = payload {
        if s.len() < 16777216 {
            pay = Some(s);
        }
    }
    let mut pad: Option<&[u8]> = None;
    if let Some(s) = padding {
        if s.len() < 256 {
            pad = Some(s);
        }
    }
    let prio_len: usize = match prio {
        Some(s) => s.len(),
        None => 0,
    };
    let pay_len: usize = match pay {
        Some(s) => s.len(),
        None => 0,
    };
    let pad_len: usize = match pad {
        Some(s) => s.len() + 1,
        None => 0,
    };
    let length: usize = prio_len + pay_len + pad_len;
    if length > 16777216 {
        (None, None, None, 0)
    } else {
        (prio, pay, pad, length)
    }
}

/// The 9-byte frame header.
fn header_bytes(length: usize, type_byte: u8, fl: u8, stream_id: u32) -> (r: Vec<u8>)
    requires
        length <= 16777216,
    ensures
        r@ == seq![((length / 65536) % 256) as u8, ((length / 256) % 256) as u8, (length % 256) as u8, type_byte, fl]
            + u32_be(stream_id),
{
    let mut frame: Vec<u8> = Vec::with_capacity(9 + length);
    frame.push(((length / 65536) % 256) as u8);
    frame.push(((length / 256) % 256) as u8);
    frame.push((length % 256) as u8);
    frame.push(type_byte);
    frame.push(fl);
    let sid = u32_to_be(stream_id);
    crate::buf::push_all(&mut frame, &sid);
    assert(frame@ =~= seq![((length / 65536) % 256) as u8, ((length / 256) % 256) as u8, (length % 256) as u8, type_byte, fl]
            + u32_be(stream_id));
    frame
}

/// Appends an optional slice.
fn push_opt(v: &mut Vec<u8>, o: Option<&[u8]>)
    ensures
        final(v)@ == old(v)@ + opt_bytes(opt_view(o)),
{
    match o {
        Some(s) => crate::buf::push_all(v, s),
        None => {
            assert(old(v)@ + opt_bytes(opt_view(o)) =~= old(v)@);
        },
    }
}

impl Http2Frame {
    /// Whether the PADDED flag is set.
    pub open spec fn padded(self) -> bool {
        self.flags & 0x08 != 0
    }

    /// Whether the PRIORITY flag is set.
    pub open spec fn prioritized(self) -> bool {
        self.flags & 0x20 != 0
    }

    /// This frame is what `from_owned` makes of `src`.
    pub open spec fn parsed_from(self, src: Seq<u8>) -> bool {
        let pay_start: int = 9 + (if self.padded() { 1int } else { 0 }) + (if self.prioritized() { 5int } else { 0 });
        let pay_end: int = self.length + 9 - self.pad_len;
        &&& self.source@ == src
        &&& self.length == be24(src, 0)
        &&& self.type_byte == src[3]
        &&& self.flags == src[4]
        &&& self.stream_id == be32(src, 5)
        &&& self.ftype == frame_type_of(src[3])
        &&& self.pad_len == (if self.padded() { src[9] } else { 0 })
        &&& self.priority.start == (if self.padded() { 10int } else { 9 })
        &&& self.priority.end == pay_start
        &&& self.payload.start == pay_start
        &&& self.payload.end == pay_end
        &&& self.padding.start == pay_end
        &&& self.padding.end == pay_end + self.pad_len
    }

    /// Whether a range lies within the frame's bytes.
    pub open spec fn range_ok(self, r: Range<usize>) -> bool {
        r.start <= r.end <= self.source@.len()
    }

    /// The bytes of a range of the frame.
    pub open spec fn range_bytes(self, r: Range<usize>) -> Seq<u8> {
        self.source@.subrange(r.start as int, r.end as int)
    }

    /// The payload length a 9-byte frame header announces: the bytes to
    /// read after the header.
    pub fn frame_length(head: &[u8]) -> (r: usize)
        requires
            head@.len() >= 9,
        ensures
            r == be24(head@, 0),
    {
        head[0] as usize * 65536 + head[1] as usize * 256 + head[2] as usize
    }

    /// Whether the pad length of a padded frame fits in the frame (see
    /// `pad_underflows`).
    pub fn pad_fits(source: &[u8]) -> (r: bool)
        ensures
            r == !pad_underflows(source@),
    {
        if source.len() >= 10 && source[4] & 0x08 != 0 {
            let length = source[0] as usize * 65536 + source[1] as usize * 256 + source[2] as usize;
            (source[9] as usize) <= length + 9
        } else {
            true
        }
    }

    /// Reads a frame from its bytes. `None` when the header is cut short.
    pub fn from_owned(source: Vec<u8>) -> (r: Option<Self>)
        requires
            !pad_underflows(source@),
        ensures
            r is Some <==> frame_parses(source@),
            r matches Some(f) ==> f.parsed_from(source@),
    {
        if source.len() < 9 {
            return None;
        }
        let length: u32 = source[0] as u32 * 65536 + source[1] as u32 * 256 + source[2] as u32;
        let type_byte = source[3];
        let flags = source[4];
        let stream_id = read_be32(source.as_slice(), 5);
        let ftype = Http2FrameType::from_byte(type_byte);

        let mut pad_len: u8 = 0;
        let mut pay_start: usize = 9;
        let mut pay_end: usize = length as usize + 9;

        if flags & 0x08 != 0 {
            if source.len() < 10 {
                return None;
            }
            pad_len = source[9];
            pay_start = pay_start + 1;
            pay_end = pay_end - pad_len as usize;
        }
        if flags & 0x20 != 0 {
            pay_start = pay_start + 5;
        }

        let prio_start: usize = if flags & 0x08 != 0 { 10 } else { 9 };
        let priority = Range { start: prio_start, end: pay_start };
        let payload = Range { start: pay_start, end: pay_end };
        let padding = Range { start: pay_end, end: pay_end + pad_len as usize };

        Some(Self {
            source,
            length,
            type_byte,
            flags,
            stream_id,
            pad_len,
            priority,
            payload,
            padding,
            ftype,
        })
    }

    /// Builds the bytes of a frame. The PRIORITY and PADDED flags are added
    /// when a priority block or padding is kept (see `kept_parts`).
    pub fn create(
        ftype: Http2FrameType,
        flags: u8,
        stream_id: u32,
        priority: Option<&[u8]>,
        payload: Option<&[u8]>,
        padding: Option<&[u8]>,
    ) -> (r: Vec<u8>)
        ensures
            r@ == frame_bytes(
                frame_type_byte(ftype),
                flags,
                stream_id,
                opt_view(priority),
                opt_view(payload),
                opt_view(padding),
            ),
    {
        let (prio, pay, pad, length) = keep_parts(priority, payload, padding);
        let fl: u8 = flags | (if prio.is_some() { 0x20u8 } else { 0u8 }) | (if pad.is_some() { 0x08u8 } else { 0u8 });
        let mut frame = header_bytes(length, ftype.to_byte(), fl, stream_id);
        let ghost head = frame@;
        if let Some(p) = pad {
            frame.push(p.len() as u8);
        }
        let ghost with_pad_len = frame@;
        push_opt(&mut frame, prio);
        push_opt(&mut frame, pay);
        push_opt(&mut frame, pad);
        proof {
            let parts = kept_parts(opt_view(priority), opt_view(payload), opt_view(padding));
            let pl: Seq<u8> = if parts.2 is Some { seq![opt_len(parts.2) as u8] } else { Seq::empty() };
            assert(with_pad_len =~= head + pl);
            assert(frame@ =~= head + pl + opt_bytes(parts.0) + opt_bytes(parts.1) + opt_bytes(parts.2));
        }
        frame
    }

    /// The priority block (empty unless the PRIORITY flag is set).
    pub fn get_priority(&self) -> (r: &[u8])
        requires
            self.range_ok(self.priority),
        ensures
            r@ == self.range_bytes(self.priority),
    {
        vstd::slice::slice_subrange(self.source.as_slice(), self.priority.start, self.priority.end)
    }

    /// The payload, without pad length, priority block or padding.
    pub fn get_payload(&self) -> (r: &[u8])
        requires
            self.range_ok(self.payload),
        ensures
            r@ == self.range_bytes(self.payload),
    {
        vstd::slice::slice_subrange(self.source.as_slice(), self.payload.start, self.payload.end)
    }

    /// The padding bytes.
    pub fn get_padding(&self) -> (r: &[u8])
        requires
            self.range_ok(self.padding),
        ensures
            r@ == self.range_bytes(self.padding),
    {
        vstd::slice::slice_subrange(self.source.as_slice(), self.padding.start, self.padding.end)
    }

    /// ACK flag (0x01) of SETTINGS and PING frames.
    pub fn is_ack(&self) -> (r: bool)
        ensures
            r == (self.flags & 0x01 != 0),
    {
        self.flags & 0x01 != 0
    }

    /// END_STREAM flag (0x01) of DATA and HEADERS frames.
    pub fn is_end_stream(&self) -> (r: bool)
        ensures
            r == (self.flags & 0x01 != 0),
    {
        self.flags & 0x01 != 0
    }

    /// END_HEADERS flag (0x04).
    pub fn is_end_headers(&self) -> (r: bool)
        ensures
            r == (self.flags & 0x04 != 0),
    {
        self.flags & 0x04 != 0
    }

    /// PADDED flag (0x08).
    pub fn is_padded(&self) -> (r: bool)
        ensures
            r == self.padded(),
    {
        self.flags & 0x08 != 0
    }

    /// PRIORITY flag (0x20).
    pub fn is_priority(&self) -> (r: bool)
        ensures
            r == self.prioritized(),
    {
        self.flags & 0x20 != 0
    }
}

} // verus!

verus! {

proof fn lemma_flag_bits(flags: u8, p: bool, d: bool)
    requires
        flags & 0x28 == 0,
    ensures
        ((flags | (if p { 0x20u8 } else { 0u8 }) | (if d { 0x08u8 } else { 0u8 })) & 0x08 != 0) == d,
        ((flags | (if p { 0x20u8 } else { 0u8 }) | (if d { 0x08u8 } else { 0u8 })) & 0x20 != 0) == p,
{
    let a: u8 = if p { 0x20u8 } else { 0u8 };
    let b: u8 = if d { 0x08u8 } else { 0u8 };
    assert(((flags | a | b) & 0x08 != 0) == (b == 0x08)) by (bit_vector)
        requires
            flags & 0x28 == 0,
            a == 0x20 || a == 0,
            b == 0x08 || b == 0,
    ;
    assert(((flags | a | b) & 0x20 != 0) == (a == 0x20)) by (bit_vector)
        requires
            flags & 0x28 == 0,
            a == 0x20 || a == 0,
            b == 0x08 || b == 0,
    ;
}

/// Reading a frame that `create` built gives back its header fields and
/// exactly the priority block, payload and padding that `create` kept,
/// provided the caller's flags do not already claim PRIORITY or PADDED and
/// the payload fits the 24-bit length field.
pub proof fn lemma_create_then_parse(
    type_byte: u8,
    flags: u8,
    stream_id: u32,
    p: Option<Seq<u8>>,
    y: Option<Seq<u8>>,
    d: Option<Seq<u8>>,
    f: Http2Frame,
)
    requires
        flags & 0x28 == 0,
        parts_len(kept_parts(p, y, d).0, kept_parts(p, y, d).1, kept_parts(p, y, d).2) < 16777216,
        f.parsed_from(frame_bytes(type_byte, flags, stream_id, p, y, d)),
    ensures
        frame_parses(frame_bytes(type_byte, flags, stream_id, p, y, d)),
        !pad_underflows(frame_bytes(type_byte, flags, stream_id, p, y, d)),
        f.length == parts_len(kept_parts(p, y, d).0, kept_parts(p, y, d).1, kept_parts(p, y, d).2),
        f.type_byte == type_byte,
        f.stream_id == stream_id,
        f.range_ok(f.priority),
        f.range_ok(f.payload),
        f.range_ok(f.padding),
        f.range_bytes(f.priority) == opt_bytes(kept_parts(p, y, d).0),
        f.range_bytes(f.payload) == opt_bytes(kept_parts(p, y, d).1),
        f.range_bytes(f.padding) == opt_bytes(kept_parts(p, y, d).2),
{
    let (p1, y1, d1) = kept_parts(p, y, d);
    let length = parts_len(p1, y1, d1);
    let bytes = frame_bytes(type_byte, flags, stream_id, p, y, d);
    lemma_flag_bits(flags, p1 is Some, d1 is Some);
    lemma_be32_of_u32_be(stream_id);
    assert(be24(bytes, 0) == length) by (nonlinear_arith)
        requires
            bytes[0] == ((length / 65536) % 256) as u8,
            bytes[1] == ((length / 256) % 256) as u8,
            bytes[2] == (length % 256) as u8,
            length < 16777216,
    ;
    let pl: Seq<u8> = if d1 is Some { seq![opt_len(d1) as u8] } else { Seq::empty() };
    let head = seq![((length / 65536) % 256) as u8, ((length / 256) % 256) as u8, (length % 256) as u8, type_byte, flags | (if p1 is Some { 0x20u8 } else { 0u8 }) | (if d1 is Some { 0x08u8 } else { 0u8 })] + u32_be(stream_id);
    assert(bytes == head + pl + opt_bytes(p1) + opt_bytes(y1) + opt_bytes(d1));
    assert(bytes.subrange(5, 9) =~= u32_be(stream_id));
    let s0 = 9 + pl.len();
    let s1 = s0 + opt_len(p1);
    let s2 = s1 + opt_len(y1);
    assert(bytes.subrange(s0 as int, s1 as int) =~= opt_bytes(p1));
    assert(bytes.subrange(s1 as int, s2 as int) =~= opt_bytes(y1));
    assert(bytes.subrange(s2 as int, bytes.len() as int) =~= opt_bytes(d1));
}

} // verus!

verus! {

/// HTTP/2 connection settings (RFC 9113 section 6.5.2); `None` means not sent.
#[derive(Debug, Clone, Copy)]
pub struct Http2Settings {
    pub header_table_size: Option<u32>,
    pub enable_push: Option<u32>,
    pub max_concurrent_streams: Option<u32>,
    pub initial_window_size: Option<u32>,
    pub max_frame_size: Option<u32>,
    pub max_header_list_size: Option<u32>,
}

/// The (identifier, value) records of a SETTINGS payload, six bytes each.
pub open spec fn settings_records(buf: Seq<u8>) -> Seq<(u16, u32)> {
    Seq::new(buf.len() / 6, |k: int| (be16(buf, 6 * k) as u16, be32(buf, 6 * k + 2) as u32))
}

/// The value of the last record with identifier `id`, if any.
pub open spec fn last_value(records: Seq<(u16, u32)>, id: u16) -> Option<u32>
    decreases records.len(),
{
    if records.len() == 0 {
        None
    } else if records.last().0 == id {
        Some(records.last().1)
    } else {
        last_value(records.drop_last(), id)
    }
}

/// The settings a SETTINGS payload carries: for each known identifier (1 to
/// 6) the last value given; nothing at all when the payload is not a whole
/// number of records.
pub open spec fn settings_from_bytes(buf: Seq<u8>) -> Http2Settings {
    if buf.len() % 6 != 0 {
        Http2Settings {
            header_table_size: None,
            enable_push: None,
            max_concurrent_streams: None,
            initial_window_size: None,
            max_frame_size: None,
            max_header_list_size: None,
        }
    } else {
        let r = settings_records(buf);
        Http2Settings {
            header_table_size: last_value(r, 1),
            enable_push: last_value(r, 2),
            max_concurrent_streams: last_value(r, 3),
            initial_window_size: last_value(r, 4),
            max_frame_size: last_value(r, 5),
            max_header_list_size: last_value(r, 6),
        }
    }
}

/// One six-byte record, or nothing for an unset field.
pub open spec fn setting_record(id: u8, v: Option<u32>) -> Seq<u8> {
    match v {
        Some(x) => seq![0u8, id] + u32_be(x),
        None => Seq::empty(),
    }
}

/// The SETTINGS payload `to_vec` writes: the set fields in identifier order.
pub open spec fn settings_bytes(s: Http2Settings) -> Seq<u8> {
    setting_record(1, s.header_table_size) + setting_record(2, s.enable_push) + setting_record(
        3,
        s.max_concurrent_streams,
    ) + setting_record(4, s.initial_window_size) + setting_record(5, s.max_frame_size)
        + setting_record(6, s.max_header_list_size)
}

/// Values for a record identifier, kept as they are written.
pub open spec fn setting_field(s: Http2Settings, id: u16) -> Option<u32> {
    if id == 1 {
        s.header_table_size
    } else if id == 2 {
        s.enable_push
    } else if id == 3 {
        s.max_concurrent_streams
    } else if id == 4 {
        s.initial_window_size
    } else if id == 5 {
        s.max_frame_size
    } else if id == 6 {
        s.max_header_list_size
    } else {
        None
    }
}

impl Http2Settings {
    /// No setting sent.
    pub fn empty() -> (s: Self)
        ensures
            s.header_table_size is None,
            s.enable_push is None,
            s.max_concurrent_streams is None,
            s.initial_window_size is None,
            s.max_frame_size is None,
            s.max_header_list_size is None,
    {
        Self {
            header_table_size: None,
            enable_push: None,
            max_concurrent_streams: None,
            initial_window_size: None,
            max_frame_size: None,
            max_header_list_size: None,
        }
    }

    /// Table size 4096, push enabled, window 65535, frame size 65535.
    pub fn default() -> (s: Self)
        ensures
            s.header_table_size == Some(4096u32),
            s.enable_push == Some(1u32),
            s.max_concurrent_streams is None,
            s.initial_window_size == Some(65535u32),
            s.max_frame_size == Some(65535u32),
            s.max_header_list_size is None,
    {
        Self {
            header_table_size: Some(4096),
            enable_push: Some(1),
            max_concurrent_streams: None,
            initial_window_size: Some(65535),
            max_frame_size: Some(65535),
            max_header_list_size: None,
        }
    }

    /// As `default`, without the push setting.
    pub fn default_no_push() -> (s: Self)
        ensures
            s.header_table_size == Some(4096u32),
            s.enable_push is None,
            s.max_concurrent_streams is None,
            s.initial_window_size == Some(65535u32),
            s.max_frame_size == Some(65535u32),
            s.max_header_list_size is None,
    {
        Self {
            header_table_size: Some(4096),
            enable_push: None,
            max_concurrent_streams: None,
            initial_window_size: Some(65535),
            max_frame_size: Some(65535),
            max_header_list_size: None,
        }
    }

    /// The largest values the protocol allows (2^31 - 1, frame size 2^24 - 1).
    pub fn maximum() -> (s: Self)
        ensures
            s.header_table_size == Some(2147483647u32),
            s.enable_push is None,
            s.max_concurrent_streams == Some(2147483647u32),
            s.initial_window_size == Some(2147483647u32),
            s.max_frame_size == Some(16777215u32),
            s.max_header_list_size is None,
    {
        Self {
            header_table_size: Some(2147483647),
            enable_push: None,
            max_concurrent_streams: Some(2147483647),
            initial_window_size: Some(2147483647),
            max_frame_size: Some(16777215),
            max_header_list_size: None,
        }
    }

    /// The records of a SETTINGS payload; `None` unless its length is a multiple of 6.
    pub fn raw_from(buf: &[u8]) -> (r: Option<Vec<(u16, u32)>>)
        ensures
            r is Some <==> buf@.len() % 6 == 0,
            r matches Some(v) ==> v@ == settings_records(buf@),
    {
        if buf.len() % 6 != 0 {
            return None;
        }
        let len = buf.len();
        let n = len / 6;
        let mut total: Vec<(u16, u32)> = Vec::with_capacity(n);
        let mut k: usize = 0;
        while k < n
            invariant
                n == buf@.len() / 6,
                len == buf@.len(),
                buf@.len() % 6 == 0,
                k <= n,
                total@ == settings_records(buf@).subrange(0, k as int),
            decreases n - k,
        {
            let o = 6 * k;
            let sid: u16 = buf[o] as u16 * 256 + buf[o + 1] as u16;
            let val: u32 = read_be32(buf, o + 2);
            total.push((sid, val));
            k = k + 1;
            assert(total@ =~= settings_records(buf@).subrange(0, k as int));
        }
        assert(settings_records(buf@).subrange(0, n as int) =~= settings_records(buf@));
        Some(total)
    }

    /// The settings a SETTINGS payload carries (see `settings_from_bytes`).
    pub fn from(buf: &[u8]) -> (s: Self)
        ensures
            s == settings_from_bytes(buf@),
    {
        let mut sett = Self::empty();
        let rset = Self::raw_from(buf);
        if let Some(rset) = rset {
            let ghost r = settings_records(buf@);
            let mut k: usize = 0;
            while k < rset.len()
                invariant
                    rset@ == r,
                    k <= r.len(),
                    sett.header_table_size == last_value(r.subrange(0, k as int), 1),
                    sett.enable_push == last_value(r.subrange(0, k as int), 2),
                    sett.max_concurrent_streams == last_value(r.subrange(0, k as int), 3),
                    sett.initial_window_size == last_value(r.subrange(0, k as int), 4),
                    sett.max_frame_size == last_value(r.subrange(0, k as int), 5),
                    sett.max_header_list_size == last_value(r.subrange(0, k as int), 6),
                decreases r.len() - k,
            {
                let (id, val) = rset[k];
                if id == 1 {
                    sett.header_table_size = Some(val);
                } else if id == 2 {
                    sett.enable_push = Some(val);
                } else if id == 3 {
                    sett.max_concurrent_streams = Some(val);
                } else if id == 4 {
                    sett.initial_window_size = Some(val);
                } else if id == 5 {
                    sett.max_frame_size = Some(val);
                } else if id == 6 {
                    sett.max_header_list_size = Some(val);
                }
                proof {
                    assert(r.subrange(0, k + 1).drop_last() =~= r.subrange(0, k as int));
                }
                k = k + 1;
            }
            assert(r.subrange(0, r.len() as int) =~= r);
        }
        sett
    }

    /// The SETTINGS payload for the set fields, in identifier order.
    pub fn to_vec(&self) -> (r: Vec<u8>)
        ensures
            r@ == settings_bytes(*self),
    {
        let mut res: Vec<u8> = Vec::new();
        push_setting(&mut res, 1, self.header_table_size);
        push_setting(&mut res, 2, self.enable_push);
        push_setting(&mut res, 3, self.max_concurrent_streams);
        push_setting(&mut res, 4, self.initial_window_size);
        push_setting(&mut res, 5, self.max_frame_size);
        push_setting(&mut res, 6, self.max_header_list_size);
        assert(res@ =~= settings_bytes(*self));
        res
    }
}

fn push_setting(res: &mut Vec<u8>, id: u8, v: Option<u32>)
    ensures
        final(res)@ == old(res)@ + setting_record(id, v),
{
    if let Some(val) = v {
        res.push(0);
        res.push(id);
        let b = u32_to_be(val);
        crate::buf::push_all(res, &b);
        assert(final(res)@ =~= old(res)@ + setting_record(id, v));
    } else {
        assert(old(res)@ + setting_record(id, v) =~= old(res)@);
    }
}

impl Default for Http2Settings {
    fn default() -> (s: Self)
        ensures
            s.header_table_size == Some(4096u32),
            s.enable_push == Some(1u32),
            s.max_concurrent_streams is None,
            s.initial_window_size == Some(65535u32),
            s.max_frame_size == Some(65535u32),
            s.max_header_list_size is None,
    {
        Http2Settings::default()
    }
}

proof fn lemma_records_push(a: Seq<u8>, id: u8, v: Option<u32>)
    requires
        a.len() % 6 == 0,
    ensures
        (a + setting_record(id, v)).len() % 6 == 0,
        settings_records(a + setting_record(id, v)) == (match v {
            Some(x) => settings_records(a).push((id as u16, x)),
            None => settings_records(a),
        }),
{
    let b = a + setting_record(id, v);
    match v {
        Some(x) => {
            lemma_be32_of_u32_be(x);
            let n: int = (a.len() / 6) as int;
            assert(b.len() / 6 == n + 1);
            assert forall|k: int| 0 <= k < n implies #[trigger] settings_records(b)[k] == settings_records(a)[k] by {
                assert(b[6 * k] == a[6 * k] && b[6 * k + 1] == a[6 * k + 1]);
                assert(b[6 * k + 2] == a[6 * k + 2] && b[6 * k + 3] == a[6 * k + 3]);
                assert(b[6 * k + 4] == a[6 * k + 4] && b[6 * k + 5] == a[6 * k + 5]);
            }
            assert(b.subrange(6 * n + 2, 6 * n + 6) =~= u32_be(x));
            assert(settings_records(b)[n] == (id as u16, x));
            assert(settings_records(b) =~= settings_records(a).push((id as u16, x)));
        },
        None => {
            assert(b =~= a);
        },
    }
}

proof fn lemma_last_value_push(r: Seq<(u16, u32)>, e: (u16, u32), id: u16)
    ensures
        last_value(r.push(e), id) == (if e.0 == id { Some(e.1) } else { last_value(r, id) }),
{
    assert(r.push(e).drop_last() =~= r);
}

proof fn lemma_settings_step(prev: Seq<(u16, u32)>, next: Seq<(u16, u32)>, k: u16, v: Option<u32>, s: Http2Settings)
    requires
        1 <= k <= 6,
        v == setting_field(s, k),
        next == (match v {
            Some(x) => prev.push((k, x)),
            None => prev,
        }),
        forall|id: u16| 1 <= id <= 6 ==> #[trigger] last_value(prev, id) == (if id < k { setting_field(s, id) } else { None }),
    ensures
        forall|id: u16| 1 <= id <= 6 ==> #[trigger] last_value(next, id) == (if id <= k { setting_field(s, id) } else { None }),
{
    assert forall|id: u16| 1 <= id <= 6 implies #[trigger] last_value(next, id) == (if id <= k { setting_field(s, id) } else { None }) by {
        match v {
            Some(x) => lemma_last_value_push(prev, (k, x), id),
            None => {},
        }
    }
}

/// Reading back the payload that `to_vec` writes gives the same settings.
pub proof fn lemma_settings_roundtrip(s: Http2Settings)
    ensures
        settings_from_bytes(settings_bytes(s)) == s,
{
    let b0: Seq<u8> = Seq::empty();
    let b1 = b0 + setting_record(1, s.header_table_size);
    let b2 = b1 + setting_record(2, s.enable_push);
    let b3 = b2 + setting_record(3, s.max_concurrent_streams);
    let b4 = b3 + setting_record(4, s.initial_window_size);
    let b5 = b4 + setting_record(5, s.max_frame_size);
    let b6 = b5 + setting_record(6, s.max_header_list_size);
    lemma_records_push(b0, 1, s.header_table_size);
    lemma_records_push(b1, 2, s.enable_push);
    lemma_records_push(b2, 3, s.max_concurrent_streams);
    lemma_records_push(b3, 4, s.initial_window_size);
    lemma_records_push(b4, 5, s.max_frame_size);
    lemma_records_push(b5, 6, s.max_header_list_size);
    assert(b6 =~= settings_bytes(s));
    assert(settings_records(b0) =~= Seq::<(u16, u32)>::empty());
    lemma_settings_step(settings_records(b0), settings_records(b1), 1, s.header_table_size, s);
    lemma_settings_step(settings_records(b1), settings_records(b2), 2, s.enable_push, s);
    lemma_settings_step(settings_records(b2), settings_records(b3), 3, s.max_concurrent_streams, s);
    lemma_settings_step(settings_records(b3), settings_records(b4), 4, s.initial_window_size, s);
    lemma_settings_step(settings_records(b4), settings_records(b5), 5, s.max_frame_size, s);
    lemma_settings_step(settings_records(b5), settings_records(b6), 6, s.max_header_list_size, s);
    assert(last_value(settings_records(b6), 1) == s.header_table_size);
    assert(last_value(settings_records(b6), 2) == s.enable_push);
    assert(last_value(settings_records(b6), 3) == s.max_concurrent_streams);
    assert(last_value(settings_records(b6), 4) == s.initial_window_size);
    assert(last_value(settings_records(b6), 5) == s.max_frame_size);
    assert(last_value(settings_records(b6), 6) == s.max_header_list_size);
}

} // verus!
