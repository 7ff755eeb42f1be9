//! Walking the QUIC packets of a received datagram (RFC 9000 section 17):
//! the long header's fixed part, and where each packet ends.

use vstd::prelude::*;
use crate::buf::copy_range;
use crate::http2::frame::{be32, read_be32};
use crate::quic::{try_read_varint, varint_value, varint_width};

verus! {

/// The fields of a long header as plain values: packet type (two bits),
/// packet number length bits, version, destination and source connection
/// ids, and the position just past the source connection id.
pub type LongHeaderView = (u8, u8, u32, Seq<u8>, Seq<u8>, int);

/// The long header whose first byte is at `pos`, when the buffer holds
/// its fixed part: first byte, four version bytes, then each connection
/// id after its length byte.
pub open spec fn long_header_spec(buf: Seq<u8>, pos: int) -> Option<LongHeaderView> {
    if 0 <= pos && pos + 6 <= buf.len() {
        let b = buf[pos];
        let dl = buf[pos + 5] as int;
        if pos + 7 + dl <= buf.len() {
            let sl = buf[pos + 6 + dl] as int;
            if pos + 7 + dl + sl <= buf.len() {
                Some(
                    (
                        ((b / 16) % 4) as u8,
                        (b % 4) as u8,
                        be32(buf, pos + 1) as u32,
                        buf.subrange(pos + 6, pos + 6 + dl),
                        buf.subrange(pos + 7 + dl, pos + 7 + dl + sl),
                        pos + 7 + dl + sl,
                    ),
                )
            } else {
                None
            }
        } else {
            None
        }
    } else {
        None
    }
}

/// The varint at `i`, with the bytes it takes, when the buffer holds it.
pub open spec fn varint_at(buf: Seq<u8>, i: int) -> Option<(nat, nat)> {
    if 0 <= i < buf.len() && i + varint_width(buf[i]) <= buf.len() {
        Some((varint_value(buf, i), varint_width(buf[i])))
    } else {
        None
    }
}

/// `next` when it fits in a `usize`.
pub open spec fn usize_pos(next: int) -> Option<int> {
    if next <= usize::MAX {
        Some(next)
    } else {
        None
    }
}

/// Where the walk goes after the packet with a long header `h` at `pos`,
/// the datagram being `len` bytes: an Initial packet skips its token and
/// its length field, 0-RTT and Handshake their length field, the position
/// then advancing by the end of those fields plus the length; a Retry
/// packet (a token and a 16-byte integrity tag) takes the rest of the
/// datagram. `None` when the buffer does not hold what is read.
pub open spec fn long_next(buf: Seq<u8>, pos: int, len: int, h: LongHeaderView) -> Option<int> {
    let off = h.5;
    if h.0 == 0 {
        match varint_at(buf, off) {
            Some((tl, w)) => if off + w + tl < buf.len() {
                match varint_at(buf, off + w + tl) {
                    Some((l, w2)) => usize_pos(pos + off + w + tl + w2 + l),
                    None => None,
                }
            } else {
                None
            },
            None => None,
        }
    } else if h.0 == 1 || h.0 == 2 {
        match varint_at(buf, off) {
            Some((l, w)) => usize_pos(pos + off + w + l),
            None => None,
        }
    } else if 16 <= len && off <= len - 16 {
        Some(len)
    } else {
        None
    }
}

/// One step of the walk over a datagram of `len` bytes from `pos`: the
/// long header seen (`None` for a short header) and the next position
/// (`None` to stop, on a long header with version 0). A short header takes
/// the rest of the datagram. `None` when the buffer does not hold what is
/// read.
pub open spec fn packet_step(buf: Seq<u8>, pos: int, len: int) -> Option<(Option<LongHeaderView>, Option<int>)> {
    if !(0 <= pos < buf.len()) {
        None
    } else if buf[pos] < 128 {
        Some((None, Some(len)))
    } else {
        match long_header_spec(buf, pos) {
            Some(h) => if h.2 == 0 {
                Some((Some(h), None))
            } else {
                match long_next(buf, pos, len, h) {
                    Some(n) => Some((Some(h), Some(n))),
                    None => None,
                }
            },
            None => None,
        }
    }
}

/// A 0-RTT (type 1) or Handshake (type 2) packet with a nonzero version
/// ends after its length field and the length it gives: the walk moves on
/// from `pos` by the end of the header, the width of that varint and its
/// value, and reports the header it read.
pub proof fn lemma_length_packets_advance(buf: Seq<u8>, pos: int, len: int)
    requires
        0 <= pos < buf.len(),
        buf[pos] >= 128,
        ({
            &&& long_header_spec(buf, pos) matches Some(h)
            &&& h.2 != 0
            &&& (h.0 == 1 || h.0 == 2)
            &&& varint_at(buf, h.5) matches Some((l, w))
            &&& pos + h.5 + w + l <= usize::MAX
        }),
    ensures
        ({
            let h = long_header_spec(buf, pos)->0;
            let (l, w) = varint_at(buf, h.5)->0;
            packet_step(buf, pos, len) == Some((Some(h), Some(pos + h.5 + w + l)))
        }),
{
}

/// An Initial (type 0) packet with a nonzero version skips its token (a
/// length varint, then that many bytes) and its length field, then the
/// length it gives.
pub proof fn lemma_initial_packet_advances(buf: Seq<u8>, pos: int, len: int)
    requires
        0 <= pos < buf.len(),
        buf[pos] >= 128,
        ({
            &&& long_header_spec(buf, pos) matches Some(h)
            &&& h.2 != 0
            &&& h.0 == 0
            &&& varint_at(buf, h.5) matches Some((tl, w))
            &&& h.5 + w + tl < buf.len()
            &&& varint_at(buf, h.5 + w + tl) matches Some((l, w2))
            &&& pos + h.5 + w + tl + w2 + l <= usize::MAX
        }),
    ensures
        ({
            let h = long_header_spec(buf, pos)->0;
            let (tl, w) = varint_at(buf, h.5)->0;
            let (l, w2) = varint_at(buf, h.5 + w + tl)->0;
            packet_step(buf, pos, len) == Some((Some(h), Some(pos + h.5 + w + tl + w2 + l)))
        }),
{
}

/// Only a Retry (type 3) packet takes the rest of the datagram: it needs
/// room for its 16-byte integrity tag after the header.
pub proof fn lemma_retry_takes_rest(buf: Seq<u8>, pos: int, len: int)
    requires
        0 <= pos < buf.len(),
        buf[pos] >= 128,
        ({
            &&& long_header_spec(buf, pos) matches Some(h)
            &&& h.2 != 0
            &&& h.0 == 3
        }),
    ensures
        ({
            let h = long_header_spec(buf, pos)->0;
            &&& 16 <= len && h.5 <= len - 16 ==> packet_step(buf, pos, len) == Some((Some(h), Some(len)))
            &&& !(16 <= len && h.5 <= len - 16) ==> packet_step(buf, pos, len) is None
        }),
{
}

/// A short header (high bit clear) takes the rest of the datagram, and a
/// long header with version 0 stops the walk.
pub proof fn lemma_short_and_version_zero(buf: Seq<u8>, pos: int, len: int)
    requires
        0 <= pos < buf.len(),
    ensures
        buf[pos] < 128 ==> packet_step(buf, pos, len) == Some((None::<LongHeaderView>, Some(len))),
        (buf[pos] >= 128 && long_header_spec(buf, pos) is Some && (long_header_spec(buf, pos)->0).2 == 0)
            ==> packet_step(buf, pos, len) == Some((long_header_spec(buf, pos), None::<int>)),
{
}

/// The fixed part of a long header, byte by byte: the packet type is bits
/// 4 and 5 of the first byte and the packet number length its two low
/// bits; the version is the next four bytes, big-endian; each connection
/// id follows its length byte.
pub proof fn lemma_long_header_fields(buf: Seq<u8>, pos: int)
    requires
        0 <= pos,
        pos + 6 <= buf.len(),
        pos + 7 + buf[pos + 5] <= buf.len(),
        pos + 7 + buf[pos + 5] + buf[pos + 6 + buf[pos + 5]] <= buf.len(),
    ensures
        ({
            let dl = buf[pos + 5] as int;
            let sl = buf[pos + 6 + dl] as int;
            &&& long_header_spec(buf, pos) matches Some(h)
            &&& h.0 as int == (buf[pos] as int / 16) % 4
            &&& h.1 as int == buf[pos] as int % 4
            &&& h.2 as int == buf[pos + 1] as int * 0x1000000 + buf[pos + 2] as int * 0x10000 + buf[pos + 3] as int
                * 0x100 + buf[pos + 4] as int
            &&& h.3 == buf.subrange(pos + 6, pos + 6 + dl)
            &&& h.4 == buf.subrange(pos + 7 + dl, pos + 7 + dl + sl)
            &&& h.5 == pos + 7 + dl + sl
        }),
{
}

/// The fixed part of a long header.
#[derive(Debug)]
pub struct LongHeader {
    pub packet_type: u8,
    pub pn_len: u8,
    pub version: u32,
    pub dcid: Vec<u8>,
    pub scid: Vec<u8>,
    /// Position just past the source connection id.
    pub end: usize,
}

impl LongHeader {
    /// The header as plain values.
    pub open spec fn spec(&self) -> LongHeaderView {
        (self.packet_type, self.pn_len, self.version, self.dcid@, self.scid@, self.end as int)
    }
}

/// One step of the walk over a datagram.
#[derive(Debug)]
pub struct DatagramStep {
    /// The long header seen, `None` for a short header.
    pub header: Option<LongHeader>,
    /// Where the next packet starts, `None` to stop.
    pub next: Option<usize>,
}

/// The optional header of a step as plain values.
pub open spec fn header_view(h: Option<LongHeader>) -> Option<LongHeaderView> {
    match h {
        Some(x) => Some(x.spec()),
        None => None,
    }
}

/// A position as an integer.
pub open spec fn pos_view(n: Option<usize>) -> Option<int> {
    match n {
        Some(x) => Some(x as int),
        None => None,
    }
}

/// Reads the long header at `pos` (see `long_header_spec`).
pub fn long_header_at(buf: &[u8], pos: usize) -> (r: Option<LongHeader>)
    ensures
        header_view(r) == long_header_spec(buf@, pos as int),
{
    let n = buf.len();
    if pos >= n || n - pos < 6 {
        return None;
    }
    let b = buf[pos];
    let dl = buf[pos + 5] as usize;
    if n - pos - 6 < dl + 1 {
        return None;
    }
    let sl = buf[pos + 6 + dl] as usize;
    if n - pos - 7 - dl < sl {
        return None;
    }
    let version = read_be32(buf, pos + 1);
    let dcid = copy_range(buf, pos + 6, pos + 6 + dl);
    let scid = copy_range(buf, pos + 7 + dl, pos + 7 + dl + sl);
    let packet_type = (b & 0x30) >> 4;
    let pn_len = b & 0x03;
    assert(packet_type == (b / 16) % 4 && pn_len == b % 4) by (bit_vector)
        requires
            packet_type == (b & 0x30) >> 4,
            pn_len == b & 0x03,
    ;
    Some(LongHeader { packet_type, pn_len, version, dcid, scid, end: pos + 7 + dl + sl })
}

/// Reads the varint at `i` (see `varint_at`), with the position after it.
fn varint_step(buf: &[u8], i: usize) -> (r: Option<(u64, usize)>)
    ensures
        match r {
            Some((v, j)) => varint_at(buf@, i as int) matches Some((x, w)) && v == x && j == i + w,
            None => varint_at(buf@, i as int) is None,
        },
{
    let mut k = i;
    match try_read_varint(buf, &mut k) {
        Some(v) => Some((v, k)),
        None => None,
    }
}

/// `a + b`, when it fits in a `usize`.
fn add_pos(a: usize, b: u64) -> (r: Option<usize>)
    ensures
        r == match usize_pos(a + b) {
            Some(x) => Some(x as usize),
            None => None::<usize>,
        },
{
    if b > (usize::MAX - a) as u64 {
        None
    } else {
        Some(a + b as usize)
    }
}

/// One step of the walk over a datagram (see `packet_step`).
pub fn datagram_step(buf: &[u8], pos: usize, len: usize) -> (r: Option<DatagramStep>)
    ensures
        match r {
            Some(s) => packet_step(buf@, pos as int, len as int) == Some((header_view(s.header), pos_view(s.next))),
            None => packet_step(buf@, pos as int, len as int) is None,
        },
{
    if pos >= buf.len() {
        return None;
    }
    if buf[pos] < 128 {
        return Some(DatagramStep { header: None, next: Some(len) });
    }
    let h = match long_header_at(buf, pos) {
        Some(h) => h,
        None => return None,
    };
    if h.version == 0 {
        return Some(DatagramStep { header: Some(h), next: None });
    }
    let off = h.end;
    let next: Option<usize> = if h.packet_type == 0 {
        match varint_step(buf, off) {
            Some((tl, o2)) => {
                if tl >= (buf.len() - o2) as u64 {
                    None
                } else {
                    let o3 = o2 + tl as usize;
                    match varint_step(buf, o3) {
                        Some((l, o4)) => match add_pos(pos, o4 as u64) {
                            Some(p) => add_pos(p, l),
                            None => None,
                        },
                        None => None,
                    }
                }
            },
            None => None,
        }
    } else if h.packet_type == 1 || h.packet_type == 2 {
        match varint_step(buf, off) {
            Some((l, o2)) => match add_pos(pos, o2 as u64) {
                Some(p) => add_pos(p, l),
                None => None,
            },
            None => None,
        }
    } else if len >= 16 && off <= len - 16 {
        Some(len)
    } else {
        None
    };
    match next {
        Some(n) => Some(DatagramStep { header: Some(h), next: Some(n) }),
        None => None,
    }
}

} // verus!
