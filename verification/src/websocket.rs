//! WebSocket (RFC 6455): frames, masking, and the handshake key.

use std::ops::Range;
use vstd::prelude::*;
use crate::encoding::{base64_encode, base64_text, sha1_digest, sha1_of};
use crate::quic::pow256;

verus! {

/// The GUID a server appends to the client's key before hashing it.
pub const MAGIC: [u8; 36] = [
    0x32, 0x35, 0x38, 0x45, 0x41, 0x46, 0x41, 0x35, 0x2d, 0x45, 0x39, 0x31, 0x34, 0x2d, 0x34, 0x37, 0x44, 0x41,
    0x2d, 0x39, 0x35, 0x43, 0x41, 0x2d, 0x43, 0x35, 0x41, 0x42, 0x30, 0x44, 0x43, 0x38, 0x35, 0x42, 0x31, 0x31,
];

/// The `Sec-WebSocket-Accept` value for a key: the base64 of the SHA-1 of
/// the key followed by `MAGIC`.
pub open spec fn accept_text(key: Seq<u8>) -> Seq<char> {
    base64_text(sha1_of(key + MAGIC@))
}

/// The `Sec-WebSocket-Accept` value for a key.
pub fn accept_key(key: &[u8]) -> (r: String)
    ensures
        r@ == accept_text(key@),
{
    let mut data: Vec<u8> = Vec::new();
    crate::buf::push_all(&mut data, key);
    crate::buf::push_all(&mut data, &MAGIC);
    let digest = sha1_digest(data.as_slice());
    base64_encode(digest.as_slice())
}

/// The big-endian number in `n` bytes of `s` from `i`.
pub open spec fn be_value(s: Seq<u8>, i: int, n: nat) -> nat
    decreases n,
{
    if n == 0 {
        0
    } else {
        be_value(s, i, (n - 1) as nat) * 256 + s[i + n - 1] as nat
    }
}

/// The `n` big-endian bytes of `v` (modulo `256^n`).
pub open spec fn be_seq(v: nat, n: nat) -> Seq<u8>
    decreases n,
{
    if n == 0 {
        Seq::empty()
    } else {
        be_seq(v / 256, (n - 1) as nat).push((v % 256) as u8)
    }
}

/// A number below `256^n` read back from its `n` bytes.
pub proof fn lemma_be_roundtrip(v: nat, n: nat, s: Seq<u8>, i: int)
    requires
        v < pow256(n),
        0 <= i,
        i + n <= s.len(),
        s.subrange(i, i + n) == be_seq(v, n),
    ensures
        be_seq(v, n).len() == n,
        be_value(s, i, n) == v,
    decreases n,
{
    if n > 0 {
        let m = (n - 1) as nat;
        assert(v / 256 < pow256(m)) by (nonlinear_arith)
            requires
                v < 256 * pow256(m),
        ;
        lemma_be_seq_len(v / 256, m);
        assert(s.subrange(i, i + m) =~= be_seq(v, n).subrange(0, m as int));
        assert(be_seq(v, n).subrange(0, m as int) =~= be_seq(v / 256, m));
        lemma_be_roundtrip(v / 256, m, s, i);
        assert(s[i + n - 1] == be_seq(v, n)[m as int]);
        assert(v == (v / 256) * 256 + v % 256) by (nonlinear_arith);
    }
}

proof fn lemma_be_seq_len(v: nat, n: nat)
    ensures
        be_seq(v, n).len() == n,
    decreases n,
{
    if n > 0 {
        lemma_be_seq_len(v / 256, (n - 1) as nat);
    }
}

/// A big-endian value of `n` bytes is below `256^n`.
proof fn lemma_be_value_bound(s: Seq<u8>, i: int, n: nat)
    ensures
        be_value(s, i, n) < pow256(n),
    decreases n,
{
    if n > 0 {
        let m = (n - 1) as nat;
        lemma_be_value_bound(s, i, m);
        let a = be_value(s, i, m);
        let b = s[i + n - 1] as nat;
        assert(a * 256 + b < 256 * pow256(m)) by (nonlinear_arith)
            requires
                a < pow256(m),
                b < 256,
        ;
    }
}

/// Reads `n` (at most 8) big-endian bytes.
fn read_be(s: &[u8], i: usize, n: usize) -> (v: u64)
    requires
        n <= 8,
        i + n <= s@.len(),
    ensures
        v == be_value(s@, i as int, n as nat),
{
    let len = s.len();
    let mut v: u64 = 0;
    let mut k: usize = 0;
    while k < n
        invariant
            len == s@.len(),
            k <= n <= 8,
            i + n <= s@.len(),
            v == be_value(s@, i as int, k as nat),
        decreases n - k,
    {
        proof {
            lemma_be_value_bound(s@, i as int, k as nat);
            lemma_pow256_mono(k as nat, 7);
            reveal_with_fuel(pow256, 8);
            assert(pow256(7) == 72057594037927936);
        }
        v = v * 256 + s[i + k] as u64;
        k = k + 1;
    }
    v
}

proof fn lemma_pow256_mono(a: nat, b: nat)
    requires
        a <= b,
    ensures
        pow256(a) <= pow256(b),
    decreases b,
{
    if a < b {
        lemma_pow256_mono(a, (b - 1) as nat);
    }
}

/// The size of the extended length field a second header byte announces.
pub open spec fn ws_ext_size(b1: u8) -> nat {
    let c = b1 % 128;
    if c == 126 {
        2
    } else if c == 127 {
        8
    } else {
        0
    }
}

/// The size of a frame's header: two bytes, the extended length, the mask.
pub open spec fn ws_head_size(src: Seq<u8>) -> nat {
    2 + ws_ext_size(src[1]) + (if src[1] >= 128 { 4nat } else { 0 })
}

/// The extended length field (0 when there is none).
pub open spec fn ws_ext_len(src: Seq<u8>) -> nat {
    be_value(src, 2, ws_ext_size(src[1]))
}

/// The payload length a frame announces.
pub open spec fn ws_payload_len(src: Seq<u8>) -> nat {
    if src[1] % 128 < 126 {
        (src[1] % 128) as nat
    } else {
        ws_ext_len(src)
    }
}

/// Whether `src` holds a whole frame: its header and its payload.
pub open spec fn ws_parses(src: Seq<u8>) -> bool {
    src.len() >= 2 && src.len() >= ws_head_size(src) && src.len() - ws_head_size(src) >= ws_payload_len(src)
}

/// `p` with each byte XORed with the mask byte of its position.
pub open spec fn masked_bytes(p: Seq<u8>, mask: Seq<u8>) -> Seq<u8> {
    Seq::new(p.len(), |i: int| p[i] ^ mask[i % 4])
}

/// The size of a frame's header, from its second byte (see `ws_head_size`).
pub fn head_size(b1: u8) -> (r: usize)
    ensures
        forall|src: Seq<u8>| src.len() >= 2 && src[1] == b1 ==> r == ws_head_size(src),
{
    let code = b1 % 128;
    let ext: usize = if code == 126 {
        2
    } else if code == 127 {
        8
    } else {
        0
    };
    2 + ext + if b1 >= 128 { 4 } else { 0 }
}

/// The payload length a frame's header announces (see `ws_payload_len`).
pub fn payload_length(head: &[u8]) -> (r: u64)
    requires
        head@.len() >= 2,
        head@.len() >= ws_head_size(head@),
    ensures
        r == ws_payload_len(head@),
{
    let code = head[1] % 128;
    if code < 126 {
        code as u64
    } else if code == 126 {
        read_be(head, 2, 2)
    } else {
        read_be(head, 2, 8)
    }
}

/// One WebSocket frame: its bytes and the header fields read from them.
#[derive(Debug)]
pub struct WebSocketFrame {
    pub source: Vec<u8>,
    pub fin: bool,
    pub rsv: u8,
    pub opcode_byte: u8,
    pub masked: bool,
    /// The 7-bit length field.
    pub len: u8,
    /// The extended length field (0 when there is none).
    pub ext_len: u64,
    /// The masking key (zeros when unmasked).
    pub mask: [u8; 4],
    pub payload: Range<usize>,
}

impl WebSocketFrame {
    /// This frame is what `from_owned` makes of `src`.
    pub open spec fn parsed_from(self, src: Seq<u8>) -> bool {
        let h = ws_head_size(src);
        &&& self.source@ == src
        &&& self.fin == (src[0] >= 128)
        &&& self.rsv == (src[0] / 16) % 8
        &&& self.opcode_byte == src[0] % 16
        &&& self.masked == (src[1] >= 128)
        &&& self.len == src[1] % 128
        &&& self.ext_len == ws_ext_len(src)
        &&& self.mask@ == (if src[1] >= 128 {
            src.subrange(h - 4, h as int)
        } else {
            seq![0u8, 0u8, 0u8, 0u8]
        })
        &&& self.payload.start == h
        &&& self.payload.end == h + ws_payload_len(src)
    }

    /// The payload bytes.
    pub open spec fn payload_bytes(self) -> Seq<u8> {
        self.source@.subrange(self.payload.start as int, self.payload.end as int)
    }

    /// Reads a frame from its bytes; `None` unless they hold the whole frame.
    pub fn from_owned(source: Vec<u8>) -> (r: Option<Self>)
        ensures
            r is Some <==> ws_parses(source@),
            r matches Some(f) ==> f.parsed_from(source@),
    {
        let n = source.len();
        if n < 2 {
            return None;
        }
        let b0 = source[0];
        let b1 = source[1];
        let code = b1 % 128;
        let ext: usize = if code == 126 {
            2
        } else if code == 127 {
            8
        } else {
            0
        };
        let masked = b1 >= 128;
        let head = 2 + ext + if masked { 4 } else { 0 };
        if n < head {
            return None;
        }
        let ext_len = read_be(source.as_slice(), 2, ext);
        let plen: u64 = if code < 126 { code as u64 } else { ext_len };
        if ((n - head) as u64) < plen {
            return None;
        }
        let mut mask: [u8; 4] = [0, 0, 0, 0];
        if masked {
            mask = [source[head - 4], source[head - 3], source[head - 2], source[head - 1]];
            assert(mask@ =~= source@.subrange(head - 4, head as int));
        } else {
            assert(mask@ =~= seq![0u8, 0u8, 0u8, 0u8]);
        }
        let end = head + plen as usize;
        Some(WebSocketFrame {
            source,
            fin: b0 >= 128,
            rsv: (b0 / 16) % 8,
            opcode_byte: b0 % 16,
            masked,
            len: code,
            ext_len,
            mask,
            payload: Range { start: head, end },
        })
    }

    /// Whether the payload range lies within the bytes.
    pub open spec fn wf(self) -> bool {
        self.payload.start <= self.payload.end <= self.source@.len()
    }

    /// The payload.
    pub fn get_payload(&self) -> (r: &[u8])
        requires
            self.wf(),
        ensures
            r@ == self.payload_bytes(),
    {
        vstd::slice::slice_subrange(self.source.as_slice(), self.payload.start, self.payload.end)
    }

    /// Removes the masking from the payload, in place (a frame that is not
    /// masked is left as it is).
    pub fn unmask_in_place(&mut self)
        requires
            old(self).wf(),
        ensures
            final(self).wf(),
            final(self).payload_bytes() == (if old(self).masked {
                masked_bytes(old(self).payload_bytes(), old(self).mask@)
            } else {
                old(self).payload_bytes()
            }),
            final(self).fin == old(self).fin,
            final(self).rsv == old(self).rsv,
            final(self).opcode_byte == old(self).opcode_byte,
            final(self).masked == old(self).masked,
            final(self).len == old(self).len,
            final(self).ext_len == old(self).ext_len,
            final(self).mask == old(self).mask,
            final(self).payload == old(self).payload,
    {
        if !self.masked {
            return;
        }
        let start = self.payload.start;
        let end = self.payload.end;
        let mask = self.mask;
        let mut src: Vec<u8> = Vec::new();
        std::mem::swap(&mut src, &mut self.source);
        let ghost before = src@;
        let mut i = start;
        while i < end
            invariant
                start <= i <= end <= src@.len(),
                src@.len() == before.len(),
                forall|k: int| 0 <= k < start || end <= k < before.len() ==> src@[k] == before[k],
                forall|k: int| start <= k < i ==> src@[k] == before[k] ^ mask@[(k - start) % 4],
                forall|k: int| i <= k < end ==> src@[k] == before[k],
            decreases end - i,
        {
            let m = mask[(i - start) % 4];
            let b = src[i];
            src.set(i, b ^ m);
            i = i + 1;
        }
        std::mem::swap(&mut src, &mut self.source);
        assert(self.payload_bytes() =~= masked_bytes(before.subrange(start as int, end as int), self.mask@));
    }
}

/// The header bytes of a frame with this payload length.
pub open spec fn ws_length_bytes(masked: bool, n: nat) -> Seq<u8> {
    let m: nat = if masked { 128 } else { 0 };
    if n < 126 {
        seq![(m + n) as u8]
    } else if n < 65536 {
        seq![(m + 126) as u8] + be_seq(n, 2)
    } else {
        seq![(m + 127) as u8] + be_seq(n, 8)
    }
}

/// The bytes of a frame: FIN and opcode, the length (with the mask bit),
/// the masking key when there is one, and the payload, masked with it.
pub open spec fn ws_frame_bytes(fin: bool, opcode: u8, mask: Option<Seq<u8>>, payload: Seq<u8>) -> Seq<u8> {
    seq![((if fin { 128nat } else { 0 }) + opcode) as u8] + ws_length_bytes(mask is Some, payload.len()) + match mask {
        Some(k) => k + masked_bytes(payload, k),
        None => payload,
    }
}

/// Appends the `n` big-endian bytes of `v`.
fn push_be(out: &mut Vec<u8>, v: u64, n: usize)
    requires
        n <= 8,
    ensures
        final(out)@ == old(out)@ + be_seq(v as nat, n as nat),
    decreases n,
{
    if n > 0 {
        push_be(out, v / 256, n - 1);
        out.push((v % 256) as u8);
    }
}

impl WebSocketFrame {
    /// Builds the bytes of a frame (see `ws_frame_bytes`).
    pub fn create(fin: bool, opcode: u8, mask: Option<[u8; 4]>, payload: &[u8]) -> (r: Vec<u8>)
        requires
            opcode < 16,
        ensures
            r@ == ws_frame_bytes(
                fin,
                opcode,
                match mask {
                    Some(k) => Some(k@),
                    None => None,
                },
                payload@,
            ),
    {
        let mut out: Vec<u8> = Vec::new();
        out.push(if fin { 128 + opcode } else { opcode });
        let m: u8 = if mask.is_some() { 128 } else { 0 };
        let n = payload.len();
        if n < 126 {
            out.push(m + n as u8);
        } else if n < 65536 {
            out.push(m + 126);
            push_be(&mut out, n as u64, 2);
        } else {
            out.push(m + 127);
            push_be(&mut out, n as u64, 8);
        }
        let ghost head = out@;
        match mask {
            Some(k) => {
                crate::buf::push_all(&mut out, &k);
                let mut i: usize = 0;
                while i < n
                    invariant
                        i <= n == payload@.len(),
                        out@ == head + k@ + masked_bytes(payload@, k@).subrange(0, i as int),
                    decreases n - i,
                {
                    out.push(payload[i] ^ k[i % 4]);
                    i = i + 1;
                    assert(out@ =~= head + k@ + masked_bytes(payload@, k@).subrange(0, i as int));
                }
                assert(masked_bytes(payload@, k@).subrange(0, n as int) =~= masked_bytes(payload@, k@));
            },
            None => {
                crate::buf::push_all(&mut out, payload);
            },
        }
        proof {
            let mk = match mask {
                Some(k) => Some(k@),
                None => None,
            };
            assert(out@ =~= ws_frame_bytes(fin, opcode, mk, payload@));
        }
        out
    }
}

/// Masking twice with the same key gives the bytes back.
pub proof fn lemma_mask_twice(p: Seq<u8>, k: Seq<u8>)
    ensures
        masked_bytes(masked_bytes(p, k), k) == p,
{
    assert forall|i: int| 0 <= i < p.len() implies masked_bytes(masked_bytes(p, k), k)[i] == p[i] by {
        let a = p[i];
        let b = k[i % 4];
        assert((a ^ b) ^ b == a) by (bit_vector);
    }
    assert(masked_bytes(masked_bytes(p, k), k) =~= p);
}

/// Reading a frame that `create` built gives back its FIN bit, opcode,
/// mask and payload: the header fields are those written, no reserved bit
/// is set, and unmasking the payload read gives the payload written.
pub proof fn lemma_create_then_parse(fin: bool, opcode: u8, mask: Option<Seq<u8>>, payload: Seq<u8>, f: WebSocketFrame)
    requires
        opcode < 16,
        mask matches Some(k) ==> k.len() == 4,
        payload.len() < pow256(8),
        f.parsed_from(ws_frame_bytes(fin, opcode, mask, payload)),
    ensures
        ws_parses(ws_frame_bytes(fin, opcode, mask, payload)),
        f.fin == fin,
        f.rsv == 0,
        f.opcode_byte == opcode,
        f.masked == mask is Some,
        mask matches Some(k) ==> f.mask@ == k,
        (if f.masked { masked_bytes(f.payload_bytes(), f.mask@) } else { f.payload_bytes() }) == payload,
{
    let src = ws_frame_bytes(fin, opcode, mask, payload);
    let n = payload.len();
    let b0: u8 = ((if fin { 128nat } else { 0 }) + opcode) as u8;
    let m: nat = if mask is Some { 128 } else { 0 };
    let lb = ws_length_bytes(mask is Some, n);
    let body = match mask {
        Some(k) => k + masked_bytes(payload, k),
        None => payload,
    };
    assert(src == seq![b0] + lb + body);
    assert(src[0] == b0);
    assert(b0 >= 128 <==> fin);
    assert(b0 % 16 == opcode);
    assert((b0 / 16) % 8 == 0);
    let ext: nat = if n < 126 { 0 } else if n < 65536 { 2 } else { 8 };
    reveal_with_fuel(pow256, 3);
    if n < 126 {
        assert(lb =~= seq![(m + n) as u8]);
    } else if n < 65536 {
        lemma_be_seq_len(n, 2);
        assert(lb =~= seq![(m + 126) as u8] + be_seq(n, 2));
        assert(src.subrange(2, 4) =~= be_seq(n, 2));
        lemma_be_roundtrip(n, 2, src, 2);
    } else {
        lemma_be_seq_len(n, 8);
        assert(lb =~= seq![(m + 127) as u8] + be_seq(n, 8));
        assert(src.subrange(2, 10) =~= be_seq(n, 8));
        lemma_be_roundtrip(n, 8, src, 2);
    }
    assert(src[1] == lb[0]);
    assert(lb.len() == 1 + ext);
    let h = 2 + ext + (if mask is Some { 4nat } else { 0 });
    assert(ws_head_size(src) == h);
    assert(ws_payload_len(src) == n);
    match mask {
        Some(k) => {
            assert(src.subrange(h - 4, h as int) =~= k);
            assert(f.payload_bytes() =~= masked_bytes(payload, k));
            lemma_mask_twice(payload, k);
        },
        None => {
            assert(f.payload_bytes() =~= payload);
        },
    }
}

} // verus!
