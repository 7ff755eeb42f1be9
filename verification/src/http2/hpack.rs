//! HPACK header compression (RFC 7541). The representation framing (which
//! bytes make up one field) is checked here; the coding itself, Huffman and
//! the indexing tables, is done by the `httlib-hpack` crate.

use vstd::prelude::*;
use crate::http2::session::pairs_view;

verus! {

#[verifier::external_type_specification]
#[verifier::external_body]
pub struct ExHpackDecoder<'a>(httlib_hpack::Decoder<'a>);

#[verifier::external_type_specification]
#[verifier::external_body]
pub struct ExHpackEncoder<'a>(httlib_hpack::Encoder<'a>);

#[verifier::external_type_specification]
#[verifier::external_body]
pub struct ExHpackDecoderError(httlib_hpack::DecoderError);

#[verifier::external_type_specification]
#[verifier::external_body]
pub struct ExHpackEncoderError(httlib_hpack::EncoderError);

/// How a header field is (to be) represented in a header block.
#[derive(Debug, Clone, Copy, PartialEq, Eq, Structural)]
pub enum HeaderType {
    /// Fully taken from the indexing table (or to be, when it is there).
    Lookup,
    /// Literal, added to the dynamic table.
    Indexed,
    /// Literal, not added to the dynamic table.
    NotIndexed,
    /// Literal that intermediaries must never index.
    NeverIndexed,
    /// A dynamic table size update.
    TableSizeChange,
}

/// Errors of HPACK coding.
#[derive(Debug, Clone, Copy, PartialEq, Eq, Structural)]
pub enum HpackError {
    InvalidHeaderField,
    InvalidInput,
    InvalidIndex,
    InvalidPrefix,
    IntegerOverflow,
    IntegerUnderflow,
    InvalidMaxDynamicSize,
}

/// Errors of Huffman coding.
#[derive(Debug, Clone, Copy, PartialEq, Eq, Structural)]
pub enum HuffmanError {
    InvalidInput,
}

/// 128 raised to `k`.
pub open spec fn pow128(k: nat) -> nat
    decreases k,
{
    if k == 0 {
        1
    } else {
        128 * pow128((k - 1) as nat)
    }
}

/// Continuation bytes of a prefixed integer, from `s[i]` on: adds
/// `(byte % 128) * 128^k` while the high bit is set, up to five bytes in all.
pub open spec fn int_cont(s: Seq<u8>, i: int, k: nat, acc: nat, total: nat) -> Option<(nat, nat)>
    decreases s.len() - i,
{
    if i < 0 || i >= s.len() {
        None
    } else {
        let b = s[i];
        let acc2 = acc + (b % 128) as nat * pow128(k);
        let t2 = total + 1;
        if b < 128 {
            Some((acc2, t2))
        } else if t2 >= 5 {
            None
        } else {
            int_cont(s, i + 1, k + 1, acc2, t2)
        }
    }
}

/// The prefixed integer (RFC 7541 section 5.1) at `q` whose prefix is
/// `mask` (2^N - 1): its value and the number of bytes it takes.
pub open spec fn hpack_int(s: Seq<u8>, q: int, mask: u8) -> Option<(nat, nat)> {
    if q < 0 || q >= s.len() {
        None
    } else {
        let v0 = (s[q] & mask) as nat;
        if v0 < mask {
            Some((v0, 1))
        } else {
            int_cont(s, q + 1, 0, mask as nat, 1)
        }
    }
}

/// Bytes taken by the string literal (section 5.2) at `q`.
pub open spec fn string_extent(s: Seq<u8>, q: int) -> Option<nat> {
    match hpack_int(s, q, 127) {
        Some((len, n)) => if q + n + len <= s.len() {
            Some(n + len)
        } else {
            None
        },
        None => None,
    }
}

/// Bytes taken by a literal representation whose index has prefix `mask`.
pub open spec fn literal_extent(s: Seq<u8>, q: int, mask: u8) -> Option<nat> {
    match hpack_int(s, q, mask) {
        Some((idx, n)) => {
            let name = if idx == 0 { string_extent(s, q + n) } else { Some(0nat) };
            match name {
                Some(m) => match string_extent(s, q + n + m) {
                    Some(w) => Some(n + m + w),
                    None => None,
                },
                None => None,
            }
        },
        None => None,
    }
}

/// Bytes taken by the field representation (section 6) at `q`, if complete.
pub open spec fn field_extent(s: Seq<u8>, q: int) -> Option<nat> {
    if q < 0 || q >= s.len() {
        None
    } else if s[q] >= 128 {
        match hpack_int(s, q, 127) {
            Some((_, n)) => Some(n),
            None => None,
        }
    } else if s[q] >= 64 {
        literal_extent(s, q, 63)
    } else if s[q] >= 32 {
        match hpack_int(s, q, 31) {
            Some((_, n)) => Some(n),
            None => None,
        }
    } else {
        literal_extent(s, q, 15)
    }
}

/// The representation a field's first byte announces.
pub open spec fn header_type_of(b: u8) -> HeaderType {
    if b >= 128 {
        HeaderType::Lookup
    } else if b >= 64 {
        HeaderType::Indexed
    } else if b >= 32 {
        HeaderType::TableSizeChange
    } else if b >= 16 {
        HeaderType::NeverIndexed
    } else {
        HeaderType::NotIndexed
    }
}

/// The kind of representation a field's first byte announces (RFC 7541
/// section 6): a set high bit an indexed field (`Lookup`), `01` a literal
/// with incremental indexing, `001` a table size update, `0001` a literal
/// never indexed, `0000` a literal without indexing.
pub proof fn lemma_header_type_prefixes(b: u8)
    ensures
        b / 128 == 1 ==> header_type_of(b) == HeaderType::Lookup,
        b / 64 == 1 ==> header_type_of(b) == HeaderType::Indexed,
        b / 32 == 1 ==> header_type_of(b) == HeaderType::TableSizeChange,
        b / 16 == 1 ==> header_type_of(b) == HeaderType::NeverIndexed,
        b / 16 == 0 ==> header_type_of(b) == HeaderType::NotIndexed,
{
}

/// A literal the encoder writes for a field of a literal type is read back
/// by the decoder with that type: the type `decode` reports for the bytes
/// `encode` appends is the type `encode` was given.
pub proof fn lemma_literal_type_read_back(name: Seq<u8>, value: Seq<u8>, t: HeaderType, huffman: Option<bool>)
    requires
        t == HeaderType::Indexed || t == HeaderType::NotIndexed || t == HeaderType::NeverIndexed,
    ensures
        header_type_of(hpack_literal(name, value, encode_flags(t, huffman))[0]) == t,
{
    reveal(hpack_literal);
}

/// Whether the representations from `q` on are all complete, ending exactly at the end.
pub open spec fn block_complete(s: Seq<u8>, q: int) -> bool
    decreases s.len() - q,
{
    if q >= s.len() {
        q == s.len()
    } else {
        match field_extent(s, q) {
            Some(n) => if n > 0 && q + n <= s.len() {
                block_complete(s, q + n)
            } else {
                false
            },
            None => false,
        }
    }
}

/// Number of header fields (size updates not counted) in a complete block from `q`.
pub open spec fn block_fields(s: Seq<u8>, q: int) -> nat
    decreases s.len() - q,
{
    if q >= s.len() {
        0
    } else {
        match field_extent(s, q) {
            Some(n) => if n > 0 && q + n <= s.len() {
                (if header_type_of(s[q]) == HeaderType::TableSizeChange { 0nat } else { 1nat })
                    + block_fields(s, q + n)
            } else {
                0
            },
            None => 0,
        }
    }
}

/// Reads the prefixed integer at `q` (see `hpack_int`).
pub fn read_int(s: &[u8], q: usize, mask: u8) -> (r: Option<(u32, usize)>)
    requires
        mask == 15 || mask == 31 || mask == 63 || mask == 127,
    ensures
        match r {
            Some((v, n)) => hpack_int(s@, q as int, mask) == Some((v as nat, n as nat)),
            None => hpack_int(s@, q as int, mask) is None,
        },
{
    if q >= s.len() {
        return None;
    }
    let b = s[q];
    let v0 = b & mask;
    assert(v0 <= mask) by (bit_vector)
        requires v0 == b & mask;
    if v0 < mask {
        return Some((v0 as u32, 1));
    }
    let mut acc: u32 = mask as u32;
    let mut total: usize = 1;
    let mut i: usize = q + 1;
    let mut mult: u32 = 1;
    let ghost k: nat = 0;
    proof {
        reveal_with_fuel(pow128, 1);
    }
    while i < s.len()
        invariant
            q < s@.len(),
            i == q + total,
            1 <= total <= 4,
            k == total - 1,
            mult == pow128(k),
            acc < 256 + pow128(k) * 128,
            hpack_int(s@, q as int, mask) == int_cont(s@, i as int, k, acc as nat, total as nat),
        decreases s@.len() - i,
    {
        let byte = s[i];
        proof {
            reveal_with_fuel(pow128, 5);
            assert(mult <= 2097152);
            assert((byte % 128) as u32 * mult <= 127 * mult) by (nonlinear_arith)
                requires mult <= 2097152;
            assert(pow128(k) * 128 == pow128(k + 1));
        }
        let acc2: u32 = acc + (byte % 128) as u32 * mult;
        let t2 = total + 1;
        if byte < 128 {
            return Some((acc2, t2));
        } else if t2 >= 5 {
            return None;
        }
        acc = acc2;
        total = t2;
        i = i + 1;
        mult = mult * 128;
        proof {
            k = k + 1;
        }
    }
    None
}


/// Bytes taken by the string literal at `q` (see `string_extent`).
fn string_len(s: &[u8], q: usize) -> (r: Option<usize>)
    ensures
        match r {
            Some(n) => string_extent(s@, q as int) == Some(n as nat),
            None => string_extent(s@, q as int) is None,
        },
{
    match read_int(s, q, 127) {
        Some((len, n)) => {
            if n <= s.len() - q && len as usize <= s.len() - q - n {
                Some(n + len as usize)
            } else {
                None
            }
        },
        None => None,
    }
}

/// Bytes taken by a literal representation (see `literal_extent`).
fn literal_len(s: &[u8], q: usize, mask: u8) -> (r: Option<usize>)
    requires
        mask == 15 || mask == 63,
    ensures
        match r {
            Some(n) => literal_extent(s@, q as int, mask) == Some(n as nat),
            None => literal_extent(s@, q as int, mask) is None,
        },
{
    match read_int(s, q, mask) {
        Some((idx, n)) => {
            if n > s.len() - q {
                proof {
                    assert(string_extent(s@, q + n) is None);
                }
                return None;
            }
            let m: usize = if idx == 0 {
                match string_len(s, q + n) {
                    Some(m) => m,
                    None => {
                        return None;
                    },
                }
            } else {
                0
            };
            if m > s.len() - q - n {
                return None;
            }
            match string_len(s, q + n + m) {
                Some(w) => {
                    if w > s.len() - q - n - m {
                        return None;
                    }
                    Some(n + m + w)
                },
                None => None,
            }
        },
        None => None,
    }
}

/// Bytes taken by the field representation at `q` (see `field_extent`).
pub fn field_len(s: &[u8], q: usize) -> (r: Option<usize>)
    ensures
        match r {
            Some(n) => field_extent(s@, q as int) == Some(n as nat),
            None => field_extent(s@, q as int) is None,
        },
{
    if q >= s.len() {
        return None;
    }
    let b = s[q];
    if b >= 128 {
        match read_int(s, q, 127) {
            Some((_, n)) => Some(n),
            None => None,
        }
    } else if b >= 64 {
        literal_len(s, q, 63)
    } else if b >= 32 {
        match read_int(s, q, 31) {
            Some((_, n)) => Some(n),
            None => None,
        }
    } else {
        literal_len(s, q, 15)
    }
}

/// The representation a field's first byte announces (see `header_type_of`).
pub fn header_type_from_byte(b: u8) -> (t: HeaderType)
    ensures
        t == header_type_of(b),
{
    if b >= 128 {
        HeaderType::Lookup
    } else if b >= 64 {
        HeaderType::Indexed
    } else if b >= 32 {
        HeaderType::TableSizeChange
    } else if b >= 16 {
        HeaderType::NeverIndexed
    } else {
        HeaderType::NotIndexed
    }
}

/// The maximum size of a decoder's dynamic table, as
/// `httlib_hpack::Decoder::max_dynamic_size` reports it.
pub uninterp spec fn decoder_table_limit(dec: httlib_hpack::Decoder<'static>) -> u32;

/// The dynamic table of a decoder, newest entry first.
pub uninterp spec fn decoder_entries(dec: httlib_hpack::Decoder<'static>) -> Seq<(Seq<u8>, Seq<u8>)>;

/// The most that a table size update may set the decoder's table to (the
/// limit the decoder was made with).
pub uninterp spec fn decoder_size_cap(dec: httlib_hpack::Decoder<'static>) -> u32;

/// The dynamic table of an encoder, newest entry first.
pub uninterp spec fn encoder_entries(enc: httlib_hpack::Encoder<'static>) -> Seq<(Seq<u8>, Seq<u8>)>;

/// The maximum size of an encoder's dynamic table, as
/// `httlib_hpack::Encoder::max_dynamic_size` reports it.
pub uninterp spec fn encoder_table_limit(enc: httlib_hpack::Encoder<'static>) -> u32;

/// The bytes of an ASCII text.
pub open spec fn ascii_of(s: Seq<char>) -> Seq<u8> {
    s.map_values(|c: char| c as u8)
}

/// The static table of RFC 7541 (Appendix A): index `i + 1` is entry `i`.
#[verifier::opaque]
pub open spec fn static_table() -> Seq<(Seq<u8>, Seq<u8>)> {
    seq![
        (ascii_of(":authority"@), ascii_of(""@)),
        (ascii_of(":method"@), ascii_of("GET"@)),
        (ascii_of(":method"@), ascii_of("POST"@)),
        (ascii_of(":path"@), ascii_of("/"@)),
        (ascii_of(":path"@), ascii_of("/index.html"@)),
        (ascii_of(":scheme"@), ascii_of("http"@)),
        (ascii_of(":scheme"@), ascii_of("https"@)),
        (ascii_of(":status"@), ascii_of("200"@)),
        (ascii_of(":status"@), ascii_of("204"@)),
        (ascii_of(":status"@), ascii_of("206"@)),
        (ascii_of(":status"@), ascii_of("304"@)),
        (ascii_of(":status"@), ascii_of("400"@)),
        (ascii_of(":status"@), ascii_of("404"@)),
        (ascii_of(":status"@), ascii_of("500"@)),
        (ascii_of("accept-charset"@), ascii_of(""@)),
        (ascii_of("accept-encoding"@), ascii_of("gzip, deflate"@)),
        (ascii_of("accept-language"@), ascii_of(""@)),
        (ascii_of("accept-ranges"@), ascii_of(""@)),
        (ascii_of("accept"@), ascii_of(""@)),
        (ascii_of("access-control-allow-origin"@), ascii_of(""@)),
        (ascii_of("age"@), ascii_of(""@)),
        (ascii_of("allow"@), ascii_of(""@)),
        (ascii_of("authorization"@), ascii_of(""@)),
        (ascii_of("cache-control"@), ascii_of(""@)),
        (ascii_of("content-disposition"@), ascii_of(""@)),
        (ascii_of("content-encoding"@), ascii_of(""@)),
        (ascii_of("content-language"@), ascii_of(""@)),
        (ascii_of("content-length"@), ascii_of(""@)),
        (ascii_of("content-location"@), ascii_of(""@)),
        (ascii_of("content-range"@), ascii_of(""@)),
        (ascii_of("content-type"@), ascii_of(""@)),
        (ascii_of("cookie"@), ascii_of(""@)),
        (ascii_of("date"@), ascii_of(""@)),
        (ascii_of("etag"@), ascii_of(""@)),
        (ascii_of("expect"@), ascii_of(""@)),
        (ascii_of("expires"@), ascii_of(""@)),
        (ascii_of("from"@), ascii_of(""@)),
        (ascii_of("host"@), ascii_of(""@)),
        (ascii_of("if-match"@), ascii_of(""@)),
        (ascii_of("if-modified-since"@), ascii_of(""@)),
        (ascii_of("if-none-match"@), ascii_of(""@)),
        (ascii_of("if-range"@), ascii_of(""@)),
        (ascii_of("if-unmodified-since"@), ascii_of(""@)),
        (ascii_of("last-modified"@), ascii_of(""@)),
        (ascii_of("link"@), ascii_of(""@)),
        (ascii_of("location"@), ascii_of(""@)),
        (ascii_of("max-forwards"@), ascii_of(""@)),
        (ascii_of("proxy-authenticate"@), ascii_of(""@)),
        (ascii_of("proxy-authorization"@), ascii_of(""@)),
        (ascii_of("range"@), ascii_of(""@)),
        (ascii_of("referer"@), ascii_of(""@)),
        (ascii_of("refresh"@), ascii_of(""@)),
        (ascii_of("retry-after"@), ascii_of(""@)),
        (ascii_of("server"@), ascii_of(""@)),
        (ascii_of("set-cookie"@), ascii_of(""@)),
        (ascii_of("strict-transport-security"@), ascii_of(""@)),
        (ascii_of("transfer-encoding"@), ascii_of(""@)),
        (ascii_of("user-agent"@), ascii_of(""@)),
        (ascii_of("vary"@), ascii_of(""@)),
        (ascii_of("via"@), ascii_of(""@)),
        (ascii_of("www-authenticate"@), ascii_of(""@))
    ]
}

/// The size an entry takes in a dynamic table: its name and value and 32.
pub open spec fn entry_size(e: (Seq<u8>, Seq<u8>)) -> nat {
    e.0.len() + e.1.len() + 32
}

/// The size of a dynamic table.
pub open spec fn entries_size(es: Seq<(Seq<u8>, Seq<u8>)>) -> nat
    decreases es.len(),
{
    if es.len() == 0 {
        0
    } else {
        entries_size(es.drop_last()) + entry_size(es.last())
    }
}

/// A dynamic table (newest entry first) after evicting its oldest entries
/// until its size is at most `max`.
pub open spec fn evicted(es: Seq<(Seq<u8>, Seq<u8>)>, max: nat) -> Seq<(Seq<u8>, Seq<u8>)>
    decreases es.len(),
{
    if es.len() > 0 && entries_size(es) > max {
        evicted(es.drop_last(), max)
    } else {
        es
    }
}

/// The entry at index `idx` of the static table followed by the dynamic
/// table `es` (index 0 is no entry).
pub open spec fn table_entry(es: Seq<(Seq<u8>, Seq<u8>)>, idx: nat) -> Option<(Seq<u8>, Seq<u8>)> {
    if idx == 0 {
        None
    } else if idx <= 61 {
        Some(static_table()[idx - 1])
    } else if idx - 62 < es.len() {
        Some(es[idx - 62])
    } else {
        None
    }
}

/// What `httlib_huffman::decode` makes of Huffman-coded bytes, `None`
/// when it refuses them.
pub uninterp spec fn huffman_decoded(data: Seq<u8>) -> Option<Seq<u8>>;

/// Huffman decoding as a function value (the decoding functions below
/// take the string decoder as a parameter).
pub open spec fn huffman_fn() -> spec_fn(Seq<u8>) -> Option<Seq<u8>> {
    |d: Seq<u8>| huffman_decoded(d)
}

/// The text of the string literal (section 5.2) at `q`: its bytes, or
/// their Huffman decoding (by `hd`) when its first bit is set.
pub open spec fn string_at(s: Seq<u8>, q: int, hd: spec_fn(Seq<u8>) -> Option<Seq<u8>>) -> Option<Seq<u8>> {
    match hpack_int(s, q, 127) {
        Some((len, n)) => if q + n + len <= s.len() {
            let data = s.subrange(q + n, q + n + len);
            if s[q] >= 128 {
                hd(data)
            } else {
                Some(data)
            }
        } else {
            None
        },
        None => None,
    }
}

/// The field a literal representation (whose index has prefix `mask`)
/// at the start of `s` gives: the name from the tables when the index is
/// not 0, else from a string literal, then the value string.
pub open spec fn literal_decoding(
    s: Seq<u8>,
    mask: u8,
    es: Seq<(Seq<u8>, Seq<u8>)>,
    hd: spec_fn(Seq<u8>) -> Option<Seq<u8>>,
) -> Option<(Seq<u8>, Seq<u8>)> {
    match hpack_int(s, 0, mask) {
        Some((idx, n)) => if idx == 0 {
            match string_at(s, n as int, hd) {
                Some(name) => match string_extent(s, n as int) {
                    Some(m) => match string_at(s, (n + m) as int, hd) {
                        Some(v) => Some((name, v)),
                        None => None,
                    },
                    None => None,
                },
                None => None,
            }
        } else {
            match table_entry(es, idx) {
                Some(e) => match string_at(s, n as int, hd) {
                    Some(v) => Some((e.0, v)),
                    None => None,
                },
                None => None,
            }
        },
        None => None,
    }
}

/// A decoder's tables as plain values: the dynamic table (newest entry
/// first), its maximum size, and the most that a size update may set.
pub open spec fn dec_state(dec: httlib_hpack::Decoder<'static>) -> (Seq<(Seq<u8>, Seq<u8>)>, u32, u32) {
    (decoder_entries(dec), decoder_table_limit(dec), decoder_size_cap(dec))
}

/// Decoding one whole field representation `s` with the tables `st`: the
/// field it gives (`None` for a table size update) and the tables after
/// it, or `None` when the decoder refuses it (RFC 7541 section 6).
pub open spec fn field_step(s: Seq<u8>, st: (Seq<(Seq<u8>, Seq<u8>)>, u32, u32), hd: spec_fn(Seq<u8>) -> Option<Seq<u8>>) -> Option<
    (Option<(Seq<u8>, Seq<u8>)>, (Seq<(Seq<u8>, Seq<u8>)>, u32, u32)),
> {
    let es = st.0;
    if s.len() == 0 {
        None
    } else if s[0] >= 128 {
        match hpack_int(s, 0, 127) {
            Some((i, _)) => match table_entry(es, i) {
                Some(e) => Some((Some(e), st)),
                None => None,
            },
            None => None,
        }
    } else if s[0] >= 64 {
        match literal_decoding(s, 63, es, hd) {
            Some(p) => Some((Some(p), (evicted(seq![p] + es, st.1 as nat), st.1, st.2))),
            None => None,
        }
    } else if s[0] >= 32 {
        match hpack_int(s, 0, 31) {
            Some((v, _)) => if v <= st.2 {
                Some((None, (evicted(es, v), v as u32, st.2)))
            } else {
                None
            },
            None => None,
        }
    } else {
        match literal_decoding(s, 15, es, hd) {
            Some(p) => Some((Some(p), st)),
            None => None,
        }
    }
}

/// The field representation at `q` of `buf` decoded with the tables `st`:
/// the field (`None` for a table size update), the tables after it and
/// the bytes it takes.
pub open spec fn field_at(
    buf: Seq<u8>,
    q: int,
    st: (Seq<(Seq<u8>, Seq<u8>)>, u32, u32),
    hd: spec_fn(Seq<u8>) -> Option<Seq<u8>>,
) -> Option<
    (Option<(Seq<u8>, Seq<u8>)>, (Seq<(Seq<u8>, Seq<u8>)>, u32, u32), nat),
> {
    match field_extent(buf, q) {
        Some(n) => match field_step(buf.subrange(q, q + n), st, hd) {
            Some((p, t)) => Some((p, t, n)),
            None => None,
        },
        None => None,
    }
}

/// The fields of an optional field.
pub open spec fn opt_fields(p: Option<(Seq<u8>, Seq<u8>)>) -> Seq<(Seq<u8>, Seq<u8>)> {
    match p {
        Some(f) => seq![f],
        None => Seq::empty(),
    }
}

/// `fs` put before the fields of a decoding, if it went through.
pub open spec fn prepend_fields(
    fs: Seq<(Seq<u8>, Seq<u8>)>,
    o: Option<(Seq<(Seq<u8>, Seq<u8>)>, (Seq<(Seq<u8>, Seq<u8>)>, u32, u32))>,
) -> Option<(Seq<(Seq<u8>, Seq<u8>)>, (Seq<(Seq<u8>, Seq<u8>)>, u32, u32))> {
    match o {
        Some((gs, t)) => Some((fs + gs, t)),
        None => None,
    }
}

/// Decoding a header block from `q` on with the tables `st`: its fields
/// (table size updates give none) and the tables after it, or `None` when
/// a field is cut short or refused.
pub open spec fn block_at(
    buf: Seq<u8>,
    q: int,
    st: (Seq<(Seq<u8>, Seq<u8>)>, u32, u32),
    hd: spec_fn(Seq<u8>) -> Option<Seq<u8>>,
) -> Option<
    (Seq<(Seq<u8>, Seq<u8>)>, (Seq<(Seq<u8>, Seq<u8>)>, u32, u32)),
>
    decreases buf.len() - q,
{
    if q < 0 || q >= buf.len() {
        Some((Seq::empty(), st))
    } else {
        match field_at(buf, q, st, hd) {
            Some((p, t, n)) => if 0 < n && q + n <= buf.len() {
                prepend_fields(opt_fields(p), block_at(buf, q + n, t, hd))
            } else {
                None
            },
            None => None,
        }
    }
}

/// Makes an `httlib_hpack::Decoder` with the given dynamic table limit
/// (`with_dynamic_size` makes an empty table with that maximum size, and
/// takes size updates up to it).
#[verifier::external_body]
fn hpack_decoder_new(size: u32) -> (r: httlib_hpack::Decoder<'static>)
    ensures
        decoder_entries(r) == Seq::<(Seq<u8>, Seq<u8>)>::empty(),
        decoder_table_limit(r) == size,
        decoder_size_cap(r) == size,
{
    httlib_hpack::Decoder::with_dynamic_size(size)
}

/// Of a literal that the encoder wrote for a field with flags under 16
/// and strings under 2^26 bytes, `r` gives back that field.
pub open spec fn literals_read_back(field: Seq<u8>, r: Result<(Vec<u8>, Vec<u8>), httlib_hpack::DecoderError>) -> bool {
    forall|n: Seq<u8>, v: Seq<u8>, f: u8|
        #[trigger] hpack_literal(n, v, f) == field && f < 16 && n.len() < 0x400_0000 && v.len() < 0x400_0000
            ==> (r matches Ok((a, b)) && a@ == n && b@ == v)
}

/// Runs `httlib_hpack::Decoder::decode_exact` on one complete field
/// representation (on a cut one the crate indexes past the end of its
/// buffer) and returns its name and value (both empty for a table size
/// update). The field and the decoder's tables after it are those
/// `field_step` gives: an indexed field is the table entry at its index;
/// a literal takes its name from the tables or from a string, its value
/// from a string; a literal with incremental indexing is put in front of
/// the dynamic table, which then drops its oldest entries while it is
/// over its maximum size; a size update sets that maximum (up to the
/// limit the decoder was made with) and evicts the same way. When the
/// decoder refuses the field, its tables stay as they were. Of a literal
/// with a new name that the encoder wrote for a field (see
/// `hpack_literal`), the field is that field.
#[verifier::external_body]
fn hpack_decode_field(
    dec: &mut httlib_hpack::Decoder<'static>,
    field: &[u8],
) -> (r: Result<(Vec<u8>, Vec<u8>), httlib_hpack::DecoderError>)
    requires
        field_extent(field@, 0) == Some(field@.len()),
    ensures
        literals_read_back(field@, r),
        ({
            let st0 = (decoder_entries(*old(dec)), decoder_table_limit(*old(dec)), decoder_size_cap(*old(dec)));
            let st1 = (decoder_entries(*final(dec)), decoder_table_limit(*final(dec)), decoder_size_cap(*final(dec)));
            let step = field_step(field@, st0, |d: Seq<u8>| huffman_decoded(d));
            &&& r is Ok <==> step is Some
            &&& r matches Ok((a, b)) ==> (step matches Some((p, t)) && t == st1 && match p {
                Some(e) => a@ == e.0 && b@ == e.1,
                None => a@.len() == 0 && b@.len() == 0,
            })
            &&& r is Err ==> st1 == st0
        }),
{
    let mut buf = field.to_vec();
    let mut dst = Vec::with_capacity(1);
    dec.decode_exact(&mut buf, &mut dst)?;
    match dst.pop() {
        Some((name, value, _)) => Ok((name, value)),
        None => Ok((Vec::new(), Vec::new())),
    }
}

/// Names the `httlib_hpack::DecoderError` variant as an `HpackError`.
#[verifier::external_body]
fn decoder_error(e: httlib_hpack::DecoderError) -> HpackError {
    match e {
        httlib_hpack::DecoderError::InvalidInput => HpackError::InvalidInput,
        httlib_hpack::DecoderError::InvalidIndex => HpackError::InvalidIndex,
        httlib_hpack::DecoderError::InvalidPrefix => HpackError::InvalidPrefix,
        httlib_hpack::DecoderError::IntegerOverflow => HpackError::IntegerOverflow,
        httlib_hpack::DecoderError::IntegerUnderflow => HpackError::IntegerUnderflow,
        httlib_hpack::DecoderError::InvalidMaxDynamicSize => HpackError::InvalidMaxDynamicSize,
    }
}

/// Makes an `httlib_hpack::Encoder` with the given dynamic table limit
/// (`with_dynamic_size` makes its table with that maximum size).
#[verifier::external_body]
fn hpack_encoder_new(size: u32) -> (r: httlib_hpack::Encoder<'static>)
    ensures
        encoder_table_limit(r) == size,
        encoder_entries(r) == Seq::<(Seq<u8>, Seq<u8>)>::empty(),
{
    httlib_hpack::Encoder::with_dynamic_size(size)
}

/// The bytes `httlib_hpack::Encoder::encode` appends for a literal field
/// (name, value, flags) whose flags do not ask for the best format: the
/// representation's first byte (see `literal_prefix`), then the name and
/// the value as string literals, Huffman-coded where flag bits 1 and 2 ask
/// for it. They depend on the field alone, not on the encoder's tables.
#[verifier::opaque]
pub open spec fn hpack_literal(name: Seq<u8>, value: Seq<u8>, flags: u8) -> Seq<u8> {
    seq![literal_prefix(flags)] + string_bytes(name, flags % 2 == 1, huffman_enc_fn()) + string_bytes(
        value,
        (flags / 2) % 2 == 1,
        huffman_enc_fn(),
    )
}

/// Header fields as name and value bytes.
pub open spec fn field_views(headers: Seq<(&[u8], &[u8])>) -> Seq<(Seq<u8>, Seq<u8>)> {
    headers.map_values(|f: (&[u8], &[u8])| (f.0@, f.1@))
}

/// The header block of `fields`: each a Huffman-coded literal not added
/// to the dynamic table, in order.
pub open spec fn literal_block(fields: Seq<(Seq<u8>, Seq<u8>)>) -> Seq<u8>
    decreases fields.len(),
{
    if fields.len() == 0 {
        Seq::empty()
    } else {
        literal_block(fields.drop_last()) + hpack_literal(fields.last().0, fields.last().1, 3)
    }
}

/// Every name and value is under 2^30 bytes.
pub open spec fn fields_short(fields: Seq<(Seq<u8>, Seq<u8>)>) -> bool {
    forall|i: int| 0 <= i < fields.len() ==> #[trigger] fields[i].0.len() < 0x4000_0000 && fields[i].1.len() < 0x4000_0000
}

/// Every name and value is under 2^26 bytes: their Huffman codes, at most
/// 30 bits a byte, then take under 2^28 bytes, whose length fits the
/// five bytes a prefixed integer may take.
pub open spec fn fields_small(fields: Seq<(Seq<u8>, Seq<u8>)>) -> bool {
    forall|i: int| 0 <= i < fields.len() ==> #[trigger] fields[i].0.len() < 0x400_0000 && fields[i].1.len() < 0x400_0000
}

/// The first byte of a literal representation with a new name: with
/// incremental indexing, never indexed, or without indexing.
pub open spec fn literal_prefix(flags: u8) -> u8 {
    if flags % 8 >= 4 {
        0x40
    } else if flags >= 8 {
        0x10
    } else {
        0
    }
}

/// The encoder's bytes for a field are one whole literal representation
/// with a new name.
pub open spec fn literal_framed(name: Seq<u8>, value: Seq<u8>, flags: u8) -> bool {
    let l = hpack_literal(name, value, flags);
    &&& field_extent(l, 0) == Some(l.len())
    &&& l[0] == literal_prefix(flags)
}

/// The encoder's bytes for each of the fields (Huffman-coded, without
/// indexing) are one whole literal representation.
pub open spec fn literals_framed(fields: Seq<(Seq<u8>, Seq<u8>)>) -> bool {
    forall|i: int| 0 <= i < fields.len() ==> #[trigger] literal_framed(fields[i].0, fields[i].1, 3)
}

/// The continuation bytes of a prefixed integer: seven bits at a time,
/// least significant first, the high bit set on all but the last.
pub open spec fn int_tail(v: nat) -> Seq<u8>
    decreases v,
{
    if v >= 128 {
        seq![(128 + v % 128) as u8] + int_tail(v / 128)
    } else {
        seq![v as u8]
    }
}

/// The bytes of the prefixed integer `v` (section 5.1) whose prefix is
/// `mask` (2^N - 1), with the bits `flags` above the prefix.
pub open spec fn int_bytes(v: nat, flags: u8, mask: u8) -> Seq<u8> {
    if v < mask {
        seq![(flags + v) as u8]
    } else {
        seq![(flags + mask) as u8] + int_tail((v - mask) as nat)
    }
}

/// What `httlib_huffman::encode` makes of bytes.
pub uninterp spec fn huffman_encoded(data: Seq<u8>) -> Seq<u8>;

/// Huffman coding as a function value.
pub open spec fn huffman_enc_fn() -> spec_fn(Seq<u8>) -> Seq<u8> {
    |d: Seq<u8>| huffman_encoded(d)
}

/// The bytes a string is coded to (Huffman-coded by `he` when `huffman`).
pub open spec fn coded_string(data: Seq<u8>, huffman: bool, he: spec_fn(Seq<u8>) -> Seq<u8>) -> Seq<u8> {
    if huffman {
        he(data)
    } else {
        data
    }
}

/// The string literal (section 5.2) of `data`: its length with the
/// Huffman bit, then the coded bytes.
pub open spec fn string_bytes(data: Seq<u8>, huffman: bool, he: spec_fn(Seq<u8>) -> Seq<u8>) -> Seq<u8> {
    let coded = coded_string(data, huffman, he);
    int_bytes(coded.len(), if huffman { 0x80u8 } else { 0u8 }, 127) + coded
}

/// The first index from `i` on at which `all` holds the field `(name, value)`.
pub open spec fn first_full(all: Seq<(Seq<u8>, Seq<u8>)>, name: Seq<u8>, value: Seq<u8>, i: nat) -> Option<nat>
    decreases all.len() - i,
{
    if i >= all.len() {
        None
    } else if all[i as int] == (name, value) {
        Some(i)
    } else {
        first_full(all, name, value, i + 1)
    }
}

/// The first index from `i` on at which `all` holds a field named `name`.
pub open spec fn first_name(all: Seq<(Seq<u8>, Seq<u8>)>, name: Seq<u8>, i: nat) -> Option<nat>
    decreases all.len() - i,
{
    if i >= all.len() {
        None
    } else if all[i as int].0 == name {
        Some(i)
    } else {
        first_name(all, name, i + 1)
    }
}

/// Where the tables (static, then the dynamic table `es`) hold a field:
/// the first index of the whole field (`true`), else the first index of
/// its name (`false`).
pub open spec fn table_find(es: Seq<(Seq<u8>, Seq<u8>)>, name: Seq<u8>, value: Seq<u8>) -> Option<(nat, bool)> {
    let all = static_table() + es;
    match first_full(all, name, value, 0) {
        Some(i) => Some((i + 1, true)),
        None => match first_name(all, name, 0) {
            Some(i) => Some((i + 1, false)),
            None => None,
        },
    }
}

/// The bytes the encoder writes for a field it looks up in its tables
/// (`h` picks Huffman coding of the name, bit 1, and value, bit 2): the
/// index of the whole field when the tables hold it, else the index of its
/// name and the value string (not indexed), else the literal.
pub open spec fn lookup_bytes(
    es: Seq<(Seq<u8>, Seq<u8>)>,
    name: Seq<u8>,
    value: Seq<u8>,
    h: u8,
    he: spec_fn(Seq<u8>) -> Seq<u8>,
) -> Seq<u8> {
    match table_find(es, name, value) {
        Some((i, true)) => int_bytes(i, 0x80, 127),
        Some((i, false)) => int_bytes(i, 0, 15) + string_bytes(value, (h / 2) % 2 == 1, he),
        None => hpack_literal(name, value, h),
    }
}

/// Runs `httlib_hpack::Encoder::encode` on one literal field with the given
/// flags. The crate only appends to `dst`, so what was there stays. Below
/// 16 the flags never ask for the best format, and what is appended is
/// `hpack_literal` of the field. The crate fails only when a coded string
/// is longer than `u32::MAX` bytes; a Huffman code takes at most 30 bits
/// a byte, so strings under 2^30 bytes always go through. What it appends
/// is one literal representation with a new name (its first byte from the
/// indexing flags, then the two strings, each with its length), which
/// `field_extent` reads whole when the strings are under 2^26 bytes.
/// Encoding never changes the maximum size of the encoder's table; a
/// literal with incremental indexing (flag 4) puts the field in front of
/// the table, which then drops its oldest entries while over its maximum
/// size. Flags 16 to 19 ask for the best format without indexing: the
/// field is looked up in the tables (see `lookup_bytes`), which stay as
/// they were.
#[verifier::external_body]
fn hpack_encode_field(
    enc: &mut httlib_hpack::Encoder<'static>,
    name: &[u8],
    value: &[u8],
    flags: u8,
    dst: &mut Vec<u8>,
) -> (r: Result<(), httlib_hpack::EncoderError>)
    ensures
        final(dst)@.len() >= old(dst)@.len(),
        final(dst)@.subrange(0, old(dst)@.len() as int) == old(dst)@,
        r is Ok && flags < 16 ==> final(dst)@ == old(dst)@ + hpack_literal(name@, value@, flags),
        flags < 16 && name@.len() < 0x4000_0000 && value@.len() < 0x4000_0000 ==> r is Ok,
        r is Ok && flags < 16 && name@.len() < 0x400_0000 && value@.len() < 0x400_0000 ==> literal_framed(
            name@,
            value@,
            flags,
        ),
        encoder_table_limit(*final(enc)) == encoder_table_limit(*old(enc)),
        flags < 16 && (flags / 4) % 2 == 1 ==> encoder_entries(*final(enc)) == evicted(
            seq![(name@, value@)] + encoder_entries(*old(enc)),
            encoder_table_limit(*old(enc)) as nat,
        ),
        flags < 16 && (flags / 4) % 2 == 0 ==> encoder_entries(*final(enc)) == encoder_entries(*old(enc)),
        16 <= flags < 20 ==> ({
            let es = encoder_entries(*old(enc));
            let he = |d: Seq<u8>| huffman_encoded(d);
            &&& encoder_entries(*final(enc)) == es
            &&& r is Ok ==> final(dst)@ == old(dst)@ + lookup_bytes(es, name@, value@, (flags - 16) as u8, he)
            &&& table_find(es, name@, value@) matches Some((_, true)) ==> r is Ok
            &&& (table_find(es, name@, value@) matches Some((_, false)) && coded_string(
                value@,
                ((flags - 16) / 2) % 2 == 1,
                he,
            ).len() <= u32::MAX) ==> r is Ok
            &&& table_find(es, name@, value@) is None && name@.len() < 0x4000_0000 && value@.len() < 0x4000_0000
                ==> r is Ok
        }),
{
    enc.encode((name.to_vec(), value.to_vec(), flags), dst)
}

/// Names the `httlib_hpack::EncoderError` variant as an `HpackError`.
#[verifier::external_body]
fn encoder_error(e: httlib_hpack::EncoderError) -> HpackError {
    match e {
        httlib_hpack::EncoderError::InvalidInput => HpackError::InvalidInput,
        httlib_hpack::EncoderError::InvalidIndex => HpackError::InvalidIndex,
        httlib_hpack::EncoderError::InvalidPrefix => HpackError::InvalidPrefix,
        httlib_hpack::EncoderError::IntegerOverflow => HpackError::IntegerOverflow,
    }
}

/// Decodes header blocks.
#[derive(Debug)]
pub struct HpackDecoder<'a> {
    pub inner: httlib_hpack::Decoder<'a>,
}

/// A table limit as the coder takes it: `size`, or `u32::MAX` above that.
pub open spec fn table_limit_of(size: usize) -> u32 {
    if size > u32::MAX { u32::MAX } else { size as u32 }
}

impl HpackDecoder<'static> {
    /// The maximum size of the dynamic table.
    pub open spec fn table_limit(&self) -> u32 {
        decoder_table_limit(self.inner)
    }

    /// The decoder's tables: its dynamic table (newest entry first), the
    /// table's maximum size and the most a size update may set.
    pub open spec fn state(&self) -> (Seq<(Seq<u8>, Seq<u8>)>, u32, u32) {
        dec_state(self.inner)
    }

    /// A decoder whose dynamic table may grow to `size` bytes.
    pub fn new(size: usize) -> (d: Self)
        ensures
            d.table_limit() == table_limit_of(size),
            d.state() == (Seq::<(Seq<u8>, Seq<u8>)>::empty(), table_limit_of(size), table_limit_of(size)),
    {
        let limit: u32 = if size > u32::MAX as usize { u32::MAX } else { size as u32 };
        HpackDecoder { inner: hpack_decoder_new(limit) }
    }

    /// Decodes the field representation at `*pos` and moves `*pos` past it.
    /// A table size update gives `TableSizeChange` with an empty name and
    /// value. Fails, leaving `*pos` alone, when the representation is cut
    /// short or the coder rejects it.
    pub fn decode(&mut self, buf: &[u8], pos: &mut usize) -> (r: Result<
        (HeaderType, Vec<u8>, Vec<u8>),
        HpackError,
    >)
        ensures
            field_extent(buf@, *old(pos) as int) is None ==> r is Err,
            r is Err ==> *final(pos) == *old(pos),
            r matches Ok((t, _, _)) ==> {
                &&& field_extent(buf@, *old(pos) as int) matches Some(n)
                &&& *final(pos) == *old(pos) + n
                &&& t == header_type_of(buf@[*old(pos) as int])
            },
            (forall|n: Seq<u8>, v: Seq<u8>, f: u8|
                (field_extent(buf@, *old(pos) as int) matches Some(m) && #[trigger] hpack_literal(n, v, f)
                    == buf@.subrange(*old(pos) as int, *old(pos) + m) && f < 16 && n.len() < 0x400_0000 && v.len()
                    < 0x400_0000) ==> (r matches Ok((_, a, b)) && a@ == n && b@ == v)),
            ({
                let fa = field_at(buf@, *old(pos) as int, old(self).state(), huffman_fn());
                &&& r is Ok <==> fa is Some
                &&& r matches Ok((t, a, b)) ==> (fa matches Some((p, u, _)) && u == final(self).state() && match p {
                    Some(e) => a@ == e.0 && b@ == e.1 && t != HeaderType::TableSizeChange,
                    None => t == HeaderType::TableSizeChange,
                })
                &&& r is Err ==> final(self).state() == old(self).state()
            }),
    {
        let p = *pos;
        match field_len(buf, p) {
            None => Err(HpackError::IntegerUnderflow),
            Some(n) => {
                let len = buf.len();
                proof {
                    lemma_field_extent_bounds(buf@, p as int);
                }
                assert(p + n <= len);
                let field = vstd::slice::slice_subrange(buf, p, p + n);
                proof {
                    assert(field@.subrange(0, n as int) =~= field@);
                    lemma_field_extent_agree(buf@, p as int, field@, 0);
                    assert(huffman_fn() =~= (|d: Seq<u8>| huffman_decoded(d)));
                }
                match hpack_decode_field(&mut self.inner, field) {
                    Ok((name, value)) => {
                        *pos = p + n;
                        Ok((header_type_from_byte(buf[p]), name, value))
                    },
                    Err(e) => Err(decoder_error(e)),
                }
            },
        }
    }

    /// Decodes a whole header block into its fields, leaving out table size
    /// updates. `None` when any field fails.
    #[verifier::rlimit(40)]
    pub fn decode_all(&mut self, buf: &[u8]) -> (r: Option<Vec<(Vec<u8>, Vec<u8>)>>)
        ensures
            ({
                let o = block_at(buf@, 0, old(self).state(), huffman_fn());
                &&& r is Some <==> o is Some
                &&& r matches Some(v) ==> o == Some((pairs_view(v@), final(self).state()))
            }),
            r matches Some(v) ==> block_complete(buf@, 0) && v@.len() == block_fields(buf@, 0),
            !block_complete(buf@, 0) ==> r is None,
            (forall|fs: Seq<(Seq<u8>, Seq<u8>)>|
                #[trigger] literal_block(fs) == buf@ && fields_small(fs) && literals_framed(fs) ==> (r matches Some(v)
                    && pairs_view(v@) == fs)),
    {
        let mut out: Vec<(Vec<u8>, Vec<u8>)> = Vec::new();
        let mut pos: usize = 0;
        let ghost s0 = self.state();
        proof {
            let o = block_at(buf@, 0, s0, huffman_fn());
            assert(pairs_view(out@) =~= Seq::<(Seq<u8>, Seq<u8>)>::empty());
            if let Some((gs, t)) = o {
                assert(Seq::<(Seq<u8>, Seq<u8>)>::empty() + gs =~= gs);
            }
        }
        while pos < buf.len()
            invariant
                pos <= buf@.len(),
                s0 == old(self).state(),
                block_at(buf@, 0, s0, huffman_fn()) == prepend_fields(
                    pairs_view(out@),
                    block_at(buf@, pos as int, self.state(), huffman_fn()),
                ),
                block_complete(buf@, 0) == block_complete(buf@, pos as int),
                block_complete(buf@, 0) ==> block_fields(buf@, 0) == out@.len() + block_fields(
                    buf@,
                    pos as int,
                ),
                forall|fs: Seq<(Seq<u8>, Seq<u8>)>|
                    #[trigger] literal_block(fs) == buf@ && fields_small(fs) && literals_framed(fs) ==> {
                        &&& out@.len() <= fs.len()
                        &&& pos == literal_block(fs.subrange(0, out@.len() as int)).len()
                        &&& pairs_view(out@) == fs.subrange(0, out@.len() as int)
                    },
            decreases buf@.len() - pos,
        {
            let old_pos = pos;
            let ghost old_out = out@;
            let ghost old_st = self.state();
            proof {
                assert forall|fs: Seq<(Seq<u8>, Seq<u8>)>|
                    #[trigger] literal_block(fs) == buf@ && fields_small(fs) && literals_framed(fs) implies out@.len()
                    < fs.len() by {
                    if out@.len() == fs.len() {
                        assert(fs.subrange(0, out@.len() as int) =~= fs);
                    }
                }
            }
            match self.decode(buf, &mut pos) {
                Ok((t, name, value)) => {
                    proof {
                        lemma_field_extent_bounds(buf@, old_pos as int);
                    }
                    let ghost gn = name@;
                    let ghost gv = value@;
                    let ghost gt = t;
                    match t {
                        HeaderType::TableSizeChange => {},
                        _ => {
                            out.push((name, value));
                        },
                    }
                    proof {
                        assert forall|fs: Seq<(Seq<u8>, Seq<u8>)>|
                            #[trigger] literal_block(fs) == buf@ && fields_small(fs) && literals_framed(fs) implies {
                            &&& out@.len() <= fs.len()
                            &&& pos == literal_block(fs.subrange(0, out@.len() as int)).len()
                            &&& pairs_view(out@) == fs.subrange(0, out@.len() as int)
                        } by {
                            let m = old_out.len() as int;
                            lemma_block_field_at(fs, m);
                            let x = fs[m];
                            assert(x.0.len() < 0x400_0000);
                            let l = hpack_literal(x.0, x.1, 3);
                            assert(gn == x.0 && gv == x.1);
                            assert(gt == header_type_of(0));
                            assert(out@ == old_out.push((name, value)));
                            assert(pairs_view(out@) =~= pairs_view(old_out).push((x.0, x.1)));
                            assert(fs.subrange(0, m + 1) =~= fs.subrange(0, m).push(x));
                        }
                    }
                    proof {
                        if gt != HeaderType::TableSizeChange {
                            assert(out@.subrange(0, old_out.len() as int) =~= old_out);
                        }
                        lemma_block_step(buf@, old_pos as int, old_st, self.state(), pos as int, old_out, out@, gt, gn, gv);
                    }
                },
                Err(_) => {
                    proof {
                        assert forall|fs: Seq<(Seq<u8>, Seq<u8>)>|
                            #[trigger] literal_block(fs) == buf@ && fields_small(fs) && literals_framed(fs) implies false by {
                            let m = old_out.len() as int;
                            lemma_block_field_at(fs, m);
                            let x = fs[m];
                            assert(x.0.len() < 0x400_0000);
                            let l = hpack_literal(x.0, x.1, 3);
                        }
                        assert(block_at(buf@, old_pos as int, old_st, huffman_fn()) is None);
                    }
                    return None;
                },
            }
        }
        proof {
            assert(pairs_view(out@) + Seq::<(Seq<u8>, Seq<u8>)>::empty() =~= pairs_view(out@));
            assert forall|fs: Seq<(Seq<u8>, Seq<u8>)>|
                #[trigger] literal_block(fs) == buf@ && fields_small(fs) && literals_framed(fs) implies pairs_view(out@)
                == fs by {
                if out@.len() < fs.len() {
                    lemma_block_field_at(fs, out@.len() as int);
                }
                assert(fs.subrange(0, out@.len() as int) =~= fs);
            }
        }
        Some(out)
    }
}

/// One step of decoding a block: decoding from `q` is the field at `q`
/// put before decoding from the next field on.
proof fn lemma_block_step(
    buf: Seq<u8>,
    q: int,
    st: (Seq<(Seq<u8>, Seq<u8>)>, u32, u32),
    st2: (Seq<(Seq<u8>, Seq<u8>)>, u32, u32),
    q2: int,
    out: Seq<(Vec<u8>, Vec<u8>)>,
    out2: Seq<(Vec<u8>, Vec<u8>)>,
    t: HeaderType,
    name: Seq<u8>,
    value: Seq<u8>,
)
    requires
        0 <= q < buf.len(),
        field_at(buf, q, st, huffman_fn()) matches Some((p, u, n)) && u == st2 && q2 == q + n && match p {
            Some(e) => name == e.0 && value == e.1 && t != HeaderType::TableSizeChange,
            None => t == HeaderType::TableSizeChange,
        },
        0 < q2 - q,
        q2 <= buf.len(),
        t == HeaderType::TableSizeChange ==> out2 == out,
        t != HeaderType::TableSizeChange ==> out2.len() == out.len() + 1 && out2.subrange(0, out.len() as int) == out
            && out2.last().0@ == name && out2.last().1@ == value,
    ensures
        prepend_fields(pairs_view(out), block_at(buf, q, st, huffman_fn())) == prepend_fields(
            pairs_view(out2),
            block_at(buf, q2, st2, huffman_fn()),
        ),
{
    let (p, u, n) = field_at(buf, q, st, huffman_fn())->0;
    let rest = block_at(buf, q2, st2, huffman_fn());
    assert(block_at(buf, q, st, huffman_fn()) == prepend_fields(opt_fields(p), rest));
    assert(pairs_view(out2) =~= pairs_view(out) + opt_fields(p)) by {
        if t != HeaderType::TableSizeChange {
            assert(out2 =~= out.push(out2.last()));
        }
    }
    if let Some((gs, w)) = rest {
        assert(pairs_view(out) + (opt_fields(p) + gs) =~= (pairs_view(out) + opt_fields(p)) + gs);
    }
}

/// The block of `a` then `b` is the block of `a` then that of `b`.
pub proof fn lemma_literal_block_append(a: Seq<(Seq<u8>, Seq<u8>)>, b: Seq<(Seq<u8>, Seq<u8>)>)
    ensures
        literal_block(a + b) == literal_block(a) + literal_block(b),
    decreases b.len(),
{
    if b.len() == 0 {
        assert(a + b =~= a);
        assert(literal_block(a) + literal_block(b) =~= literal_block(a));
    } else {
        assert((a + b).drop_last() =~= a + b.drop_last());
        assert((a + b).last() == b.last());
        lemma_literal_block_append(a, b.drop_last());
        assert(literal_block(a + b) =~= literal_block(a) + literal_block(b));
    }
}

/// In the block of framed literals, the field after the first `m` starts
/// where their block ends, is the literal of field `m`, and is read whole.
pub proof fn lemma_block_field_at(fs: Seq<(Seq<u8>, Seq<u8>)>, m: int)
    requires
        literals_framed(fs),
        0 <= m < fs.len(),
    ensures
        ({
            let buf = literal_block(fs);
            let pos = literal_block(fs.subrange(0, m)).len();
            let l = hpack_literal(fs[m].0, fs[m].1, 3);
            &&& l.len() > 0
            &&& pos + l.len() <= buf.len()
            &&& field_extent(buf, pos as int) == Some(l.len())
            &&& buf.subrange(pos as int, (pos + l.len()) as int) == l
            &&& buf[pos as int] == 0
            &&& literal_block(fs.subrange(0, m + 1)).len() == pos + l.len()
        }),
{
    let x = fs[m];
    let l = hpack_literal(x.0, x.1, 3);
    assert(literal_framed(fs[m].0, fs[m].1, 3));
    lemma_field_extent_bounds(l, 0);
    let pre = fs.subrange(0, m);
    let rest = fs.subrange(m + 1, fs.len() as int);
    assert(fs =~= pre + (seq![x] + rest));
    lemma_literal_block_append(pre, seq![x] + rest);
    lemma_literal_block_append(seq![x], rest);
    assert(seq![x].drop_last() =~= Seq::<(Seq<u8>, Seq<u8>)>::empty());
    assert(seq![x].last() == x);
    assert(literal_block(seq![x].drop_last()) =~= Seq::<u8>::empty());
    assert(literal_block(seq![x]) =~= l);
    let a = literal_block(pre);
    let buf = literal_block(fs);
    assert(buf == a + (l + literal_block(rest)));
    assert(buf.subrange(a.len() as int, (a.len() + l.len()) as int) =~= l);
    assert(l.subrange(0, l.len() as int) =~= l);
    lemma_field_extent_agree(l, 0, buf, a.len() as int);
    assert(buf[a.len() as int] == l[0]);
    assert(fs.subrange(0, m + 1).drop_last() =~= pre);
}

/// A complete representation lies within the buffer and takes at least one byte.
proof fn lemma_field_extent_bounds(s: Seq<u8>, q: int)
    requires
        field_extent(s, q) is Some,
    ensures
        field_extent(s, q) matches Some(n) && 0 < n && q + n <= s.len(),
{
    lemma_hpack_int_bounds(s, q, 127);
    lemma_hpack_int_bounds(s, q, 63);
    lemma_hpack_int_bounds(s, q, 31);
    lemma_hpack_int_bounds(s, q, 15);
    if 0 <= q < s.len() && s[q] < 128 {
        let mask: u8 = if s[q] >= 64 { 63 } else { 15 };
        if let Some((idx, n)) = hpack_int(s, q, mask) {
            lemma_hpack_int_bounds(s, q + n, 127);
            if idx == 0 {
                if let Some(m) = string_extent(s, q + n) {
                    lemma_hpack_int_bounds(s, q + n + m, 127);
                }
            } else {
                lemma_hpack_int_bounds(s, q + n, 127);
            }
        }
    }
}

/// `m` bytes of `s1` from `i1` are those of `s2` from `i2`.
pub open spec fn agree(s1: Seq<u8>, i1: int, s2: Seq<u8>, i2: int, m: int) -> bool {
    &&& 0 <= i1
    &&& 0 <= i2
    &&& 0 <= m
    &&& i1 + m <= s1.len()
    &&& i2 + m <= s2.len()
    &&& s1.subrange(i1, i1 + m) == s2.subrange(i2, i2 + m)
}

/// Agreement on `m` bytes gives agreement on the first byte and on the rest.
proof fn lemma_agree_step(s1: Seq<u8>, i1: int, s2: Seq<u8>, i2: int, m: int, d: int)
    requires
        agree(s1, i1, s2, i2, m),
        0 <= d <= m,
    ensures
        m > 0 ==> s1[i1] == s2[i2],
        agree(s1, i1 + d, s2, i2 + d, m - d),
        agree(s1, i1, s2, i2, d),
{
    if m > 0 {
        assert(s1.subrange(i1, i1 + m)[0] == s1[i1]);
        assert(s2.subrange(i2, i2 + m)[0] == s2[i2]);
    }
    assert(s1.subrange(i1 + d, i1 + m) =~= s1.subrange(i1, i1 + m).subrange(d, m));
    assert(s2.subrange(i2 + d, i2 + m) =~= s2.subrange(i2, i2 + m).subrange(d, m));
    assert(s1.subrange(i1, i1 + d) =~= s1.subrange(i1, i1 + m).subrange(0, d));
    assert(s2.subrange(i2, i2 + d) =~= s2.subrange(i2, i2 + m).subrange(0, d));
}

/// Continuation bytes read the same wherever the same bytes stand.
proof fn lemma_int_cont_agree(s1: Seq<u8>, i1: int, s2: Seq<u8>, i2: int, k: nat, acc: nat, total: nat)
    requires
        int_cont(s1, i1, k, acc, total) matches Some((_, t)) && agree(s1, i1, s2, i2, t - total),
    ensures
        int_cont(s2, i2, k, acc, total) == int_cont(s1, i1, k, acc, total),
    decreases s1.len() - i1,
{
    let (_, t) = int_cont(s1, i1, k, acc, total)->0;
    lemma_int_cont_bounds(s1, i1, k, acc, total);
    let m = t - total;
    lemma_agree_step(s1, i1, s2, i2, m, 1);
    let b = s1[i1];
    if b >= 128 && total + 1 < 5 {
        lemma_int_cont_agree(s1, i1 + 1, s2, i2 + 1, k + 1, acc + (b % 128) as nat * pow128(k), total + 1);
    }
}

/// A prefixed integer reads the same wherever the same bytes stand.
proof fn lemma_hpack_int_agree(s1: Seq<u8>, q1: int, s2: Seq<u8>, q2: int, mask: u8)
    requires
        hpack_int(s1, q1, mask) matches Some((_, n)) && agree(s1, q1, s2, q2, n as int),
    ensures
        hpack_int(s2, q2, mask) == hpack_int(s1, q1, mask),
{
    let (_, n) = hpack_int(s1, q1, mask)->0;
    lemma_hpack_int_bounds(s1, q1, mask);
    lemma_agree_step(s1, q1, s2, q2, n as int, 1);
    if (s1[q1] & mask) as nat >= mask {
        lemma_int_cont_agree(s1, q1 + 1, s2, q2 + 1, 0, mask as nat, 1);
    }
}

/// A string literal takes the same bytes wherever the same bytes stand.
proof fn lemma_string_extent_agree(s1: Seq<u8>, q1: int, s2: Seq<u8>, q2: int)
    requires
        string_extent(s1, q1) matches Some(w) && agree(s1, q1, s2, q2, w as int),
    ensures
        string_extent(s2, q2) == string_extent(s1, q1),
{
    let w = string_extent(s1, q1)->0;
    let (_, n) = hpack_int(s1, q1, 127)->0;
    lemma_hpack_int_bounds(s1, q1, 127);
    lemma_agree_step(s1, q1, s2, q2, w as int, n as int);
    lemma_hpack_int_agree(s1, q1, s2, q2, 127);
}

/// A literal representation takes the same bytes wherever the same bytes stand.
proof fn lemma_literal_extent_agree(s1: Seq<u8>, q1: int, s2: Seq<u8>, q2: int, mask: u8)
    requires
        literal_extent(s1, q1, mask) matches Some(w) && agree(s1, q1, s2, q2, w as int),
    ensures
        literal_extent(s2, q2, mask) == literal_extent(s1, q1, mask),
{
    let w = literal_extent(s1, q1, mask)->0;
    let (idx, n) = hpack_int(s1, q1, mask)->0;
    lemma_hpack_int_bounds(s1, q1, mask);
    lemma_agree_step(s1, q1, s2, q2, w as int, n as int);
    lemma_hpack_int_agree(s1, q1, s2, q2, mask);
    let m: nat = if idx == 0 { string_extent(s1, q1 + n)->0 } else { 0 };
    if idx == 0 {
        lemma_agree_step(s1, q1 + n, s2, q2 + n, w - n, m as int);
        lemma_string_extent_agree(s1, q1 + n, s2, q2 + n);
    }
    lemma_agree_step(s1, q1 + n, s2, q2 + n, w - n, m as int);
    lemma_agree_step(s1, q1 + n + m, s2, q2 + n + m, w - n - m, w - n - m);
    lemma_string_extent_agree(s1, q1 + n + m, s2, q2 + n + m);
}

/// A field representation takes the same bytes wherever the same bytes stand.
pub proof fn lemma_field_extent_agree(s1: Seq<u8>, q1: int, s2: Seq<u8>, q2: int)
    requires
        field_extent(s1, q1) matches Some(w) && agree(s1, q1, s2, q2, w as int),
    ensures
        field_extent(s2, q2) == field_extent(s1, q1),
{
    let w = field_extent(s1, q1)->0;
    lemma_field_extent_bounds(s1, q1);
    lemma_agree_step(s1, q1, s2, q2, w as int, 1);
    let b = s1[q1];
    if b >= 128 {
        lemma_hpack_int_agree(s1, q1, s2, q2, 127);
    } else if b >= 64 {
        lemma_literal_extent_agree(s1, q1, s2, q2, 63);
    } else if b >= 32 {
        lemma_hpack_int_agree(s1, q1, s2, q2, 31);
    } else {
        lemma_literal_extent_agree(s1, q1, s2, q2, 15);
    }
}

proof fn lemma_int_cont_bounds(s: Seq<u8>, i: int, k: nat, acc: nat, total: nat)
    requires
        int_cont(s, i, k, acc, total) is Some,
    ensures
        int_cont(s, i, k, acc, total) matches Some((_, t)) && t > total && i + (t - total) <= s.len(),
    decreases s.len() - i,
{
    let b = s[i];
    if b >= 128 && total + 1 < 5 {
        lemma_int_cont_bounds(s, i + 1, k + 1, acc + (b % 128) as nat * pow128(k), total + 1);
    }
}

proof fn lemma_hpack_int_bounds(s: Seq<u8>, q: int, mask: u8)
    ensures
        hpack_int(s, q, mask) matches Some((_, n)) ==> 0 < n && q + n <= s.len(),
{
    if 0 <= q < s.len() && (s[q] & mask) as nat >= mask && int_cont(s, q + 1, 0, mask as nat, 1) is Some {
        lemma_int_cont_bounds(s, q + 1, 0, mask as nat, 1);
    }
}

/// The coder flags for a field: Huffman on name and value unless asked
/// not to, the indexing mode from the header type, and table lookup for `Lookup`.
pub open spec fn encode_flags(t: HeaderType, huffman: Option<bool>) -> u8 {
    let h: u8 = if huffman == Some(false) { 0 } else { 3 };
    match t {
        HeaderType::Lookup => (0x10 + h) as u8,
        HeaderType::Indexed => (0x04 + h) as u8,
        HeaderType::NeverIndexed => (0x08 + h) as u8,
        _ => h,
    }
}

/// Encodes header fields into header blocks.
#[derive(Debug)]
pub struct HpackEncoder<'a> {
    pub inner: httlib_hpack::Encoder<'a>,
}

impl HpackEncoder<'static> {
    /// The maximum size of the dynamic table.
    pub open spec fn table_limit(&self) -> u32 {
        encoder_table_limit(self.inner)
    }

    /// The dynamic table, newest entry first.
    pub open spec fn entries(&self) -> Seq<(Seq<u8>, Seq<u8>)> {
        encoder_entries(self.inner)
    }

    /// An encoder whose dynamic table may grow to `size` bytes.
    pub fn new(size: usize) -> (e: Self)
        ensures
            e.table_limit() == table_limit_of(size),
            e.entries() == Seq::<(Seq<u8>, Seq<u8>)>::empty(),
    {
        let limit: u32 = if size > u32::MAX as usize { u32::MAX } else { size as u32 };
        HpackEncoder { inner: hpack_encoder_new(limit) }
    }

    /// Appends the representation of one field to `dst`. `huffman` picks
    /// Huffman coding of the strings (`None` means yes). A
    /// `TableSizeChange` is not a field and is refused. A literal type
    /// appends `hpack_literal` of the field with its flags, and does so
    /// whenever name and value are under 2^30 bytes; a `Lookup` goes by the
    /// coder's tables.
    pub fn encode(
        &mut self,
        dst: &mut Vec<u8>,
        htype: HeaderType,
        name: &[u8],
        value: &[u8],
        huffman: Option<bool>,
    ) -> (r: Result<(), HpackError>)
        ensures
            htype == HeaderType::TableSizeChange ==> r == Err::<(), HpackError>(HpackError::InvalidHeaderField)
                && final(dst)@ == old(dst)@,
            final(dst)@.len() >= old(dst)@.len(),
            final(dst)@.subrange(0, old(dst)@.len() as int) == old(dst)@,
            htype != HeaderType::Lookup && htype != HeaderType::TableSizeChange ==> {
                &&& r is Ok ==> final(dst)@ == old(dst)@ + hpack_literal(name@, value@, encode_flags(htype, huffman))
                &&& name@.len() < 0x4000_0000 && value@.len() < 0x4000_0000 ==> r is Ok
                &&& name@.len() < 0x400_0000 && value@.len() < 0x400_0000 ==> literal_framed(
                    name@,
                    value@,
                    encode_flags(htype, huffman),
                )
            },
            final(self).table_limit() == old(self).table_limit(),
            htype == HeaderType::Indexed ==> final(self).entries() == evicted(
                seq![(name@, value@)] + old(self).entries(),
                old(self).table_limit() as nat,
            ),
            htype == HeaderType::NotIndexed || htype == HeaderType::NeverIndexed || htype
                == HeaderType::TableSizeChange ==> final(self).entries() == old(self).entries(),
            htype == HeaderType::Lookup ==> ({
                let es = old(self).entries();
                let h: u8 = if huffman == Some(false) { 0 } else { 3 };
                &&& final(self).entries() == es
                &&& r is Ok ==> final(dst)@ == old(dst)@ + lookup_bytes(es, name@, value@, h, huffman_enc_fn())
                &&& table_find(es, name@, value@) matches Some((_, true)) ==> r is Ok
                &&& (table_find(es, name@, value@) matches Some((_, false)) && coded_string(
                    value@,
                    h == 3,
                    huffman_enc_fn(),
                ).len() <= u32::MAX) ==> r is Ok
                &&& table_find(es, name@, value@) is None && name@.len() < 0x4000_0000 && value@.len()
                    < 0x4000_0000 ==> r is Ok
            }),
    {
        let h: u8 = match huffman {
            Some(false) => 0,
            _ => 3,
        };
        let flags: u8 = match htype {
            HeaderType::Lookup => 0x10 + h,
            HeaderType::Indexed => 0x04 + h,
            HeaderType::NeverIndexed => 0x08 + h,
            HeaderType::NotIndexed => h,
            HeaderType::TableSizeChange => {
                assert(dst@.subrange(0, dst@.len() as int) =~= dst@);
                return Err(HpackError::InvalidHeaderField);
            },
        };
        assert(flags == encode_flags(htype, huffman));
        proof {
            assert(huffman_enc_fn() =~= (|d: Seq<u8>| huffman_encoded(d)));
        }
        match hpack_encode_field(&mut self.inner, name, value, flags, dst) {
            Ok(()) => Ok(()),
            Err(e) => Err(encoder_error(e)),
        }
    }
}

/// Bit `i` of a byte string, most significant bit of each byte first.
pub open spec fn bit_at(bytes: Seq<u8>, i: int) -> bool {
    ((bytes[i / 8] >> ((7 - i % 8) as u8)) & 1u8) == 1u8
}

/// Walks the bits of a byte string, most significant bit first.
#[derive(Debug)]
pub struct Biterator {
    pub bytes: Vec<u8>,
    /// The index of the next bit.
    pub pos: usize,
}

impl Biterator {
    /// Starts at the first bit of `bytes`.
    pub fn new(bytes: &[u8]) -> (b: Self)
        requires
            8 * bytes@.len() <= usize::MAX,
        ensures
            b.bytes@ == bytes@,
            b.pos == 0,
    {
        let mut v: Vec<u8> = Vec::new();
        crate::buf::push_all(&mut v, bytes);
        Biterator { bytes: v, pos: 0 }
    }

    /// The next bit, or `None` after the last.
    pub fn next(&mut self) -> (r: Option<bool>)
        requires
            old(self).pos <= 8 * old(self).bytes@.len() <= usize::MAX,
        ensures
            final(self).bytes == old(self).bytes,
            final(self).pos <= 8 * final(self).bytes@.len(),
            old(self).pos < 8 * old(self).bytes@.len() ==> r == Some(bit_at(old(self).bytes@, old(self).pos as int))
                && final(self).pos == old(self).pos + 1,
            old(self).pos == 8 * old(self).bytes@.len() ==> r is None && final(self).pos == old(self).pos,
    {
        let byte = self.pos / 8;
        if byte >= self.bytes.len() {
            return None;
        }
        let shift = (7 - self.pos % 8) as u8;
        let bit = ((self.bytes[byte] >> shift) & 1u8) == 1u8;
        self.pos = self.pos + 1;
        Some(bit)
    }

    /// The remaining bits, in order.
    pub fn collect_bits(self) -> (r: Vec<bool>)
        requires
            self.pos <= 8 * self.bytes@.len() <= usize::MAX,
        ensures
            r@.len() == 8 * self.bytes@.len() - self.pos,
            forall|i: int| 0 <= i < r@.len() ==> r@[i] == bit_at(self.bytes@, self.pos + i),
    {
        let mut it = self;
        let ghost start = it.pos;
        let ghost bytes = it.bytes@;
        let mut out: Vec<bool> = Vec::new();
        loop
            invariant
                it.bytes@ == bytes,
                start <= it.pos <= 8 * bytes.len() <= usize::MAX,
                out@.len() == it.pos - start,
                forall|i: int| 0 <= i < out@.len() ==> out@[i] == bit_at(bytes, start + i),
            ensures
                out@.len() == 8 * bytes.len() - start,
                forall|i: int| 0 <= i < out@.len() ==> out@[i] == bit_at(bytes, start + i),
            decreases 8 * bytes.len() - it.pos,
        {
            match it.next() {
                Some(b) => {
                    out.push(b);
                },
                None => {
                    break;
                },
            }
        }
        out
    }
}

} // verus!
