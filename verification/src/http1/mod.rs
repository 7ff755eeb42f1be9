//! HTTP/1.x: reading start lines, header lines and chunk sizes, and writing
//! heads and chunks. The server and client state machines are in the
//! submodules; their callers do the reading and writing.

pub mod client;
pub mod server;
pub mod readback;

use vstd::prelude::*;
use crate::shared::{HeaderMap, texts};
use crate::text::{
    chars_of, contains_seq, parse_radix, parse_unsigned, radix_chars, radix_digits, text_of, string_from_chars,
    trim, trim_bounds, utf8_lossy,
};

verus! {

/// The first index of `c` in `s` at or after `a`.
pub open spec fn index_of_from(s: Seq<char>, a: int, c: char) -> Option<int>
    decreases s.len() - a,
{
    if a < 0 || a >= s.len() {
        None
    } else if s[a] == c {
        Some(a)
    } else {
        index_of_from(s, a + 1, c)
    }
}

/// The first index of `c` in `s` at or after `a`.
pub fn index_from(s: &[char], a: usize, c: char) -> (r: Option<usize>)
    ensures
        match r {
            Some(i) => index_of_from(s@, a as int, c) == Some(i as int),
            None => index_of_from(s@, a as int, c) is None,
        },
{
    let n = s.len();
    if a >= n {
        return None;
    }
    let mut i = a;
    while i < n
        invariant
            n == s@.len(),
            a <= i <= n,
            index_of_from(s@, a as int, c) == index_of_from(s@, i as int, c),
        decreases n - i,
    {
        if s[i] == c {
            return Some(i);
        }
        i = i + 1;
    }
    None
}

/// `str::splitn(3, ' ')`: up to three pieces, the last one keeping any
/// further spaces.
pub open spec fn split3(s: Seq<char>) -> Seq<Seq<char>> {
    match index_of_from(s, 0, ' ') {
        None => seq![s],
        Some(i) => match index_of_from(s, i + 1, ' ') {
            None => seq![s.subrange(0, i), s.subrange(i + 1, s.len() as int)],
            Some(j) => seq![s.subrange(0, i), s.subrange(i + 1, j), s.subrange(j + 1, s.len() as int)],
        },
    }
}

/// The chars a line of bytes reads as (invalid UTF-8 replaced).
pub fn line_chars(line: &[u8]) -> (r: Vec<char>)
    ensures
        r@ == text_of(line@),
{
    let s = utf8_lossy(line);
    chars_of(s.as_str())
}

/// Appends chars.
pub fn push_chars(v: &mut Vec<char>, s: &[char])
    ensures
        final(v)@ == old(v)@ + s@,
{
    let ghost start = v@;
    let mut i: usize = 0;
    while i < s.len()
        invariant
            i <= s@.len(),
            v@ == start + s@.subrange(0, i as int),
        decreases s@.len() - i,
    {
        v.push(s[i]);
        i = i + 1;
        assert(v@ =~= start + s@.subrange(0, i as int));
    }
    assert(s@.subrange(0, s@.len() as int) =~= s@);
}

/// Appends the chars of a string.
pub fn push_str(v: &mut Vec<char>, s: &str)
    ensures
        final(v)@ == old(v)@ + s@,
{
    let cs = chars_of(s);
    push_chars(v, cs.as_slice());
}

/// A header line as read: blank (the end of the head), without a colon,
/// or a name and a value, both trimmed.
#[derive(Debug)]
pub enum HeaderLine {
    Blank,
    Invalid,
    Field(String, String),
}

/// The header line `s` is blank.
pub open spec fn line_blank(s: Seq<char>) -> bool {
    trim(s).len() == 0
}

/// The name of the header line `s`: the trimmed text before the first colon.
pub open spec fn line_name(s: Seq<char>) -> Seq<char> {
    trim(s.subrange(0, index_of_from(s, 0, ':')->0))
}

/// The value of the header line `s`: the trimmed text after the first colon.
pub open spec fn line_value(s: Seq<char>) -> Seq<char> {
    trim(s.subrange(index_of_from(s, 0, ':')->0 + 1, s.len() as int))
}

/// `h` is what the header line `s` reads as.
pub open spec fn header_line_of(s: Seq<char>, h: HeaderLine) -> bool {
    if line_blank(s) {
        h is Blank
    } else if index_of_from(s, 0, ':') is None {
        h is Invalid
    } else {
        h matches HeaderLine::Field(n, v) && n@ == line_name(s) && v@ == line_value(s)
    }
}

/// Reads a header line.
pub fn parse_header_line(s: &[char]) -> (h: HeaderLine)
    ensures
        header_line_of(s@, h),
{
    let n = s.len();
    let (b, e) = trim_bounds(s, 0, n);
    assert(s@.subrange(0, n as int) =~= s@);
    if b == e {
        return HeaderLine::Blank;
    }
    match index_from(s, 0, ':') {
        None => HeaderLine::Invalid,
        Some(i) => {
            proof {
                lemma_index_of_from_bounds(s@, 0, ':');
            }
            let (nb, ne) = trim_bounds(s, 0, i);
            let (vb, ve) = trim_bounds(s, i + 1, n);
            let name = string_from_chars(vstd::slice::slice_subrange(s, nb, ne));
            let value = string_from_chars(vstd::slice::slice_subrange(s, vb, ve));
            HeaderLine::Field(name, value)
        },
    }
}

/// A found index lies in range and holds the char.
pub proof fn lemma_index_of_from_bounds(s: Seq<char>, a: int, c: char)
    ensures
        index_of_from(s, a, c) matches Some(i) ==> a <= i < s.len() && s[i] == c,
    decreases s.len() - a,
{
    if 0 <= a < s.len() && s[a] != c {
        lemma_index_of_from_bounds(s, a + 1, c);
    }
}

/// The bytes of ASCII chars.
pub open spec fn ascii_bytes(s: Seq<char>) -> Seq<u8> {
    s.map_values(|c: char| (c as u32) as u8)
}

/// CR LF.
pub open spec fn crlf() -> Seq<u8> {
    seq![13u8, 10u8]
}

/// A chunk of chunked transfer coding: the length in hex, CR LF, the
/// bytes, CR LF.
pub open spec fn chunk_bytes(body: Seq<u8>) -> Seq<u8> {
    ascii_bytes(radix_digits(body.len(), 16)) + crlf() + body + crlf()
}

/// Frames `body` as one chunk of chunked transfer coding.
pub fn get_chunk(body: &[u8]) -> (r: Vec<u8>)
    ensures
        r@ == chunk_bytes(body@),
{
    let digits = radix_chars(body.len(), 16);
    let mut r: Vec<u8> = Vec::new();
    let mut i: usize = 0;
    while i < digits.len()
        invariant
            i <= digits@.len(),
            r@ == ascii_bytes(digits@.subrange(0, i as int)),
        decreases digits@.len() - i,
    {
        r.push((digits[i] as u32) as u8);
        i = i + 1;
        assert(r@ =~= ascii_bytes(digits@.subrange(0, i as int)));
    }
    assert(digits@.subrange(0, digits@.len() as int) =~= digits@);
    r.push(13);
    r.push(10);
    crate::buf::push_all(&mut r, body);
    r.push(13);
    r.push(10);
    assert(r@ =~= chunk_bytes(body@));
    r
}

/// The last chunk of chunked transfer coding, with no trailers.
pub open spec fn last_chunk() -> Seq<u8> {
    seq![48u8, 13u8, 10u8, 13u8, 10u8]
}

/// What a chunk size line reads as: its trimmed text in hex, 0 when that
/// is not a number.
pub open spec fn chunk_size_of(line: Seq<u8>) -> nat {
    match parse_unsigned(trim(text_of(line)), 16, usize::MAX as nat) {
        Some(v) => v,
        None => 0,
    }
}

/// Reads a chunk size line.
pub fn chunk_size(line: &[u8]) -> (r: usize)
    ensures
        r == chunk_size_of(line@),
{
    let s = line_chars(line);
    let n = s.len();
    let (b, e) = trim_bounds(s.as_slice(), 0, n);
    assert(s@.subrange(0, n as int) =~= s@);
    match parse_radix(s.as_slice(), b, e, 16) {
        Some(v) => v,
        None => 0,
    }
}

/// How the body of a message is delimited.
#[derive(Debug, Clone, Copy, PartialEq, Eq, Structural)]
pub enum BodyPlan {
    /// In chunks.
    Chunked,
    /// By a length.
    Length(usize),
    /// By the end of the connection.
    ToEnd,
    /// There is none.
    Done,
}

/// Every name stored in a header map has at least one value.
pub open spec fn values_present(m: HeaderMap) -> bool {
    forall|n: Seq<char>| #[trigger] m.lookup(n) matches Some(v) ==> v.len() > 0
}

/// How the body of a message with these headers is delimited: chunked
/// when the first transfer-encoding value mentions `chunked`, else by the
/// first content-length value when it is a number, else to the end of the
/// connection when `to_end`, else there is none.
pub open spec fn body_plan_of(headers: HeaderMap, to_end: bool) -> BodyPlan {
    let te = headers.lookup(seq!['t', 'r', 'a', 'n', 's', 'f', 'e', 'r', '-', 'e', 'n', 'c', 'o', 'd', 'i', 'n', 'g']);
    let cl = headers.lookup(seq!['c', 'o', 'n', 't', 'e', 'n', 't', '-', 'l', 'e', 'n', 'g', 't', 'h']);
    if te is Some && contains_seq(te->0[0], seq!['c', 'h', 'u', 'n', 'k', 'e', 'd']) {
        BodyPlan::Chunked
    } else if cl is Some && parse_unsigned(cl->0[0], 10, usize::MAX as nat) is Some {
        BodyPlan::Length(parse_unsigned(cl->0[0], 10, usize::MAX as nat)->0 as usize)
    } else if to_end {
        BodyPlan::ToEnd
    } else {
        BodyPlan::Done
    }
}

/// A chunked transfer encoding decides the body's framing whatever the
/// content length says; without it, a content length that is a number gives
/// exactly that many bytes; with neither, the body runs to the end of the
/// connection only when asked to, else there is none.
pub proof fn lemma_body_plan_priority(headers: HeaderMap, to_end: bool)
    ensures
        ({
            let te = headers.lookup(seq!['t', 'r', 'a', 'n', 's', 'f', 'e', 'r', '-', 'e', 'n', 'c', 'o', 'd', 'i', 'n', 'g']);
            let cl = headers.lookup(seq!['c', 'o', 'n', 't', 'e', 'n', 't', '-', 'l', 'e', 'n', 'g', 't', 'h']);
            let chunked = te is Some && contains_seq(te->0[0], seq!['c', 'h', 'u', 'n', 'k', 'e', 'd']);
            let length = if cl is Some { parse_unsigned(cl->0[0], 10, usize::MAX as nat) } else { None };
            &&& chunked ==> body_plan_of(headers, to_end) == BodyPlan::Chunked
            &&& !chunked && length is Some ==> body_plan_of(headers, to_end) == BodyPlan::Length(
                (length->0) as usize,
            )
            &&& !chunked && length is None ==> body_plan_of(headers, to_end) == (if to_end {
                BodyPlan::ToEnd
            } else {
                BodyPlan::Done
            })
            &&& body_plan_of(headers, true) != BodyPlan::Done
        }),
{
}

/// How the body of a message with these headers is delimited.
pub fn body_plan(headers: &HeaderMap, to_end: bool) -> (r: BodyPlan)
    requires
        headers.wf(),
        values_present(*headers),
    ensures
        r == body_plan_of(*headers, to_end),
{
    let te_name = "transfer-encoding";
    let cl_name = "content-length";
    proof {
        reveal_strlit("transfer-encoding");
        reveal_strlit("content-length");
        reveal_strlit("chunked");
    }
    assert(te_name@ =~= seq!['t', 'r', 'a', 'n', 's', 'f', 'e', 'r', '-', 'e', 'n', 'c', 'o', 'd', 'i', 'n', 'g']);
    assert(cl_name@ =~= seq!['c', 'o', 'n', 't', 'e', 'n', 't', '-', 'l', 'e', 'n', 'g', 't', 'h']);
    if let Some(te) = headers.get(te_name) {
        assert(headers.lookup(te_name@) matches Some(v) && v.len() > 0);
        let first = chars_of(te[0].as_str());
        let pat = chars_of("chunked");
        assert(pat@ =~= seq!['c', 'h', 'u', 'n', 'k', 'e', 'd']);
        if crate::text::contains_chars(first.as_slice(), pat.as_slice()) {
            return BodyPlan::Chunked;
        }
    }
    if let Some(cl) = headers.get(cl_name) {
        assert(headers.lookup(cl_name@) matches Some(v) && v.len() > 0);
        let first = chars_of(cl[0].as_str());
        let n = first.len();
        assert(first@.subrange(0, n as int) =~= first@);
        if let Some(len) = parse_radix(first.as_slice(), 0, n, 10) {
            return BodyPlan::Length(len);
        }
    }
    if to_end {
        BodyPlan::ToEnd
    } else {
        BodyPlan::Done
    }
}

/// The lines `name: value` CR LF for each value.
pub open spec fn field_lines(name: Seq<char>, values: Seq<Seq<char>>) -> Seq<char>
    decreases values.len(),
{
    if values.len() == 0 {
        Seq::empty()
    } else {
        field_lines(name, values.drop_last()) + name + seq![':', ' '] + values.last() + seq!['\r', '\n']
    }
}

/// The header lines of a head, entry by entry.
pub open spec fn header_block(entries: Seq<(String, Vec<String>)>) -> Seq<char>
    decreases entries.len(),
{
    if entries.len() == 0 {
        Seq::empty()
    } else {
        header_block(entries.drop_last()) + field_lines(entries.last().0@, texts(entries.last().1@))
    }
}

/// Appends the header lines of a head.
pub fn push_header_block(out: &mut Vec<char>, m: &HeaderMap)
    ensures
        final(out)@ == old(out)@ + header_block(m.entries@),
{
    let ghost start = out@;
    let mut i: usize = 0;
    while i < m.entries.len()
        invariant
            i <= m.entries@.len(),
            out@ == start + header_block(m.entries@.subrange(0, i as int)),
        decreases m.entries@.len() - i,
    {
        let name = chars_of(m.entries[i].0.as_str());
        let values = &m.entries[i].1;
        let ghost before = out@;
        let mut j: usize = 0;
        while j < values.len()
            invariant
                j <= values@.len(),
                values@ == m.entries@[i as int].1@,
                name@ == m.entries@[i as int].0@,
                out@ == before + field_lines(name@, texts(values@.subrange(0, j as int))),
            decreases values@.len() - j,
        {
            push_chars(out, name.as_slice());
            out.push(':');
            out.push(' ');
            push_str(out, values[j].as_str());
            out.push('\r');
            out.push('\n');
            j = j + 1;
            proof {
                let vs = texts(values@.subrange(0, j as int));
                assert(vs.drop_last() =~= texts(values@.subrange(0, j - 1)));
                assert(vs.last() == values@[j - 1]@);
            }
            assert(out@ =~= before + field_lines(name@, texts(values@.subrange(0, j as int))));
        }
        assert(values@.subrange(0, values@.len() as int) =~= values@);
        i = i + 1;
        proof {
            let es = m.entries@.subrange(0, i as int);
            assert(es.drop_last() =~= m.entries@.subrange(0, i - 1));
            assert(es.last() == m.entries@[i - 1]);
        }
        assert(out@ =~= start + header_block(m.entries@.subrange(0, i as int)));
    }
    assert(m.entries@.subrange(0, m.entries@.len() as int) =~= m.entries@);
}

/// The UTF-8 bytes of some chars.
pub fn text_bytes(cs: &[char]) -> (r: Vec<u8>)
    ensures
        r@ == vstd::utf8::encode_utf8(cs@),
{
    let s = string_from_chars(cs);
    let b = s.as_str().as_bytes();
    let mut r: Vec<u8> = Vec::new();
    crate::buf::push_all(&mut r, b);
    r
}

} // verus!
