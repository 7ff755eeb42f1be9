//! What the reading side makes of what the writing side wrote: a start
//! line, a header line and a chunk size line read back as written, and so
//! does a whole header block, a whole request head and a whole response
//! head with its body length.

use vstd::prelude::*;
use crate::http1::{
    ascii_bytes, chunk_size_of, crlf, field_lines, header_block, index_of_from, line_blank, line_name, line_value, split3,
};
use crate::http1::server::{start_line_parts, version_of};
use crate::http1::client::response_header_rule;
use crate::shared::{
    HttpMethod, HttpResponse, HttpVersion, method_display, method_from_spec, method_wire, texts, version_wire,
};
use crate::text::{
    ascii_lower, digit_value, digits_value, eq_ignore_case, is_white, lower_seq, parse_unsigned, radix_digits,
    text_of, trim, trim_end_crlf, trim_end_index, trim_start_index,
};

verus! {

/// Text written as UTF-8 reads back as itself.
pub proof fn lemma_text_of_encoded(t: Seq<char>)
    ensures
        text_of(vstd::utf8::encode_utf8(t)) == t,
{
    vstd::utf8::encode_utf8_valid_utf8(t);
    vstd::utf8::encode_utf8_decode_utf8(t);
}

/// The first `c` at or after `a` is at `b` when `s[b]` is `c` and none
/// lies between.
pub proof fn lemma_index_at(s: Seq<char>, a: int, b: int, c: char)
    requires
        0 <= a <= b < s.len(),
        s[b] == c,
        forall|k: int| a <= k < b ==> s[k] != c,
    ensures
        index_of_from(s, a, c) == Some(b),
    decreases b - a,
{
    if a < b {
        lemma_index_at(s, a + 1, b, c);
    }
}

/// The digits of a number in radix 10 or 16 read back as the number.
pub proof fn lemma_digits_read_back(n: nat, radix: nat)
    requires
        radix == 10 || radix == 16,
    ensures
        digits_value(radix_digits(n, radix), radix as u32) == Some(n),
        radix_digits(n, radix).len() > 0,
        forall|k: int|
            0 <= k < radix_digits(n, radix).len() ==> #[trigger] digit_value(radix_digits(n, radix)[k], radix as u32)
                is Some,
    decreases n,
{
    let d = radix_digits(n, radix);
    if n < radix {
        assert(n % 16 == n);
        assert(d =~= seq![crate::text::digit_char(n)]);
    } else {
        assert(n / radix < n) by (nonlinear_arith)
            requires
                radix >= 2,
                n >= radix,
        ;
        lemma_digits_read_back(n / radix, radix);
        let p = radix_digits(n / radix, radix);
        assert(d == p.push(crate::text::digit_char(n % radix)));
        assert(d.drop_last() =~= p);
        assert(n == (n / radix) * radix + n % radix) by (nonlinear_arith)
            requires
                radix > 0,
        ;
        assert forall|k: int| 0 <= k < d.len() implies #[trigger] digit_value(d[k], radix as u32) is Some by {
            if k < p.len() {
                assert(d[k] == p[k]);
            }
        }
    }
}

/// ASCII text written as UTF-8 is one byte per char.
pub proof fn lemma_ascii_encode(s: Seq<char>)
    requires
        forall|k: int| 0 <= k < s.len() ==> (s[k] as u32) < 128,
    ensures
        vstd::utf8::encode_utf8(s) == ascii_bytes(s),
    decreases s.len(),
{
    if s.len() > 0 {
        lemma_ascii_encode(s.drop_first());
        let v = s[0] as u32;
        assert((v & 0x7f) as u8 == v as u8) by (bit_vector)
            requires
                v < 128,
        ;
        assert(vstd::utf8::has_width_1_encoding(v));
        assert(vstd::utf8::encode_scalar(v) == seq![(v & 0x7f) as u8]);
        assert(ascii_bytes(s) =~= seq![v as u8] + ascii_bytes(s.drop_first()));
        assert(vstd::utf8::encode_utf8(s) == vstd::utf8::encode_scalar(v) + vstd::utf8::encode_utf8(s.drop_first()));
    } else {
        assert(ascii_bytes(s) =~= Seq::<u8>::empty());
    }
}

/// The lower-case letters of the method names, and the names as written.
proof fn lemma_method_literals()
    ensures
        "get"@ == seq!['g', 'e', 't'],
        "head"@ == seq!['h', 'e', 'a', 'd'],
        "post"@ == seq!['p', 'o', 's', 't'],
        "put"@ == seq!['p', 'u', 't'],
        "delete"@ == seq!['d', 'e', 'l', 'e', 't', 'e'],
        "connect"@ == seq!['c', 'o', 'n', 'n', 'e', 'c', 't'],
        "options"@ == seq!['o', 'p', 't', 'i', 'o', 'n', 's'],
        "trace"@ == seq!['t', 'r', 'a', 'c', 'e'],
        "GET"@ == seq!['G', 'E', 'T'],
        "HEAD"@ == seq!['H', 'E', 'A', 'D'],
        "POST"@ == seq!['P', 'O', 'S', 'T'],
        "PUT"@ == seq!['P', 'U', 'T'],
        "DELETE"@ == seq!['D', 'E', 'L', 'E', 'T', 'E'],
        "CONNECT"@ == seq!['C', 'O', 'N', 'N', 'E', 'C', 'T'],
        "OPTIONS"@ == seq!['O', 'P', 'T', 'I', 'O', 'N', 'S'],
        "TRACE"@ == seq!['T', 'R', 'A', 'C', 'E'],
{
    reveal_strlit("get");
    reveal_strlit("head");
    reveal_strlit("post");
    reveal_strlit("put");
    reveal_strlit("delete");
    reveal_strlit("connect");
    reveal_strlit("options");
    reveal_strlit("trace");
    reveal_strlit("GET");
    reveal_strlit("HEAD");
    reveal_strlit("POST");
    reveal_strlit("PUT");
    reveal_strlit("DELETE");
    reveal_strlit("CONNECT");
    reveal_strlit("OPTIONS");
    reveal_strlit("TRACE");
    assert("get"@ =~= seq!['g', 'e', 't']);
    assert("head"@ =~= seq!['h', 'e', 'a', 'd']);
    assert("post"@ =~= seq!['p', 'o', 's', 't']);
    assert("put"@ =~= seq!['p', 'u', 't']);
    assert("delete"@ =~= seq!['d', 'e', 'l', 'e', 't', 'e']);
    assert("connect"@ =~= seq!['c', 'o', 'n', 'n', 'e', 'c', 't']);
    assert("options"@ =~= seq!['o', 'p', 't', 'i', 'o', 'n', 's']);
    assert("trace"@ =~= seq!['t', 'r', 'a', 'c', 'e']);
    assert("GET"@ =~= seq!['G', 'E', 'T']);
    assert("HEAD"@ =~= seq!['H', 'E', 'A', 'D']);
    assert("POST"@ =~= seq!['P', 'O', 'S', 'T']);
    assert("PUT"@ =~= seq!['P', 'U', 'T']);
    assert("DELETE"@ =~= seq!['D', 'E', 'L', 'E', 'T', 'E']);
    assert("CONNECT"@ =~= seq!['C', 'O', 'N', 'N', 'E', 'C', 'T']);
    assert("OPTIONS"@ =~= seq!['O', 'P', 'T', 'I', 'O', 'N', 'S']);
    assert("TRACE"@ =~= seq!['T', 'R', 'A', 'C', 'E']);
}

/// Two texts of different lengths differ up to case.
proof fn lemma_len_differs(a: Seq<char>, b: Seq<char>)
    requires
        a.len() != b.len(),
    ensures
        !eq_ignore_case(a, b),
{
    assert(lower_seq(a).len() != lower_seq(b).len());
}

/// Two texts whose chars at `k` differ after lower-casing differ up to case.
proof fn lemma_char_differs(a: Seq<char>, b: Seq<char>, k: int)
    requires
        0 <= k < a.len(),
        k < b.len(),
        ascii_lower(a[k]) != ascii_lower(b[k]),
    ensures
        !eq_ignore_case(a, b),
{
    assert(lower_seq(a)[k] != lower_seq(b)[k]);
}

/// A text equals its lower-case form up to case.
proof fn lemma_same_lower(a: Seq<char>, b: Seq<char>)
    requires
        a.len() == b.len(),
        forall|k: int| 0 <= k < a.len() ==> ascii_lower(#[trigger] a[k]) == ascii_lower(b[k]),
    ensures
        eq_ignore_case(a, b),
{
    assert(lower_seq(a) =~= lower_seq(b));
}

/// A text lower-cased equals the text up to ASCII case.
pub proof fn lemma_lower_same_case(s: Seq<char>)
    ensures
        eq_ignore_case(lower_seq(s), s),
{
    assert(lower_seq(lower_seq(s)) =~= lower_seq(s));
}

/// Whether `s` is one of the eight method names, in any ASCII case.
pub open spec fn is_method_name(s: Seq<char>) -> bool {
    ||| eq_ignore_case(s, "GET"@)
    ||| eq_ignore_case(s, "HEAD"@)
    ||| eq_ignore_case(s, "POST"@)
    ||| eq_ignore_case(s, "PUT"@)
    ||| eq_ignore_case(s, "DELETE"@)
    ||| eq_ignore_case(s, "CONNECT"@)
    ||| eq_ignore_case(s, "OPTIONS"@)
    ||| eq_ignore_case(s, "TRACE"@)
}

/// Text reads as `Unknown`, holding the text itself, exactly when it is
/// none of the eight method names in any ASCII case.
pub proof fn lemma_method_unknown_exactly(s: Seq<char>, r: HttpMethod)
    requires
        method_from_spec(s, r),
    ensures
        r is Unknown <==> !is_method_name(s),
        r is Unknown ==> (r matches HttpMethod::Unknown(Some(t)) && t@ == s),
{
    lemma_method_literals();
    lemma_same_lower("get"@, "GET"@);
    lemma_same_lower("head"@, "HEAD"@);
    lemma_same_lower("post"@, "POST"@);
    lemma_same_lower("put"@, "PUT"@);
    lemma_same_lower("delete"@, "DELETE"@);
    lemma_same_lower("connect"@, "CONNECT"@);
    lemma_same_lower("options"@, "OPTIONS"@);
    lemma_same_lower("trace"@, "TRACE"@);
}

/// The name of a known method reads back as that method.
pub proof fn lemma_method_reads_back(m: HttpMethod, r: HttpMethod)
    requires
        !(m is Unknown),
        method_from_spec(method_wire(m), r),
    ensures
        r == m,
{
    lemma_method_reads_back_any_case(m, method_wire(m), r);
}

/// The name of a known method, written in any ASCII case (its display
/// text, or that text lower-cased), reads back as that method.
pub proof fn lemma_method_reads_back_any_case(m: HttpMethod, s: Seq<char>, r: HttpMethod)
    requires
        !(m is Unknown),
        eq_ignore_case(s, method_display(m)),
        method_from_spec(s, r),
    ensures
        r == m,
{
    lemma_method_literals();
    let w = method_wire(m);
    let g = seq!['g', 'e', 't'];
    let h = seq!['h', 'e', 'a', 'd'];
    let po = seq!['p', 'o', 's', 't'];
    let pu = seq!['p', 'u', 't'];
    let de = seq!['d', 'e', 'l', 'e', 't', 'e'];
    let co = seq!['c', 'o', 'n', 'n', 'e', 'c', 't'];
    let op = seq!['o', 'p', 't', 'i', 'o', 'n', 's'];
    let tr = seq!['t', 'r', 'a', 'c', 'e'];
    match m {
        HttpMethod::Get => {
            lemma_same_lower(w, g);
        },
        HttpMethod::Head => {
            lemma_len_differs(w, g);
            lemma_same_lower(w, h);
        },
        HttpMethod::Post => {
            lemma_len_differs(w, g);
            lemma_char_differs(w, h, 0);
            lemma_same_lower(w, po);
        },
        HttpMethod::Put => {
            lemma_char_differs(w, g, 0);
            lemma_len_differs(w, h);
            lemma_len_differs(w, po);
            lemma_same_lower(w, pu);
        },
        HttpMethod::Delete => {
            lemma_len_differs(w, g);
            lemma_len_differs(w, h);
            lemma_len_differs(w, po);
            lemma_len_differs(w, pu);
            lemma_same_lower(w, de);
        },
        HttpMethod::Connect => {
            lemma_len_differs(w, g);
            lemma_len_differs(w, h);
            lemma_len_differs(w, po);
            lemma_len_differs(w, pu);
            lemma_len_differs(w, de);
            lemma_same_lower(w, co);
        },
        HttpMethod::Options => {
            lemma_len_differs(w, g);
            lemma_len_differs(w, h);
            lemma_len_differs(w, po);
            lemma_len_differs(w, pu);
            lemma_len_differs(w, de);
            lemma_char_differs(w, co, 0);
            lemma_same_lower(w, op);
        },
        HttpMethod::Trace => {
            lemma_len_differs(w, g);
            lemma_len_differs(w, h);
            lemma_len_differs(w, po);
            lemma_len_differs(w, pu);
            lemma_len_differs(w, de);
            lemma_len_differs(w, co);
            lemma_len_differs(w, op);
            lemma_same_lower(w, tr);
        },
        HttpMethod::Unknown(_) => {},
    }
}

/// HTTP/1.0 and HTTP/1.1 read back as themselves.
pub proof fn lemma_version_reads_back(v: HttpVersion, r: HttpVersion)
    requires
        v is Http10 || v is Http11,
        version_of(version_wire(v), r),
    ensures
        r == v,
{
    reveal_strlit("HTTP/1.0");
    reveal_strlit("HTTP/1.1");
    assert("HTTP/1.0"@ =~= seq!['H', 'T', 'T', 'P', '/', '1', '.', '0']);
    assert("HTTP/1.1"@ =~= seq!['H', 'T', 'T', 'P', '/', '1', '.', '1']);
    let w = version_wire(v);
    let t10 = seq!['h', 't', 't', 'p', '/', '1', '.', '0'];
    let t11 = seq!['h', 't', 't', 'p', '/', '1', '.', '1'];
    if v is Http10 {
        lemma_same_lower(w, t10);
    } else {
        lemma_char_differs(w, t10, 7);
        lemma_same_lower(w, t11);
    }
}

/// A text with no space in its first two pieces splits into them and the rest.
pub proof fn lemma_split3_of(a: Seq<char>, b: Seq<char>, c: Seq<char>)
    requires
        forall|k: int| 0 <= k < a.len() ==> a[k] != ' ',
        forall|k: int| 0 <= k < b.len() ==> b[k] != ' ',
    ensures
        split3(a + seq![' '] + b + seq![' '] + c) == seq![a, b, c],
{
    let t = a + seq![' '] + b + seq![' '] + c;
    let i = a.len() as int;
    let j = i + 1 + b.len();
    assert(t[i] == ' ');
    assert forall|k: int| 0 <= k < i implies t[k] != ' ' by {
        assert(t[k] == a[k]);
    }
    lemma_index_at(t, 0, i, ' ');
    assert(t[j] == ' ');
    assert forall|k: int| i + 1 <= k < j implies t[k] != ' ' by {
        assert(t[k] == b[k - i - 1]);
    }
    lemma_index_at(t, i + 1, j, ' ');
    assert(t.subrange(0, i) =~= a);
    assert(t.subrange(i + 1, j) =~= b);
    assert(t.subrange(j + 1, t.len() as int) =~= c);
}

/// A line ending in CR LF, its text not ending in either, loses just them.
pub proof fn lemma_trim_crlf_of(t: Seq<char>)
    requires
        t.len() > 0,
        t.last() != '\r' && t.last() != '\n',
    ensures
        trim_end_crlf(t + seq!['\r', '\n']) == t,
{
    reveal_with_fuel(trim_end_crlf, 3);
    let u = t + seq!['\r', '\n'];
    assert(u.drop_last() =~= t + seq!['\r']);
    assert((t + seq!['\r']).drop_last() =~= t);
}

/// Chars that are not spaces.
pub open spec fn no_space(s: Seq<char>) -> bool {
    forall|k: int| 0 <= k < s.len() ==> s[k] != ' '
}

/// The request line a client writes for a known method, a path without
/// spaces and HTTP/1.0 or HTTP/1.1 is read by the server as that method,
/// path and version, and the request stays valid.
pub proof fn lemma_request_line_read_back(
    m: HttpMethod,
    path: Seq<char>,
    v: HttpVersion,
    o: crate::shared::HttpClient,
    n: crate::shared::HttpClient,
)
    requires
        !(m is Unknown),
        no_space(path),
        v is Http10 || v is Http11,
        crate::http1::server::request_line_rule(
            o,
            n,
            vstd::utf8::encode_utf8(method_wire(m) + seq![' '] + path + seq![' '] + version_wire(v) + seq!['\r', '\n']),
        ),
    ensures
        n.method == m,
        n.path@ == path,
        n.version == v,
        n.valid == o.valid,
        n.mpv_complete,
{
    lemma_method_literals();
    reveal_strlit("HTTP/1.0");
    reveal_strlit("HTTP/1.1");
    assert("HTTP/1.0"@ =~= seq!['H', 'T', 'T', 'P', '/', '1', '.', '0']);
    assert("HTTP/1.1"@ =~= seq!['H', 'T', 'T', 'P', '/', '1', '.', '1']);
    let mw = method_wire(m);
    let vw = version_wire(v);
    let t = mw + seq![' '] + path + seq![' '] + vw;
    assert(t + seq!['\r', '\n'] =~= mw + seq![' '] + path + seq![' '] + vw + seq!['\r', '\n']);
    lemma_text_of_encoded(t + seq!['\r', '\n']);
    assert(t.last() == vw.last());
    lemma_trim_crlf_of(t);
    assert(no_space(mw));
    lemma_split3_of(mw, path, vw);
    let parts = start_line_parts(
        vstd::utf8::encode_utf8(mw + seq![' '] + path + seq![' '] + vw + seq!['\r', '\n']),
    );
    assert(parts == seq![mw, path, vw]);
    lemma_method_reads_back(m, n.method);
    lemma_version_reads_back(v, n.version);
}

/// Whitespace chars only.
pub open spec fn all_white(w: Seq<char>) -> bool {
    forall|k: int| 0 <= k < w.len() ==> is_white(w[k])
}

proof fn lemma_trim_end_white_suffix(x: Seq<char>, w: Seq<char>)
    requires
        all_white(w),
    ensures
        trim_end_index(x + w) == trim_end_index(x),
    decreases w.len(),
{
    if w.len() > 0 {
        assert((x + w).drop_last() =~= x + w.drop_last());
        lemma_trim_end_white_suffix(x, w.drop_last());
    } else {
        assert(x + w =~= x);
    }
}

proof fn lemma_trim_start_white_prefix(w: Seq<char>, x: Seq<char>)
    requires
        all_white(w),
    ensures
        trim_start_index(w + x) == w.len() + trim_start_index(x),
    decreases w.len(),
{
    if w.len() > 0 {
        assert((w + x).drop_first() =~= w.drop_first() + x);
        lemma_trim_start_white_prefix(w.drop_first(), x);
    } else {
        assert(w + x =~= x);
    }
}

/// Trimming whitespace around a text that starts and ends with other chars
/// gives the text.
pub proof fn lemma_trim_around(w1: Seq<char>, x: Seq<char>, w2: Seq<char>)
    requires
        all_white(w1),
        all_white(w2),
        x.len() > 0,
        !is_white(x[0]),
        !is_white(x.last()),
    ensures
        trim(w1 + x + w2) == x,
{
    let s = w1 + x + w2;
    lemma_trim_end_white_suffix(w1 + x, w2);
    assert(trim_end_index(w1 + x) == (w1 + x).len());
    assert(crate::text::trim_end(s) =~= w1 + x);
    lemma_trim_start_white_prefix(w1, x);
    assert(trim_start_index(x) == 0);
    assert((w1 + x).subrange(w1.len() as int, (w1 + x).len() as int) =~= x);
}

/// Trimming whitespace only gives nothing.
pub proof fn lemma_trim_all_white(w: Seq<char>)
    requires
        all_white(w),
    ensures
        trim(w).len() == 0,
{
    lemma_trim_end_white_suffix(Seq::empty(), w);
    assert(Seq::<char>::empty() + w =~= w);
}

/// The digits of a number are digits: not spaces, signs or whitespace, and ASCII.
proof fn lemma_digit_chars(d: Seq<char>, radix: u32)
    requires
        forall|k: int| 0 <= k < d.len() ==> #[trigger] digit_value(d[k], radix) is Some,
    ensures
        forall|k: int|
            0 <= k < d.len() ==> #[trigger] d[k] != ' ' && d[k] != '+' && !is_white(d[k]) && (d[k] as u32) < 128
                && d[k] != ':',
{
    assert forall|k: int| 0 <= k < d.len() implies #[trigger] d[k] != ' ' && d[k] != '+' && !is_white(d[k]) && (
    d[k] as u32) < 128 && d[k] != ':' by {
        assert(digit_value(d[k], radix) is Some);
    }
}

/// The status line a server writes for HTTP/1.0 or HTTP/1.1, a code and a
/// reason (not ending in CR or LF) is read by the client as that version,
/// code and reason, and the response stays valid.
pub proof fn lemma_status_line_read_back(
    v: HttpVersion,
    code: u16,
    status: Seq<char>,
    o: crate::shared::HttpResponse,
    n: crate::shared::HttpResponse,
)
    requires
        v is Http10 || v is Http11,
        status.len() > 0 ==> status.last() != '\r' && status.last() != '\n',
        crate::http1::client::status_line_rule(
            o,
            n,
            vstd::utf8::encode_utf8(
                version_wire(v) + seq![' '] + radix_digits(code as nat, 10) + seq![' '] + status + seq!['\r', '\n'],
            ),
        ),
    ensures
        n.version == v,
        n.code == code,
        n.status@ == status,
        n.valid == o.valid,
        n.vcs_complete,
{
    reveal_strlit("HTTP/1.0");
    reveal_strlit("HTTP/1.1");
    assert("HTTP/1.0"@ =~= seq!['H', 'T', 'T', 'P', '/', '1', '.', '0']);
    assert("HTTP/1.1"@ =~= seq!['H', 'T', 'T', 'P', '/', '1', '.', '1']);
    let vw = version_wire(v);
    let d = radix_digits(code as nat, 10);
    lemma_digits_read_back(code as nat, 10);
    lemma_digit_chars(d, 10);
    let t = vw + seq![' '] + d + seq![' '] + status;
    lemma_text_of_encoded(t + seq!['\r', '\n']);
    if status.len() > 0 {
        assert(t.last() == status.last());
    } else {
        assert(t.last() == ' ');
    }
    lemma_trim_crlf_of(t);
    lemma_split3_of(vw, d, status);
    let parts = start_line_parts(
        vstd::utf8::encode_utf8(vw + seq![' '] + d + seq![' '] + status + seq!['\r', '\n']),
    );
    assert(t + seq!['\r', '\n'] =~= vw + seq![' '] + d + seq![' '] + status + seq!['\r', '\n']);
    assert(parts == seq![vw, d, status]);
    lemma_version_reads_back(v, n.version);
    assert(parse_unsigned(d, 10, 65535) == Some(code as nat));
}

/// The header line written for a name (not empty, without a colon, not
/// starting or ending with whitespace) and a value (not starting or ending
/// with whitespace) reads back as that name and value.
pub proof fn lemma_header_line_read_back(name: Seq<char>, value: Seq<char>)
    requires
        name.len() > 0,
        !is_white(name[0]),
        !is_white(name.last()),
        forall|k: int| 0 <= k < name.len() ==> name[k] != ':',
        value.len() > 0 ==> !is_white(value[0]) && !is_white(value.last()),
    ensures
        ({
            let s = text_of(vstd::utf8::encode_utf8(name + seq![':', ' '] + value + seq!['\r', '\n']));
            &&& !line_blank(s)
            &&& index_of_from(s, 0, ':') == Some(name.len() as int)
            &&& line_name(s) == name
            &&& line_value(s) == value
        }),
{
    let s = name + seq![':', ' '] + value + seq!['\r', '\n'];
    lemma_text_of_encoded(s);
    let i = name.len() as int;
    assert(s[i] == ':');
    assert forall|k: int| 0 <= k < i implies s[k] != ':' by {
        assert(s[k] == name[k]);
    }
    lemma_index_at(s, 0, i, ':');
    assert(s.subrange(0, i) =~= name);
    assert(Seq::<char>::empty() + name + Seq::<char>::empty() =~= name);
    lemma_trim_around(Seq::empty(), name, Seq::empty());
    let rest = s.subrange(i + 1, s.len() as int);
    let crlf_chars = seq!['\r', '\n'];
    assert(all_white(crlf_chars));
    assert(all_white(seq![' ']));
    if value.len() > 0 {
        assert(rest =~= seq![' '] + value + crlf_chars);
        lemma_trim_around(seq![' '], value, crlf_chars);
        let x = name + seq![':', ' '] + value;
        assert(x.last() == value.last());
        assert(s =~= Seq::<char>::empty() + x + crlf_chars);
        lemma_trim_around(Seq::empty(), x, crlf_chars);
    } else {
        assert(rest =~= seq![' ', '\r', '\n']);
        assert(all_white(rest));
        lemma_trim_all_white(rest);
        assert(value =~= Seq::<char>::empty());
        let x = name + seq![':'];
        assert(s =~= Seq::<char>::empty() + x + seq![' ', '\r', '\n']);
        assert(all_white(seq![' ', '\r', '\n']));
        lemma_trim_around(Seq::empty(), x, seq![' ', '\r', '\n']);
    }
}

/// The size line of a chunk that `get_chunk` writes reads back as the
/// chunk's length.
pub proof fn lemma_chunk_size_read_back(body: Seq<u8>)
    requires
        body.len() <= usize::MAX,
    ensures
        chunk_size_of(ascii_bytes(radix_digits(body.len(), 16)) + crlf()) == body.len(),
{
    let d = radix_digits(body.len(), 16);
    lemma_digits_read_back(body.len(), 16);
    lemma_digit_chars(d, 16);
    let t = d + seq!['\r', '\n'];
    lemma_ascii_encode(t);
    assert(ascii_bytes(t) =~= ascii_bytes(d) + crlf());
    lemma_text_of_encoded(t);
    assert(all_white(seq!['\r', '\n']));
    assert(Seq::<char>::empty() + d + seq!['\r', '\n'] =~= t);
    lemma_trim_around(Seq::empty(), d, seq!['\r', '\n']);
}

/// The (name, value) pairs of a header map's entries, in the order their
/// header lines are written (see `header_block`).
pub open spec fn entry_pairs(entries: Seq<(String, Vec<String>)>) -> Seq<(Seq<char>, Seq<char>)>
    decreases entries.len(),
{
    if entries.len() == 0 {
        Seq::empty()
    } else {
        let e = entries.last();
        entry_pairs(entries.drop_last()) + texts(e.1@).map_values(|v: Seq<char>| (e.0@, v))
    }
}

/// The header line written for a pair, as bytes.
pub open spec fn pair_line(p: (Seq<char>, Seq<char>)) -> Seq<u8> {
    vstd::utf8::encode_utf8(p.0 + seq![':', ' '] + p.1 + seq!['\r', '\n'])
}

/// A header name that reads back as itself: not empty, no colon, not
/// starting or ending with whitespace.
pub open spec fn clean_name(n: Seq<char>) -> bool {
    &&& n.len() > 0
    &&& !is_white(n[0])
    &&& !is_white(n.last())
    &&& forall|k: int| 0 <= k < n.len() ==> n[k] != ':'
}

/// A header value that reads back as itself: not starting or ending with
/// whitespace.
pub open spec fn clean_value(v: Seq<char>) -> bool {
    v.len() > 0 ==> !is_white(v[0]) && !is_white(v.last())
}

/// Every pair has a clean name and value.
pub open spec fn clean_pairs(pairs: Seq<(Seq<char>, Seq<char>)>) -> bool {
    forall|i: int| 0 <= i < pairs.len() ==> clean_name(#[trigger] pairs[i].0) && clean_value(pairs[i].1)
}

/// A header map whose names are clean and differ even ignoring case, and
/// whose values are clean.
pub open spec fn clean_map(entries: Seq<(String, Vec<String>)>) -> bool {
    &&& forall|i: int, j: int|
        0 <= i < j < entries.len() ==> lower_seq(#[trigger] entries[i].0@) != lower_seq(#[trigger] entries[j].0@)
    &&& forall|i: int| 0 <= i < entries.len() ==> clean_name(#[trigger] entries[i].0@)
    &&& forall|i: int, j: int|
        0 <= i < entries.len() && 0 <= j < entries[i].1@.len() ==> clean_value(#[trigger] entries[i].1@[j]@)
}

/// The values a reader collects under the lower-cased name `k` from the
/// pairs' lines, in order.
pub open spec fn values_read(pairs: Seq<(Seq<char>, Seq<char>)>, k: Seq<char>) -> Seq<Seq<char>>
    decreases pairs.len(),
{
    if pairs.len() == 0 {
        Seq::empty()
    } else {
        values_read(pairs.drop_last(), k) + if lower_seq(pairs.last().0) == k {
            seq![pairs.last().1]
        } else {
            Seq::empty()
        }
    }
}

/// The values collected from pairs written one after the other.
proof fn lemma_values_read_append(a: Seq<(Seq<char>, Seq<char>)>, b: Seq<(Seq<char>, Seq<char>)>, k: Seq<char>)
    ensures
        values_read(a + b, k) == values_read(a, k) + values_read(b, k),
    decreases b.len(),
{
    if b.len() == 0 {
        assert(a + b =~= a);
        assert(values_read(a, k) + values_read(b, k) =~= values_read(a, k));
    } else {
        assert((a + b).drop_last() =~= a + b.drop_last());
        assert((a + b).last() == b.last());
        lemma_values_read_append(a, b.drop_last(), k);
        assert(values_read(a + b, k) =~= values_read(a, k) + values_read(b, k));
    }
}

/// The values collected from the lines of one name's values.
proof fn lemma_values_read_one(name: Seq<char>, values: Seq<Seq<char>>, k: Seq<char>)
    ensures
        values_read(values.map_values(|v: Seq<char>| (name, v)), k) == if lower_seq(name) == k {
            values
        } else {
            Seq::empty()
        },
    decreases values.len(),
{
    let ps = values.map_values(|v: Seq<char>| (name, v));
    if values.len() == 0 {
        assert(ps.len() == 0);
    } else {
        assert(ps.drop_last() =~= values.drop_last().map_values(|v: Seq<char>| (name, v)));
        lemma_values_read_one(name, values.drop_last(), k);
        assert(ps.last() == (name, values.last()));
        if lower_seq(name) == k {
            assert(values.drop_last().push(values.last()) =~= values);
        }
    }
}

/// The values collected from a clean map's lines under a lower-cased
/// entry name are that entry's values; under any other name there are none.
proof fn lemma_values_read_map(entries: Seq<(String, Vec<String>)>, k: Seq<char>)
    requires
        clean_map(entries),
    ensures
        forall|i: int|
            0 <= i < entries.len() && lower_seq(entries[i].0@) == k ==> values_read(entry_pairs(entries), k) == texts(
                entries[i].1@,
            ),
        (forall|i: int| 0 <= i < entries.len() ==> lower_seq(#[trigger] entries[i].0@) != k) ==> values_read(
            entry_pairs(entries),
            k,
        ) == Seq::<Seq<char>>::empty(),
    decreases entries.len(),
{
    if entries.len() > 0 {
        let init = entries.drop_last();
        let e = entries.last();
        assert(clean_map(init)) by {
            assert forall|i: int, j: int| 0 <= i < j < init.len() implies lower_seq(#[trigger] init[i].0@) != lower_seq(
                #[trigger] init[j].0@,
            ) by {
                assert(init[i] == entries[i] && init[j] == entries[j]);
            }
            assert forall|i: int| 0 <= i < init.len() implies clean_name(#[trigger] init[i].0@) by {
                assert(init[i] == entries[i]);
            }
            assert forall|i: int, j: int| 0 <= i < init.len() && 0 <= j < init[i].1@.len() implies clean_value(
                #[trigger] init[i].1@[j]@,
            ) by {
                assert(init[i] == entries[i]);
            }
        }
        lemma_values_read_map(init, k);
        lemma_values_read_append(entry_pairs(init), texts(e.1@).map_values(|v: Seq<char>| (e.0@, v)), k);
        lemma_values_read_one(e.0@, texts(e.1@), k);
        let last = entries.len() - 1;
        assert(e == entries[last]);
        assert forall|i: int| 0 <= i < entries.len() && lower_seq(entries[i].0@) == k implies values_read(
            entry_pairs(entries),
            k,
        ) == texts(entries[i].1@) by {
            if i < last {
                assert(init[i] == entries[i]);
                assert(lower_seq(entries[i].0@) != lower_seq(entries[last].0@));
                assert(values_read(entry_pairs(init), k) + Seq::<Seq<char>>::empty() =~= values_read(entry_pairs(init), k));
            } else {
                assert forall|t: int| 0 <= t < init.len() implies lower_seq(#[trigger] init[t].0@) != k by {
                    assert(init[t] == entries[t]);
                }
                assert(Seq::<Seq<char>>::empty() + texts(e.1@) =~= texts(e.1@));
            }
        }
        if forall|i: int| 0 <= i < entries.len() ==> lower_seq(#[trigger] entries[i].0@) != k {
            assert forall|t: int| 0 <= t < init.len() implies lower_seq(#[trigger] init[t].0@) != k by {
                assert(init[t] == entries[t]);
            }
            assert(lower_seq(entries[last].0@) != k);
            assert(values_read(entry_pairs(entries), k) =~= Seq::<Seq<char>>::empty());
        }
    }
}

/// The pairs of a clean map are clean.
proof fn lemma_entry_pairs_clean(entries: Seq<(String, Vec<String>)>)
    requires
        clean_map(entries),
    ensures
        clean_pairs(entry_pairs(entries)),
    decreases entries.len(),
{
    if entries.len() > 0 {
        let init = entries.drop_last();
        let e = entries.last();
        let last = entries.len() - 1;
        assert(e == entries[last]);
        assert(clean_map(init)) by {
            assert forall|i: int, j: int| 0 <= i < j < init.len() implies lower_seq(#[trigger] init[i].0@) != lower_seq(
                #[trigger] init[j].0@,
            ) by {
                assert(init[i] == entries[i] && init[j] == entries[j]);
            }
            assert forall|i: int| 0 <= i < init.len() implies clean_name(#[trigger] init[i].0@) by {
                assert(init[i] == entries[i]);
            }
            assert forall|i: int, j: int| 0 <= i < init.len() && 0 <= j < init[i].1@.len() implies clean_value(
                #[trigger] init[i].1@[j]@,
            ) by {
                assert(init[i] == entries[i]);
            }
        }
        lemma_entry_pairs_clean(init);
        let a = entry_pairs(init);
        let b = texts(e.1@).map_values(|v: Seq<char>| (e.0@, v));
        assert(clean_name(entries[last].0@));
        assert forall|i: int| 0 <= i < (a + b).len() implies clean_name(#[trigger] (a + b)[i].0) && clean_value(
            (a + b)[i].1,
        ) by {
            if i >= a.len() {
                let j = i - a.len();
                assert((a + b)[i] == b[j]);
                assert(b[j] == (e.0@, e.1@[j]@));
                assert(clean_value(entries[last].1@[j]@));
            } else {
                assert((a + b)[i] == a[i]);
            }
        }
    }
}

/// Reading the lines of clean pairs one by one into a response whose
/// header map has no names collects, under each lower-cased name, the
/// values written under it.
proof fn lemma_pair_lines_read(pairs: Seq<(Seq<char>, Seq<char>)>, states: Seq<HttpResponse>)
    requires
        clean_pairs(pairs),
        states.len() == pairs.len() + 1,
        forall|k: Seq<char>| #[trigger] states[0].headers.lookup(k) is None,
        forall|i: int|
            0 <= i < pairs.len() ==> response_header_rule(#[trigger] states[i], states[i + 1], pair_line(pairs[i])),
    ensures
        forall|k: Seq<char>|
            #[trigger] states.last().headers.lookup(k) == if values_read(pairs, k).len() == 0 {
                None::<Seq<Seq<char>>>
            } else {
                Some(values_read(pairs, k))
            },
        states.last().valid == states[0].valid,
        states.last().head_complete == states[0].head_complete,
        states.last().code == states[0].code,
        states.last().status == states[0].status,
        states.last().version == states[0].version,
        states.last().body == states[0].body,
    decreases pairs.len(),
{
    if pairs.len() > 0 {
        let m = pairs.len() - 1;
        let init = pairs.drop_last();
        let st = states.drop_last();
        assert forall|i: int| 0 <= i < init.len() implies clean_name(#[trigger] init[i].0) && clean_value(init[i].1) by {
            assert(init[i] == pairs[i]);
        }
        assert forall|i: int| 0 <= i < init.len() implies response_header_rule(#[trigger] st[i], st[i + 1], pair_line(init[i])) by {
            assert(st[i] == states[i] && st[i + 1] == states[i + 1] && init[i] == pairs[i]);
            assert(response_header_rule(states[i], states[i + 1], pair_line(pairs[i])));
        }
        assert(st[0] == states[0]);
        lemma_pair_lines_read(init, st);
        let p = pairs[m];
        assert(clean_name(p.0) && clean_value(p.1));
        lemma_header_line_read_back(p.0, p.1);
        let o = states[m];
        let n = states[m + 1];
        assert(st.last() == o);
        assert(response_header_rule(o, n, pair_line(pairs[m])));
        assert(pairs.last() == p);
        assert forall|k: Seq<char>| #[trigger] n.headers.lookup(k) == if values_read(pairs, k).len() == 0 {
            None::<Seq<Seq<char>>>
        } else {
            Some(values_read(pairs, k))
        } by {
            if k == lower_seq(p.0) {
                assert(values_read(pairs, k) == values_read(init, k) + seq![p.1]);
                if values_read(init, k).len() == 0 {
                    assert(values_read(pairs, k) =~= seq![p.1]);
                }
            } else {
                assert(values_read(pairs, k) =~= values_read(init, k));
            }
        }
        assert(states.last() == n);
    }
}

/// The header lines written for a header map whose names are clean and
/// differ even ignoring case (and whose values are clean), read one by one
/// into a response that has no header yet, give back the map: each name,
/// lower-cased, with its values in order, and no other name.
pub proof fn lemma_header_block_read_back(entries: Seq<(String, Vec<String>)>, states: Seq<HttpResponse>)
    requires
        clean_map(entries),
        states.len() == entry_pairs(entries).len() + 1,
        forall|k: Seq<char>| #[trigger] states[0].headers.lookup(k) is None,
        forall|i: int|
            0 <= i < entry_pairs(entries).len() ==> response_header_rule(
                #[trigger] states[i],
                states[i + 1],
                pair_line(entry_pairs(entries)[i]),
            ),
    ensures
        forall|i: int|
            0 <= i < entries.len() ==> states.last().headers.lookup(lower_seq(#[trigger] entries[i].0@)) == if entries[i].1@.len()
                == 0 {
                None::<Seq<Seq<char>>>
            } else {
                Some(texts(entries[i].1@))
            },
        forall|k: Seq<char>|
            (forall|i: int| 0 <= i < entries.len() ==> lower_seq(#[trigger] entries[i].0@) != k) ==> states.last().headers.lookup(
                k,
            ) is None,
        states.last().valid == states[0].valid,
        states.last().head_complete == states[0].head_complete,
{
    lemma_entry_pairs_clean(entries);
    lemma_pair_lines_read(entry_pairs(entries), states);
    assert forall|i: int| 0 <= i < entries.len() implies states.last().headers.lookup(
        lower_seq(#[trigger] entries[i].0@),
    ) == if entries[i].1@.len() == 0 {
        None::<Seq<Seq<char>>>
    } else {
        Some(texts(entries[i].1@))
    } by {
        lemma_values_read_map(entries, lower_seq(entries[i].0@));
    }
    assert forall|k: Seq<char>|
        (forall|i: int| 0 <= i < entries.len() ==> lower_seq(#[trigger] entries[i].0@) != k) implies states.last().headers.lookup(
        k,
    ) is None by {
        lemma_values_read_map(entries, k);
    }
}

/// The header line text of a pair.
pub open spec fn pair_text(p: (Seq<char>, Seq<char>)) -> Seq<char> {
    p.0 + seq![':', ' '] + p.1 + seq!['\r', '\n']
}

/// The header lines of pairs, one after the other.
pub open spec fn pair_texts(pairs: Seq<(Seq<char>, Seq<char>)>) -> Seq<char>
    decreases pairs.len(),
{
    if pairs.len() == 0 {
        Seq::empty()
    } else {
        pair_texts(pairs.drop_last()) + pair_text(pairs.last())
    }
}

/// The header line bytes of pairs, one after the other.
pub open spec fn pair_lines(pairs: Seq<(Seq<char>, Seq<char>)>) -> Seq<u8>
    decreases pairs.len(),
{
    if pairs.len() == 0 {
        Seq::empty()
    } else {
        pair_lines(pairs.drop_last()) + pair_line(pairs.last())
    }
}

/// UTF-8 encoding goes piece by piece.
pub proof fn lemma_encode_utf8_append(a: Seq<char>, b: Seq<char>)
    ensures
        vstd::utf8::encode_utf8(a + b) == vstd::utf8::encode_utf8(a) + vstd::utf8::encode_utf8(b),
    decreases a.len(),
{
    if a.len() == 0 {
        assert(a + b =~= b);
        assert(vstd::utf8::encode_utf8(a) =~= Seq::<u8>::empty());
        assert(Seq::<u8>::empty() + vstd::utf8::encode_utf8(b) =~= vstd::utf8::encode_utf8(b));
    } else {
        assert((a + b).drop_first() =~= a.drop_first() + b);
        assert((a + b)[0] == a[0]);
        lemma_encode_utf8_append(a.drop_first(), b);
        assert(vstd::utf8::encode_utf8(a + b) =~= vstd::utf8::encode_utf8(a) + vstd::utf8::encode_utf8(b));
    }
}

proof fn lemma_pair_texts_append(a: Seq<(Seq<char>, Seq<char>)>, b: Seq<(Seq<char>, Seq<char>)>)
    ensures
        pair_texts(a + b) == pair_texts(a) + pair_texts(b),
    decreases b.len(),
{
    if b.len() == 0 {
        assert(a + b =~= a);
        assert(pair_texts(a) + pair_texts(b) =~= pair_texts(a));
    } else {
        assert((a + b).drop_last() =~= a + b.drop_last());
        assert((a + b).last() == b.last());
        lemma_pair_texts_append(a, b.drop_last());
        assert(pair_texts(a + b) =~= pair_texts(a) + pair_texts(b));
    }
}

proof fn lemma_pair_texts_field(name: Seq<char>, values: Seq<Seq<char>>)
    ensures
        pair_texts(values.map_values(|v: Seq<char>| (name, v))) == field_lines(name, values),
    decreases values.len(),
{
    let ps = values.map_values(|v: Seq<char>| (name, v));
    if values.len() > 0 {
        assert(ps.drop_last() =~= values.drop_last().map_values(|v: Seq<char>| (name, v)));
        lemma_pair_texts_field(name, values.drop_last());
        assert(ps.last() == (name, values.last()));
        assert(pair_texts(ps) =~= field_lines(name, values));
    } else {
        assert(pair_texts(ps) =~= field_lines(name, values));
    }
}

proof fn lemma_pair_lines_encode(pairs: Seq<(Seq<char>, Seq<char>)>)
    ensures
        pair_lines(pairs) == vstd::utf8::encode_utf8(pair_texts(pairs)),
    decreases pairs.len(),
{
    if pairs.len() > 0 {
        lemma_pair_lines_encode(pairs.drop_last());
        lemma_encode_utf8_append(pair_texts(pairs.drop_last()), pair_text(pairs.last()));
    } else {
        assert(vstd::utf8::encode_utf8(Seq::<char>::empty()) =~= Seq::<u8>::empty());
    }
}

/// The bytes of a header map's header lines are the lines of its pairs,
/// one after the other: what a reader reads line by line (see
/// `lemma_header_block_read_back`).
pub proof fn lemma_header_block_lines(entries: Seq<(String, Vec<String>)>)
    ensures
        vstd::utf8::encode_utf8(header_block(entries)) == pair_lines(entry_pairs(entries)),
    decreases entries.len(),
{
    lemma_header_block_texts(entries);
    lemma_pair_lines_encode(entry_pairs(entries));
}

proof fn lemma_header_block_texts(entries: Seq<(String, Vec<String>)>)
    ensures
        header_block(entries) == pair_texts(entry_pairs(entries)),
    decreases entries.len(),
{
    if entries.len() > 0 {
        let e = entries.last();
        lemma_header_block_texts(entries.drop_last());
        lemma_pair_texts_append(
            entry_pairs(entries.drop_last()),
            texts(e.1@).map_values(|v: Seq<char>| (e.0@, v)),
        );
        lemma_pair_texts_field(e.0@, texts(e.1@));
    } else {
        assert(header_block(entries) =~= pair_texts(entry_pairs(entries)));
    }
}

/// The status line a server writes, as bytes.
pub open spec fn status_line_bytes(version: Seq<char>, code: u16, status: Seq<char>) -> Seq<u8> {
    vstd::utf8::encode_utf8(version + seq![' '] + radix_digits(code as nat, 10) + seq![' '] + status + seq!['\r', '\n'])
}

/// A response head is its status line, its header lines and a blank line.
pub proof fn lemma_response_head_lines(
    version: Seq<char>,
    code: u16,
    status: Seq<char>,
    headers: crate::shared::HeaderMap,
)
    ensures
        vstd::utf8::encode_utf8(crate::http1::server::response_head_text(version, code, status, headers))
            == status_line_bytes(version, code, status) + pair_lines(entry_pairs(headers.entries@)) + crlf(),
{
    let sl = version + seq![' '] + radix_digits(code as nat, 10) + seq![' '] + status + seq!['\r', '\n'];
    let hb = header_block(headers.entries@);
    let t = crate::http1::server::response_head_text(version, code, status, headers);
    assert(t =~= sl + hb + seq!['\r', '\n']);
    lemma_encode_utf8_append(sl + hb, seq!['\r', '\n']);
    lemma_encode_utf8_append(sl, hb);
    lemma_header_block_lines(headers.entries@);
    lemma_ascii_encode(seq!['\r', '\n']);
    assert(ascii_bytes(seq!['\r', '\n']) =~= crlf());
}

/// The name `content-length`.
pub open spec fn content_length_lower() -> Seq<char> {
    seq!['c', 'o', 'n', 't', 'e', 'n', 't', '-', 'l', 'e', 'n', 'g', 't', 'h']
}

/// The name `transfer-encoding`.
pub open spec fn transfer_encoding_lower() -> Seq<char> {
    seq!['t', 'r', 'a', 'n', 's', 'f', 'e', 'r', '-', 'e', 'n', 'c', 'o', 'd', 'i', 'n', 'g']
}

/// A response head that a server writes with HTTP/1.0 or HTTP/1.1, a
/// reason that does not end in CR or LF, clean headers whose names differ
/// even ignoring case, and a `Content-Length` of `n` but no
/// `Transfer-Encoding`, read by a client line by line from a response
/// with no header yet (the status line, each header line, the blank
/// line), gives back the version, the code, the reason and the headers
/// under lower-cased names; the head is complete and the body is then read
/// as `n` bytes.
#[verifier::rlimit(80)]
pub proof fn lemma_response_read_back(
    v: HttpVersion,
    code: u16,
    status: Seq<char>,
    headers: crate::shared::HeaderMap,
    n: nat,
    states: Seq<HttpResponse>,
)
    requires
        v is Http10 || v is Http11,
        status.len() > 0 ==> status.last() != '\r' && status.last() != '\n',
        clean_map(headers.entries@),
        n <= usize::MAX,
        exists|i: int|
            0 <= i < headers.entries@.len() && lower_seq(headers.entries@[i].0@) == content_length_lower()
                && texts(headers.entries@[i].1@) == seq![radix_digits(n, 10)],
        forall|i: int| 0 <= i < headers.entries@.len() ==> lower_seq(#[trigger] headers.entries@[i].0@)
            != transfer_encoding_lower(),
        states.len() == entry_pairs(headers.entries@).len() + 3,
        forall|k: Seq<char>| #[trigger] states[0].headers.lookup(k) is None,
        crate::http1::client::status_line_rule(states[0], states[1], status_line_bytes(version_wire(v), code, status)),
        forall|i: int|
            0 <= i < entry_pairs(headers.entries@).len() ==> response_header_rule(
                #[trigger] states[i + 1],
                states[i + 2],
                pair_line(entry_pairs(headers.entries@)[i]),
            ),
        response_header_rule(states[states.len() - 2], states.last(), crlf()),
    ensures
        ({
            let r = states.last();
            &&& r.version == v
            &&& r.code == code
            &&& r.status@ == status
            &&& r.valid == states[0].valid
            &&& r.head_complete
            &&& forall|i: int|
                0 <= i < headers.entries@.len() ==> r.headers.lookup(lower_seq(#[trigger] headers.entries@[i].0@))
                    == if headers.entries@[i].1@.len() == 0 {
                    None::<Seq<Seq<char>>>
                } else {
                    Some(texts(headers.entries@[i].1@))
                }
            &&& forall|k: Seq<char>|
                (forall|i: int| 0 <= i < headers.entries@.len() ==> lower_seq(#[trigger] headers.entries@[i].0@) != k)
                    ==> r.headers.lookup(k) is None
            &&& crate::http1::body_plan_of(r.headers, r.version is Http10 || r.version is Http09)
                == crate::http1::BodyPlan::Length(n as usize)
        }),
{
    let entries = headers.entries@;
    let pairs = entry_pairs(entries);
    let m: int = pairs.len() as int;
    lemma_status_line_read_back(v, code, status, states[0], states[1]);
    assert forall|k: Seq<char>| #[trigger] states[1].headers.lookup(k) is None by {
        assert(states[0].headers.lookup(k) is None);
    }
    lemma_head_lines_read(entries, states);
    let h = states[m + 1];
    let r = states.last();
    assert(states.len() - 2 == m + 1);
    lemma_blank_line_read(h, r);
    let i0 = choose|i: int|
        0 <= i < entries.len() && lower_seq(entries[i].0@) == content_length_lower() && texts(entries[i].1@)
            == seq![radix_digits(n, 10)];
    assert(texts(entries[i0].1@).len() == entries[i0].1@.len());
    assert(entries[i0].1@.len() == 1);
    assert(r.headers.lookup(lower_seq(entries[i0].0@)) == Some(texts(entries[i0].1@)));
    assert(r.headers.lookup(transfer_encoding_lower()) is None);
    lemma_content_length_plan(r.headers, n, r.version is Http10 || r.version is Http09);
    assert(r.version == v);
    assert(r.code == code);
    assert(r.status@ == status);
    assert(r.valid == states[0].valid);
}

/// The header lines read after the status line give back the map.
proof fn lemma_head_lines_read(entries: Seq<(String, Vec<String>)>, states: Seq<HttpResponse>)
    requires
        clean_map(entries),
        states.len() == entry_pairs(entries).len() + 3,
        forall|k: Seq<char>| #[trigger] states[1].headers.lookup(k) is None,
        forall|i: int|
            0 <= i < entry_pairs(entries).len() ==> response_header_rule(
                #[trigger] states[i + 1],
                states[i + 2],
                pair_line(entry_pairs(entries)[i]),
            ),
    ensures
        ({
            let h = states[entry_pairs(entries).len() + 1int];
            &&& forall|i: int|
                0 <= i < entries.len() ==> h.headers.lookup(lower_seq(#[trigger] entries[i].0@)) == if entries[i].1@.len()
                    == 0 {
                    None::<Seq<Seq<char>>>
                } else {
                    Some(texts(entries[i].1@))
                }
            &&& forall|k: Seq<char>|
                (forall|i: int| 0 <= i < entries.len() ==> lower_seq(#[trigger] entries[i].0@) != k) ==> h.headers.lookup(
                    k,
                ) is None
            &&& h.valid == states[1].valid
            &&& h.version == states[1].version
            &&& h.code == states[1].code
            &&& h.status == states[1].status
        }),
{
    let pairs = entry_pairs(entries);
    let m: int = pairs.len() as int;
    let mid = states.subrange(1, m + 2);
    assert(mid[0] == states[1]);
    assert forall|i: int| 0 <= i < pairs.len() implies response_header_rule(#[trigger] mid[i], mid[i + 1], pair_line(pairs[i])) by {
        assert(mid[i] == states[i + 1] && mid[i + 1] == states[i + 2]);
    }
    lemma_entry_pairs_clean(entries);
    lemma_pair_lines_read(pairs, mid);
    lemma_header_block_read_back(entries, mid);
    assert(mid.last() == states[m + 1]);
}

/// A blank line ends the head and changes nothing else.
proof fn lemma_blank_line_read(o: HttpResponse, n: HttpResponse)
    requires
        response_header_rule(o, n, crlf()),
    ensures
        n.head_complete,
        n.headers == o.headers,
        n.valid == o.valid,
        n.version == o.version,
        n.code == o.code,
        n.status == o.status,
{
    let t = crate::text::text_of(crlf());
    lemma_ascii_encode(seq!['\r', '\n']);
    assert(ascii_bytes(seq!['\r', '\n']) =~= crlf());
    lemma_text_of_encoded(seq!['\r', '\n']);
    assert(all_white(seq!['\r', '\n']));
    lemma_trim_all_white(seq!['\r', '\n']);
    assert(line_blank(t));
}

/// Headers with a `content-length` of `n` and no `transfer-encoding` say
/// the body is `n` bytes.
proof fn lemma_content_length_plan(h: crate::shared::HeaderMap, n: nat, to_end: bool)
    requires
        n <= usize::MAX,
        h.lookup(content_length_lower()) == Some(seq![radix_digits(n, 10)]),
        h.lookup(transfer_encoding_lower()) is None,
    ensures
        crate::http1::body_plan_of(h, to_end) == crate::http1::BodyPlan::Length(n as usize),
{
    let d = radix_digits(n, 10);
    lemma_digits_read_back(n, 10);
    assert(digit_value(d[0], 10) is Some);
    assert(parse_unsigned(d, 10, usize::MAX as nat) == Some(n));
}

/// The request line a client writes, as bytes.
pub open spec fn request_line_bytes(method: Seq<char>, path: Seq<char>, version: Seq<char>) -> Seq<u8> {
    vstd::utf8::encode_utf8(method + seq![' '] + path + seq![' '] + version + seq!['\r', '\n'])
}

/// A request head is its request line, its header lines and a blank line.
pub proof fn lemma_request_head_lines(
    method: Seq<char>,
    path: Seq<char>,
    version: Seq<char>,
    headers: crate::shared::HeaderMap,
)
    ensures
        vstd::utf8::encode_utf8(crate::http1::client::request_head_text(method, path, version, headers))
            == request_line_bytes(method, path, version) + pair_lines(entry_pairs(headers.entries@)) + crlf(),
{
    let rl = method + seq![' '] + path + seq![' '] + version + seq!['\r', '\n'];
    let hb = header_block(headers.entries@);
    let t = crate::http1::client::request_head_text(method, path, version, headers);
    assert(t =~= rl + hb + seq!['\r', '\n']);
    lemma_encode_utf8_append(rl + hb, seq!['\r', '\n']);
    lemma_encode_utf8_append(rl, hb);
    lemma_header_block_lines(headers.entries@);
    lemma_ascii_encode(seq!['\r', '\n']);
    assert(ascii_bytes(seq!['\r', '\n']) =~= crlf());
}

/// Lower-casing `host` keeps it.
proof fn lemma_host_lower()
    ensures
        lower_seq(crate::http1::server::host_name()) == crate::http1::server::host_name(),
{
    assert(lower_seq(crate::http1::server::host_name()) =~= crate::http1::server::host_name());
}

/// Reading the lines of clean pairs one by one into a request with no
/// header and no host yet: the first `Host` value becomes the host, and
/// every other name, lower-cased, collects the values written under it.
proof fn lemma_pair_lines_read_request(pairs: Seq<(Seq<char>, Seq<char>)>, states: Seq<crate::shared::HttpClient>)
    requires
        clean_pairs(pairs),
        states.len() == pairs.len() + 1,
        forall|k: Seq<char>| #[trigger] states[0].headers.lookup(k) is None,
        states[0].host is None,
        forall|i: int|
            0 <= i < pairs.len() ==> crate::http1::server::request_header_rule(
                #[trigger] states[i],
                states[i + 1],
                pair_line(pairs[i]),
            ),
    ensures
        forall|k: Seq<char>|
            #[trigger] states.last().headers.lookup(k) == if k == crate::http1::server::host_name()
                || values_read(pairs, k).len() == 0 {
                None::<Seq<Seq<char>>>
            } else {
                Some(values_read(pairs, k))
            },
        ({
            let hv = values_read(pairs, crate::http1::server::host_name());
            if hv.len() == 0 {
                states.last().host is None
            } else {
                states.last().host matches Some(h) && h@ == hv[0]
            }
        }),
        states.last().valid == states[0].valid,
        states.last().head_complete == states[0].head_complete,
        states.last().method == states[0].method,
        states.last().path == states[0].path,
        states.last().version == states[0].version,
    decreases pairs.len(),
{
    let host = crate::http1::server::host_name();
    lemma_host_lower();
    if pairs.len() > 0 {
        let m = pairs.len() - 1;
        let init = pairs.drop_last();
        let st = states.drop_last();
        assert forall|i: int| 0 <= i < init.len() implies clean_name(#[trigger] init[i].0) && clean_value(init[i].1) by {
            assert(init[i] == pairs[i]);
        }
        assert forall|i: int| 0 <= i < init.len() implies crate::http1::server::request_header_rule(
            #[trigger] st[i],
            st[i + 1],
            pair_line(init[i]),
        ) by {
            assert(st[i] == states[i] && st[i + 1] == states[i + 1] && init[i] == pairs[i]);
            assert(crate::http1::server::request_header_rule(states[i], states[i + 1], pair_line(pairs[i])));
        }
        assert(st[0] == states[0]);
        lemma_pair_lines_read_request(init, st);
        let p = pairs[m];
        assert(clean_name(p.0) && clean_value(p.1));
        lemma_header_line_read_back(p.0, p.1);
        let o = states[m];
        let n = states[m + 1];
        assert(st.last() == o);
        assert(crate::http1::server::request_header_rule(o, n, pair_line(pairs[m])));
        assert(pairs.last() == p);
        let is_host = lower_seq(p.0) == host;
        assert(eq_ignore_case(p.0, host) == is_host);
        assert forall|k: Seq<char>| #[trigger] n.headers.lookup(k) == if k == host || values_read(pairs, k).len() == 0 {
            None::<Seq<Seq<char>>>
        } else {
            Some(values_read(pairs, k))
        } by {
            if k == lower_seq(p.0) {
                assert(values_read(pairs, k) == values_read(init, k) + seq![p.1]);
                if values_read(init, k).len() == 0 {
                    assert(values_read(pairs, k) =~= seq![p.1]);
                }
            } else {
                assert(values_read(pairs, k) =~= values_read(init, k));
            }
        }
        let hv0 = values_read(init, host);
        let hv = values_read(pairs, host);
        if is_host {
            assert(hv == hv0 + seq![p.1]);
            if hv0.len() == 0 {
                assert(hv =~= seq![p.1]);
            } else {
                assert(hv[0] == hv0[0]);
            }
        } else {
            assert(hv =~= hv0);
        }
        assert(states.last() == n);
    }
}

/// A request head that a client writes with a known method, a path
/// without spaces, HTTP/1.0 or HTTP/1.1, clean headers whose names differ
/// even ignoring case, and a `Content-Length` of `n` but no
/// `Transfer-Encoding`, read by a server line by line into a request with
/// no header and no host yet (the request line, each header line, the
/// blank line), gives back the method, the path and the version, the
/// `Host` value as the host and the other headers under lower-cased
/// names; the head is complete and the body is then read as `n` bytes.
#[verifier::rlimit(80)]
pub proof fn lemma_request_read_back(
    m: HttpMethod,
    path: Seq<char>,
    v: HttpVersion,
    headers: crate::shared::HeaderMap,
    n: nat,
    states: Seq<crate::shared::HttpClient>,
)
    requires
        !(m is Unknown),
        no_space(path),
        v is Http10 || v is Http11,
        clean_map(headers.entries@),
        n <= usize::MAX,
        exists|i: int|
            0 <= i < headers.entries@.len() && lower_seq(headers.entries@[i].0@) == content_length_lower()
                && texts(headers.entries@[i].1@) == seq![radix_digits(n, 10)],
        forall|i: int| 0 <= i < headers.entries@.len() ==> lower_seq(#[trigger] headers.entries@[i].0@)
            != transfer_encoding_lower(),
        states.len() == entry_pairs(headers.entries@).len() + 3,
        forall|k: Seq<char>| #[trigger] states[0].headers.lookup(k) is None,
        states[0].host is None,
        crate::http1::server::request_line_rule(
            states[0],
            states[1],
            request_line_bytes(method_wire(m), path, version_wire(v)),
        ),
        forall|i: int|
            0 <= i < entry_pairs(headers.entries@).len() ==> crate::http1::server::request_header_rule(
                #[trigger] states[i + 1],
                states[i + 2],
                pair_line(entry_pairs(headers.entries@)[i]),
            ),
        crate::http1::server::request_header_rule(states[states.len() - 2], states.last(), crlf()),
    ensures
        ({
            let r = states.last();
            let entries = headers.entries@;
            &&& r.method == m
            &&& r.path@ == path
            &&& r.version == v
            &&& r.valid == states[0].valid
            &&& r.head_complete
            &&& forall|i: int|
                0 <= i < entries.len() && lower_seq(#[trigger] entries[i].0@) != crate::http1::server::host_name()
                    ==> r.headers.lookup(lower_seq(entries[i].0@)) == if entries[i].1@.len() == 0 {
                    None::<Seq<Seq<char>>>
                } else {
                    Some(texts(entries[i].1@))
                }
            &&& forall|i: int|
                0 <= i < entries.len() && lower_seq(#[trigger] entries[i].0@) == crate::http1::server::host_name()
                    && entries[i].1@.len() > 0 ==> (r.host matches Some(h) && h@ == entries[i].1@[0]@)
            &&& forall|k: Seq<char>|
                (forall|i: int| 0 <= i < entries.len() ==> lower_seq(#[trigger] entries[i].0@) != k) ==> r.headers.lookup(
                    k,
                ) is None
            &&& crate::http1::body_plan_of(r.headers, r.version is Http10) == crate::http1::BodyPlan::Length(
                n as usize,
            )
        }),
{
    let entries = headers.entries@;
    let pairs = entry_pairs(entries);
    let mm: int = pairs.len() as int;
    let host = crate::http1::server::host_name();
    lemma_host_lower();
    lemma_request_line_read_back(m, path, v, states[0], states[1]);
    let mid = states.subrange(1, mm + 2);
    assert(mid[0] == states[1]);
    assert forall|i: int| 0 <= i < pairs.len() implies crate::http1::server::request_header_rule(
        #[trigger] mid[i],
        mid[i + 1],
        pair_line(pairs[i]),
    ) by {
        assert(mid[i] == states[i + 1] && mid[i + 1] == states[i + 2]);
    }
    lemma_entry_pairs_clean(entries);
    lemma_pair_lines_read_request(pairs, mid);
    assert(mid.last() == states[mm + 1]);
    let h = states[mm + 1];
    let r = states.last();
    assert(states.len() - 2 == mm + 1);
    lemma_blank_line_read_request(h, r);
    assert forall|i: int|
        0 <= i < entries.len() && lower_seq(#[trigger] entries[i].0@) != host implies r.headers.lookup(
        lower_seq(entries[i].0@),
    ) == if entries[i].1@.len() == 0 {
        None::<Seq<Seq<char>>>
    } else {
        Some(texts(entries[i].1@))
    } by {
        lemma_values_read_map(entries, lower_seq(entries[i].0@));
        assert(texts(entries[i].1@).len() == entries[i].1@.len());
    }
    assert forall|i: int|
        0 <= i < entries.len() && lower_seq(#[trigger] entries[i].0@) == host && entries[i].1@.len() > 0 implies (r.host
        matches Some(hh) && hh@ == entries[i].1@[0]@) by {
        lemma_values_read_map(entries, host);
        assert(texts(entries[i].1@)[0] == entries[i].1@[0]@);
    }
    assert forall|k: Seq<char>|
        (forall|i: int| 0 <= i < entries.len() ==> lower_seq(#[trigger] entries[i].0@) != k) implies r.headers.lookup(
        k,
    ) is None by {
        lemma_values_read_map(entries, k);
    }
    let i0 = choose|i: int|
        0 <= i < entries.len() && lower_seq(entries[i].0@) == content_length_lower() && texts(entries[i].1@)
            == seq![radix_digits(n, 10)];
    assert(texts(entries[i0].1@).len() == entries[i0].1@.len());
    assert(content_length_lower() != host);
    lemma_values_read_map(entries, content_length_lower());
    lemma_values_read_map(entries, transfer_encoding_lower());
    assert(transfer_encoding_lower() != host);
    assert(r.headers.lookup(content_length_lower()) == Some(seq![radix_digits(n, 10)]));
    assert(r.headers.lookup(transfer_encoding_lower()) is None);
    lemma_content_length_plan(r.headers, n, r.version is Http10);
}

/// A blank line ends the request head and changes nothing else.
proof fn lemma_blank_line_read_request(o: crate::shared::HttpClient, n: crate::shared::HttpClient)
    requires
        crate::http1::server::request_header_rule(o, n, crlf()),
    ensures
        n.head_complete,
        n.headers == o.headers,
        n.host == o.host,
        n.valid == o.valid,
        n.method == o.method,
        n.path == o.path,
        n.version == o.version,
{
    let t = crate::text::text_of(crlf());
    lemma_ascii_encode(seq!['\r', '\n']);
    assert(ascii_bytes(seq!['\r', '\n']) =~= crlf());
    lemma_text_of_encoded(seq!['\r', '\n']);
    assert(all_white(seq!['\r', '\n']));
    lemma_trim_all_white(seq!['\r', '\n']);
    assert(line_blank(t));
}

} // verus!
