//! Numbers for the C interface: method and version codes, the protocol a
//! connection opens with, and matching a server name against a
//! certificate's name.

use vstd::prelude::*;
use crate::http2::session::PREFACE;
use crate::shared::{HttpMethod, HttpVersion};

verus! {

/// The code of a method: 0 for unknown, then GET, HEAD, POST, PUT, DELETE,
/// CONNECT, OPTIONS and TRACE from 1 to 8.
pub open spec fn method_code_of(m: HttpMethod) -> u8 {
    match m {
        HttpMethod::Unknown(_) => 0,
        HttpMethod::Get => 1,
        HttpMethod::Head => 2,
        HttpMethod::Post => 3,
        HttpMethod::Put => 4,
        HttpMethod::Delete => 5,
        HttpMethod::Connect => 6,
        HttpMethod::Options => 7,
        HttpMethod::Trace => 8,
    }
}

/// The code of a method (see `method_code_of`).
pub fn method_code(m: &HttpMethod) -> (r: u8)
    ensures
        r == method_code_of(*m),
{
    match m {
        HttpMethod::Unknown(_) => 0,
        HttpMethod::Get => 1,
        HttpMethod::Head => 2,
        HttpMethod::Post => 3,
        HttpMethod::Put => 4,
        HttpMethod::Delete => 5,
        HttpMethod::Connect => 6,
        HttpMethod::Options => 7,
        HttpMethod::Trace => 8,
    }
}

/// The method a code names; any other code is an unknown method with no text.
pub fn method_from_code(b: u8) -> (m: HttpMethod)
    ensures
        1 <= b <= 8 ==> method_code_of(m) == b,
        !(1 <= b <= 8) ==> m == HttpMethod::Unknown(None),
{
    match b {
        1 => HttpMethod::Get,
        2 => HttpMethod::Head,
        3 => HttpMethod::Post,
        4 => HttpMethod::Put,
        5 => HttpMethod::Delete,
        6 => HttpMethod::Connect,
        7 => HttpMethod::Options,
        8 => HttpMethod::Trace,
        _ => HttpMethod::Unknown(None),
    }
}

/// A known method read back from its code is the same method.
pub proof fn lemma_method_code_roundtrip(m: HttpMethod, back: HttpMethod)
    requires
        !(m is Unknown),
        method_code_of(back) == method_code_of(m),
    ensures
        back == m,
{
}

/// The code of a version: 0 for unknown, then Debug, HTTP/0.9, HTTP/1.0,
/// HTTP/1.1, HTTP/2 and HTTP/3 from 1 to 6.
pub open spec fn version_code_of(v: HttpVersion) -> u8 {
    match v {
        HttpVersion::Unknown(_) => 0,
        HttpVersion::Debug => 1,
        HttpVersion::Http09 => 2,
        HttpVersion::Http10 => 3,
        HttpVersion::Http11 => 4,
        HttpVersion::Http2 => 5,
        HttpVersion::Http3 => 6,
    }
}

/// The code of a version (see `version_code_of`).
pub fn version_code(v: &HttpVersion) -> (r: u8)
    ensures
        r == version_code_of(*v),
{
    match v {
        HttpVersion::Unknown(_) => 0,
        HttpVersion::Debug => 1,
        HttpVersion::Http09 => 2,
        HttpVersion::Http10 => 3,
        HttpVersion::Http11 => 4,
        HttpVersion::Http2 => 5,
        HttpVersion::Http3 => 6,
    }
}

/// What a connection opens with, from its first 24 bytes: 1 for the
/// HTTP/2 preface, 2 for a TLS handshake record (first byte 22), else 0.
pub open spec fn protocol_of(peek: Seq<u8>) -> u8 {
    if peek == PREFACE@ {
        1
    } else if peek[0] == 22 {
        2
    } else {
        0
    }
}

/// What a connection opens with (see `protocol_of`).
pub fn detect_prot(peek: &[u8; 24]) -> (r: u8)
    ensures
        r == protocol_of(peek@),
{
    let mut same = true;
    let mut i: usize = 0;
    while i < 24
        invariant
            i <= 24,
            same == (forall|k: int| 0 <= k < i ==> peek@[k] == PREFACE@[k]),
        decreases 24 - i,
    {
        if peek[i] != PREFACE[i] {
            same = false;
        }
        i = i + 1;
    }
    if same {
        assert(peek@ =~= PREFACE@);
        1
    } else {
        assert(peek@ != PREFACE@) by {
            let k = choose|k: int| 0 <= k < 24 && peek@[k] != PREFACE@[k];
            assert(peek@[k] != PREFACE@[k]);
        }
        if peek[0] == 22 {
            2
        } else {
            0
        }
    }
}

/// Splitting `s` at each `c`: the pieces before the last `c` and the text after it.
pub open spec fn split_acc(s: Seq<char>, c: char) -> (Seq<Seq<char>>, Seq<char>)
    decreases s.len(),
{
    if s.len() == 0 {
        (Seq::empty(), Seq::empty())
    } else {
        let (ls, cur) = split_acc(s.drop_last(), c);
        if s.last() == c {
            (ls.push(cur), Seq::empty())
        } else {
            (ls, cur.push(s.last()))
        }
    }
}

/// `str::split(c)`: the pieces of `s` between the occurrences of `c`.
pub open spec fn split_on(s: Seq<char>, c: char) -> Seq<Seq<char>> {
    split_acc(s, c).0.push(split_acc(s, c).1)
}

/// Splits chars at each `c`.
pub fn split_chars(s: &[char], c: char) -> (r: Vec<Vec<char>>)
    ensures
        r@.map_values(|v: Vec<char>| v@) == split_on(s@, c),
{
    let mut labels: Vec<Vec<char>> = Vec::new();
    let mut cur: Vec<char> = Vec::new();
    let mut i: usize = 0;
    while i < s.len()
        invariant
            i <= s@.len(),
            (labels@.map_values(|v: Vec<char>| v@), cur@) == split_acc(s@.subrange(0, i as int), c),
        decreases s@.len() - i,
    {
        let ghost pre = s@.subrange(0, i as int);
        assert(s@.subrange(0, i + 1).drop_last() =~= pre);
        if s[i] == c {
            let mut done: Vec<char> = Vec::new();
            std::mem::swap(&mut done, &mut cur);
            labels.push(done);
            assert(labels@.map_values(|v: Vec<char>| v@) =~= split_acc(pre, c).0.push(split_acc(pre, c).1));
        } else {
            cur.push(s[i]);
        }
        i = i + 1;
    }
    assert(s@.subrange(0, s@.len() as int) =~= s@);
    labels.push(cur);
    assert(labels@.map_values(|v: Vec<char>| v@) =~= split_on(s@, c));
    labels
}

/// Whether a certificate named `name` serves the server name `sni`: the
/// same dot-separated labels, or the same number of labels with a first
/// label `*` and the same labels after it.
pub open spec fn sni_match(name: Seq<char>, sni: Seq<char>) -> bool {
    let n = split_on(name, '.');
    let s = split_on(sni, '.');
    n.len() == s.len() && ((n[0] == seq!['*'] && n.drop_first() == s.drop_first()) || n == s)
}

/// A certificate name always matches itself, and a match (exact or by a
/// leading `*` label) needs as many labels on both sides.
pub proof fn lemma_sni_match_laws(name: Seq<char>, sni: Seq<char>)
    ensures
        sni_match(name, name),
        sni_match(name, sni) ==> split_on(name, '.').len() == split_on(sni, '.').len(),
        sni_match(name, sni) && split_on(name, '.')[0] != seq!['*'] ==> split_on(name, '.') == split_on(sni, '.'),
{
}

/// Whether the label lists agree from index `from` on.
fn labels_equal_from(a: &Vec<Vec<char>>, b: &Vec<Vec<char>>, from: usize) -> (r: bool)
    requires
        a@.len() == b@.len(),
        from <= a@.len(),
    ensures
        r == (a@.map_values(|v: Vec<char>| v@).subrange(from as int, a@.len() as int) == b@.map_values(
            |v: Vec<char>| v@,
        ).subrange(from as int, b@.len() as int)),
{
    let ghost av = a@.map_values(|v: Vec<char>| v@);
    let ghost bv = b@.map_values(|v: Vec<char>| v@);
    let mut i = from;
    while i < a.len()
        invariant
            a@.len() == b@.len(),
            from <= i <= a@.len(),
            av == a@.map_values(|v: Vec<char>| v@),
            bv == b@.map_values(|v: Vec<char>| v@),
            forall|k: int| from <= k < i ==> av[k] == bv[k],
        decreases a@.len() - i,
    {
        if !chars_equal(a[i].as_slice(), b[i].as_slice()) {
            assert(av.subrange(from as int, a@.len() as int)[i - from] != bv.subrange(from as int, b@.len() as int)[i - from]);
            return false;
        }
        i = i + 1;
    }
    assert(av.subrange(from as int, a@.len() as int) =~= bv.subrange(from as int, b@.len() as int));
    true
}

/// Whether two char slices are equal.
fn chars_equal(a: &[char], b: &[char]) -> (r: bool)
    ensures
        r == (a@ == b@),
{
    if a.len() != b.len() {
        return false;
    }
    let mut i: usize = 0;
    while i < a.len()
        invariant
            a@.len() == b@.len(),
            i <= a@.len(),
            forall|k: int| 0 <= k < i ==> a@[k] == b@[k],
        decreases a@.len() - i,
    {
        if a[i] != b[i] {
            return false;
        }
        i = i + 1;
    }
    assert(a@ =~= b@);
    true
}

/// Whether a certificate named `name` serves the server name `sni` (see `sni_match`).
pub fn sni_matches(name: &str, sni: &str) -> (r: bool)
    ensures
        r == sni_match(name@, sni@),
{
    let nc = crate::text::chars_of(name);
    let sc = crate::text::chars_of(sni);
    let n = split_chars(nc.as_slice(), '.');
    let s = split_chars(sc.as_slice(), '.');
    let ghost nv = n@.map_values(|v: Vec<char>| v@);
    let ghost sv = s@.map_values(|v: Vec<char>| v@);
    if n.len() != s.len() {
        return false;
    }
    assert(nv.len() == n@.len());
    assert(split_on(nc@, '.').len() > 0);
    assert(n@.len() > 0);
    let star = n[0].len() == 1 && n[0][0] == '*';
    assert(star == (nv[0] == seq!['*'])) by {
        if nv[0] == seq!['*'] {
            assert(nv[0].len() == 1);
        }
        if star {
            assert(nv[0] =~= seq!['*']);
        }
    }
    if star && labels_equal_from(&n, &s, 1) {
        assert(nv.drop_first() =~= nv.subrange(1, nv.len() as int));
        assert(sv.drop_first() =~= sv.subrange(1, sv.len() as int));
        return true;
    }
    let all = labels_equal_from(&n, &s, 0);
    assert(nv.subrange(0, nv.len() as int) =~= nv);
    assert(sv.subrange(0, sv.len() as int) =~= sv);
    if !all && star {
        assert(nv.drop_first() =~= nv.subrange(1, nv.len() as int));
        assert(sv.drop_first() =~= sv.subrange(1, sv.len() as int));
    }
    all
}

} // verus!
