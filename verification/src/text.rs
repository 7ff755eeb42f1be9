//! Text helpers over characters: ASCII case folding, trimming, splitting and
//! number parsing, with the conversions between bytes, strings and chars.

use vstd::prelude::*;

verus! {

/// What `String::from_utf8_lossy` makes of a byte sequence that is not
/// valid UTF-8 (its invalid parts replaced).
pub uninterp spec fn spec_utf8_lossy(b: Seq<u8>) -> Seq<char>;

/// The text bytes read as: valid UTF-8 decodes as itself; other bytes as
/// `String::from_utf8_lossy` replaces them.
pub open spec fn text_of(b: Seq<u8>) -> Seq<char> {
    if vstd::utf8::valid_utf8(b) {
        vstd::utf8::decode_utf8(b)
    } else {
        spec_utf8_lossy(b)
    }
}

/// Calls `String::from_utf8_lossy` (std) and owns the result. Valid UTF-8
/// decodes as itself; for other inputs, with replacement characters, the
/// contract leaves the result to the name `spec_utf8_lossy`.
#[verifier::external_body]
pub(crate) fn utf8_lossy(b: &[u8]) -> (s: String)
    ensures
        vstd::utf8::valid_utf8(b@) ==> s@ == vstd::utf8::decode_utf8(b@),
        !vstd::utf8::valid_utf8(b@) ==> s@ == spec_utf8_lossy(b@),
{
    String::from_utf8_lossy(b).into_owned()
}

/// The chars of a string.
pub fn chars_of(s: &str) -> (v: Vec<char>)
    ensures
        v@ == s@,
{
    let mut v: Vec<char> = Vec::new();
    for c in it: s.chars()
        invariant
            v@ == it.seq().subrange(0, it.index() as int),
    {
        v.push(c);
    }
    v
}

/// Builds a string from chars (std `FromIterator<&char> for String`).
#[verifier::external_body]
pub(crate) fn string_from_chars(cs: &[char]) -> (s: String)
    ensures
        s@ == cs@,
{
    String::from_iter(cs)
}

/// A string equal to `s`.
pub fn copy_string(s: &String) -> (r: String)
    ensures
        r@ == s@,
{
    s.clone()
}

pub open spec fn is_ascii_upper(c: char) -> bool {
    'A' <= c && c <= 'Z'
}

/// ASCII lower-casing of one char; other chars are kept.
pub open spec fn ascii_lower(c: char) -> char {
    if is_ascii_upper(c) {
        ((c as u32) + 32) as char
    } else {
        c
    }
}

/// ASCII lower-casing of a char sequence.
pub open spec fn lower_seq(s: Seq<char>) -> Seq<char> {
    s.map_values(|c: char| ascii_lower(c))
}

/// Equality up to ASCII case.
pub open spec fn eq_ignore_case(a: Seq<char>, b: Seq<char>) -> bool {
    lower_seq(a) == lower_seq(b)
}

/// Rust's `char::is_whitespace`: the Unicode White_Space property.
pub open spec fn is_white(c: char) -> bool {
    ('\u{9}' <= c && c <= '\u{d}') || c == ' ' || c == '\u{85}' || c == '\u{a0}' || c == '\u{1680}'
        || ('\u{2000}' <= c && c <= '\u{200a}') || c == '\u{2028}' || c == '\u{2029}' || c == '\u{202f}'
        || c == '\u{205f}' || c == '\u{3000}'
}

/// Index of the first char of `s` that is not whitespace (or `s.len()`).
pub open spec fn trim_start_index(s: Seq<char>) -> int
    decreases s.len(),
{
    if s.len() == 0 {
        0
    } else if is_white(s[0]) {
        1 + trim_start_index(s.drop_first())
    } else {
        0
    }
}

/// Index just past the last char of `s` that is not whitespace (or 0).
pub open spec fn trim_end_index(s: Seq<char>) -> int
    decreases s.len(),
{
    if s.len() == 0 {
        0
    } else if is_white(s.last()) {
        trim_end_index(s.drop_last())
    } else {
        s.len() as int
    }
}

/// `str::trim_end`.
pub open spec fn trim_end(s: Seq<char>) -> Seq<char> {
    s.subrange(0, trim_end_index(s))
}

/// `str::trim`.
pub open spec fn trim(s: Seq<char>) -> Seq<char> {
    let e = trim_end(s);
    e.subrange(trim_start_index(e), e.len() as int)
}

/// `str::trim_end_matches(['\r', '\n'])`.
pub open spec fn trim_end_crlf(s: Seq<char>) -> Seq<char>
    decreases s.len(),
{
    if s.len() > 0 && (s.last() == '\r' || s.last() == '\n') {
        trim_end_crlf(s.drop_last())
    } else {
        s
    }
}

proof fn lemma_trim_start_index_bound(s: Seq<char>)
    ensures
        0 <= trim_start_index(s) <= s.len(),
    decreases s.len(),
{
    if s.len() > 0 && is_white(s[0]) {
        lemma_trim_start_index_bound(s.drop_first());
    }
}

proof fn lemma_trim_end_index_bound(s: Seq<char>)
    ensures
        0 <= trim_end_index(s) <= s.len(),
    decreases s.len(),
{
    if s.len() > 0 && is_white(s.last()) {
        lemma_trim_end_index_bound(s.drop_last());
    }
}

pub fn is_white_char(c: char) -> (r: bool)
    ensures
        r == is_white(c),
{
    ('\u{9}' <= c && c <= '\u{d}') || c == ' ' || c == '\u{85}' || c == '\u{a0}' || c == '\u{1680}'
        || ('\u{2000}' <= c && c <= '\u{200a}') || c == '\u{2028}' || c == '\u{2029}' || c == '\u{202f}'
        || c == '\u{205f}' || c == '\u{3000}'
}

pub fn lower_char(c: char) -> (r: char)
    ensures
        r == ascii_lower(c),
{
    if 'A' <= c && c <= 'Z' {
        let v: u8 = (c as u32 + 32) as u8;
        v as char
    } else {
        c
    }
}

/// ASCII lower-casing of `s[start..end]`.
pub fn lower_range(s: &[char], start: usize, end: usize) -> (r: Vec<char>)
    requires
        start <= end <= s@.len(),
    ensures
        r@ == lower_seq(s@.subrange(start as int, end as int)),
{
    let mut r: Vec<char> = Vec::new();
    let mut i = start;
    while i < end
        invariant
            start <= i <= end <= s@.len(),
            r@ == lower_seq(s@.subrange(start as int, i as int)),
        decreases end - i,
    {
        r.push(lower_char(s[i]));
        i = i + 1;
        assert(r@ =~= lower_seq(s@.subrange(start as int, i as int)));
    }
    r
}

/// Whether `s[start..end]` equals `lit` up to ASCII case.
pub fn range_eq_ignore_case(s: &[char], start: usize, end: usize, lit: &[char]) -> (r: bool)
    requires
        start <= end <= s@.len(),
    ensures
        r == eq_ignore_case(s@.subrange(start as int, end as int), lit@),
{
    if end - start != lit.len() {
        assert(lower_seq(s@.subrange(start as int, end as int)).len() != lower_seq(lit@).len());
        return false;
    }
    let mut i: usize = 0;
    while i < lit.len()
        invariant
            end - start == lit@.len(),
            start <= end <= s@.len(),
            i <= lit@.len(),
            forall|k: int| 0 <= k < i ==> ascii_lower(#[trigger] s@[start + k]) == ascii_lower(lit@[k]),
        decreases lit@.len() - i,
    {
        if lower_char(s[start + i]) != lower_char(lit[i]) {
            assert(lower_seq(s@.subrange(start as int, end as int))[i as int] != lower_seq(lit@)[i as int]);
            return false;
        }
        i = i + 1;
    }
    let ghost sub = s@.subrange(start as int, end as int);
    assert forall|k: int| 0 <= k < lit@.len() implies lower_seq(sub)[k] == lower_seq(lit@)[k] by {
        assert(sub[k] == s@[start + k]);
    }
    assert(lower_seq(sub) =~= lower_seq(lit@));
    true
}

/// Bounds of `trim(s[start..end])` inside `s`.
pub fn trim_bounds(s: &[char], start: usize, end: usize) -> (r: (usize, usize))
    requires
        start <= end <= s@.len(),
    ensures
        start <= r.0 <= r.1 <= end,
        s@.subrange(r.0 as int, r.1 as int) == trim(s@.subrange(start as int, end as int)),
{
    let ghost t = s@.subrange(start as int, end as int);
    let mut e = end;
    while e > start && is_white_char(s[e - 1])
        invariant
            start <= e <= end <= s@.len(),
            trim_end_index(t) == trim_end_index(s@.subrange(start as int, e as int)),
        decreases e - start,
    {
        assert(s@.subrange(start as int, e as int).drop_last() =~= s@.subrange(start as int, e - 1));
        e = e - 1;
    }
    proof {
        let u = s@.subrange(start as int, e as int);
        if u.len() > 0 {
            assert(u.last() == s@[e - 1]);
        }
        assert(trim_end(t) =~= u);
    }
    let mut b = start;
    while b < e && is_white_char(s[b])
        invariant
            start <= b <= e <= end <= s@.len(),
            trim_start_index(s@.subrange(start as int, e as int)) == (b - start) + trim_start_index(
                s@.subrange(b as int, e as int),
            ),
        decreases e - b,
    {
        assert(s@.subrange(b as int, e as int).drop_first() =~= s@.subrange(b + 1, e as int));
        b = b + 1;
    }
    proof {
        let u = s@.subrange(start as int, e as int);
        assert(u.subrange(b - start, u.len() as int) =~= s@.subrange(b as int, e as int));
    }
    (b, e)
}

/// End of `trim_end_crlf(s[start..end])` inside `s`.
pub fn trim_crlf_end(s: &[char], start: usize, end: usize) -> (e: usize)
    requires
        start <= end <= s@.len(),
    ensures
        start <= e <= end,
        s@.subrange(start as int, e as int) == trim_end_crlf(s@.subrange(start as int, end as int)),
{
    let mut e = end;
    while e > start && (s[e - 1] == '\r' || s[e - 1] == '\n')
        invariant
            start <= e <= end <= s@.len(),
            trim_end_crlf(s@.subrange(start as int, end as int)) == trim_end_crlf(
                s@.subrange(start as int, e as int),
            ),
        decreases e - start,
    {
        assert(s@.subrange(start as int, e as int).drop_last() =~= s@.subrange(start as int, e - 1));
        e = e - 1;
    }
    e
}

/// `c` does not occur in `s[a..b]`.
pub open spec fn char_absent(s: Seq<char>, a: int, b: int, c: char) -> bool {
    forall|k: int| a <= k < b ==> s[k] != c
}

/// First index of `c` in `s[start..end]`.
pub fn find_char(s: &[char], start: usize, end: usize, c: char) -> (r: Option<usize>)
    requires
        start <= end <= s@.len(),
    ensures
        match r {
            Some(i) => start <= i < end && s@[i as int] == c && char_absent(s@, start as int, i as int, c),
            None => char_absent(s@, start as int, end as int, c),
        },
{
    let mut i = start;
    while i < end
        invariant
            start <= i <= end <= s@.len(),
            char_absent(s@, start as int, i as int, c),
        decreases end - i,
    {
        if s[i] == c {
            return Some(i);
        }
        i = i + 1;
    }
    None
}

/// The value of a digit char in `radix` (`char::to_digit`), for radix 10 or 16.
pub open spec fn digit_value(c: char, radix: u32) -> Option<nat> {
    if '0' <= c && c <= '9' {
        if (c as nat) - ('0' as nat) < radix { Some(((c as nat) - ('0' as nat)) as nat) } else { None }
    } else if radix == 16 && 'a' <= c && c <= 'f' {
        Some(((c as nat) - ('a' as nat) + 10) as nat)
    } else if radix == 16 && 'A' <= c && c <= 'F' {
        Some(((c as nat) - ('A' as nat) + 10) as nat)
    } else {
        None
    }
}

/// The number a nonempty string of digits spells in `radix`.
pub open spec fn digits_value(s: Seq<char>, radix: u32) -> Option<nat>
    decreases s.len(),
{
    if s.len() == 0 {
        None
    } else if s.len() == 1 {
        digit_value(s[0], radix)
    } else {
        match (digits_value(s.drop_last(), radix), digit_value(s.last(), radix)) {
            (Some(a), Some(d)) => Some(a * radix as nat + d),
            _ => None,
        }
    }
}

/// What `usize::from_str_radix` (and, in radix 10, `str::parse::<usize>`)
/// reads from `s`: an optional `+`, then digits, with a value that fits.
pub open spec fn parse_unsigned(s: Seq<char>, radix: u32, max: nat) -> Option<nat> {
    let d = if s.len() > 0 && s[0] == '+' { s.drop_first() } else { s };
    match digits_value(d, radix) {
        Some(v) => if v <= max { Some(v) } else { None },
        None => None,
    }
}

fn digit_of(c: char, radix: u32) -> (r: Option<u32>)
    requires
        radix == 10 || radix == 16,
    ensures
        match r {
            Some(v) => digit_value(c, radix) == Some(v as nat) && v < radix,
            None => digit_value(c, radix) is None,
        },
{
    if '0' <= c && c <= '9' {
        let v = c as u32 - '0' as u32;
        if v < radix { Some(v) } else { None }
    } else if radix == 16 && 'a' <= c && c <= 'f' {
        Some(c as u32 - 'a' as u32 + 10)
    } else if radix == 16 && 'A' <= c && c <= 'F' {
        Some(c as u32 - 'A' as u32 + 10)
    } else {
        None
    }
}

/// Digits of `s[a..b]` up to `k` are all digits: the value so far.
proof fn lemma_digits_prefix_none(s: Seq<char>, radix: u32, k: int)
    requires
        0 < k <= s.len(),
        digits_value(s.subrange(0, k), radix) is None,
    ensures
        digits_value(s, radix) is None,
    decreases s.len(),
{
    if k < s.len() {
        assert(s.drop_last().subrange(0, k) =~= s.subrange(0, k));
        lemma_digits_prefix_none(s.drop_last(), radix, k);
    } else {
        assert(s.subrange(0, k) =~= s);
    }
}

/// Once past `max` a digit string cannot come back under it.
proof fn lemma_digits_grow(s: Seq<char>, radix: u32, k: int)
    requires
        0 < k <= s.len(),
        radix >= 2,
        digits_value(s.subrange(0, k), radix) is Some,
        digits_value(s, radix) is Some,
    ensures
        digits_value(s, radix)->0 >= digits_value(s.subrange(0, k), radix)->0,
    decreases s.len(),
{
    if k < s.len() {
        assert(s.drop_last().subrange(0, k) =~= s.subrange(0, k));
        lemma_digits_grow(s.drop_last(), radix, k);
        let a = digits_value(s.drop_last(), radix)->0;
        let d = digit_value(s.last(), radix)->0;
        assert(a * radix as nat + d >= a) by (nonlinear_arith)
            requires
                radix >= 2,
        ;
    } else {
        assert(s.subrange(0, k) =~= s);
    }
}

/// `usize::from_str_radix(s[start..end], radix)` for radix 10 or 16.
pub fn parse_radix(s: &[char], start: usize, end: usize, radix: u32) -> (r: Option<usize>)
    requires
        start <= end <= s@.len(),
        radix == 10 || radix == 16,
    ensures
        match parse_unsigned(s@.subrange(start as int, end as int), radix, usize::MAX as nat) {
            Some(v) => r == Some(v as usize),
            None => r is None,
        },
{
    let ghost t = s@.subrange(start as int, end as int);
    let mut i = start;
    if i < end && s[i] == '+' {
        i = i + 1;
    }
    let ghost d = s@.subrange(i as int, end as int);
    assert(d =~= (if t.len() > 0 && t[0] == '+' { t.drop_first() } else { t }));
    if i == end {
        return None;
    }
    let first = i;
    let mut acc: usize = 0;
    while i < end
        invariant
            first <= i <= end <= s@.len(),
            first < end,
            d == s@.subrange(first as int, end as int),
            t == s@.subrange(start as int, end as int),
            d == (if t.len() > 0 && t[0] == '+' { t.drop_first() } else { t }),
            radix == 10 || radix == 16,
            i > first ==> digits_value(s@.subrange(first as int, i as int), radix) == Some(acc as nat),
        decreases end - i,
    {
        let ghost pre = s@.subrange(first as int, i as int);
        let ghost next = s@.subrange(first as int, i + 1);
        assert(next.drop_last() =~= pre);
        assert(next.last() == s@[i as int]);
        match digit_of(s[i], radix) {
            None => {
                proof {
                    assert(s@.subrange(first as int, end as int).subrange(0, i + 1 - first) =~= next);
                    lemma_digits_prefix_none(d, radix, i + 1 - first);
                }
                return None;
            },
            Some(v) => {
                if i == first {
                    acc = v as usize;
                } else {
                    match acc.checked_mul(radix as usize) {
                        None => {
                            proof {
                                assert(s@.subrange(first as int, end as int).subrange(0, i + 1 - first) =~= next);
                                if digits_value(d, radix) is Some {
                                    lemma_digits_grow(d, radix, i + 1 - first);
                                }
                            }
                            return None;
                        },
                        Some(m) => match m.checked_add(v as usize) {
                            None => {
                                proof {
                                    assert(s@.subrange(first as int, end as int).subrange(0, i + 1 - first)
                                        =~= next);
                                    if digits_value(d, radix) is Some {
                                        lemma_digits_grow(d, radix, i + 1 - first);
                                    }
                                }
                                return None;
                            },
                            Some(n) => {
                                acc = n;
                            },
                        },
                    }
                }
                i = i + 1;
            },
        }
    }
    assert(s@.subrange(first as int, i as int) =~= d);
    Some(acc)
}

/// Whether `lit` occurs in `s` (`str::contains`).
pub open spec fn contains_seq(s: Seq<char>, lit: Seq<char>) -> bool {
    exists|i: int| 0 <= i && i + lit.len() <= s.len() && #[trigger] s.subrange(i, i + lit.len()) == lit
}

/// Whether `lit` occurs in `s` at `i`.
fn matches_at(s: &[char], lit: &[char], i: usize) -> (r: bool)
    requires
        i + lit@.len() <= s@.len(),
    ensures
        r == (s@.subrange(i as int, i + lit@.len()) == lit@),
{
    let n = s.len();
    let mut j: usize = 0;
    while j < lit.len()
        invariant
            n == s@.len(),
            i + lit@.len() <= s@.len(),
            j <= lit@.len(),
            forall|m: int| 0 <= m < j ==> s@[i + m] == lit@[m],
        decreases lit@.len() - j,
    {
        if s[i + j] != lit[j] {
            assert(s@.subrange(i as int, i + lit@.len())[j as int] != lit@[j as int]);
            return false;
        }
        j = j + 1;
    }
    assert(s@.subrange(i as int, i + lit@.len()) =~= lit@);
    true
}

/// Whether `lit` occurs in `s`.
pub fn contains_chars(s: &[char], lit: &[char]) -> (r: bool)
    ensures
        r == contains_seq(s@, lit@),
{
    if lit.len() > s.len() {
        return false;
    }
    let last = s.len() - lit.len();
    let mut i: usize = 0;
    while i < last
        invariant
            last + lit@.len() == s@.len(),
            i <= last,
            forall|k: int| 0 <= k < i ==> #[trigger] s@.subrange(k, k + lit@.len()) != lit@,
        decreases last - i,
    {
        if matches_at(s, lit, i) {
            return true;
        }
        i = i + 1;
    }
    if matches_at(s, lit, last) {
        return true;
    }
    proof {
        assert forall|k: int| 0 <= k && k + lit@.len() <= s@.len() implies #[trigger] s@.subrange(k, k + lit@.len())
            != lit@ by {
            assert(k <= last);
        }
    }
    false
}

/// The char of a digit below 16, lower case.
pub open spec fn digit_char(d: nat) -> char {
    if d < 10 {
        (('0' as nat) + d) as char
    } else {
        (('a' as nat) + d - 10) as char
    }
}

/// The digits of `n` in `radix`, most significant first, no leading zeros.
pub open spec fn radix_digits(n: nat, radix: nat) -> Seq<char>
    decreases n,
{
    if radix < 2 || n < radix {
        seq![digit_char(n % 16)]
    } else {
        proof {
            assert(n / radix < n) by (nonlinear_arith)
                requires
                    radix >= 2,
                    n >= radix,
            ;
        }
        radix_digits(n / radix, radix).push(digit_char(n % radix))
    }
}

fn digit_char_of(d: usize) -> (c: char)
    requires
        d < 16,
    ensures
        c == digit_char(d as nat),
{
    if d < 10 {
        let v: u8 = 48 + d as u8;
        v as char
    } else {
        let v: u8 = 87 + d as u8;
        v as char
    }
}

/// `n` written in `radix` (10 or 16, lower case), as `format!` writes it.
pub fn radix_chars(n: usize, radix: usize) -> (r: Vec<char>)
    requires
        radix == 10 || radix == 16,
    ensures
        r@ == radix_digits(n as nat, radix as nat),
    decreases n,
{
    if n < radix {
        let mut r: Vec<char> = Vec::new();
        r.push(digit_char_of(n));
        assert(n % 16 == n);
        assert(r@ =~= radix_digits(n as nat, radix as nat));
        r
    } else {
        let mut r = radix_chars(n / radix, radix);
        r.push(digit_char_of(n % radix));
        r
    }
}

} // verus!
