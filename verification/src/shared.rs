//! Types shared by the HTTP/1 and HTTP/2 sides: protocol kinds, versions,
//! methods, header maps, the request and response records, and errors.

use vstd::prelude::*;
use crate::text::{chars_of, range_eq_ignore_case, eq_ignore_case, copy_string};

verus! {

/// Which HTTP protocol a socket speaks.
#[derive(Debug, Clone, Copy, PartialEq, Eq, Structural)]
pub enum HttpType {
    Http1,
    Http2,
    Http3,
}

impl HttpType {
    /// The name the type is displayed with.
    pub fn to_string(&self) -> (s: String)
        ensures
            s@ == (match self {
                HttpType::Http1 => "Http1"@,
                HttpType::Http2 => "Http2"@,
                HttpType::Http3 => "Http3"@,
            }),
    {
        match self {
            HttpType::Http1 => String::from_str("Http1"),
            HttpType::Http2 => String::from_str("Http2"),
            HttpType::Http3 => String::from_str("Http3"),
        }
    }
}

/// An HTTP version; `Unknown` keeps the text it was read from, when any.
#[derive(Debug, Clone, PartialEq, Eq)]
pub enum HttpVersion {
    Unknown(Option<String>),
    Debug,
    Http09,
    Http10,
    Http11,
    Http2,
    Http3,
}

/// The text a version is displayed with.
pub open spec fn version_display(v: HttpVersion) -> Seq<char> {
    match v {
        HttpVersion::Unknown(Some(s)) => "Unknown("@ + s@ + ")"@,
        HttpVersion::Unknown(None) => "Unknown"@,
        HttpVersion::Debug => "Debug"@,
        HttpVersion::Http09 => "HTTP/0.9"@,
        HttpVersion::Http10 => "HTTP/1.0"@,
        HttpVersion::Http11 => "HTTP/1.1"@,
        HttpVersion::Http2 => "HTTP/2"@,
        HttpVersion::Http3 => "HTTP/3"@,
    }
}

/// The text a version is written with on the wire: the kept text of an
/// `Unknown` version, the display text otherwise.
pub open spec fn version_wire(v: HttpVersion) -> Seq<char> {
    match v {
        HttpVersion::Unknown(Some(s)) => s@,
        _ => version_display(v),
    }
}

impl HttpVersion {
    pub fn is_unknown(&self) -> (r: bool)
        ensures
            r == (*self is Unknown),
    {
        match self {
            Self::Unknown(_) => true,
            _ => false,
        }
    }

    pub fn is_debug(&self) -> (r: bool)
        ensures
            r == (*self is Debug),
    {
        match self {
            Self::Debug => true,
            _ => false,
        }
    }

    pub fn is_http09(&self) -> (r: bool)
        ensures
            r == (*self is Http09),
    {
        match self {
            Self::Http09 => true,
            _ => false,
        }
    }

    pub fn is_http10(&self) -> (r: bool)
        ensures
            r == (*self is Http10),
    {
        match self {
            Self::Http10 => true,
            _ => false,
        }
    }

    pub fn is_http11(&self) -> (r: bool)
        ensures
            r == (*self is Http11),
    {
        match self {
            Self::Http11 => true,
            _ => false,
        }
    }

    pub fn is_http2(&self) -> (r: bool)
        ensures
            r == (*self is Http2),
    {
        match self {
            Self::Http2 => true,
            _ => false,
        }
    }

    pub fn is_http3(&self) -> (r: bool)
        ensures
            r == (*self is Http3),
    {
        match self {
            Self::Http3 => true,
            _ => false,
        }
    }

    /// The display text (`HTTP/1.1`, `Unknown(x)`, ...).
    pub fn to_string(&self) -> (s: String)
        ensures
            s@ == version_display(*self),
    {
        match self {
            Self::Unknown(Some(v)) => {
                let s = String::from_str("Unknown(");
                let s = s.concat(v.as_str());
                s.concat(")")
            },
            Self::Unknown(None) => String::from_str("Unknown"),
            Self::Debug => String::from_str("Debug"),
            Self::Http09 => String::from_str("HTTP/0.9"),
            Self::Http10 => String::from_str("HTTP/1.0"),
            Self::Http11 => String::from_str("HTTP/1.1"),
            Self::Http2 => String::from_str("HTTP/2"),
            Self::Http3 => String::from_str("HTTP/3"),
        }
    }

    /// The text of an `Unknown` version as it was read, the display text otherwise.
    pub fn to_string_unknown(&self) -> (s: String)
        ensures
            s@ == version_wire(*self),
    {
        match self {
            HttpVersion::Unknown(Some(s)) => copy_string(s),
            _ => self.to_string(),
        }
    }
}

/// An HTTP method; `Unknown` keeps the text it was read from, when any.
#[derive(Debug, Clone, Eq, PartialEq)]
pub enum HttpMethod {
    Unknown(Option<String>),
    Get,
    Head,
    Post,
    Put,
    Delete,
    Connect,
    Options,
    Trace,
}

/// The text a method is displayed with.
pub open spec fn method_display(m: HttpMethod) -> Seq<char> {
    match m {
        HttpMethod::Unknown(Some(s)) => "Unknown("@ + s@ + ")"@,
        HttpMethod::Unknown(None) => "Unknown"@,
        HttpMethod::Get => "GET"@,
        HttpMethod::Head => "HEAD"@,
        HttpMethod::Post => "POST"@,
        HttpMethod::Put => "PUT"@,
        HttpMethod::Delete => "DELETE"@,
        HttpMethod::Connect => "CONNECT"@,
        HttpMethod::Options => "OPTIONS"@,
        HttpMethod::Trace => "TRACE"@,
    }
}

/// The text a method is written with on the wire.
pub open spec fn method_wire(m: HttpMethod) -> Seq<char> {
    match m {
        HttpMethod::Unknown(Some(s)) => s@,
        _ => method_display(m),
    }
}

/// The method `from` reads from `s`: one of the eight names in any ASCII
/// case, otherwise `Unknown` with the text itself.
pub open spec fn method_from_spec(s: Seq<char>, r: HttpMethod) -> bool {
    if eq_ignore_case(s, "get"@) {
        r == HttpMethod::Get
    } else if eq_ignore_case(s, "head"@) {
        r == HttpMethod::Head
    } else if eq_ignore_case(s, "post"@) {
        r == HttpMethod::Post
    } else if eq_ignore_case(s, "put"@) {
        r == HttpMethod::Put
    } else if eq_ignore_case(s, "delete"@) {
        r == HttpMethod::Delete
    } else if eq_ignore_case(s, "connect"@) {
        r == HttpMethod::Connect
    } else if eq_ignore_case(s, "options"@) {
        r == HttpMethod::Options
    } else if eq_ignore_case(s, "trace"@) {
        r == HttpMethod::Trace
    } else {
        r matches HttpMethod::Unknown(Some(t)) && t@ == s
    }
}

/// Compares `s[start..end]` with the chars of a literal, up to ASCII case.
pub fn range_is(s: &[char], start: usize, end: usize, lit: &str) -> (r: bool)
    requires
        start <= end <= s@.len(),
    ensures
        r == eq_ignore_case(s@.subrange(start as int, end as int), lit@),
{
    let l = chars_of(lit);
    range_eq_ignore_case(s, start, end, l.as_slice())
}

impl HttpMethod {
    /// Reads a method name (see `method_from_spec`).
    pub fn from(string: &str) -> (m: Self)
        ensures
            method_from_spec(string@, m),
    {
        let cs = chars_of(string);
        assert(cs@.subrange(0, cs@.len() as int) =~= string@);
        Self::from_chars(cs.as_slice(), 0, cs.len())
    }

    /// Reads a method name from `s[start..end]`.
    pub fn from_chars(s: &[char], start: usize, end: usize) -> (m: Self)
        requires
            start <= end <= s@.len(),
        ensures
            method_from_spec(s@.subrange(start as int, end as int), m),
    {
        if range_is(s, start, end, "get") {
            Self::Get
        } else if range_is(s, start, end, "head") {
            Self::Head
        } else if range_is(s, start, end, "post") {
            Self::Post
        } else if range_is(s, start, end, "put") {
            Self::Put
        } else if range_is(s, start, end, "delete") {
            Self::Delete
        } else if range_is(s, start, end, "connect") {
            Self::Connect
        } else if range_is(s, start, end, "options") {
            Self::Options
        } else if range_is(s, start, end, "trace") {
            Self::Trace
        } else {
            let t = crate::text::string_from_chars(vstd::slice::slice_subrange(s, start, end));
            Self::Unknown(Some(t))
        }
    }

    pub fn is_unknown(&self) -> (r: bool)
        ensures
            r == (*self is Unknown),
    {
        match self {
            Self::Unknown(_) => true,
            _ => false,
        }
    }

    pub fn is_get(&self) -> (r: bool)
        ensures
            r == (*self is Get),
    {
        match self {
            Self::Get => true,
            _ => false,
        }
    }

    pub fn is_head(&self) -> (r: bool)
        ensures
            r == (*self is Head),
    {
        match self {
            Self::Head => true,
            _ => false,
        }
    }

    pub fn is_post(&self) -> (r: bool)
        ensures
            r == (*self is Post),
    {
        match self {
            Self::Post => true,
            _ => false,
        }
    }

    pub fn is_put(&self) -> (r: bool)
        ensures
            r == (*self is Put),
    {
        match self {
            Self::Put => true,
            _ => false,
        }
    }

    pub fn is_delete(&self) -> (r: bool)
        ensures
            r == (*self is Delete),
    {
        match self {
            Self::Delete => true,
            _ => false,
        }
    }

    pub fn is_connect(&self) -> (r: bool)
        ensures
            r == (*self is Connect),
    {
        match self {
            Self::Connect => true,
            _ => false,
        }
    }

    pub fn is_options(&self) -> (r: bool)
        ensures
            r == (*self is Options),
    {
        match self {
            Self::Options => true,
            _ => false,
        }
    }

    pub fn is_trace(&self) -> (r: bool)
        ensures
            r == (*self is Trace),
    {
        match self {
            Self::Trace => true,
            _ => false,
        }
    }

    /// The display text (`GET`, `Unknown(x)`, ...).
    pub fn to_string(&self) -> (s: String)
        ensures
            s@ == method_display(*self),
    {
        match self {
            Self::Unknown(Some(v)) => {
                let s = String::from_str("Unknown(");
                let s = s.concat(v.as_str());
                s.concat(")")
            },
            Self::Unknown(None) => String::from_str("Unknown"),
            Self::Get => String::from_str("GET"),
            Self::Head => String::from_str("HEAD"),
            Self::Post => String::from_str("POST"),
            Self::Put => String::from_str("PUT"),
            Self::Delete => String::from_str("DELETE"),
            Self::Connect => String::from_str("CONNECT"),
            Self::Options => String::from_str("OPTIONS"),
            Self::Trace => String::from_str("TRACE"),
        }
    }

    /// The text of an `Unknown` method as it was read, the display text otherwise.
    pub fn to_string_unknown(&self) -> (s: String)
        ensures
            s@ == method_wire(*self),
    {
        match self {
            HttpMethod::Unknown(Some(s)) => copy_string(s),
            _ => self.to_string(),
        }
    }
}

} // verus!

verus! {

/// The text of each string in a sequence.
pub open spec fn texts(v: Seq<String>) -> Seq<Seq<char>> {
    v.map_values(|s: String| s@)
}

/// Header fields by name, each name with its values in the order added.
/// Names are kept as given; a name occurs once.
#[derive(Debug, Clone)]
pub struct HeaderMap {
    pub entries: Vec<(String, Vec<String>)>,
}

impl HeaderMap {
    /// The names in entry order.
    pub open spec fn names(&self) -> Seq<Seq<char>> {
        self.entries@.map_values(|e: (String, Vec<String>)| e.0@)
    }

    /// No name occurs twice.
    pub open spec fn wf(&self) -> bool {
        forall|i: int, j: int|
            0 <= i < j < self.entries@.len() ==> #[trigger] self.entries@[i].0@ != #[trigger] self.entries@[j].0@
    }

    /// The values stored under `name`.
    pub open spec fn lookup(&self, name: Seq<char>) -> Option<Seq<Seq<char>>> {
        if exists|i: int| 0 <= i < self.entries@.len() && #[trigger] self.entries@[i].0@ == name {
            let i = choose|i: int| 0 <= i < self.entries@.len() && #[trigger] self.entries@[i].0@ == name;
            Some(texts(self.entries@[i].1@))
        } else {
            None
        }
    }

    /// An empty map.
    pub fn new() -> (m: Self)
        ensures
            m.wf(),
            m.entries@.len() == 0,
    {
        HeaderMap { entries: Vec::new() }
    }

    /// Number of names.
    pub fn len(&self) -> (n: usize)
        ensures
            n == self.entries@.len(),
    {
        self.entries.len()
    }

    /// Index of the entry named `name`.
    pub fn find(&self, name: &str) -> (r: Option<usize>)
        requires
            self.wf(),
        ensures
            match r {
                Some(i) => i < self.entries@.len() && self.entries@[i as int].0@ == name@,
                None => forall|i: int| 0 <= i < self.entries@.len() ==> #[trigger] self.entries@[i].0@ != name@,
            },
    {
        let key = String::from_str(name);
        let mut i: usize = 0;
        while i < self.entries.len()
            invariant
                i <= self.entries@.len(),
                key@ == name@,
                forall|k: int| 0 <= k < i ==> #[trigger] self.entries@[k].0@ != name@,
            decreases self.entries@.len() - i,
        {
            if self.entries[i].0 == key {
                return Some(i);
            }
            i = i + 1;
        }
        None
    }

    /// Whether `name` has an entry.
    pub fn contains_key(&self, name: &str) -> (r: bool)
        requires
            self.wf(),
        ensures
            r == (self.lookup(name@) is Some),
    {
        match self.find(name) {
            Some(i) => {
                assert(self.entries@[i as int].0@ == name@);
                true
            },
            None => false,
        }
    }

    /// The values of `name`.
    pub fn get(&self, name: &str) -> (r: Option<&Vec<String>>)
        requires
            self.wf(),
        ensures
            match r {
                Some(v) => self.lookup(name@) == Some(texts(v@)),
                None => self.lookup(name@) is None,
            },
    {
        match self.find(name) {
            Some(i) => {
                proof {
                    self.lemma_lookup_at(i as int);
                }
                Some(&self.entries[i].1)
            },
            None => None,
        }
    }

    proof fn lemma_lookup_at(&self, i: int)
        requires
            self.wf(),
            0 <= i < self.entries@.len(),
        ensures
            self.lookup(self.entries@[i].0@) == Some(texts(self.entries@[i].1@)),
    {
        let name = self.entries@[i].0@;
        let j = choose|j: int| 0 <= j < self.entries@.len() && #[trigger] self.entries@[j].0@ == name;
        if j != i {
            if j < i {
                assert(self.entries@[j].0@ != self.entries@[i].0@);
            } else {
                assert(self.entries@[i].0@ != self.entries@[j].0@);
            }
        }
    }

    /// Sets the values of `name`, returning the ones it replaced.
    pub fn insert(&mut self, name: String, values: Vec<String>) -> (r: Option<Vec<String>>)
        requires
            old(self).wf(),
        ensures
            final(self).wf(),
            final(self).lookup(name@) == Some(texts(values@)),
            forall|n: Seq<char>| n != name@ ==> final(self).lookup(n) == old(self).lookup(n),
            match r {
                Some(v) => old(self).lookup(name@) == Some(texts(v@)),
                None => old(self).lookup(name@) is None,
            },
    {
        match self.find(name.as_str()) {
            Some(i) => {
                proof {
                    old(self).lemma_lookup_at(i as int);
                }
                let ghost before = self.entries@;
                let mut entry = (name, values);
                std::mem::swap(&mut self.entries[i], &mut entry);
                let ghost after = self.entries@;
                assert(after =~= before.update(i as int, after[i as int]));
                proof {
                    assert(self.wf());
                    self.lemma_lookup_at(i as int);
                    assert forall|n: Seq<char>| n != name@ implies self.lookup(n) == old(self).lookup(n) by {
                        self.lemma_lookup_same(before, i as int, n);
                    }
                }
                Some(entry.1)
            },
            None => {
                let ghost before = self.entries@;
                self.entries.push((name, values));
                proof {
                    assert(self.wf());
                    self.lemma_lookup_at(before.len() as int);
                    assert forall|n: Seq<char>| n != name@ implies self.lookup(n) == old(self).lookup(n) by {
                        self.lemma_lookup_same(before, before.len() as int, n);
                    }
                }
                None
            },
        }
    }

    /// Lookups of other names are unaffected by a change at entry `i`.
    proof fn lemma_lookup_same(&self, before: Seq<(String, Vec<String>)>, i: int, n: Seq<char>)
        requires
            self.wf(),
            0 <= i < self.entries@.len(),
            self.entries@.len() == before.len() || (self.entries@.len() == before.len() + 1 && i == before.len()),
            forall|k: int| 0 <= k < before.len() && k != i ==> #[trigger] self.entries@[k] == before[k],
            0 <= i < before.len() ==> before[i].0@ == self.entries@[i].0@,
            n != self.entries@[i].0@,
        ensures
            self.lookup(n) == (if exists|k: int| 0 <= k < before.len() && #[trigger] before[k].0@ == n {
                Some(texts(before[choose|k: int| 0 <= k < before.len() && #[trigger] before[k].0@ == n].1@))
            } else {
                None
            }),
    {
        if exists|k: int| 0 <= k < before.len() && #[trigger] before[k].0@ == n {
            let k = choose|k: int| 0 <= k < before.len() && #[trigger] before[k].0@ == n;
            assert(k != i);
            assert(self.entries@[k].0@ == n);
            self.lemma_lookup_at(k);
        } else {
            assert forall|k: int| 0 <= k < self.entries@.len() implies #[trigger] self.entries@[k].0@ != n by {
                if k != i {
                    assert(self.entries@[k] == before[k]);
                }
            }
        }
    }

    /// Removes `name`, returning its values.
    pub fn remove(&mut self, name: &str) -> (r: Option<Vec<String>>)
        requires
            old(self).wf(),
        ensures
            final(self).wf(),
            final(self).lookup(name@) is None,
            forall|n: Seq<char>| n != name@ ==> final(self).lookup(n) == old(self).lookup(n),
            match r {
                Some(v) => old(self).lookup(name@) == Some(texts(v@)),
                None => old(self).lookup(name@) is None,
            },
    {
        match self.find(name) {
            Some(i) => {
                proof {
                    old(self).lemma_lookup_at(i as int);
                }
                let ghost before = self.entries@;
                let e = self.entries.remove(i);
                proof {
                    assert forall|a: int, b: int| 0 <= a < b < self.entries@.len() implies #[trigger] self.entries@[a].0@
                        != #[trigger] self.entries@[b].0@ by {
                        let a2 = if a < i { a } else { a + 1 };
                        let b2 = if b < i { b } else { b + 1 };
                        assert(self.entries@[a] == before[a2]);
                        assert(self.entries@[b] == before[b2]);
                    }
                    assert forall|k: int| 0 <= k < self.entries@.len() implies #[trigger] self.entries@[k].0@ != name@ by {
                        let k2 = if k < i { k } else { k + 1 };
                        assert(self.entries@[k] == before[k2]);
                    }
                    assert forall|n: Seq<char>| n != name@ implies self.lookup(n) == old(self).lookup(n) by {
                        if exists|k: int| 0 <= k < before.len() && #[trigger] before[k].0@ == n {
                            let k = choose|k: int| 0 <= k < before.len() && #[trigger] before[k].0@ == n;
                            let k3 = if k < i { k } else { k - 1 };
                            assert(self.entries@[k3] == before[k]);
                            self.lemma_lookup_at(k3);
                            old(self).lemma_lookup_at(k);
                        } else {
                            assert forall|k: int| 0 <= k < self.entries@.len() implies #[trigger] self.entries@[k].0@ != n by {
                                let k2 = if k < i { k } else { k + 1 };
                                assert(self.entries@[k] == before[k2]);
                            }
                        }
                    }
                }
                Some(e.1)
            },
            None => None,
        }
    }

    /// Adds `value` after the values of `name`, making the entry when missing.
    pub fn add(&mut self, name: String, value: String)
        requires
            old(self).wf(),
        ensures
            final(self).wf(),
            final(self).lookup(name@) == Some(match old(self).lookup(name@) {
                Some(vs) => vs.push(value@),
                None => seq![value@],
            }),
            forall|n: Seq<char>| n != name@ ==> final(self).lookup(n) == old(self).lookup(n),
    {
        let mut values = match self.remove(name.as_str()) {
            Some(v) => v,
            None => Vec::new(),
        };
        let ghost prev = values@;
        values.push(value);
        assert(texts(values@) =~= texts(prev).push(value@));
        let _ = self.insert(name, values);
        proof {
            if old(self).lookup(name@) is None {
                assert(texts(prev) =~= Seq::<Seq<char>>::empty());
                assert(texts(prev).push(value@) =~= seq![value@]);
            }
        }
    }

    /// Removes every entry.
    pub fn clear(&mut self)
        ensures
            final(self).wf(),
            final(self).entries@.len() == 0,
    {
        self.entries.clear();
    }
}

} // verus!

verus! {

/// A request as the server side reads it.
#[derive(Debug, Clone)]
pub struct HttpClient {
    pub valid: bool,
    pub mpv_complete: bool,
    pub head_complete: bool,
    pub body_complete: bool,
    pub method: HttpMethod,
    pub path: String,
    pub version: HttpVersion,
    pub headers: HeaderMap,
    pub body: Vec<u8>,
    /// Should be set in valid requests.
    pub host: Option<String>,
    pub scheme: Option<String>,
}

impl HttpClient {
    /// A request before anything was read: valid, nothing complete, method
    /// and version unknown, everything empty.
    pub open spec fn is_fresh(&self) -> bool {
        &&& self.valid
        &&& !self.mpv_complete
        &&& !self.head_complete
        &&& !self.body_complete
        &&& self.method == HttpMethod::Unknown(None)
        &&& self.path@ == Seq::<char>::empty()
        &&& self.version == HttpVersion::Unknown(None)
        &&& self.headers.wf()
        &&& self.headers.entries@.len() == 0
        &&& self.body@.len() == 0
        &&& self.host is None
        &&& self.scheme is None
    }

    /// Back to the state before anything was read.
    pub fn reset(&mut self)
        ensures
            final(self).is_fresh(),
    {
        *self = Self::default();
    }
}

impl Default for HttpClient {
    fn default() -> (c: Self)
        ensures
            c.is_fresh(),
    {
        Self {
            valid: true,
            mpv_complete: false,
            head_complete: false,
            body_complete: false,
            method: HttpMethod::Unknown(None),
            path: String::new(),
            version: HttpVersion::Unknown(None),
            headers: HeaderMap::new(),
            body: Vec::new(),
            host: None,
            scheme: None,
        }
    }
}

/// A response as the client side reads it.
#[derive(Debug, Clone)]
pub struct HttpResponse {
    pub valid: bool,
    pub vcs_complete: bool,
    pub head_complete: bool,
    pub body_complete: bool,
    pub version: HttpVersion,
    pub code: u16,
    pub status: String,
    pub headers: HeaderMap,
    pub body: Vec<u8>,
}

impl HttpResponse {
    /// A response before anything was read.
    pub open spec fn is_fresh(&self) -> bool {
        &&& self.valid
        &&& !self.vcs_complete
        &&& !self.head_complete
        &&& !self.body_complete
        &&& self.version == HttpVersion::Unknown(None)
        &&& self.code == 0
        &&& self.status@ == Seq::<char>::empty()
        &&& self.headers.wf()
        &&& self.headers.entries@.len() == 0
        &&& self.body@.len() == 0
    }

    /// Back to the state before anything was read.
    pub fn reset(&mut self)
        ensures
            final(self).is_fresh(),
    {
        *self = Self::default();
    }
}

impl Default for HttpResponse {
    fn default() -> (r: Self)
        ensures
            r.is_fresh(),
    {
        Self {
            valid: true,
            vcs_complete: false,
            head_complete: false,
            body_complete: false,
            version: HttpVersion::Unknown(None),
            code: 0,
            status: String::new(),
            headers: HeaderMap::new(),
            body: Vec::new(),
        }
    }
}

#[verifier::external_type_specification]
#[verifier::external_body]
pub struct ExIoError(std::io::Error);

/// Errors of the library.
#[derive(Debug)]
pub enum LibError {
    Io(std::io::Error),
    Huffman(crate::http2::hpack::HuffmanError),
    Hpack(crate::http2::hpack::HpackError),
    NotConnected,
    ConnectionClosed,
    StreamClosed,
    HeadersSent,
    Invalid,
    InvalidFrame,
    InvalidUpgrade,
    InvalidStream,
    InvalidString,
    NotAccepted,
    ResetStream,
    Goaway,
    ProtocolError,
}

pub type LibResult<T> = Result<T, LibError>;

impl LibError {
    pub fn io(&self) -> (r: Option<&std::io::Error>)
        ensures
            match *self {
                LibError::Io(e) => r == Some(&e),
                _ => r is None,
            },
    {
        if let Self::Io(io) = self {
            Some(io)
        } else {
            None
        }
    }

    pub fn huffman(&self) -> (r: Option<&crate::http2::hpack::HuffmanError>)
        ensures
            match *self {
                LibError::Huffman(e) => r == Some(&e),
                _ => r is None,
            },
    {
        if let Self::Huffman(err) = self {
            Some(err)
        } else {
            None
        }
    }

    pub fn hpack(&self) -> (r: Option<&crate::http2::hpack::HpackError>)
        ensures
            match *self {
                LibError::Hpack(e) => r == Some(&e),
                _ => r is None,
            },
    {
        if let Self::Hpack(err) = self {
            Some(err)
        } else {
            None
        }
    }

    pub fn is_not_connected(&self) -> (r: bool)
        ensures
            r == (*self is NotConnected),
    {
        if let Self::NotConnected = self { true } else { false }
    }

    pub fn is_connection_closed(&self) -> (r: bool)
        ensures
            r == (*self is ConnectionClosed),
    {
        if let Self::ConnectionClosed = self { true } else { false }
    }

    pub fn is_stream_closed(&self) -> (r: bool)
        ensures
            r == (*self is StreamClosed),
    {
        if let Self::StreamClosed = self { true } else { false }
    }

    pub fn is_headers_sent(&self) -> (r: bool)
        ensures
            r == (*self is HeadersSent),
    {
        if let Self::HeadersSent = self { true } else { false }
    }

    pub fn is_invalid(&self) -> (r: bool)
        ensures
            r == (*self is Invalid),
    {
        if let Self::Invalid = self { true } else { false }
    }

    pub fn is_invalid_frame(&self) -> (r: bool)
        ensures
            r == (*self is InvalidFrame),
    {
        if let Self::InvalidFrame = self { true } else { false }
    }

    pub fn is_invalid_upgrade(&self) -> (r: bool)
        ensures
            r == (*self is InvalidUpgrade),
    {
        if let Self::InvalidUpgrade = self { true } else { false }
    }

    pub fn is_invalid_stream(&self) -> (r: bool)
        ensures
            r == (*self is InvalidStream),
    {
        if let Self::InvalidStream = self { true } else { false }
    }

    pub fn is_invalid_string(&self) -> (r: bool)
        ensures
            r == (*self is InvalidString),
    {
        if let Self::InvalidString = self { true } else { false }
    }

    pub fn is_not_accepted(&self) -> (r: bool)
        ensures
            r == (*self is NotAccepted),
    {
        if let Self::NotAccepted = self { true } else { false }
    }

    pub fn is_reset_stream(&self) -> (r: bool)
        ensures
            r == (*self is ResetStream),
    {
        if let Self::ResetStream = self { true } else { false }
    }

    pub fn is_goaway(&self) -> (r: bool)
        ensures
            r == (*self is Goaway),
    {
        if let Self::Goaway = self { true } else { false }
    }

    pub fn is_protocol_error(&self) -> (r: bool)
        ensures
            r == (*self is ProtocolError),
    {
        if let Self::ProtocolError = self { true } else { false }
    }
}

/// `std::io::Error`'s message (its `Display`). Nothing is stated of it.
#[verifier::external_body]
fn io_error_text(e: &std::io::Error) -> String {
    e.to_string()
}

/// The name of an HPACK error.
pub open spec fn hpack_error_text(e: crate::http2::hpack::HpackError) -> Seq<char> {
    match e {
        crate::http2::hpack::HpackError::InvalidHeaderField => "InvalidHeaderField"@,
        crate::http2::hpack::HpackError::InvalidInput => "InvalidInput"@,
        crate::http2::hpack::HpackError::InvalidIndex => "InvalidIndex"@,
        crate::http2::hpack::HpackError::InvalidPrefix => "InvalidPrefix"@,
        crate::http2::hpack::HpackError::IntegerOverflow => "IntegerOverflow"@,
        crate::http2::hpack::HpackError::IntegerUnderflow => "IntegerUnderflow"@,
        crate::http2::hpack::HpackError::InvalidMaxDynamicSize => "InvalidMaxDynamicSize"@,
    }
}

/// The message of an error other than an I/O error; each message but the
/// Huffman error's ends with a line break.
pub open spec fn error_text(e: LibError) -> Seq<char> {
    match e {
        LibError::Io(_) => Seq::empty(),
        LibError::Huffman(_) => "InvalidInput"@,
        LibError::Hpack(h) => hpack_error_text(h) + "\n"@,
        LibError::NotConnected => "Not connected to endpoint\n"@,
        LibError::ConnectionClosed => "Connection is closed\n"@,
        LibError::StreamClosed => "Stream is closed\n"@,
        LibError::HeadersSent => "Headers are sent\n"@,
        LibError::Invalid => "Invalid\n"@,
        LibError::InvalidFrame => "Invalid frame\n"@,
        LibError::InvalidUpgrade => "Invalid upgrade\n"@,
        LibError::InvalidStream => "Invalid stream\n"@,
        LibError::InvalidString => "Invalid string\n"@,
        LibError::NotAccepted => "Not accepted\n"@,
        LibError::ResetStream => "stream reset\n"@,
        LibError::Goaway => "Goaway received\n"@,
        LibError::ProtocolError => "Protocol error\n"@,
    }
}

impl LibError {
    /// The error's message: an I/O error's own message, else `error_text`.
    pub fn to_string(&self) -> (s: String)
        ensures
            !(*self is Io) ==> s@ == error_text(*self),
    {
        match self {
            LibError::Io(e) => io_error_text(e),
            LibError::Huffman(_) => String::from_str("InvalidInput"),
            LibError::Hpack(h) => {
                let name = match h {
                    crate::http2::hpack::HpackError::InvalidHeaderField => "InvalidHeaderField",
                    crate::http2::hpack::HpackError::InvalidInput => "InvalidInput",
                    crate::http2::hpack::HpackError::InvalidIndex => "InvalidIndex",
                    crate::http2::hpack::HpackError::InvalidPrefix => "InvalidPrefix",
                    crate::http2::hpack::HpackError::IntegerOverflow => "IntegerOverflow",
                    crate::http2::hpack::HpackError::IntegerUnderflow => "IntegerUnderflow",
                    crate::http2::hpack::HpackError::InvalidMaxDynamicSize => "InvalidMaxDynamicSize",
                };
                let s = String::from_str(name);
                s.concat("\n")
            },
            LibError::NotConnected => String::from_str("Not connected to endpoint\n"),
            LibError::ConnectionClosed => String::from_str("Connection is closed\n"),
            LibError::StreamClosed => String::from_str("Stream is closed\n"),
            LibError::HeadersSent => String::from_str("Headers are sent\n"),
            LibError::Invalid => String::from_str("Invalid\n"),
            LibError::InvalidFrame => String::from_str("Invalid frame\n"),
            LibError::InvalidUpgrade => String::from_str("Invalid upgrade\n"),
            LibError::InvalidStream => String::from_str("Invalid stream\n"),
            LibError::InvalidString => String::from_str("Invalid string\n"),
            LibError::NotAccepted => String::from_str("Not accepted\n"),
            LibError::ResetStream => String::from_str("stream reset\n"),
            LibError::Goaway => String::from_str("Goaway received\n"),
            LibError::ProtocolError => String::from_str("Protocol error\n"),
        }
    }
}

impl From<std::io::Error> for LibError {
    fn from(value: std::io::Error) -> (e: Self) {
        Self::Io(value)
    }
}

impl vstd::std_specs::convert::FromSpecImpl<std::io::Error> for LibError {
    open spec fn obeys_from_spec() -> bool {
        true
    }

    open spec fn from_spec(v: std::io::Error) -> Self {
        LibError::Io(v)
    }
}

impl From<crate::http2::hpack::HuffmanError> for LibError {
    fn from(value: crate::http2::hpack::HuffmanError) -> (e: Self) {
        Self::Huffman(value)
    }
}

impl vstd::std_specs::convert::FromSpecImpl<crate::http2::hpack::HuffmanError> for LibError {
    open spec fn obeys_from_spec() -> bool {
        true
    }

    open spec fn from_spec(v: crate::http2::hpack::HuffmanError) -> Self {
        LibError::Huffman(v)
    }
}

impl From<crate::http2::hpack::HpackError> for LibError {
    fn from(value: crate::http2::hpack::HpackError) -> (e: Self) {
        Self::Hpack(value)
    }
}

impl vstd::std_specs::convert::FromSpecImpl<crate::http2::hpack::HpackError> for LibError {
    open spec fn obeys_from_spec() -> bool {
        true
    }

    open spec fn from_spec(v: crate::http2::hpack::HpackError) -> Self {
        LibError::Hpack(v)
    }
}

} // verus!
