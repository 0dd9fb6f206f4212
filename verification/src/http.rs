use vstd::prelude::*;
use vstd::utf8::encode_utf8;
use crate::pretty::{prettify_json, pretty_json};
use crate::reader::{chars_of, string_of};
use std::time::Duration;

verus! {

#[derive(Clone, Copy, Debug, PartialEq, Eq)]
pub enum HttpVersion {
    Http10,
    Http11,
    Http2,
    Http3,
}

/// The protocol name shown in a status line.
pub open spec fn version_text(v: HttpVersion) -> Seq<char> {
    match v {
        HttpVersion::Http10 => "HTTP/1.0"@,
        HttpVersion::Http11 => "HTTP/1.1"@,
        HttpVersion::Http2 => "HTTP/2"@,
        HttpVersion::Http3 => "HTTP/3"@,
    }
}

impl HttpVersion {
    pub fn to_str(&self) -> (s: &'static str)
        ensures
            s@ == version_text(*self),
    {
        match self {
            HttpVersion::Http10 => "HTTP/1.0",
            HttpVersion::Http11 => "HTTP/1.1",
            HttpVersion::Http2 => "HTTP/2",
            HttpVersion::Http3 => "HTTP/3",
        }
    }
}

#[derive(Clone, Debug, PartialEq, Eq)]
pub struct Header {
    pub name: String,
    pub value: String,
}

impl Header {
    pub fn new(name: &str, value: &str) -> (h: Header)
        ensures
            h.name@ == name@,
            h.value@ == value@,
    {
        Header { name: String::from_str(name), value: String::from_str(value) }
    }
}

/// Response or request headers, in order, duplicates kept.
#[derive(Clone, Debug, PartialEq, Eq, Default)]
pub struct HeaderVec {
    pub headers: Vec<Header>,
}

impl HeaderVec {
    pub fn new() -> (h: HeaderVec)
        ensures
            h.headers@.len() == 0,
    {
        HeaderVec { headers: Vec::new() }
    }

    pub fn push(&mut self, header: Header)
        ensures
            final(self).headers@ == old(self).headers@.push(header),
    {
        self.headers.push(header);
    }

    pub fn len(&self) -> (n: usize)
        ensures
            n == self.headers@.len(),
    {
        self.headers.len()
    }
}

/// Why a URL was refused.
#[derive(Clone, Debug, PartialEq, Eq)]
pub struct InvalidUrl {
    pub url: String,
    pub reason: String,
}

/// An HTTP or HTTPS URL.
#[derive(Clone, Debug, PartialEq, Eq)]
pub struct Url {
    inner: String,
}

impl View for Url {
    type V = Seq<char>;

    closed spec fn view(&self) -> Seq<char> {
        self.inner@
    }
}

/// `s` starts with `prefix`.
pub open spec fn starts_with(s: Seq<char>, prefix: Seq<char>) -> bool {
    prefix.len() <= s.len() && s.take(prefix.len() as int) == prefix
}

/// A URL text whose scheme is `http` or `https`.
pub open spec fn has_http_scheme(s: Seq<char>) -> bool {
    starts_with(s, "http://"@) || starts_with(s, "https://"@)
}

impl Url {
    /// The URL as written.
    pub fn as_str(&self) -> (s: &str)
        ensures
            s@ == self@,
    {
        self.inner.as_str()
    }
}

fn has_prefix(v: &Vec<char>, prefix: &str) -> (b: bool)
    ensures
        b == (prefix@.len() <= v@.len() && v@.take(prefix@.len() as int) == prefix@),
{
    let p = chars_of(prefix);
    if p.len() > v.len() {
        return false;
    }
    let mut i: usize = 0;
    while i < p.len()
        invariant
            p@ == prefix@,
            p.len() <= v.len(),
            i <= p.len(),
            forall|j: int| 0 <= j < i ==> v@[j] == p@[j],
        decreases p.len() - i,
    {
        if v[i] != p[i] {
            proof {
                assert(v@.take(p@.len() as int)[i as int] == v@[i as int]);
            }
            return false;
        }
        i = i + 1;
    }
    proof {
        assert(v@.take(p@.len() as int) =~= p@);
    }
    true
}

impl std::str::FromStr for Url {
    type Err = InvalidUrl;

    /// Accepts a URL whose scheme is `http` or `https`.
    fn from_str(value: &str) -> (r: Result<Url, InvalidUrl>)
        ensures
            match r {
                Ok(u) => has_http_scheme(value@) && u@ == value@,
                Err(e) => !has_http_scheme(value@) && e.url@ == value@ && e.reason@
                    == "Missing protocol http or https"@,
            },
    {
        let v = chars_of(value);
        if has_prefix(&v, "http://") || has_prefix(&v, "https://") {
            Ok(Url { inner: value.to_owned() })
        } else {
            Err(InvalidUrl { url: value.to_owned(), reason: "Missing protocol http or https".to_owned() })
        }
    }
}

/// The address a response came from.
#[derive(Clone, Debug, PartialEq, Eq, Default)]
pub struct IpAddr {
    pub inner: String,
}

/// The certificate of a TLS server.
#[derive(Clone, Debug, PartialEq, Eq)]
pub struct Certificate {
    pub subject: String,
    pub issuer: String,
    pub start_date: String,
    pub expire_date: String,
    pub serial_number: String,
}

/// How long the phases of a transfer took.
#[derive(Clone, Copy, Debug, PartialEq, Eq, Default)]
pub struct Timings {
    pub name_lookup: Duration,
    pub connect: Duration,
    pub app_connect: Duration,
    pub pre_transfer: Duration,
    pub start_transfer: Duration,
    pub total: Duration,
}

#[derive(Clone, Debug, PartialEq, Eq)]
pub struct Request {
    pub url: Url,
    pub method: String,
    pub headers: HeaderVec,
    pub body: Vec<u8>,
}

#[derive(Debug, PartialEq, Eq)]
pub struct Response {
    pub version: HttpVersion,
    pub status: u32,
    pub headers: HeaderVec,
    pub body: Vec<u8>,
    pub duration: Duration,
    pub url: Url,
    pub certificate: Option<Certificate>,
    pub ip_addr: IpAddr,
}

/// A request and the response it got.
#[derive(Debug, PartialEq, Eq)]
pub struct Call {
    pub request: Request,
    pub response: Response,
    pub timings: Timings,
}

pub open spec fn digit_char(d: nat) -> char {
    ((d + 48) as u32) as char
}

/// The decimal digits of `n`.
pub open spec fn decimal(n: nat) -> Seq<char>
    decreases n,
{
    if n < 10 {
        seq![digit_char(n)]
    } else {
        decimal(n / 10).push(digit_char(n % 10))
    }
}

/// One `name: value` line per header, in order.
pub open spec fn header_lines(hs: Seq<Header>) -> Seq<char>
    decreases hs.len(),
{
    if hs.len() == 0 {
        Seq::empty()
    } else {
        header_lines(hs.drop_last()) + hs.last().name@ + ": "@ + hs.last().value@ + seq!['\n']
    }
}

/// The status line, the header lines and the empty line that ends them.
pub open spec fn head_text(r: Response) -> Seq<char> {
    version_text(r.version) + seq![' '] + decimal(r.status as nat) + seq!['\n'] + header_lines(r.headers.headers@)
        + seq!['\n']
}

/// The body as written: prettified when asked for (see `pretty_json`),
/// else as received.
pub open spec fn written_body(r: Response, prettify: bool) -> Seq<u8> {
    if prettify {
        pretty_json(r.body@)
    } else {
        r.body@
    }
}

/// What is written of a response: its head (UTF-8) when asked for, then
/// its body.
pub open spec fn response_bytes(r: Response, include_headers: bool, prettify: bool) -> Seq<u8> {
    if include_headers {
        encode_utf8(head_text(r)) + written_body(r, prettify)
    } else {
        written_body(r, prettify)
    }
}

fn append_chars(out: &mut Vec<char>, v: &Vec<char>)
    ensures
        final(out)@ == old(out)@ + v@,
{
    let mut i: usize = 0;
    while i < v.len()
        invariant
            i <= v.len(),
            out@ == old(out)@ + v@.take(i as int),
        decreases v.len() - i,
    {
        out.push(v[i]);
        proof {
            assert(v@.take(i + 1) =~= v@.take(i as int).push(v@[i as int]));
        }
        i = i + 1;
    }
    proof {
        assert(v@.take(i as int) =~= v@);
    }
}

fn append_str(out: &mut Vec<char>, s: &str)
    ensures
        final(out)@ == old(out)@ + s@,
{
    let v = chars_of(s);
    append_chars(out, &v);
}

fn push_decimal(n: u32, out: &mut Vec<char>)
    ensures
        final(out)@ == old(out)@ + decimal(n as nat),
    decreases n,
{
    if n >= 10 {
        push_decimal(n / 10, out);
    }
    let d = (n % 10) as u8;
    let c = (48u8 + d) as char;
    proof {
        assert(c == digit_char((n % 10) as nat));
    }
    let ghost before = out@;
    out.push(c);
    proof {
        if n >= 10 {
            assert(decimal(n as nat) == decimal((n / 10) as nat).push(digit_char((n % 10) as nat)));
        }
    }
}

fn append_bytes(out: &mut Vec<u8>, v: &[u8])
    ensures
        final(out)@ == old(out)@ + v@,
{
    let mut i: usize = 0;
    while i < v.len()
        invariant
            i <= v@.len(),
            out@ == old(out)@ + v@.take(i as int),
        decreases v@.len() - i,
    {
        out.push(v[i]);
        proof {
            assert(v@.take(i + 1) =~= v@.take(i as int).push(v@[i as int]));
        }
        i = i + 1;
    }
    proof {
        assert(v@.take(i as int) =~= v@);
    }
}

impl Response {
    /// The status line and header lines, ended by an empty line.
    pub fn head(&self) -> (s: String)
        ensures
            s@ == head_text(*self),
    {
        let mut out: Vec<char> = Vec::new();
        append_str(&mut out, self.version.to_str());
        out.push(' ');
        push_decimal(self.status, &mut out);
        out.push('\n');
        let ghost start = out@;
        let mut i: usize = 0;
        proof {
            assert(self.headers.headers@.take(0) =~= Seq::<Header>::empty());
            assert(start + header_lines(Seq::<Header>::empty()) =~= start);
        }
        while i < self.headers.headers.len()
            invariant
                i <= self.headers.headers@.len(),
                out@ == start + header_lines(self.headers.headers@.take(i as int)),
            decreases self.headers.headers@.len() - i,
        {
            let h = &self.headers.headers[i];
            append_str(&mut out, h.name.as_str());
            append_str(&mut out, ": ");
            append_str(&mut out, h.value.as_str());
            out.push('\n');
            proof {
                let hs = self.headers.headers@.take(i + 1);
                assert(hs.drop_last() =~= self.headers.headers@.take(i as int));
                assert(hs.last() == *h);
                assert(out@ =~= start + header_lines(hs));
            }
            i = i + 1;
        }
        out.push('\n');
        proof {
            assert(self.headers.headers@.take(i as int) =~= self.headers.headers@);
            assert(out@ =~= head_text(*self));
        }
        string_of(out.as_slice())
    }

    /// The bytes that writing this response produces (see `response_bytes`).
    pub fn output_bytes(&self, include_headers: bool, prettify: bool) -> (b: Vec<u8>)
        ensures
            b@ == response_bytes(*self, include_headers, prettify),
    {
        let mut out: Vec<u8> = Vec::new();
        if include_headers {
            let head = self.head();
            append_bytes(&mut out, head.as_str().as_bytes());
        }
        let ghost head_part = out@;
        if prettify {
            let body = prettify_json(&self.body);
            append_bytes(&mut out, body.as_slice());
        } else {
            append_bytes(&mut out, self.body.as_slice());
        }
        proof {
            if !include_headers {
                assert(out@ =~= written_body(*self, prettify));
            } else {
                assert(out@ =~= encode_utf8(head_text(*self)) + written_body(*self, prettify));
            }
        }
        out
    }
}

} // verus!
