//! The tokenized request head and the resolution of its target URL and
//! HTTP version.

use vstd::prelude::*;

use crate::ascii::{
    append_bytes, bytes_eq_ignore_case, bytes_start_with, eq_ignore_case, starts_with,
};
use crate::error::Error;

verus! {

/// One header field as the tokenizer found it.
#[derive(Debug, Clone)]
pub struct Header {
    pub name: Vec<u8>,
    pub value: Vec<u8>,
}

/// A request head as the tokenizer found it: each part is absent where
/// the tokenizer stopped before it.
#[derive(Debug, Clone)]
pub struct RawHead {
    pub method: Option<Vec<u8>>,
    pub path: Option<Vec<u8>>,
    pub version: Option<u8>,
    pub headers: Vec<Header>,
}

/// The HTTP versions a request may resolve to.
#[derive(Debug, Copy, Clone, PartialEq, Eq, Structural)]
pub enum HttpVersion {
    Http1_0,
    Http1_1,
}

/// What httparse makes of a buffer: `None` where it refuses it, else
/// whether the head is complete and the parts it found.
pub uninterp spec fn tokenized(buf: Seq<u8>, max_headers: nat) -> Option<(bool, RawHead)>;

/// Relies on `httparse::Request::parse`, with room for `max_headers`
/// fields; the parts found are copied out as bytes.
#[verifier::external_body]
fn httparse_tokenize(buf: &[u8], max_headers: usize) -> (r: Option<(bool, RawHead)>)
    ensures
        r == tokenized(buf@, max_headers as nat),
{
    let mut headers = vec![httparse::EMPTY_HEADER; max_headers];
    let mut req = httparse::Request::new(&mut headers);
    let status = req.parse(buf).ok()?;
    let headers = req.headers.iter().map(|h| Header { name: h.name.as_bytes().to_vec(), value: h.value.to_vec() });
    Some((status.is_complete(), RawHead {
        method: req.method.map(|m| m.as_bytes().to_vec()),
        path: req.path.map(|p| p.as_bytes().to_vec()),
        version: req.version,
        headers: headers.collect(),
    }))
}

/// Tokenizes a request head; `MalformedHead` where the tokenizer refuses
/// it. The flag tells whether the head was complete.
pub fn tokenize_head(buf: &[u8], max_headers: usize) -> (r: Result<(bool, RawHead), Error>)
    ensures
        tokenized(buf@, max_headers as nat) is None ==> r == Err::<(bool, RawHead), Error>(
            Error::MalformedHead,
        ),
        tokenized(buf@, max_headers as nat) matches Some(t) ==> r == Ok::<(bool, RawHead), Error>(t),
{
    match httparse_tokenize(buf, max_headers) {
        Some(t) => Ok(t),
        None => Err(Error::MalformedHead),
    }
}

/// The version a request resolves to. With a default host configured, an
/// absent version or version 0 is HTTP/1.0; without one it is refused as
/// `HostHeaderMissing`. Version 1 is HTTP/1.1; any other is unsupported.
pub open spec fn version_outcome(has_default_host: bool, version: Option<u8>) -> Result<
    HttpVersion,
    Error,
> {
    match version {
        Some(1) => Ok(HttpVersion::Http1_1),
        Some(0) | None => if has_default_host {
            Ok(HttpVersion::Http1_0)
        } else {
            Err(Error::HostHeaderMissing)
        },
        Some(v) => Err(Error::UnsupportedVersion(v)),
    }
}

pub fn resolve_version(has_default_host: bool, version: Option<u8>) -> (r: Result<HttpVersion, Error>)
    ensures
        r == version_outcome(has_default_host, version),
{
    match version {
        Some(1) => Ok(HttpVersion::Http1_1),
        Some(0) | None => if has_default_host {
            Ok(HttpVersion::Http1_0)
        } else {
            Err(Error::HostHeaderMissing)
        },
        Some(v) => Err(Error::UnsupportedVersion(v)),
    }
}

pub open spec fn name_host() -> Seq<u8> {
    seq![104u8, 111u8, 115u8, 116u8]
}

pub open spec fn scheme_http() -> Seq<u8> {
    seq![104u8, 116u8, 116u8, 112u8, 58u8, 47u8, 47u8]
}

pub open spec fn scheme_https() -> Seq<u8> {
    seq![104u8, 116u8, 116u8, 112u8, 115u8, 58u8, 47u8, 47u8]
}

pub open spec fn method_connect() -> Seq<u8> {
    seq![99u8, 111u8, 110u8, 110u8, 101u8, 99u8, 116u8]
}

/// The first index at or after `from` of a field named `name`, ignoring
/// ASCII case, or the number of fields.
pub open spec fn first_named(hs: Seq<Header>, name: Seq<u8>, from: int) -> int
    decreases hs.len() - from,
{
    if from >= hs.len() {
        hs.len() as int
    } else if eq_ignore_case(hs[from].name@, name) {
        from
    } else {
        first_named(hs, name, from + 1)
    }
}

/// The index of the last field named `name`, ignoring ASCII case, among
/// the first `n`; -1 where there is none.
pub open spec fn last_named(hs: Seq<Header>, name: Seq<u8>, n: int) -> int
    decreases n,
{
    if n <= 0 {
        -1
    } else if eq_ignore_case(hs[n - 1].name@, name) {
        n - 1
    } else {
        last_named(hs, name, n - 1)
    }
}

/// Finds the first field named `name`, ignoring ASCII case.
pub fn find_first(hs: &Vec<Header>, name: &[u8]) -> (r: usize)
    ensures
        r == first_named(hs@, name@, 0),
        r <= hs@.len(),
{
    let mut k: usize = 0;
    while k < hs.len()
        invariant
            k <= hs@.len(),
            first_named(hs@, name@, 0) == first_named(hs@, name@, k as int),
        decreases hs@.len() - k,
    {
        if bytes_eq_ignore_case(hs[k].name.as_slice(), name) {
            return k;
        }
        k = k + 1;
    }
    k
}

/// Finds the last field named `name`, ignoring ASCII case.
pub fn find_last(hs: &Vec<Header>, name: &[u8]) -> (r: Option<usize>)
    ensures
        r is None ==> last_named(hs@, name@, hs@.len() as int) == -1,
        r matches Some(i) ==> i == last_named(hs@, name@, hs@.len() as int) && i < hs@.len(),
{
    let mut n: usize = hs.len();
    while n > 0
        invariant
            n <= hs@.len(),
            last_named(hs@, name@, hs@.len() as int) == last_named(hs@, name@, n as int),
        decreases n,
    {
        if bytes_eq_ignore_case(hs[n - 1].name.as_slice(), name) {
            return Some(n - 1);
        }
        n = n - 1;
    }
    None
}

/// The URL of a request-target. An absolute-form target is the URL
/// itself; an origin-form target follows `http://` and the host; with
/// `CONNECT` the target is an authority, giving `http://{target}/`.
/// `None` for any other target.
pub open spec fn target_url(method: Seq<u8>, path: Seq<u8>, host: Seq<u8>) -> Option<Seq<u8>> {
    if starts_with(path, scheme_http()) || starts_with(path, scheme_https()) {
        Some(path)
    } else if path.len() > 0 && path[0] == 47u8 {
        Some(scheme_http() + host + path)
    } else if eq_ignore_case(method, method_connect()) {
        Some(scheme_http() + path + seq![47u8])
    } else {
        None
    }
}

/// The host that a request names: the value of its first `Host` field,
/// else the default host. `Err` where the value is not UTF-8, or where
/// there is neither.
pub open spec fn host_outcome(hs: Seq<Header>, default_host: Option<Seq<u8>>) -> Result<
    Seq<u8>,
    Error,
> {
    let i = first_named(hs, name_host(), 0);
    if i < hs.len() {
        if vstd::utf8::valid_utf8(hs[i].value@) {
            Ok(hs[i].value@)
        } else {
            Err(Error::InvalidUtf8)
        }
    } else {
        match default_host {
            Some(h) => Ok(h),
            None => Err(Error::HostHeaderMissing),
        }
    }
}

pub open spec fn opt_bytes(o: Option<Vec<u8>>) -> Seq<u8> {
    match o {
        Some(v) => v@,
        None => Seq::empty(),
    }
}

/// Whether the URL parser of http-types accepts a URL text.
pub uninterp spec fn url_valid(s: Seq<u8>) -> bool;

/// Relies on `http_types::Url::parse` (the `url` crate's parser): the
/// result depends on the text alone.
#[verifier::external_body]
fn url_parses(s: &[u8]) -> (r: bool)
    ensures
        r == url_valid(s@),
{
    match std::str::from_utf8(s) {
        Ok(t) => http_types::Url::parse(t).is_ok(),
        Err(_) => false,
    }
}

/// A URL text that the parser accepts, or `InvalidUrl`.
pub open spec fn url_result(u: Seq<u8>) -> Result<Seq<u8>, Error> {
    if url_valid(u) {
        Ok(u)
    } else {
        Err(Error::InvalidUrl)
    }
}

/// The absolute URL a tokenized head resolves to, or why it resolves to
/// none.
pub open spec fn url_outcome(req: RawHead, default_host: Option<Seq<u8>>) -> Result<Seq<u8>, Error> {
    match req.path {
        None => Err(Error::RequestPathMissing),
        Some(p) => match host_outcome(req.headers@, default_host) {
            Err(e) => Err(e),
            Ok(host) => match target_url(opt_bytes(req.method), p@, host) {
                Some(u) => url_result(u),
                None => Err(Error::UnexpectedURIFormat),
            },
        },
    }
}

pub open spec fn opt_view(o: Option<&[u8]>) -> Option<Seq<u8>> {
    match o {
        Some(s) => Some(s@),
        None => None,
    }
}

/// Relies on `std::str::from_utf8`, which accepts exactly the valid UTF-8
/// byte strings.
#[verifier::external_body]
pub(crate) fn is_utf8(b: &[u8]) -> (r: bool)
    ensures
        r == vstd::utf8::valid_utf8(b@),
{
    std::str::from_utf8(b).is_ok()
}

fn checked_url(out: Vec<u8>) -> (r: Result<Vec<u8>, Error>)
    ensures
        url_result(out@) matches Ok(u) ==> r matches Ok(v) && v@ == u,
        url_result(out@) matches Err(e) ==> r == Err::<Vec<u8>, Error>(e),
{
    if url_parses(out.as_slice()) {
        Ok(out)
    } else {
        Err(Error::InvalidUrl)
    }
}

/// Resolves the absolute URL of a request from its target, its method
/// and its host (the first `Host` field, else `default_host`).
pub fn url_from_httparse_req(req: &RawHead, default_host: Option<&[u8]>) -> (r: Result<Vec<u8>, Error>)
    ensures
        url_outcome(*req, opt_view(default_host)) matches Ok(u) ==> r matches Ok(v) && v@ == u,
        url_outcome(*req, opt_view(default_host)) matches Err(e) ==> r == Err::<Vec<u8>, Error>(e),
{
    let path = match &req.path {
        Some(p) => p,
        None => {
            return Err(Error::RequestPathMissing);
        },
    };
    let host_name: [u8; 4] = [104u8, 111u8, 115u8, 116u8];
    assert(host_name@ =~= name_host());
    let i = find_first(&req.headers, host_name.as_slice());
    let host: &[u8] = if i < req.headers.len() {
        let v = req.headers[i].value.as_slice();
        if !is_utf8(v) {
            return Err(Error::InvalidUtf8);
        }
        v
    } else {
        match default_host {
            Some(h) => h,
            None => {
                return Err(Error::HostHeaderMissing);
            },
        }
    };
    let http: [u8; 7] = [104u8, 116u8, 116u8, 112u8, 58u8, 47u8, 47u8];
    let https: [u8; 8] = [104u8, 116u8, 116u8, 112u8, 115u8, 58u8, 47u8, 47u8];
    let connect: [u8; 7] = [99u8, 111u8, 110u8, 110u8, 101u8, 99u8, 116u8];
    assert(http@ =~= scheme_http());
    assert(https@ =~= scheme_https());
    assert(connect@ =~= method_connect());
    let empty: [u8; 0] = [];
    let method: &[u8] = match &req.method {
        Some(m) => m.as_slice(),
        None => empty.as_slice(),
    };
    assert(method@ == opt_bytes(req.method));
    let mut out: Vec<u8> = Vec::new();
    if bytes_start_with(path.as_slice(), http.as_slice()) || bytes_start_with(
        path.as_slice(),
        https.as_slice(),
    ) {
        append_bytes(&mut out, path.as_slice());
        assert(out@ =~= path@);
        checked_url(out)
    } else if path.len() > 0 && path[0] == 47u8 {
        append_bytes(&mut out, http.as_slice());
        append_bytes(&mut out, host);
        append_bytes(&mut out, path.as_slice());
        assert(out@ =~= scheme_http() + host@ + path@);
        checked_url(out)
    } else if bytes_eq_ignore_case(method, connect.as_slice()) {
        append_bytes(&mut out, http.as_slice());
        append_bytes(&mut out, path.as_slice());
        out.push(47u8);
        assert(out@ =~= scheme_http() + path@ + seq![47u8]);
        checked_url(out)
    } else {
        Err(Error::UnexpectedURIFormat)
    }
}

/// An origin-form target, one that starts with `/`, resolves to
/// `http://`, the host, then the target verbatim: repeated leading
/// slashes, query and fragment included; it stands where the URL parser
/// accepts it.
pub proof fn lemma_origin_form(req: RawHead, default_host: Option<Seq<u8>>, host: Seq<u8>)
    requires
        req.path matches Some(p) && p@.len() > 0 && p@[0] == 47u8,
        host_outcome(req.headers@, default_host) == Ok::<Seq<u8>, Error>(host),
    ensures
        url_outcome(req, default_host) == url_result(scheme_http() + host + req.path->Some_0@),
{
    let p = req.path->Some_0@;
    assert(!starts_with(p, scheme_http())) by {
        if starts_with(p, scheme_http()) {
            assert(p.subrange(0, 7)[0] == p[0]);
        }
    }
    assert(!starts_with(p, scheme_https())) by {
        if starts_with(p, scheme_https()) {
            assert(p.subrange(0, 8)[0] == p[0]);
        }
    }
}

/// An absolute-form target is the URL itself, whatever host the request
/// names, where the URL parser accepts it.
pub proof fn lemma_absolute_form(req: RawHead, default_host: Option<Seq<u8>>)
    requires
        req.path matches Some(p) && (starts_with(p@, scheme_http()) || starts_with(p@, scheme_https())),
        host_outcome(req.headers@, default_host) is Ok,
    ensures
        url_outcome(req, default_host) == url_result(req.path->Some_0@),
{
}

/// With `CONNECT`, a target of neither of the other forms is an authority
/// and resolves to `http://{target}/`, whatever host the request names,
/// where the URL parser accepts it.
pub proof fn lemma_authority_form(req: RawHead, default_host: Option<Seq<u8>>)
    requires
        req.method matches Some(m) && eq_ignore_case(m@, method_connect()),
        req.path matches Some(p) && !starts_with(p@, scheme_http()) && !starts_with(
            p@,
            scheme_https(),
        ) && !(p@.len() > 0 && p@[0] == 47u8),
        host_outcome(req.headers@, default_host) is Ok,
    ensures
        url_outcome(req, default_host) == url_result(scheme_http() + req.path->Some_0@ + seq![47u8]),
{
}

/// A target of no form that applies is refused as `UnexpectedURIFormat`.
pub proof fn lemma_unexpected_form(req: RawHead, default_host: Option<Seq<u8>>)
    requires
        !(req.method matches Some(m) && eq_ignore_case(m@, method_connect())),
        req.path matches Some(p) && !starts_with(p@, scheme_http()) && !starts_with(
            p@,
            scheme_https(),
        ) && !(p@.len() > 0 && p@[0] == 47u8),
        host_outcome(req.headers@, default_host) is Ok,
    ensures
        url_outcome(req, default_host) == Err::<Seq<u8>, Error>(Error::UnexpectedURIFormat),
{
    if req.method is None {
        assert(!eq_ignore_case(opt_bytes(req.method), method_connect()));
    }
}

} // verus!
