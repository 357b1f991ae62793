//! Decoding of a complete request head: method, version, URL and body
//! framing.

use vstd::prelude::*;

use crate::ascii::{bytes_eq_ignore_case, eq_ignore_case, trim_ws, trimmed};
use crate::error::Error;
use crate::options::ServerOptions;
use crate::request::{
    find_first, find_last, first_named, is_utf8, last_named, opt_view, resolve_version,
    tokenize_head, tokenized, url_from_httparse_req, url_outcome, version_outcome, Header,
    HttpVersion, RawHead,
};
use crate::MAX_HEADERS;

verus! {

/// `http_types::Method`, carried through as an opaque value.
#[verifier::external_type_specification]
#[verifier::external_body]
pub struct ExMethod(http_types::Method);

/// Whether http-types recognises a method token.
pub uninterp spec fn method_known(m: Seq<u8>) -> bool;

/// Relies on `http_types::Method::from_str`, which recognises the
/// registered method names, ignoring ASCII case.
#[verifier::external_body]
fn parse_method(m: &[u8]) -> (r: Option<http_types::Method>)
    ensures
        r is Some <==> method_known(m@),
{
    std::str::from_utf8(m).ok()?.parse().ok()
}

/// How the body of a request is delimited.
#[derive(Debug, Copy, Clone, PartialEq, Eq, Structural)]
pub enum BodyFraming {
    /// No body.
    Empty,
    /// Exactly this many bytes.
    Fixed(u64),
    /// Chunked transfer encoding.
    Chunked,
}

/// A decoded request head.
#[derive(Debug)]
pub struct RequestHead {
    pub method: http_types::Method,
    /// The method as it was sent.
    pub method_token: Vec<u8>,
    /// The resolved absolute URL.
    pub url: Vec<u8>,
    pub version: HttpVersion,
    pub headers: Vec<Header>,
    pub framing: BodyFraming,
    /// Whether the client waits for `100 Continue` before its body.
    pub expect_continue: bool,
}

/// The number a string of decimal digits spells.
pub open spec fn digits_value(s: Seq<u8>) -> nat
    decreases s.len(),
{
    if s.len() == 0 {
        0
    } else {
        digits_value(s.drop_last()) * 10 + (s.last() - 48) as nat
    }
}

pub open spec fn all_digits(s: Seq<u8>) -> bool {
    forall|i: int| 0 <= i < s.len() ==> 48u8 <= #[trigger] s[i] && s[i] <= 57u8
}

/// The value of a decimal number with an optional `+`, where it fits in
/// 64 bits.
pub open spec fn decimal(s: Seq<u8>) -> Option<u64> {
    let d = if s.len() > 0 && s[0] == 43u8 {
        s.drop_first()
    } else {
        s
    };
    if d.len() > 0 && all_digits(d) && digits_value(d) <= u64::MAX {
        Some(digits_value(d) as u64)
    } else {
        None
    }
}

proof fn lemma_prefix_value(s: Seq<u8>, k: int)
    requires
        0 <= k <= s.len(),
        all_digits(s),
    ensures
        digits_value(s.subrange(0, k)) <= digits_value(s),
    decreases s.len(),
{
    if k < s.len() {
        let t = s.drop_last();
        assert(t.subrange(0, k) =~= s.subrange(0, k));
        assert(all_digits(t));
        lemma_prefix_value(t, k);
    } else {
        assert(s.subrange(0, k) =~= s);
    }
}

/// Reads a content length: a decimal number between optional ASCII
/// whitespace.
pub fn parse_content_length(v: &[u8]) -> (r: Option<u64>)
    ensures
        r == decimal(trimmed(v@)),
{
    let t = trim_ws(v);
    assert(t@ == trimmed(v@));
    let start: usize = if t.len() > 0 && t[0] == 43u8 {
        1
    } else {
        0
    };
    let ghost d = if t@.len() > 0 && t@[0] == 43u8 {
        t@.drop_first()
    } else {
        t@
    };
    assert(d =~= t@.subrange(start as int, t@.len() as int));
    if start >= t.len() {
        return None;
    }
    let mut acc: u64 = 0;
    let mut k: usize = start;
    while k < t.len()
        invariant
            start <= k <= t@.len(),
            t@ == trimmed(v@),
            d == (if t@.len() > 0 && t@[0] == 43u8 {
                t@.drop_first()
            } else {
                t@
            }),
            d =~= t@.subrange(start as int, t@.len() as int),
            all_digits(t@.subrange(start as int, k as int)),
            acc == digits_value(t@.subrange(start as int, k as int)),
        decreases t@.len() - k,
    {
        let c = t[k];
        let ghost pre = t@.subrange(start as int, k as int);
        let ghost next = t@.subrange(start as int, k + 1);
        assert(next.drop_last() =~= pre);
        assert(next.last() == c);
        assert(digits_value(next) == digits_value(pre) * 10 + (c - 48) as nat);
        if c < 48u8 || c > 57u8 {
            assert(d[(k - start) as int] == t@[k as int]);
            assert(!all_digits(d));
            return None;
        }
        let m = acc.checked_mul(10);
        match m {
            None => {
                proof {
                    assert(all_digits(next));
                    assert(digits_value(next) > u64::MAX);
                    if all_digits(d) {
                        assert(d.subrange(0, k + 1 - start) =~= next);
                        lemma_prefix_value(d, k + 1 - start);
                    }
                }
                return None;
            },
            Some(m) => {
                let s = m.checked_add((c - 48u8) as u64);
                match s {
                    None => {
                        proof {
                            assert(all_digits(next));
                            if all_digits(d) {
                                assert(d.subrange(0, k + 1 - start) =~= next);
                                lemma_prefix_value(d, k + 1 - start);
                            }
                        }
                        return None;
                    },
                    Some(s) => {
                        acc = s;
                    },
                }
            },
        }
        assert(all_digits(next));
        k = k + 1;
    }
    assert(t@.subrange(start as int, k as int) =~= d);
    Some(acc)
}

pub open spec fn name_content_length() -> Seq<u8> {
    seq![99u8, 111u8, 110u8, 116u8, 101u8, 110u8, 116u8, 45u8, 108u8, 101u8, 110u8, 103u8, 116u8, 104u8]
}

pub open spec fn name_transfer_encoding() -> Seq<u8> {
    seq![116u8, 114u8, 97u8, 110u8, 115u8, 102u8, 101u8, 114u8, 45u8, 101u8, 110u8, 99u8, 111u8, 100u8, 105u8, 110u8, 103u8]
}

pub open spec fn name_expect() -> Seq<u8> {
    seq![101u8, 120u8, 112u8, 101u8, 99u8, 116u8]
}

pub open spec fn token_chunked() -> Seq<u8> {
    seq![99u8, 104u8, 117u8, 110u8, 107u8, 101u8, 100u8]
}

pub open spec fn token_continue() -> Seq<u8> {
    seq![49u8, 48u8, 48u8, 45u8, 99u8, 111u8, 110u8, 116u8, 105u8, 110u8, 117u8, 101u8]
}

/// The body framing of a request with these header fields. A
/// `Content-Length` beside a `Transfer-Encoding` is refused, whatever
/// their values; otherwise the last `Content-Length` gives the length. A first `Transfer-Encoding` of `chunked`
/// means a chunked body; without either field there is no body.
pub open spec fn framing_outcome(hs: Seq<Header>) -> Result<BodyFraming, Error> {
    let cl = last_named(hs, name_content_length(), hs.len() as int);
    let te = first_named(hs, name_transfer_encoding(), 0);
    if cl >= 0 && te < hs.len() {
        Err(Error::ConflictingFraming)
    } else if cl >= 0 && decimal(trimmed(hs[cl].value@)) is None {
        Err(Error::MalformedContentLength)
    } else if te < hs.len() && eq_ignore_case(hs[te].value@, token_chunked()) {
        Ok(BodyFraming::Chunked)
    } else if cl >= 0 {
        Ok(BodyFraming::Fixed(decimal(trimmed(hs[cl].value@))->Some_0))
    } else {
        Ok(BodyFraming::Empty)
    }
}

/// Whether the first `Expect` field is exactly `100-continue`.
pub open spec fn expects_continue(hs: Seq<Header>) -> bool {
    let i = first_named(hs, name_expect(), 0);
    i < hs.len() && hs[i].value@ == token_continue()
}

/// Chooses how the body of a request is delimited.
pub fn select_framing(hs: &Vec<Header>) -> (r: Result<BodyFraming, Error>)
    ensures
        r == framing_outcome(hs@),
{
    let cl_name: [u8; 14] = [99u8, 111u8, 110u8, 116u8, 101u8, 110u8, 116u8, 45u8, 108u8, 101u8, 110u8, 103u8, 116u8, 104u8];
    let te_name: [u8; 17] = [116u8, 114u8, 97u8, 110u8, 115u8, 102u8, 101u8, 114u8, 45u8, 101u8, 110u8, 99u8, 111u8, 100u8, 105u8, 110u8, 103u8];
    let chunked: [u8; 7] = [99u8, 104u8, 117u8, 110u8, 107u8, 101u8, 100u8];
    assert(cl_name@ =~= name_content_length());
    assert(te_name@ =~= name_transfer_encoding());
    assert(chunked@ =~= token_chunked());
    let cl = find_last(hs, cl_name.as_slice());
    let te = find_first(hs, te_name.as_slice());
    if cl.is_some() && te < hs.len() {
        return Err(Error::ConflictingFraming);
    }
    let len: Option<u64> = match cl {
        Some(i) => match parse_content_length(hs[i].value.as_slice()) {
            Some(n) => Some(n),
            None => {
                return Err(Error::MalformedContentLength);
            },
        },
        None => None,
    };
    if te < hs.len() && bytes_eq_ignore_case(hs[te].value.as_slice(), chunked.as_slice()) {
        return Ok(BodyFraming::Chunked);
    }
    match len {
        Some(n) => Ok(BodyFraming::Fixed(n)),
        None => Ok(BodyFraming::Empty),
    }
}

/// Whether the client asked to be told to go on before sending its body.
pub fn expect_continue(hs: &Vec<Header>) -> (r: bool)
    ensures
        r == expects_continue(hs@),
{
    let name: [u8; 6] = [101u8, 120u8, 112u8, 101u8, 99u8, 116u8];
    let token: [u8; 12] = [49u8, 48u8, 48u8, 45u8, 99u8, 111u8, 110u8, 116u8, 105u8, 110u8, 117u8, 101u8];
    assert(name@ =~= name_expect());
    assert(token@ =~= token_continue());
    let i = find_first(hs, name.as_slice());
    if i >= hs.len() {
        return false;
    }
    let v = hs[i].value.as_slice();
    if v.len() != 12 {
        return false;
    }
    let mut k: usize = 0;
    while k < 12
        invariant
            v@.len() == 12,
            token@ == token_continue(),
            i < hs@.len(),
            i == first_named(hs@, name_expect(), 0),
            v@ == hs@[i as int].value@,
            k <= 12,
            forall|j: int| 0 <= j < k ==> v@[j] == token@[j],
        decreases 12 - k,
    {
        if v[k] != token[k] {
            assert(v@[k as int] != token_continue()[k as int]);
            return false;
        }
        k = k + 1;
    }
    assert(v@ =~= token@);
    true
}

/// Whether every field value is UTF-8.
pub open spec fn all_utf8(hs: Seq<Header>) -> bool {
    forall|i: int| 0 <= i < hs.len() ==> vstd::utf8::valid_utf8(#[trigger] hs[i].value@)
}

fn check_utf8(hs: &Vec<Header>) -> (r: bool)
    ensures
        r == all_utf8(hs@),
{
    let mut k: usize = 0;
    while k < hs.len()
        invariant
            k <= hs@.len(),
            forall|i: int| 0 <= i < k ==> vstd::utf8::valid_utf8(#[trigger] hs@[i].value@),
        decreases hs@.len() - k,
    {
        if !is_utf8(hs[k].value.as_slice()) {
            return false;
        }
        k = k + 1;
    }
    true
}

/// What a tokenized head decodes to, short of the method itself: the URL,
/// the version and the framing, or the first reason to refuse it. The
/// method is checked first, then the version, the URL, the UTF-8 of the
/// field values and the framing.
pub open spec fn head_outcome(raw: RawHead, default_host: Option<Seq<u8>>) -> Result<
    (Seq<u8>, HttpVersion, BodyFraming),
    Error,
> {
    match raw.method {
        None => Err(Error::MissingMethod),
        Some(m) => if !method_known(m@) {
            Err(Error::UnrecognizedMethod(m))
        } else {
            match version_outcome(default_host is Some, raw.version) {
                Err(e) => Err(e),
                Ok(ver) => match url_outcome(raw, default_host) {
                    Err(e) => Err(e),
                    Ok(u) => if !all_utf8(raw.headers@) {
                        Err(Error::InvalidUtf8)
                    } else {
                        match framing_outcome(raw.headers@) {
                            Err(e) => Err(e),
                            Ok(f) => Ok((u, ver, f)),
                        }
                    },
                },
            }
        },
    }
}

/// Whether a decoded head is the one a tokenized head resolves to.
pub open spec fn decoded_as(h: RequestHead, raw: RawHead, out: (Seq<u8>, HttpVersion, BodyFraming)) -> bool {
    &&& raw.method == Some(h.method_token)
    &&& h.url@ == out.0
    &&& h.version == out.1
    &&& h.framing == out.2
    &&& h.headers == raw.headers
    &&& h.expect_continue == expects_continue(raw.headers@)
}

/// Decodes a tokenized request head.
pub fn decode_parsed(raw: RawHead, default_host: Option<&[u8]>) -> (r: Result<RequestHead, Error>)
    ensures
        head_outcome(raw, opt_view(default_host)) matches Err(e) ==> r == Err::<RequestHead, Error>(e),
        head_outcome(raw, opt_view(default_host)) matches Ok(out) ==> r matches Ok(h) && decoded_as(h, raw, out),
{
    let ghost raw0 = raw;
    let method = match parse_method(match &raw.method {
        Some(m) => m.as_slice(),
        None => {
            return Err(Error::MissingMethod);
        },
    }) {
        Some(m) => m,
        None => {
            return Err(Error::UnrecognizedMethod(raw.method.unwrap()));
        },
    };
    let version = match resolve_version(default_host.is_some(), raw.version) {
        Ok(v) => v,
        Err(e) => {
            return Err(e);
        },
    };
    let url = match url_from_httparse_req(&raw, default_host) {
        Ok(u) => u,
        Err(e) => {
            return Err(e);
        },
    };
    if !check_utf8(&raw.headers) {
        return Err(Error::InvalidUtf8);
    }
    let framing = match select_framing(&raw.headers) {
        Ok(f) => f,
        Err(e) => {
            return Err(e);
        },
    };
    let expect_continue = expect_continue(&raw.headers);
    Ok(RequestHead {
        method,
        method_token: raw.method.unwrap(),
        url,
        version,
        headers: raw.headers,
        framing,
        expect_continue,
    })
}

/// What a complete head in `buf` decodes to under a default host.
pub open spec fn decode_outcome(buf: Seq<u8>, default_host: Option<Seq<u8>>) -> Result<
    (Seq<u8>, HttpVersion, BodyFraming),
    Error,
> {
    match tokenized(buf, MAX_HEADERS as nat) {
        None => Err(Error::MalformedHead),
        Some((complete, raw)) => if !complete {
            Err(Error::PartialHead)
        } else {
            head_outcome(raw, default_host)
        },
    }
}

/// Decodes a request head, as gathered by a `HeadReader`: tokenizes it,
/// then resolves its method, version, URL and body framing.
pub fn decode(buf: &[u8], opts: &ServerOptions) -> (r: Result<RequestHead, Error>)
    ensures
        tokenized(buf@, MAX_HEADERS as nat) is None ==> r == Err::<RequestHead, Error>(Error::MalformedHead),
        tokenized(buf@, MAX_HEADERS as nat) matches Some((complete, raw)) ==> {
            if !complete {
                r == Err::<RequestHead, Error>(Error::PartialHead)
            } else {
                &&& head_outcome(raw, opts.spec_default_host()) matches Err(e) ==> r == Err::<RequestHead, Error>(e)
                &&& head_outcome(raw, opts.spec_default_host()) matches Ok(out) ==> r matches Ok(h) && decoded_as(h, raw, out)
            }
        },
{
    let (complete, raw) = match tokenize_head(buf, MAX_HEADERS) {
        Ok(t) => t,
        Err(e) => {
            return Err(e);
        },
    };
    if !complete {
        return Err(Error::PartialHead);
    }
    decode_parsed(raw, opts.default_host())
}

/// Decoding is a function of the bytes: two decodings of the same head
/// under the same options agree on the outcome, and on every part of the
/// decoded request that is not an opaque method value.
pub proof fn lemma_decode_idempotent(
    buf: &[u8],
    opts: &ServerOptions,
    r1: Result<RequestHead, Error>,
    r2: Result<RequestHead, Error>,
)
    requires
        decode.ensures((buf, opts), r1),
        decode.ensures((buf, opts), r2),
    ensures
        r1 is Ok <==> r2 is Ok,
        r1 matches Err(e) ==> r2 == Err::<RequestHead, Error>(e),
        r1 matches Ok(h1) ==> r2 matches Ok(h2) && h1.method_token == h2.method_token
            && h1.url@ == h2.url@ && h1.version == h2.version && h1.framing == h2.framing
            && h1.headers == h2.headers && h1.expect_continue == h2.expect_continue,
{
}

/// A request with both a `Content-Length` and a `Transfer-Encoding` field
/// has conflicting framing, whatever their values; once its method,
/// version, URL and field encoding have passed, decoding refuses it so.
pub proof fn lemma_framing_conflict(raw: RawHead, default_host: Option<Seq<u8>>, i: int, j: int)
    requires
        0 <= i < raw.headers@.len(),
        0 <= j < raw.headers@.len(),
        eq_ignore_case(raw.headers@[i].name@, name_content_length()),
        eq_ignore_case(raw.headers@[j].name@, name_transfer_encoding()),
    ensures
        framing_outcome(raw.headers@) == Err::<BodyFraming, Error>(Error::ConflictingFraming),
        raw.method matches Some(m) && method_known(m@) && version_outcome(
            default_host is Some,
            raw.version,
        ) is Ok && url_outcome(raw, default_host) is Ok && all_utf8(raw.headers@)
            ==> head_outcome(raw, default_host) == Err::<(Seq<u8>, HttpVersion, BodyFraming), Error>(
            Error::ConflictingFraming,
        ),
{
    lemma_last_named_found(raw.headers@, name_content_length(), raw.headers@.len() as int, i);
    lemma_first_named_found(raw.headers@, name_transfer_encoding(), 0, j);
}

proof fn lemma_last_named_found(hs: Seq<Header>, name: Seq<u8>, n: int, i: int)
    requires
        0 <= i < n <= hs.len(),
        eq_ignore_case(hs[i].name@, name),
    ensures
        i <= last_named(hs, name, n) < n,
    decreases n,
{
    if !eq_ignore_case(hs[n - 1].name@, name) {
        lemma_last_named_found(hs, name, n - 1, i);
    }
}

proof fn lemma_first_named_found(hs: Seq<Header>, name: Seq<u8>, from: int, j: int)
    requires
        0 <= from <= j < hs.len(),
        eq_ignore_case(hs[j].name@, name),
    ensures
        from <= first_named(hs, name, from) <= j,
    decreases j - from,
{
    if !eq_ignore_case(hs[from].name@, name) {
        lemma_first_named_found(hs, name, from + 1, j);
    }
}

} // verus!
