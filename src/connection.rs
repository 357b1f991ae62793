//! The per-request decisions of a connection: whether it is kept alive,
//! whether it is upgraded, and the `Connection` header of the response.

use vstd::prelude::*;

use crate::ascii::{
    append_bytes, bytes_eq_ignore_case, eq_ignore_case, lower, lower_byte, slice_range, trim_ws,
    trimmed,
};
use crate::error::Error;
use crate::request::{find_first, first_named, Header, HttpVersion};
use crate::ConnectionStatus;

verus! {

/// The `Connection` token a response carries.
#[derive(Debug, Copy, Clone, PartialEq, Eq, Structural)]
pub enum KeepAlive {
    KeepAlive,
    Close,
}

impl KeepAlive {
    pub open spec fn spec_token(self) -> Seq<u8> {
        match self {
            KeepAlive::KeepAlive => seq![107u8, 101u8, 101u8, 112u8, 45u8, 97u8, 108u8, 105u8, 118u8, 101u8],
            KeepAlive::Close => seq![99u8, 108u8, 111u8, 115u8, 101u8],
        }
    }

    /// The token as bytes: `keep-alive` or `close`.
    pub fn token(self) -> (r: Vec<u8>)
        ensures
            r@ == self.spec_token(),
    {
        let r = match self {
            KeepAlive::KeepAlive => vec![107u8, 101u8, 101u8, 112u8, 45u8, 97u8, 108u8, 105u8, 118u8, 101u8],
            KeepAlive::Close => vec![99u8, 108u8, 111u8, 115u8, 101u8],
        };
        assert(r@ =~= self.spec_token());
        r
    }
}

pub open spec fn lowered(s: Seq<u8>) -> Seq<u8> {
    Seq::new(s.len(), |i: int| lower(s[i]))
}

/// Whether `p` occurs in `s` at index `i`.
pub open spec fn occurs_at(s: Seq<u8>, p: Seq<u8>, i: int) -> bool {
    0 <= i && i + p.len() <= s.len() && s.subrange(i, i + p.len()) == p
}

pub open spec fn contains(s: Seq<u8>, p: Seq<u8>) -> bool {
    exists|i: int| occurs_at(s, p, i)
}

pub fn lowercase(s: &[u8]) -> (r: Vec<u8>)
    ensures
        r@ == lowered(s@),
{
    let mut out: Vec<u8> = Vec::new();
    let mut k: usize = 0;
    while k < s.len()
        invariant
            k <= s@.len(),
            out@ == lowered(s@.subrange(0, k as int)),
        decreases s@.len() - k,
    {
        out.push(lower_byte(s[k]));
        assert(out@ =~= lowered(s@.subrange(0, k + 1)));
        k = k + 1;
    }
    assert(s@.subrange(0, s@.len() as int) =~= s@);
    out
}

fn occurs_at_exec(s: &[u8], p: &[u8], i: usize) -> (r: bool)
    requires
        i + p@.len() <= s@.len(),
    ensures
        r == occurs_at(s@, p@, i as int),
{
    let n: usize = s.len();
    let mut k: usize = 0;
    while k < p.len()
        invariant
            i + p@.len() <= s@.len(),
            n == s@.len(),
            k <= p@.len(),
            forall|j: int| 0 <= j < k ==> s@[i + j] == p@[j],
        decreases p@.len() - k,
    {
        if s[i + k] != p[k] {
            assert(s@.subrange(i as int, i + p@.len())[k as int] != p@[k as int]);
            return false;
        }
        k = k + 1;
    }
    assert(s@.subrange(i as int, i + p@.len()) =~= p@);
    true
}

/// Whether `p` occurs anywhere in `s`.
pub fn bytes_contain(s: &[u8], p: &[u8]) -> (r: bool)
    ensures
        r == contains(s@, p@),
{
    if p.len() > s.len() {
        return false;
    }
    if p.len() == 0 {
        assert(s@.subrange(0, 0) =~= p@);
        assert(occurs_at(s@, p@, 0));
        return true;
    }
    let n: usize = s.len();
    let last: usize = n - p.len();
    let mut i: usize = 0;
    while i <= last
        invariant
            p@.len() <= s@.len(),
            last == s@.len() - p@.len(),
            p@.len() > 0,
            s@.len() <= usize::MAX,
            i <= last + 1,
            forall|j: int| 0 <= j < i ==> !occurs_at(s@, p@, j),
        decreases last + 1 - i,
    {
        if occurs_at_exec(s, p, i) {
            return true;
        }
        i = i + 1;
    }
    assert forall|j: int| !occurs_at(s@, p@, j) by {
        if 0 <= j && j + p@.len() <= s@.len() {
            assert(j < i);
        }
    }
    false
}

pub open spec fn token_keep_alive() -> Seq<u8> {
    KeepAlive::KeepAlive.spec_token()
}

pub open spec fn token_close() -> Seq<u8> {
    KeepAlive::Close.spec_token()
}

/// The keep-alive decision for a request whose first `Connection` value
/// is `c` (empty where it has none): `keep-alive` where the value is that
/// token or one item of its comma-separated list is, `close` where it
/// mentions `close`,
/// and otherwise the default of the version (kept alive for HTTP/1.1,
/// closed for HTTP/1.0). Case is ignored throughout.
pub open spec fn keep_alive_of(c: Seq<u8>, version: HttpVersion) -> KeepAlive {
    let l = lowered(c);
    if l == token_keep_alive() || lists_item(l, token_keep_alive(), 0) {
        KeepAlive::KeepAlive
    } else if l == token_close() || contains(l, token_close()) {
        KeepAlive::Close
    } else {
        match version {
            HttpVersion::Http1_1 => KeepAlive::KeepAlive,
            HttpVersion::Http1_0 => KeepAlive::Close,
        }
    }
}

/// Decides whether a request asks for its connection to be kept alive.
pub fn keep_alive_for(connection: &[u8], version: HttpVersion) -> (r: KeepAlive)
    ensures
        r == keep_alive_of(connection@, version),
{
    let l = lowercase(connection);
    let ka = KeepAlive::KeepAlive.token();
    let close = KeepAlive::Close.token();
    if bytes_equal(l.as_slice(), ka.as_slice()) || list_has_item(l.as_slice(), ka.as_slice()) {
        KeepAlive::KeepAlive
    } else if bytes_equal(l.as_slice(), close.as_slice()) || bytes_contain(l.as_slice(), close.as_slice()) {
        KeepAlive::Close
    } else {
        match version {
            HttpVersion::Http1_1 => KeepAlive::KeepAlive,
            HttpVersion::Http1_0 => KeepAlive::Close,
        }
    }
}

pub fn bytes_equal(a: &[u8], b: &[u8]) -> (r: bool)
    ensures
        r == (a@ == b@),
{
    if a.len() != b.len() {
        return false;
    }
    let mut k: usize = 0;
    while k < a.len()
        invariant
            a@.len() == b@.len(),
            k <= a@.len(),
            forall|j: int| 0 <= j < k ==> a@[j] == b@[j],
        decreases a@.len() - k,
    {
        if a[k] != b[k] {
            return false;
        }
        k = k + 1;
    }
    assert(a@ =~= b@);
    true
}

pub open spec fn name_connection() -> Seq<u8> {
    seq![99u8, 111u8, 110u8, 110u8, 101u8, 99u8, 116u8, 105u8, 111u8, 110u8]
}

pub open spec fn name_upgrade() -> Seq<u8> {
    seq![117u8, 112u8, 103u8, 114u8, 97u8, 100u8, 101u8]
}

/// The value of the first `Connection` field, or nothing.
pub open spec fn connection_value(hs: Seq<Header>) -> Seq<u8> {
    let i = first_named(hs, name_connection(), 0);
    if i < hs.len() {
        hs[i].value@
    } else {
        Seq::empty()
    }
}

/// The first index at or after `from` that holds a comma, or the length.
pub open spec fn next_comma(s: Seq<u8>, from: int) -> int
    decreases s.len() - from,
{
    if from >= s.len() {
        s.len() as int
    } else if s[from] == 44u8 {
        from
    } else {
        next_comma(s, from + 1)
    }
}

/// Whether one of the comma-separated items of `s` from `from` on,
/// trimmed of whitespace, is `item`, ignoring case.
pub open spec fn lists_item(s: Seq<u8>, item: Seq<u8>, from: int) -> bool
    decreases s.len() - from,
{
    if from > s.len() || from < 0 {
        false
    } else {
        let hi = next_comma(s, from);
        if from <= hi && hi <= s.len() && eq_ignore_case(trimmed(s.subrange(from, hi)), item) {
            true
        } else if from <= hi && hi < s.len() {
            lists_item(s, item, hi + 1)
        } else {
            false
        }
    }
}

fn find_comma(s: &[u8], from: usize) -> (r: usize)
    requires
        from <= s@.len(),
    ensures
        r == next_comma(s@, from as int),
        from <= r <= s@.len(),
{
    let mut k: usize = from;
    while k < s.len() && s[k] != 44u8
        invariant
            from <= k <= s@.len(),
            next_comma(s@, from as int) == next_comma(s@, k as int),
        decreases s@.len() - k,
    {
        k = k + 1;
    }
    k
}

/// Whether a comma-separated list names `item`, ignoring case and the
/// whitespace round each entry.
pub fn list_has_item(s: &[u8], item: &[u8]) -> (r: bool)
    ensures
        r == lists_item(s@, item@, 0),
{
    let mut lo: usize = 0;
    while lo <= s.len()
        invariant
            lo <= s@.len() + 1,
            lists_item(s@, item@, 0) == lists_item(s@, item@, lo as int),
        decreases s@.len() + 1 - lo,
    {
        let hi = find_comma(s, lo);
        let seg = slice_range(s, lo, hi);
        let t = trim_ws(seg.as_slice());
        if bytes_eq_ignore_case(t.as_slice(), item) {
            return true;
        }
        if hi >= s.len() {
            return false;
        }
        lo = hi + 1;
    }
    false
}

/// What a request asks of its connection, read before it is handed on.
#[derive(Debug, Copy, Clone, PartialEq, Eq, Structural)]
pub struct RequestIntent {
    pub keep_alive: KeepAlive,
    pub upgrade_requested: bool,
}

/// A request asks for an upgrade where it has an `Upgrade` field and its
/// `Connection` value lists `upgrade`.
pub open spec fn intent_of(hs: Seq<Header>, version: HttpVersion) -> RequestIntent {
    RequestIntent {
        keep_alive: keep_alive_of(connection_value(hs), version),
        upgrade_requested: first_named(hs, name_upgrade(), 0) < hs.len() && lists_item(
            connection_value(hs),
            name_upgrade(),
            0,
        ),
    }
}

/// Reads the keep-alive and upgrade wishes of a request.
pub fn request_intent(hs: &Vec<Header>, version: HttpVersion) -> (r: RequestIntent)
    ensures
        r == intent_of(hs@, version),
{
    let conn_name: [u8; 10] = [99u8, 111u8, 110u8, 110u8, 101u8, 99u8, 116u8, 105u8, 111u8, 110u8];
    let up_name: [u8; 7] = [117u8, 112u8, 103u8, 114u8, 97u8, 100u8, 101u8];
    assert(conn_name@ =~= name_connection());
    assert(up_name@ =~= name_upgrade());
    let i = find_first(hs, conn_name.as_slice());
    let empty: [u8; 0] = [];
    let c: &[u8] = if i < hs.len() {
        hs[i].value.as_slice()
    } else {
        assert(empty@ =~= Seq::<u8>::empty());
        empty.as_slice()
    };
    let keep_alive = keep_alive_for(c, version);
    let has_upgrade = find_first(hs, up_name.as_slice()) < hs.len();
    let listed = list_has_item(c, up_name.as_slice());
    RequestIntent { keep_alive, upgrade_requested: has_upgrade && listed }
}

/// The `Connection` value a response is sent with, given the values it
/// already had (`None` where it had no such field): the token alone where
/// it had none or an empty one, the old value, a comma, a space and the
/// token where it had one, and a refusal where it had several.
pub open spec fn reconciled(existing: Option<Seq<Seq<u8>>>, token: Seq<u8>) -> Result<Seq<u8>, Error> {
    match existing {
        None => Ok(token),
        Some(vs) => if vs.len() != 1 {
            Err(Error::MultipleConnectionHeaders)
        } else if vs[0].len() == 0 {
            Ok(token)
        } else {
            Ok(vs[0] + seq![44u8, 32u8] + token)
        },
    }
}

pub open spec fn values_view(o: Option<&Vec<Vec<u8>>>) -> Option<Seq<Seq<u8>>> {
    match o {
        Some(vs) => Some(Seq::new(vs@.len(), |i: int| vs@[i]@)),
        None => None,
    }
}

/// Merges the keep-alive token into the `Connection` values a response
/// already has.
pub fn reconcile_connection(existing: Option<&Vec<Vec<u8>>>, token: KeepAlive) -> (r: Result<
    Vec<u8>,
    Error,
>)
    ensures
        reconciled(values_view(existing), token.spec_token()) matches Ok(v) ==> r matches Ok(w)
            && w@ == v,
        reconciled(values_view(existing), token.spec_token()) matches Err(e) ==> r == Err::<
            Vec<u8>,
            Error,
        >(e),
{
    let t = token.token();
    match existing {
        None => Ok(t),
        Some(vs) => {
            if vs.len() != 1 {
                return Err(Error::MultipleConnectionHeaders);
            }
            let v = &vs[0];
            if v.len() == 0 {
                return Ok(t);
            }
            let mut out: Vec<u8> = Vec::new();
            append_bytes(&mut out, v.as_slice());
            out.push(44u8);
            out.push(32u8);
            append_bytes(&mut out, t.as_slice());
            assert(out@ =~= vs@[0]@ + seq![44u8, 32u8] + t@);
            Ok(out)
        },
    }
}

/// A response with no `Connection` field or with one value is sent with
/// exactly one value, and that value holds the keep-alive token.
pub proof fn lemma_reconciled_holds_token(existing: Option<Seq<Seq<u8>>>, token: KeepAlive)
    requires
        existing matches Some(vs) ==> vs.len() == 1,
    ensures
        reconciled(existing, token.spec_token()) matches Ok(v) && contains(v, token.spec_token()),
{
    let t = token.spec_token();
    match existing {
        None => {
            assert(t.subrange(0, t.len() as int) =~= t);
            assert(occurs_at(t, t, 0));
        },
        Some(vs) => {
            if vs[0].len() == 0 {
                assert(t.subrange(0, t.len() as int) =~= t);
                assert(occurs_at(t, t, 0));
            } else {
                let v = vs[0] + seq![44u8, 32u8] + t;
                let i: int = vs[0].len() as int + 2;
                assert(v.subrange(i, i + t.len() as int) =~= t);
                assert(occurs_at(v, t, i));
            }
        },
    }
}

/// A response with more than one `Connection` value is refused.
pub proof fn lemma_several_connection_values_refused(vs: Seq<Seq<u8>>, token: KeepAlive)
    requires
        vs.len() >= 2,
    ensures
        reconciled(Some(vs), token.spec_token()) == Err::<Seq<u8>, Error>(
            Error::MultipleConnectionHeaders,
        ),
{
}

/// How a response is sent and what becomes of the connection after it.
#[derive(Debug)]
pub struct ResponsePlan {
    /// The `Connection` value to send; `None` leaves the response's own
    /// header as it is (an upgrade).
    pub connection: Option<Vec<u8>>,
    /// Whether the stream is handed to the upgraded protocol.
    pub hand_off: bool,
    pub status: ConnectionStatus,
}

/// What follows a response: the stream is handed off where an upgrade
/// was both asked for and granted, and then closed; it is closed too
/// where the keep-alive token is `close`, and kept alive otherwise.
pub open spec fn status_after(intent: RequestIntent, upgrade_provided: bool) -> ConnectionStatus {
    if intent.upgrade_requested && upgrade_provided {
        ConnectionStatus::Close
    } else if intent.keep_alive == KeepAlive::Close {
        ConnectionStatus::Close
    } else {
        ConnectionStatus::KeepAlive
    }
}

/// Prepares the response to a request: an upgrade is granted where the
/// response switches protocols and carries an upgrade; otherwise its
/// `Connection` values are reconciled with the keep-alive token.
pub fn plan_response(
    intent: RequestIntent,
    switching_protocols: bool,
    has_upgrade: bool,
    connection_values: Option<&Vec<Vec<u8>>>,
) -> (r: Result<ResponsePlan, Error>)
    ensures
        ({
            let provided = switching_protocols && has_upgrade;
            if provided {
                r matches Ok(p) && p.connection is None && p.hand_off == intent.upgrade_requested
                    && p.status == status_after(intent, provided)
            } else {
                match reconciled(values_view(connection_values), intent.keep_alive.spec_token()) {
                    Err(e) => r == Err::<ResponsePlan, Error>(e),
                    Ok(v) => r matches Ok(p) && p.connection matches Some(c) && c@ == v
                        && !p.hand_off && p.status == status_after(intent, provided),
                }
            }
        }),
{
    let provided = switching_protocols && has_upgrade;
    let connection = if provided {
        None
    } else {
        match reconcile_connection(connection_values, intent.keep_alive) {
            Ok(v) => Some(v),
            Err(e) => {
                return Err(e);
            },
        }
    };
    let hand_off = intent.upgrade_requested && provided;
    let status = if hand_off {
        ConnectionStatus::Close
    } else {
        match intent.keep_alive {
            KeepAlive::Close => ConnectionStatus::Close,
            KeepAlive::KeepAlive => ConnectionStatus::KeepAlive,
        }
    };
    Ok(ResponsePlan { connection, hand_off, status })
}

} // verus!
