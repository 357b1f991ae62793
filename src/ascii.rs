//! Byte-level text helpers: ASCII case folding and percent-encoding.

use vstd::prelude::*;

verus! {

/// The byte with an upper-case ASCII letter folded to lower case.
pub open spec fn lower(b: u8) -> u8 {
    if 65 <= b && b <= 90 {
        (b + 32) as u8
    } else {
        b
    }
}

/// Equality of two byte strings up to ASCII case.
pub open spec fn eq_ignore_case(a: Seq<u8>, b: Seq<u8>) -> bool {
    a.len() == b.len() && forall|i: int| 0 <= i < a.len() ==> lower(#[trigger] a[i]) == lower(b[i])
}

/// Whether `a` begins with `p`, byte for byte.
pub open spec fn starts_with(a: Seq<u8>, p: Seq<u8>) -> bool {
    p.len() <= a.len() && a.subrange(0, p.len() as int) == p
}

/// Whether `a` ends with `p`, byte for byte.
pub open spec fn ends_with(a: Seq<u8>, p: Seq<u8>) -> bool {
    p.len() <= a.len() && a.subrange(a.len() - p.len(), a.len() as int) == p
}

pub fn lower_byte(b: u8) -> (r: u8)
    ensures
        r == lower(b),
{
    if 65 <= b && b <= 90 {
        b + 32
    } else {
        b
    }
}

/// Compares two byte strings, ignoring ASCII case.
pub fn bytes_eq_ignore_case(a: &[u8], b: &[u8]) -> (r: bool)
    ensures
        r == eq_ignore_case(a@, b@),
{
    if a.len() != b.len() {
        return false;
    }
    let mut i: usize = 0;
    while i < a.len()
        invariant
            a@.len() == b@.len(),
            i <= a@.len(),
            forall|k: int| 0 <= k < i ==> lower(#[trigger] a@[k]) == lower(b@[k]),
        decreases a@.len() - i,
    {
        if lower_byte(a[i]) != lower_byte(b[i]) {
            return false;
        }
        i = i + 1;
    }
    true
}

/// Whether `a` begins with `p`.
pub fn bytes_start_with(a: &[u8], p: &[u8]) -> (r: bool)
    ensures
        r == starts_with(a@, p@),
{
    if p.len() > a.len() {
        return false;
    }
    let mut i: usize = 0;
    while i < p.len()
        invariant
            p@.len() <= a@.len(),
            i <= p@.len(),
            forall|k: int| 0 <= k < i ==> a@[k] == p@[k],
        decreases p@.len() - i,
    {
        if a[i] != p[i] {
            assert(a@.subrange(0, p@.len() as int)[i as int] != p@[i as int]);
            return false;
        }
        i = i + 1;
    }
    assert(a@.subrange(0, p@.len() as int) =~= p@);
    true
}

/// Whether `a` ends with `p`.
pub fn bytes_end_with(a: &[u8], p: &[u8]) -> (r: bool)
    ensures
        r == ends_with(a@, p@),
{
    if p.len() > a.len() {
        return false;
    }
    let off: usize = a.len() - p.len();
    let mut i: usize = 0;
    while i < p.len()
        invariant
            p@.len() <= a@.len(),
            off == a@.len() - p@.len(),
            a@.len() <= usize::MAX,
            i <= p@.len(),
            forall|k: int| 0 <= k < i ==> a@[off + k] == p@[k],
        decreases p@.len() - i,
    {
        if a[off + i] != p[i] {
            assert(a@.subrange(off as int, a@.len() as int)[i as int] != p@[i as int]);
            return false;
        }
        i = i + 1;
    }
    assert(a@.subrange(off as int, a@.len() as int) =~= p@);
    true
}

/// Whether a byte is an ASCII printable character, space through tilde.
pub open spec fn is_printable(b: u8) -> bool {
    32 <= b && b <= 126
}

/// The upper-case hexadecimal digit of a value below sixteen.
pub open spec fn hex_digit(n: u8) -> u8 {
    if n < 10 {
        (48 + n) as u8
    } else {
        (55 + n) as u8
    }
}

/// A printable byte as itself, any other as `%XX`.
pub open spec fn encode_byte(b: u8) -> Seq<u8> {
    if is_printable(b) {
        seq![b]
    } else {
        seq![37u8, hex_digit(b / 16), hex_digit(b % 16)]
    }
}

/// Each byte of `s` encoded in turn.
pub open spec fn percent_encoded(s: Seq<u8>) -> Seq<u8>
    decreases s.len(),
{
    if s.len() == 0 {
        seq![]
    } else {
        percent_encoded(s.drop_last()) + encode_byte(s.last())
    }
}

fn hex_digit_of(n: u8) -> (r: u8)
    requires
        n < 16,
    ensures
        r == hex_digit(n),
{
    if n < 10 {
        48 + n
    } else {
        55 + n
    }
}

/// Rewrites every byte outside the ASCII printable range as `%XX`, with
/// upper-case hexadecimal digits; printable bytes stay as they are.
pub fn non_ascii_printable_to_percent_encoded(path: &[u8]) -> (r: Vec<u8>)
    ensures
        r@ == percent_encoded(path@),
{
    let mut out: Vec<u8> = Vec::new();
    let mut i: usize = 0;
    while i < path.len()
        invariant
            i <= path@.len(),
            out@ == percent_encoded(path@.subrange(0, i as int)),
        decreases path@.len() - i,
    {
        let b = path[i];
        assert(path@.subrange(0, i + 1).drop_last() =~= path@.subrange(0, i as int));
        if 32 <= b && b <= 126 {
            out.push(b);
        } else {
            out.push(37u8);
            out.push(hex_digit_of(b / 16));
            out.push(hex_digit_of(b % 16));
        }
        assert(out@ =~= percent_encoded(path@.subrange(0, i + 1)));
        i = i + 1;
    }
    assert(path@.subrange(0, path@.len() as int) =~= path@);
    out
}

/// The bytes of `s` from `lo` up to `hi`.
pub fn slice_range(s: &[u8], lo: usize, hi: usize) -> (r: Vec<u8>)
    requires
        lo <= hi <= s@.len(),
    ensures
        r@ == s@.subrange(lo as int, hi as int),
{
    let mut out: Vec<u8> = Vec::new();
    let mut k: usize = lo;
    while k < hi
        invariant
            lo <= k <= hi,
            hi <= s@.len(),
            out@ == s@.subrange(lo as int, k as int),
        decreases hi - k,
    {
        out.push(s[k]);
        assert(out@ =~= s@.subrange(lo as int, k + 1));
        k = k + 1;
    }
    out
}


/// Appends `s` to `out`.
pub fn append_bytes(out: &mut Vec<u8>, s: &[u8])
    ensures
        final(out)@ == old(out)@ + s@,
{
    let mut k: usize = 0;
    let ghost base = out@;
    while k < s.len()
        invariant
            k <= s@.len(),
            out@ == base + s@.subrange(0, k as int),
        decreases s@.len() - k,
    {
        out.push(s[k]);
        assert(out@ =~= base + s@.subrange(0, k + 1));
        k = k + 1;
    }
    assert(s@.subrange(0, s@.len() as int) =~= s@);
}


pub open spec fn is_ws(b: u8) -> bool {
    b == 32u8 || (9u8 <= b && b <= 13u8)
}


/// The first index at or after `from` that holds no whitespace.
pub open spec fn skip_ws(s: Seq<u8>, from: int) -> int
    decreases s.len() - from,
{
    if from >= s.len() {
        s.len() as int
    } else if is_ws(s[from]) {
        skip_ws(s, from + 1)
    } else {
        from
    }
}


/// The end, at or before `n` and not before `lo`, of `s` without its
/// trailing whitespace.
pub open spec fn back_ws(s: Seq<u8>, lo: int, n: int) -> int
    decreases n - lo,
{
    if n <= lo {
        lo
    } else if is_ws(s[n - 1]) {
        back_ws(s, lo, n - 1)
    } else {
        n
    }
}


/// `s` without leading and trailing ASCII whitespace.
pub open spec fn trimmed(s: Seq<u8>) -> Seq<u8> {
    let lo = skip_ws(s, 0);
    s.subrange(lo, back_ws(s, lo, s.len() as int))
}


/// `s` without leading and trailing ASCII whitespace.
pub fn trim_ws(s: &[u8]) -> (r: Vec<u8>)
    ensures
        r@ == trimmed(s@),
{
    let mut lo: usize = 0;
    while lo < s.len() && (s[lo] == 32u8 || (9u8 <= s[lo] && s[lo] <= 13u8))
        invariant
            lo <= s@.len(),
            skip_ws(s@, 0) == skip_ws(s@, lo as int),
        decreases s@.len() - lo,
    {
        lo = lo + 1;
    }
    let mut hi: usize = s.len();
    while hi > lo && (s[hi - 1] == 32u8 || (9u8 <= s[hi - 1] && s[hi - 1] <= 13u8))
        invariant
            lo <= hi <= s@.len(),
            back_ws(s@, lo as int, s@.len() as int) == back_ws(
                s@,
                lo as int,
                hi as int,
            ),
        decreases hi,
    {
        hi = hi - 1;
    }
    slice_range(s, lo, hi)
}


} // verus!
