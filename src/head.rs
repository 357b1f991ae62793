//! Accumulation of a request head, line by line, with a size bound, and
//! the rewriting of its request line.

use vstd::prelude::*;

use crate::ascii::{
    append_bytes, bytes_end_with, ends_with, non_ascii_printable_to_percent_encoded,
    percent_encoded, slice_range,
};
use crate::error::Error;

verus! {

/// The first index at or after `from` that holds a space, or the length.
pub open spec fn next_space(s: Seq<u8>, from: int) -> int
    decreases s.len() - from,
{
    if from >= s.len() {
        s.len() as int
    } else if s[from] == 32u8 {
        from
    } else {
        next_space(s, from + 1)
    }
}

fn find_space(s: &[u8], from: usize) -> (r: usize)
    requires
        from <= s@.len(),
    ensures
        r == next_space(s@, from as int),
        from <= r <= s@.len(),
{
    let mut k: usize = from;
    while k < s.len() && s[k] != 32u8
        invariant
            from <= k <= s@.len(),
            next_space(s@, from as int) == next_space(s@, k as int),
        decreases s@.len() - k,
    {
        k = k + 1;
    }
    k
}

/// The request line with its request-target percent-encoded: the method
/// and the space after it unchanged, then the encoded target, then the
/// rest of the line from the space that ends the target. `None` where the
/// line holds no space, so no target.
pub open spec fn normalized_line(s: Seq<u8>) -> Option<Seq<u8>> {
    let i = next_space(s, 0);
    if i >= s.len() {
        None
    } else {
        let j = next_space(s, i + 1);
        Some(s.subrange(0, i + 1) + percent_encoded(s.subrange(i + 1, j)) + s.subrange(
            j,
            s.len() as int,
        ))
    }
}

/// Splits the request line at its spaces and percent-encodes the second
/// token, the request-target, leaving the method and any further tokens
/// as they are.
pub fn normalize_request_line(line: &[u8]) -> (r: Result<Vec<u8>, Error>)
    ensures
        normalized_line(line@) is None ==> r == Err::<Vec<u8>, Error>(Error::RequestPathMissing),
        normalized_line(line@) matches Some(n) ==> r matches Ok(v) && v@ == n,
{
    let i = find_space(line, 0);
    if i >= line.len() {
        return Err(Error::RequestPathMissing);
    }
    let j = find_space(line, i + 1);
    let mut out = slice_range(line, 0, i + 1);
    let encoded = non_ascii_printable_to_percent_encoded(&slice_range(line, i + 1, j));
    append_bytes(&mut out, encoded.as_slice());
    append_bytes(&mut out, slice_range(line, j, line.len()).as_slice());
    Ok(out)
}

/// Whether a buffered head ends with its blank line, `\r\n\r\n` or the
/// bare `\n\n` that lenient clients send.
pub open spec fn head_terminated(b: Seq<u8>) -> bool {
    ends_with(b, seq![13u8, 10u8, 13u8, 10u8]) || ends_with(b, seq![10u8, 10u8])
}

pub fn is_head_terminated(b: &[u8]) -> (r: bool)
    ensures
        r == head_terminated(b@),
{
    let crlf: [u8; 4] = [13u8, 10u8, 13u8, 10u8];
    let lf: [u8; 2] = [10u8, 10u8];
    assert(crlf@ =~= seq![13u8, 10u8, 13u8, 10u8]);
    assert(lf@ =~= seq![10u8, 10u8]);
    bytes_end_with(b, crlf.as_slice()) || bytes_end_with(b, lf.as_slice())
}

/// What a head reader reports after a read.
#[derive(Debug, Clone, PartialEq, Eq)]
pub enum HeadStep {
    /// The stream ended: there is no further request.
    End,
    /// The head is not complete yet; read another line.
    Pending,
    /// The buffer holds the whole head, blank line included.
    Complete,
    /// The head is refused.
    Failed(Error),
}

/// A request head gathered from the lines read off a stream.
pub struct HeadReader {
    buf: Vec<u8>,
    first_line: bool,
    max_len: usize,
}

impl HeadReader {
    pub closed spec fn spec_buf(&self) -> Seq<u8> {
        self.buf@
    }

    pub closed spec fn spec_first_line(&self) -> bool {
        self.first_line
    }

    pub closed spec fn spec_max_len(&self) -> nat {
        self.max_len as nat
    }

    /// A reader with an empty buffer that fails once the buffer reaches
    /// `max_len` bytes.
    pub fn new(max_len: usize) -> (r: HeadReader)
        ensures
            r.spec_buf() == Seq::<u8>::empty(),
            r.spec_first_line(),
            r.spec_max_len() == max_len,
    {
        HeadReader { buf: Vec::new(), first_line: true, max_len }
    }

    /// The bytes gathered so far.
    pub fn buffer(&self) -> (r: &Vec<u8>)
        ensures
            r@ == self.spec_buf(),
    {
        &self.buf
    }

    /// Takes in the bytes of one read, which end at the first line feed
    /// read or before it. An empty read is the end of the stream. The
    /// bound is checked on every read, so a stream that never sends a line
    /// feed cannot grow the buffer past it. The first line is rewritten by
    /// `normalize_request_line` once its line feed has been read, or when
    /// the stream ends in it.
    pub fn push_line(&mut self, line: &[u8]) -> (r: HeadStep)
        requires
            old(self).spec_buf().len() + line@.len() <= usize::MAX,
        ensures
            final(self).spec_max_len() == old(self).spec_max_len(),
            line@.len() == 0 ==> *final(self) == *old(self) && r == (if old(self).spec_first_line()
                && old(self).spec_buf().len() > 0 && normalized_line(old(self).spec_buf()) is None {
                HeadStep::Failed(Error::RequestPathMissing)
            } else {
                HeadStep::End
            }),
            line@.len() > 0 && old(self).spec_buf().len() + line@.len() >= old(self).spec_max_len()
                ==> r == HeadStep::Failed(Error::HeadersTooLong),
            line@.len() > 0 && old(self).spec_buf().len() + line@.len() < old(self).spec_max_len()
                ==> {
                let joined = old(self).spec_buf() + line@;
                let ends_line = line@.last() == 10u8;
                if old(self).spec_first_line() && ends_line && normalized_line(joined) is None {
                    r == HeadStep::Failed(Error::RequestPathMissing)
                } else {
                    let b = if old(self).spec_first_line() && ends_line {
                        normalized_line(joined)->Some_0
                    } else {
                        joined
                    };
                    &&& final(self).spec_buf() == b
                    &&& final(self).spec_first_line() == (old(self).spec_first_line() && !ends_line)
                    &&& r == (if head_terminated(b) {
                        HeadStep::Complete
                    } else {
                        HeadStep::Pending
                    })
                }
            },
    {
        if line.len() == 0 {
            if self.first_line && self.buf.len() > 0 {
                if let Err(e) = normalize_request_line(&self.buf) {
                    return HeadStep::Failed(e);
                }
            }
            return HeadStep::End;
        }
        append_bytes(&mut self.buf, line);
        if self.buf.len() >= self.max_len {
            return HeadStep::Failed(Error::HeadersTooLong);
        }
        if self.first_line && line[line.len() - 1] == 10u8 {
            self.first_line = false;
            match normalize_request_line(&self.buf) {
                Ok(n) => {
                    self.buf = n;
                },
                Err(e) => {
                    return HeadStep::Failed(e);
                },
            }
        }
        if is_head_terminated(&self.buf) {
            HeadStep::Complete
        } else {
            HeadStep::Pending
        }
    }
}

} // verus!
