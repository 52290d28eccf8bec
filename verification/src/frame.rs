//! The transport framer: each message travels as a block of CRLF-terminated
//! `Key: Value` header lines, closed by an empty line, with a required
//! decimal Content-Length naming the byte length of the JSON body that
//! follows. A header that cannot be read — no colon in a line, or a
//! Content-Length value that is not a number — is malformed, and framing
//! cannot be resynchronized after it; a buffer that merely ends too early
//! is incomplete and wants more bytes.

use vstd::prelude::*;
use crate::json::{
    is_digit, digit_count, digits_value, spec_digits, lemma_digit_count, lemma_digit_count_prefix,
    push_digits, count_digits, digits_val,
};

verus! {

/// What one attempt to read a frame from a buffer yields.
pub enum FrameOutcome {
    Incomplete,
    Malformed,
    Frame { body: Vec<u8>, consumed: usize },
}

/// The model of a frame outcome.
pub enum FrameOutcomeV {
    Incomplete,
    Malformed,
    Frame { body: Seq<u8>, consumed: int },
}

impl View for FrameOutcome {
    type V = FrameOutcomeV;

    open spec fn view(&self) -> FrameOutcomeV {
        match self {
            FrameOutcome::Incomplete => FrameOutcomeV::Incomplete,
            FrameOutcome::Malformed => FrameOutcomeV::Malformed,
            FrameOutcome::Frame { body, consumed } => FrameOutcomeV::Frame {
                body: body@,
                consumed: *consumed as int,
            },
        }
    }
}

/// The bytes of the required header name.
pub open spec fn kw_content_length() -> Seq<u8> {
    seq![67u8, 111u8, 110u8, 116u8, 101u8, 110u8, 116u8, 45u8, 76u8, 101u8, 110u8, 103u8, 116u8, 104u8]
}

/// The bytes of the required header name, as a vector.
pub fn content_length_bytes() -> (v: Vec<u8>)
    ensures
        v@ == kw_content_length(),
{
    let v: Vec<u8> = vec![
        67u8, 111u8, 110u8, 116u8, 101u8, 110u8, 116u8, 45u8, 76u8, 101u8, 110u8, 103u8, 116u8,
        104u8,
    ];
    assert(v@ =~= kw_content_length());
    v
}

/// The first position at or after `i` where a CRLF pair starts.
pub open spec fn find_crlf(s: Seq<u8>, i: int) -> Option<int>
    decreases s.len() - i,
{
    if i < 0 || i + 2 > s.len() {
        None
    } else if s[i] == 13 && s[i + 1] == 10 {
        Some(i)
    } else {
        find_crlf(s, i + 1)
    }
}

/// The first position at or after `i` holding a colon, before `end`.
pub open spec fn find_colon(s: Seq<u8>, i: int, end: int) -> Option<int>
    decreases end - i,
{
    if i < 0 || i >= end || end > s.len() {
        None
    } else if s[i] == 58 {
        Some(i)
    } else {
        find_colon(s, i + 1, end)
    }
}

/// How many spaces stand at `i`, before `end`.
pub open spec fn space_count(s: Seq<u8>, i: int, end: int) -> int
    decreases end - i,
{
    if 0 <= i && i < end && end <= s.len() && s[i] == 32 {
        1 + space_count(s, i + 1, end)
    } else {
        0
    }
}

/// What one header line says.
pub enum LineV {
    Bad,
    Plain,
    Length(int),
}

/// Reads one header line lying at `pos..end`: a line without a colon is
/// bad; a Content-Length line must carry, after optional spaces, one to
/// nineteen decimal digits and nothing else — anything else there, a
/// non-numeric value above all, is bad; any other header is read over.
pub open spec fn spec_parse_line(s: Seq<u8>, pos: int, end: int) -> LineV {
    match find_colon(s, pos, end) {
        None => LineV::Bad,
        Some(c) => {
            if s.subrange(pos, c) == kw_content_length() {
                let v = c + 1 + space_count(s, c + 1, end);
                let d = s.subrange(v, end);
                if v <= end && d.len() >= 1 && digit_count(d) == d.len() && d.len() <= 19 {
                    LineV::Length(digits_value(d))
                } else {
                    LineV::Bad
                }
            } else {
                LineV::Plain
            }
        },
    }
}

/// What scanning the header block yields.
pub enum HeadersV {
    Incomplete,
    Malformed,
    Done(Option<int>, int),
}

/// Scans header lines from `pos`, carrying the Content-Length seen so far,
/// until the empty line; a later Content-Length line wins.
pub open spec fn spec_parse_headers(s: Seq<u8>, pos: int, clen: Option<int>) -> HeadersV
    decreases s.len() - pos,
{
    if 0 <= pos && pos + 2 <= s.len() && s[pos] == 13 && s[pos + 1] == 10 {
        HeadersV::Done(clen, pos + 2)
    } else {
        match find_crlf(s, pos) {
            None => HeadersV::Incomplete,
            Some(e) => {
                if e < pos || e + 2 > s.len() {
                    HeadersV::Malformed
                } else {
                    match spec_parse_line(s, pos, e) {
                        LineV::Bad => HeadersV::Malformed,
                        LineV::Plain => spec_parse_headers(s, e + 2, clen),
                        LineV::Length(n) => spec_parse_headers(s, e + 2, Some(n)),
                    }
                }
            },
        }
    }
}

/// What one attempt to read a frame from the head of the buffer yields: the
/// body named by the required Content-Length, the whole header block and
/// body consumed; incomplete while bytes are missing; malformed on a header
/// that cannot be read or that lacks the required length.
pub open spec fn spec_parse_frame(s: Seq<u8>) -> FrameOutcomeV {
    match spec_parse_headers(s, 0, None) {
        HeadersV::Incomplete => FrameOutcomeV::Incomplete,
        HeadersV::Malformed => FrameOutcomeV::Malformed,
        HeadersV::Done(None, _) => FrameOutcomeV::Malformed,
        HeadersV::Done(Some(n), b) => {
            if b + n <= s.len() {
                FrameOutcomeV::Frame { body: s.subrange(b, b + n), consumed: b + n }
            } else {
                FrameOutcomeV::Incomplete
            }
        },
    }
}

/// The framed form of a body: the length header, the empty line, the body.
pub open spec fn spec_frame(body: Seq<u8>) -> Seq<u8> {
    kw_content_length() + seq![58u8, 32u8] + spec_digits(body.len()) + seq![
        13u8,
        10u8,
        13u8,
        10u8,
    ] + body
}

/// Frames a body for the wire.
pub fn frame_bytes(body: &Vec<u8>) -> (out: Vec<u8>)
    ensures
        out@ == spec_frame(body@),
{
    let mut out = content_length_bytes();
    out.push(58);
    out.push(32);
    push_digits(body.len() as u64, &mut out);
    out.push(13);
    out.push(10);
    out.push(13);
    out.push(10);
    out.extend_from_slice(body.as_slice());
    assert(out@ =~= spec_frame(body@));
    out
}

/// Finds the next CRLF pair.
fn find_crlf_exec(s: &Vec<u8>, i: usize) -> (r: Option<usize>)
    requires
        i <= s@.len(),
    ensures
        match r {
            Some(e) => find_crlf(s@, i as int) == Some(e as int) && i <= e && e + 2 <= s@.len(),
            None => find_crlf(s@, i as int) is None,
        },
    decreases s@.len() - i,
{
    if s.len() - i < 2 {
        None
    } else if s[i] == 13 && s[i + 1] == 10 {
        Some(i)
    } else {
        find_crlf_exec(s, i + 1)
    }
}

/// Finds the next colon before `end`.
fn find_colon_exec(s: &Vec<u8>, i: usize, end: usize) -> (r: Option<usize>)
    requires
        i <= end <= s@.len(),
    ensures
        match r {
            Some(c) => find_colon(s@, i as int, end as int) == Some(c as int) && i <= c < end,
            None => find_colon(s@, i as int, end as int) is None,
        },
    decreases end - i,
{
    if i >= end {
        None
    } else if s[i] == 58 {
        Some(i)
    } else {
        find_colon_exec(s, i + 1, end)
    }
}

/// Counts the spaces at `i`, before `end`.
fn space_count_exec(s: &Vec<u8>, i: usize, end: usize) -> (r: usize)
    requires
        i <= end <= s@.len(),
    ensures
        r as int == space_count(s@, i as int, end as int),
        i + r <= end,
    decreases end - i,
{
    if i < end && s[i] == 32 {
        let r = space_count_exec(s, i + 1, end);
        1 + r
    } else {
        0
    }
}

/// Whether the bytes at `pos..end` are exactly the given word.
#[verifier::loop_isolation(false)]
fn range_eq(s: &Vec<u8>, pos: usize, end: usize, t: &Vec<u8>) -> (r: bool)
    requires
        pos <= end <= s@.len(),
    ensures
        r == (s@.subrange(pos as int, end as int) == t@),
{
    if end - pos != t.len() {
        return false;
    }
    let mut k: usize = 0;
    while k < t.len()
        invariant
            k <= t@.len(),
            forall|j: int| 0 <= j < k ==> s@[pos + j] == t@[j],
        decreases t@.len() - k,
    {
        if s[pos + k] != t[k] {
            proof {
                assert(s@.subrange(pos as int, end as int)[k as int] == s@[pos + k]);
            }
            return false;
        }
        k = k + 1;
    }
    proof {
        assert(s@.subrange(pos as int, end as int) =~= t@);
    }
    true
}

/// Reads one header line lying at `pos..end`.
#[verifier::rlimit(100)]
#[verifier::loop_isolation(false)]
fn parse_line_exec(s: &Vec<u8>, pos: usize, end: usize) -> (r: Option<Option<u64>>)
    requires
        pos <= end <= s@.len(),
    ensures
        match r {
            None => spec_parse_line(s@, pos as int, end as int) is Bad,
            Some(None) => spec_parse_line(s@, pos as int, end as int) is Plain,
            Some(Some(n)) => spec_parse_line(s@, pos as int, end as int) == LineV::Length(n as int),
        },
{
    match find_colon_exec(s, pos, end) {
        None => None,
        Some(c) => {
            let kcl = content_length_bytes();
            if !range_eq(s, pos, c, &kcl) {
                return Some(None);
            }
            let w = space_count_exec(s, c + 1, end);
            let v = c + 1 + w;
            let dn = end - v;
            let ghost d = s@.subrange(v as int, end as int);
            if dn < 1 || dn > 19 {
                return None;
            }
            let mut k2: usize = 0;
            while k2 < dn
                invariant
                    k2 <= dn,
                    forall|j: int| 0 <= j < k2 ==> is_digit(#[trigger] d[j]),
                decreases dn - k2,
            {
                if s[v + k2] < 48 || s[v + k2] > 57 {
                    proof {
                        assert(d[k2 as int] == s@[v + k2]);
                        assert(!is_digit(d[k2 as int]));
                        lemma_digit_count_prefix(d);
                        assert(digit_count(d) != d.len());
                    }
                    return None;
                }
                proof {
                    assert(d[k2 as int] == s@[v + k2]);
                }
                k2 = k2 + 1;
            }
            proof {
                lemma_digit_count(d, Seq::<u8>::empty());
                assert(d + Seq::<u8>::empty() =~= d);
                assert forall|j: int| v <= j < v + dn implies is_digit(#[trigger] s@[j]) by {
                    assert(s@[j] == d[j - v]);
                }
            }
            let n = digits_val(s, v, dn);
            assert(s@.subrange(v as int, v + dn as int) =~= d);
            Some(Some(n))
        },
    }
}

/// Scans the header block from `pos`. The outer option is completeness,
/// the middle one well-formedness, the inner one the length header seen.
fn parse_headers_exec(s: &Vec<u8>, pos: usize, clen: Option<u64>) -> (r: Option<Option<(
    Option<u64>,
    usize,
)>>)
    requires
        pos <= s@.len(),
    ensures
        match r {
            None => spec_parse_headers(s@, pos as int, olen(clen)) is Incomplete,
            Some(None) => spec_parse_headers(s@, pos as int, olen(clen)) is Malformed,
            Some(Some((cl, b))) => spec_parse_headers(s@, pos as int, olen(clen))
                == HeadersV::Done(olen(cl), b as int) && b <= s@.len(),
        },
    decreases s@.len() - pos,
{
    if s.len() - pos >= 2 && s[pos] == 13 && s[pos + 1] == 10 {
        return Some(Some((clen, pos + 2)));
    }
    match find_crlf_exec(s, pos) {
        None => None,
        Some(e) => {
            match parse_line_exec(s, pos, e) {
                None => Some(None),
                Some(None) => parse_headers_exec(s, e + 2, clen),
                Some(Some(n)) => parse_headers_exec(s, e + 2, Some(n)),
            }
        },
    }
}

/// The model of a possible length.
pub open spec fn olen(o: Option<u64>) -> Option<int> {
    match o {
        Some(n) => Some(n as int),
        None => None,
    }
}

/// Tries to read one frame from the head of the buffer.
#[verifier::loop_isolation(false)]
pub fn parse_frame(s: &Vec<u8>) -> (r: FrameOutcome)
    ensures
        r@ == spec_parse_frame(s@),
{
    match parse_headers_exec(s, 0, None) {
        None => FrameOutcome::Incomplete,
        Some(None) => FrameOutcome::Malformed,
        Some(Some((cl, b))) => {
            match cl {
                None => FrameOutcome::Malformed,
                Some(n) => {
                    if n > (s.len() - b) as u64 {
                        FrameOutcome::Incomplete
                    } else {
                        let nn = n as usize;
                        assert(b + nn <= s@.len());
                        let mut body: Vec<u8> = Vec::new();
                        let mut k: usize = 0;
                        assert(body@ =~= s@.subrange(b as int, b as int));
                        while k < nn
                            invariant
                                k <= nn,
                                b + nn <= s@.len(),
                                body@ == s@.subrange(b as int, b + k),
                            decreases nn - k,
                        {
                            body.push(s[b + k]);
                            assert(body@ =~= s@.subrange(b as int, b + k + 1));
                            k = k + 1;
                        }
                        FrameOutcome::Frame { body, consumed: b + nn }
                    }
                },
            }
        },
    }
}

/// The CRLF search finds the first pair: none starts before `e`.
pub proof fn lemma_find_crlf_at(s: Seq<u8>, i: int, e: int)
    requires
        0 <= i <= e,
        e + 2 <= s.len(),
        forall|j: int| i <= j < e ==> s[j] != 13,
        s[e] == 13,
        s[e + 1] == 10,
    ensures
        find_crlf(s, i) == Some(e),
    decreases e - i,
{
    if i < e {
        lemma_find_crlf_at(s, i + 1, e);
    }
}

/// The colon search finds the first colon: none stands before `c`.
pub proof fn lemma_find_colon_at(s: Seq<u8>, i: int, c: int, end: int)
    requires
        0 <= i <= c < end <= s.len(),
        forall|j: int| i <= j < c ==> s[j] != 58,
        s[c] == 58,
    ensures
        find_colon(s, i, end) == Some(c),
    decreases c - i,
{
    if i < c {
        lemma_find_colon_at(s, i + 1, c, end);
    }
}

/// Reading a written frame, whatever follows it, hands the body back and
/// consumes exactly the frame.
#[verifier::rlimit(100)]
pub proof fn lemma_frame_roundtrip(body: Seq<u8>, rest: Seq<u8>)
    requires
        body.len() < 10_000_000_000_000_000_000,
    ensures
        spec_parse_frame(spec_frame(body) + rest) == (FrameOutcomeV::Frame {
            body,
            consumed: spec_frame(body).len() as int,
        }),
{
    let s = spec_frame(body) + rest;
    let d = spec_digits(body.len());
    crate::json::lemma_digits_are_digits(body.len());
    crate::json::lemma_digits_value(body.len());
    assert(crate::json::pow10(19) == 10_000_000_000_000_000_000) by {
        reveal_with_fuel(crate::json::pow10, 20);
    }
    crate::json::lemma_digits_len(body.len(), 19);
    let e = 16 + d.len() as int;
    assert forall|j: int| 0 <= j < e implies s[j] != 13 by {
        if 16 <= j {
            assert(s[j] == d[j - 16]);
            assert(is_digit(d[j - 16]));
        }
    }
    assert(s[e] == 13 && s[e + 1] == 10 && s[e + 2] == 13 && s[e + 3] == 10);
    lemma_find_crlf_at(s, 0, e);
    assert forall|j: int| 0 <= j < 14 implies s[j] != 58 by {
        assert(s[j] == kw_content_length()[j]);
    }
    assert(s[14] == 58);
    lemma_find_colon_at(s, 0, 14, e);
    assert(s.subrange(0, 14) =~= kw_content_length());
    assert(s[15] == 32);
    assert(s[16] == d[0] && is_digit(d[0]));
    assert(space_count(s, 16, e) == 0);
    assert(space_count(s, 15, e) == 1);
    let dd = s.subrange(16, e);
    assert(dd =~= d);
    lemma_digit_count(d, Seq::<u8>::empty());
    assert(d + Seq::<u8>::empty() =~= d);
    assert(spec_parse_line(s, 0, e) == LineV::Length(body.len() as int));
    assert(spec_parse_headers(s, e + 2, Some(body.len() as int)) == HeadersV::Done(
        Some(body.len() as int),
        e + 4,
    ));
    assert(spec_parse_headers(s, 0, None) == HeadersV::Done(Some(body.len() as int), e + 4));
    assert(s.subrange(e + 4, e + 4 + body.len()) =~= body);
    assert(spec_frame(body).len() == e + 4 + body.len());
}

/// End to end: a message framed for the wire is read back whole, whatever
/// bytes follow it, and decodes to an equal message.
pub proof fn lemma_wire_roundtrip(m: crate::message::MessageV, rest: Seq<u8>)
    requires
        crate::message::spec_encode_msg(m).len() < 10_000_000_000_000_000_000,
    ensures
        ({
            let w = spec_parse_frame(spec_frame(crate::message::spec_encode_msg(m)) + rest);
            w matches FrameOutcomeV::Frame { body, consumed }
                && crate::message::spec_decode_msg(body) == Some(m)
                && consumed == spec_frame(crate::message::spec_encode_msg(m)).len()
        }),
{
    lemma_frame_roundtrip(crate::message::spec_encode_msg(m), rest);
    crate::message::lemma_msg_roundtrip(m);
}

} // verus!
