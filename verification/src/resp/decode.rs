//! Decoding: the outcome every byte sequence decodes to, and the verified
//! decoder. A buffer decodes to exactly one of: a complete frame together
//! with the number of bytes it occupies, "not complete" (wait for more
//! bytes), or "malformed" (the bytes break the wire grammar).
//!
//! The executable decoder never consumes bytes on failure: it first parses
//! non-destructively and only removes a frame's bytes once the whole frame
//! is present, so an incomplete frame never leaves the buffer half-consumed.
use vstd::prelude::*;
use vstd::slice::slice_subrange;

use crate::resp::digits::{
    all_digits, dec_value, is_digit, parse_digits, I64_MIN_MAGNITUDE, MINUS_BYTE,
};
use crate::resp::encode::{
    COLON_BYTE, CR_BYTE, DOLLAR_BYTE, FALSE_BYTE, HASH_BYTE, LF_BYTE, PLUS_BYTE, STAR_BYTE,
    TRUE_BYTE, UNDERSCORE_BYTE,
};
use crate::resp::{
    frame_views, BulkString, FrameModel, RespArray, RespError, RespFrame, RespNull, SimpleError,
    SimpleString,
};

verus! {

/// What a byte sequence holds at its front: one complete frame and the
/// count of bytes it occupies, or not enough bytes yet, or a grammar error.
pub enum FrameOutcome {
    Complete(FrameModel, int),
    Incomplete,
    Malformed,
}

/// The same, for a run of `n` consecutive frames.
pub enum ElemsOutcome {
    Complete(Seq<FrameModel>, int),
    Incomplete,
    Malformed,
}

/// Index of the first CRLF pair at or after position `i`.
pub open spec fn find_crlf(s: Seq<u8>, i: int) -> Option<int>
    decreases s.len() - i,
        when 0 <= i
{
    if i + 2 > s.len() {
        None
    } else if s[i] == CR_BYTE && s[i + 1] == LF_BYTE {
        Some(i)
    } else {
        find_crlf(s, i + 1)
    }
}

pub proof fn lemma_find_crlf_some(s: Seq<u8>, i: int)
    requires
        0 <= i,
        find_crlf(s, i) is Some,
    ensures
        find_crlf(s, i) matches Some(j) ==> i <= j && j + 2 <= s.len() && s[j] == CR_BYTE && s[j
            + 1] == LF_BYTE,
    decreases s.len() - i,
{
    if i + 2 > s.len() {
    } else if s[i] == CR_BYTE && s[i + 1] == LF_BYTE {
    } else {
        lemma_find_crlf_some(s, i + 1);
    }
}

/// Where a region is known to hold no CRLF pair and one stands right after
/// it, the search finds exactly that one.
pub proof fn lemma_find_crlf_at(s: Seq<u8>, i: int, j: int)
    requires
        0 <= i <= j,
        j + 2 <= s.len(),
        s[j] == CR_BYTE,
        s[j + 1] == LF_BYTE,
        forall|k: int| i <= k < j ==> !(#[trigger] s[k] == CR_BYTE && s[k + 1] == LF_BYTE),
    ensures
        find_crlf(s, i) == Some(j),
    decreases j - i,
{
    if i < j {
        lemma_find_crlf_at(s, i + 1, j);
    }
}

/// Where no CRLF pair stands at or after `i`, the search finds none.
pub proof fn lemma_find_crlf_none(s: Seq<u8>, i: int)
    requires
        0 <= i,
        forall|k: int|
            i <= k && k + 2 <= s.len() ==> !(#[trigger] s[k] == CR_BYTE && s[k + 1] == LF_BYTE),
    ensures
        find_crlf(s, i) is None,
    decreases s.len() - i,
{
    if i + 2 <= s.len() {
        lemma_find_crlf_none(s, i + 1);
    }
}

/// The exact line "-1", the reserved absent-value length sentinel.
pub open spec fn is_neg_one(line: Seq<u8>) -> bool {
    line.len() == 2 && line[0] == MINUS_BYTE && line[1] == 49u8
}

/// A line that the integer frame accepts: an optional minus sign, then
/// decimal digits whose value fits a signed 64-bit number.
pub open spec fn is_int_line(line: Seq<u8>) -> bool {
    if line.len() >= 1 && line[0] == MINUS_BYTE {
        line.len() >= 2 && all_digits(line.skip(1)) && dec_value(line.skip(1))
            <= I64_MIN_MAGNITUDE
    } else {
        line.len() >= 1 && all_digits(line) && dec_value(line) <= i64::MAX
    }
}

pub open spec fn int_line_value(line: Seq<u8>) -> int {
    if line.len() >= 1 && line[0] == MINUS_BYTE {
        -dec_value(line.skip(1))
    } else {
        dec_value(line)
    }
}

/// A line the length fields accept: decimal digits whose value fits a
/// signed 64-bit number (the sentinel is handled separately).
pub open spec fn is_len_line(line: Seq<u8>) -> bool {
    line.len() >= 1 && all_digits(line) && dec_value(line) <= i64::MAX
}

/// Outcome of matching the buffer against a fixed token: a mismatch within
/// the bytes present is malformed; a clean prefix merely awaits the rest.
pub open spec fn token_outcome(s: Seq<u8>, tok: Seq<u8>, f: FrameModel) -> FrameOutcome {
    if exists|i: int| 0 <= i < s.len() && i < tok.len() && s[i] != tok[i] {
        FrameOutcome::Malformed
    } else if s.len() < tok.len() {
        FrameOutcome::Incomplete
    } else {
        FrameOutcome::Complete(f, tok.len() as int)
    }
}

pub open spec fn null_token() -> Seq<u8> {
    seq![UNDERSCORE_BYTE, CR_BYTE, LF_BYTE]
}

pub open spec fn bool_token(b: bool) -> Seq<u8> {
    seq![
        HASH_BYTE,
        if b {
            TRUE_BYTE
        } else {
            FALSE_BYTE
        },
        CR_BYTE,
        LF_BYTE,
    ]
}

/// The outcome of decoding one frame from the front of `s`.
///
/// Lengths are read as decimal; the literal line "-1" marks the absent bulk
/// string or array; any other non-digit length line, an unknown type prefix,
/// a broken fixed token, or a missing CRLF after bulk data is malformed.
pub open spec fn decode_spec(s: Seq<u8>) -> FrameOutcome
    decreases s.len(), 0int, 0int,
        via decode_spec_decreases
{
    if s.len() == 0 {
        FrameOutcome::Incomplete
    } else if s[0] == PLUS_BYTE {
        match find_crlf(s, 1) {
            None => FrameOutcome::Incomplete,
            Some(end) => FrameOutcome::Complete(
                FrameModel::SimpleString(s.subrange(1, end)),
                end + 2,
            ),
        }
    } else if s[0] == MINUS_BYTE {
        match find_crlf(s, 1) {
            None => FrameOutcome::Incomplete,
            Some(end) => FrameOutcome::Complete(FrameModel::SimpleError(s.subrange(1, end)), end + 2),
        }
    } else if s[0] == COLON_BYTE {
        match find_crlf(s, 1) {
            None => FrameOutcome::Incomplete,
            Some(end) => {
                let line = s.subrange(1, end);
                if is_int_line(line) {
                    FrameOutcome::Complete(FrameModel::Integer(int_line_value(line)), end + 2)
                } else {
                    FrameOutcome::Malformed
                }
            },
        }
    } else if s[0] == UNDERSCORE_BYTE {
        token_outcome(s, null_token(), FrameModel::Null)
    } else if s[0] == HASH_BYTE {
        if s.len() == 1 {
            FrameOutcome::Incomplete
        } else if s[1] == TRUE_BYTE {
            token_outcome(s, bool_token(true), FrameModel::Boolean(true))
        } else if s[1] == FALSE_BYTE {
            token_outcome(s, bool_token(false), FrameModel::Boolean(false))
        } else {
            FrameOutcome::Malformed
        }
    } else if s[0] == DOLLAR_BYTE {
        match find_crlf(s, 1) {
            None => FrameOutcome::Incomplete,
            Some(end) => {
                let line = s.subrange(1, end);
                if is_neg_one(line) {
                    FrameOutcome::Complete(FrameModel::Bulk(None), end + 2)
                } else if !is_len_line(line) {
                    FrameOutcome::Malformed
                } else {
                    let n = dec_value(line);
                    if s.len() < end + 2 + n + 2 {
                        FrameOutcome::Incomplete
                    } else if s[end + 2 + n] == CR_BYTE && s[end + 2 + n + 1] == LF_BYTE {
                        FrameOutcome::Complete(
                            FrameModel::Bulk(Some(s.subrange(end + 2, end + 2 + n))),
                            end + 2 + n + 2,
                        )
                    } else {
                        FrameOutcome::Malformed
                    }
                }
            },
        }
    } else if s[0] == STAR_BYTE {
        match find_crlf(s, 1) {
            None => FrameOutcome::Incomplete,
            Some(end) => {
                let line = s.subrange(1, end);
                if is_neg_one(line) {
                    FrameOutcome::Complete(FrameModel::Array(None), end + 2)
                } else if !is_len_line(line) {
                    FrameOutcome::Malformed
                } else {
                    let n = dec_value(line);
                    match decode_elems(s.skip(end + 2), n) {
                        ElemsOutcome::Complete(fs, used) => FrameOutcome::Complete(
                            FrameModel::Array(Some(fs)),
                            end + 2 + used,
                        ),
                        ElemsOutcome::Incomplete => FrameOutcome::Incomplete,
                        ElemsOutcome::Malformed => FrameOutcome::Malformed,
                    }
                }
            },
        }
    } else {
        FrameOutcome::Malformed
    }
}

#[via_fn]
proof fn decode_spec_decreases(s: Seq<u8>) {
    if s.len() > 0 && s[0] == STAR_BYTE && find_crlf(s, 1) is Some {
        lemma_find_crlf_some(s, 1);
    }
}

/// The outcome of decoding `n` consecutive frames from the front of `s`.
/// The inner guard on `used` only keeps the recursion well founded: a
/// complete frame always occupies between one byte and the whole buffer.
pub open spec fn decode_elems(s: Seq<u8>, n: int) -> ElemsOutcome
    decreases s.len(), 1int, n,
{
    if n <= 0 {
        ElemsOutcome::Complete(Seq::empty(), 0)
    } else {
        match decode_spec(s) {
            FrameOutcome::Complete(f, used) => {
                if used < 1 || used > s.len() {
                    ElemsOutcome::Malformed
                } else {
                    match decode_elems(s.skip(used), n - 1) {
                        ElemsOutcome::Complete(fs, used2) => ElemsOutcome::Complete(
                            seq![f] + fs,
                            used + used2,
                        ),
                        ElemsOutcome::Incomplete => ElemsOutcome::Incomplete,
                        ElemsOutcome::Malformed => ElemsOutcome::Malformed,
                    }
                }
            },
            FrameOutcome::Incomplete => ElemsOutcome::Incomplete,
            FrameOutcome::Malformed => ElemsOutcome::Malformed,
        }
    }
}

/// Prefixing already-decoded elements onto a run outcome.
pub open spec fn prepend_elems(pre: Seq<FrameModel>, used: int, o: ElemsOutcome) -> ElemsOutcome {
    match o {
        ElemsOutcome::Complete(fs, u) => ElemsOutcome::Complete(pre + fs, used + u),
        ElemsOutcome::Incomplete => ElemsOutcome::Incomplete,
        ElemsOutcome::Malformed => ElemsOutcome::Malformed,
    }
}

proof fn lemma_prepend_assoc(p1: Seq<FrameModel>, u1: int, p2: Seq<FrameModel>, u2: int, o: ElemsOutcome)
    ensures
        prepend_elems(p1, u1, prepend_elems(p2, u2, o)) == prepend_elems(p1 + p2, u1 + u2, o),
{
    match o {
        ElemsOutcome::Complete(fs, u) => {
            assert(p1 + (p2 + fs) =~= (p1 + p2) + fs);
        },
        _ => {},
    }
}

proof fn lemma_decode_elems_unfold(s: Seq<u8>, n: int, f: FrameModel, used: int)
    requires
        n >= 1,
        decode_spec(s) == FrameOutcome::Complete(f, used),
        1 <= used <= s.len(),
    ensures
        decode_elems(s, n) == prepend_elems(seq![f], used, decode_elems(s.skip(used), n - 1)),
{
}

/// Finds the first CRLF pair at or after `from`.
fn find_crlf_at(buf: &[u8], from: usize) -> (r: Option<usize>)
    ensures
        r matches Some(j) ==> find_crlf(buf@, from as int) == Some(j as int) && from <= j && j + 2
            <= buf@.len(),
        r is None ==> find_crlf(buf@, from as int) is None,
{
    let mut i: usize = from;
    loop
        invariant
            from <= i,
            find_crlf(buf@, from as int) == find_crlf(buf@, i as int),
        decreases buf@.len() - i,
    {
        if i >= buf.len() || i + 1 >= buf.len() {
            return None;
        }
        if buf[i] == CR_BYTE && buf[i + 1] == LF_BYTE {
            proof {
                lemma_find_crlf_some(buf@, i as int);
            }
            return Some(i);
        }
        i = i + 1;
    }
}

/// Parses an integer frame's line.
fn parse_int_line(line: &[u8]) -> (r: Option<i64>)
    ensures
        r matches Some(v) ==> is_int_line(line@) && int_line_value(line@) == v,
        r is None ==> !is_int_line(line@),
{
    if line.len() >= 1 && line[0] == MINUS_BYTE {
        let digits = slice_subrange(line, 1, line.len());
        match parse_digits(digits, I64_MIN_MAGNITUDE) {
            Some(m) => {
                let v: i64 = (-(m as i128)) as i64;
                proof {
                    assert(line@.skip(1) == digits@);
                }
                Some(v)
            },
            None => {
                proof {
                    assert(line@.skip(1) == digits@);
                }
                None
            },
        }
    } else {
        match parse_digits(line, i64::MAX as u64) {
            Some(m) => Some(m as i64),
            None => None,
        }
    }
}

/// A length line: the absent-value sentinel, a count, or a grammar error.
pub enum LengthLine {
    Absent,
    Count(u64),
    Bad,
}

/// Parses a bulk-string or array length line.
fn parse_length_line(line: &[u8]) -> (r: LengthLine)
    ensures
        r matches LengthLine::Count(n) ==> !is_neg_one(line@) && is_len_line(line@) && dec_value(
            line@,
        ) == n,
        (r matches LengthLine::Absent) <==> is_neg_one(line@),
        (r matches LengthLine::Bad) ==> !is_neg_one(line@) && !is_len_line(line@),
{
    if line.len() == 2 && line[0] == MINUS_BYTE && line[1] == 49 {
        return LengthLine::Absent;
    }
    match parse_digits(line, i64::MAX as u64) {
        Some(n) => {
            proof {
                assert(!is_neg_one(line@)) by {
                    if is_neg_one(line@) {
                        assert(!is_digit(line@[0]));
                    }
                }
            }
            LengthLine::Count(n)
        },
        None => LengthLine::Bad,
    }
}

/// Copies `buf[from..to]` into a fresh vector.
fn copy_range(buf: &[u8], from: usize, to: usize) -> (r: Vec<u8>)
    requires
        from <= to <= buf@.len(),
    ensures
        r@ == buf@.subrange(from as int, to as int),
{
    let mut out: Vec<u8> = Vec::new();
    let mut i: usize = from;
    while i < to
        invariant
            from <= i <= to <= buf@.len(),
            out@ == buf@.subrange(from as int, i as int),
        decreases to - i,
    {
        out.push(buf[i]);
        proof {
            assert(buf@.subrange(from as int, i + 1) =~= buf@.subrange(from as int, i as int)
                + seq![buf@[i as int]]);
        }
        i = i + 1;
    }
    out
}

/// Parses one frame from the front of the slice without consuming anything.
/// On success it returns the frame and the exact count of bytes it occupies.
#[verifier::loop_isolation(false)]
#[verifier::rlimit(100)]
pub fn parse_frame(buf: &[u8]) -> (r: Result<(RespFrame, usize), RespError>)
    ensures
        r matches Ok(p) ==> decode_spec(buf@) == FrameOutcome::Complete(p.0@, p.1 as int) && 1
            <= p.1 <= buf@.len(),
        r matches Err(e) ==> (e == RespError::NotComplete && decode_spec(buf@)
            is Incomplete) || (e == RespError::InvalidFrame && decode_spec(buf@) is Malformed),
    decreases buf@.len(),
{
    if buf.len() == 0 {
        return Err(RespError::NotComplete);
    }
    let b0 = buf[0];
    if b0 == PLUS_BYTE {
        match find_crlf_at(buf, 1) {
            None => Err(RespError::NotComplete),
            Some(end) => {
                let data = copy_range(buf, 1, end);
                Ok((RespFrame::SimpleString(SimpleString(data)), end + 2))
            },
        }
    } else if b0 == MINUS_BYTE {
        match find_crlf_at(buf, 1) {
            None => Err(RespError::NotComplete),
            Some(end) => {
                let data = copy_range(buf, 1, end);
                Ok((RespFrame::SimpleError(SimpleError(data)), end + 2))
            },
        }
    } else if b0 == COLON_BYTE {
        match find_crlf_at(buf, 1) {
            None => Err(RespError::NotComplete),
            Some(end) => {
                let line = slice_subrange(buf, 1, end);
                match parse_int_line(line) {
                    Some(v) => Ok((RespFrame::Integer(v), end + 2)),
                    None => Err(RespError::InvalidFrame),
                }
            },
        }
    } else if b0 == UNDERSCORE_BYTE {
        if buf.len() >= 2 && buf[1] != CR_BYTE {
            return Err(RespError::InvalidFrame);
        }
        if buf.len() >= 3 && buf[2] != LF_BYTE {
            return Err(RespError::InvalidFrame);
        }
        if buf.len() < 3 {
            return Err(RespError::NotComplete);
        }
        Ok((RespFrame::Null(RespNull), 3))
    } else if b0 == HASH_BYTE {
        if buf.len() == 1 {
            return Err(RespError::NotComplete);
        }
        let b1 = buf[1];
        if b1 != TRUE_BYTE && b1 != FALSE_BYTE {
            return Err(RespError::InvalidFrame);
        }
        if buf.len() >= 3 && buf[2] != CR_BYTE {
            return Err(RespError::InvalidFrame);
        }
        if buf.len() >= 4 && buf[3] != LF_BYTE {
            return Err(RespError::InvalidFrame);
        }
        if buf.len() < 4 {
            return Err(RespError::NotComplete);
        }
        Ok((RespFrame::Boolean(b1 == TRUE_BYTE), 4))
    } else if b0 == DOLLAR_BYTE {
        match find_crlf_at(buf, 1) {
            None => Err(RespError::NotComplete),
            Some(end) => {
                let line = slice_subrange(buf, 1, end);
                match parse_length_line(line) {
                    LengthLine::Absent => Ok((RespFrame::BulkString(BulkString(None)), end + 2)),
                    LengthLine::Bad => Err(RespError::InvalidFrame),
                    LengthLine::Count(n) => {
                        if (buf.len() as u128) < end as u128 + 2 + n as u128 + 2 {
                            return Err(RespError::NotComplete);
                        }
                        let start = end + 2;
                        let dend = start + (n as usize);
                        if buf[dend] == CR_BYTE && buf[dend + 1] == LF_BYTE {
                            let data = copy_range(buf, start, dend);
                            Ok((RespFrame::BulkString(BulkString(Some(data))), dend + 2))
                        } else {
                            Err(RespError::InvalidFrame)
                        }
                    },
                }
            },
        }
    } else if b0 == STAR_BYTE {
        match find_crlf_at(buf, 1) {
            None => Err(RespError::NotComplete),
            Some(end) => {
                let line = slice_subrange(buf, 1, end);
                match parse_length_line(line) {
                    LengthLine::Absent => Ok((RespFrame::Array(RespArray(None)), end + 2)),
                    LengthLine::Bad => Err(RespError::InvalidFrame),
                    LengthLine::Count(n) => {
                        let hdr = end + 2;
                        let mut frames: Vec<RespFrame> = Vec::new();
                        let mut cur: usize = hdr;
                        let mut k: u64 = 0;
                        proof {
                            let o = decode_elems(buf@.skip(hdr as int), n as int);
                            match o {
                                ElemsOutcome::Complete(fs, u) => {
                                    assert(frame_views(frames@) + fs =~= fs);
                                },
                                _ => {},
                            }
                        }
                        while k < n
                            invariant
                                hdr <= cur <= buf@.len(),
                                0 <= k <= n,
                                frames@.len() == k,
                                decode_elems(buf@.skip(hdr as int), n as int) == prepend_elems(
                                    frame_views(frames@),
                                    cur - hdr,
                                    decode_elems(buf@.skip(cur as int), n - k),
                                ),
                            decreases n - k,
                        {
                            let sub = slice_subrange(buf, cur, buf.len());
                            match parse_frame(sub) {
                                Ok((f, used)) => {
                                    proof {
                                        lemma_decode_elems_unfold(
                                            buf@.skip(cur as int),
                                            n - k,
                                            f@,
                                            used as int,
                                        );
                                        assert(buf@.skip(cur as int).skip(used as int) =~= buf@.skip(
                                            cur + used,
                                        ));
                                        lemma_prepend_assoc(
                                            frame_views(frames@),
                                            cur - hdr,
                                            seq![f@],
                                            used as int,
                                            decode_elems(buf@.skip(cur + used), n - k - 1),
                                        );
                                        assert(frame_views(frames@) + seq![f@] =~= frame_views(
                                            frames@.push(f),
                                        ));
                                    }
                                    frames.push(f);
                                    cur = cur + used;
                                    k = k + 1;
                                },
                                Err(e) => {
                                    return Err(e);
                                },
                            }
                        }
                        proof {
                            assert(decode_elems(buf@.skip(cur as int), 0)
                                == ElemsOutcome::Complete(Seq::empty(), 0));
                            assert(frame_views(frames@) + Seq::<FrameModel>::empty()
                                =~= frame_views(frames@));
                        }
                        Ok((RespFrame::Array(RespArray(Some(frames))), cur))
                    },
                }
            },
        }
    } else {
        Err(RespError::InvalidFrame)
    }
}

/// A frame's model variant follows its own variant.
pub proof fn lemma_view_variant(f: RespFrame)
    ensures
        f@ is SimpleString <==> f matches RespFrame::SimpleString(_),
        f@ is SimpleError <==> f matches RespFrame::SimpleError(_),
        f@ is Integer <==> f matches RespFrame::Integer(_),
        f@ is Bulk <==> f matches RespFrame::BulkString(_),
        f@ is Array <==> f matches RespFrame::Array(_),
        f@ is Null <==> f matches RespFrame::Null(_),
        f@ is Boolean <==> f matches RespFrame::Boolean(_),
{
    match f {
        RespFrame::SimpleString(_) => {},
        RespFrame::SimpleError(_) => {},
        RespFrame::Integer(_) => {},
        RespFrame::BulkString(BulkString(Some(_))) => {},
        RespFrame::BulkString(BulkString(None)) => {},
        RespFrame::Array(RespArray(Some(_))) => {},
        RespFrame::Array(RespArray(None)) => {},
        RespFrame::Null(_) => {},
        RespFrame::Boolean(_) => {},
    }
}

/// Removes the first `n` bytes of the buffer.
fn drain_prefix(buf: &mut Vec<u8>, n: usize)
    requires
        n <= old(buf)@.len(),
    ensures
        final(buf)@ == old(buf)@.skip(n as int),
{
    let mut rest: Vec<u8> = Vec::new();
    let mut i: usize = n;
    while i < buf.len()
        invariant
            n <= i <= buf@.len(),
            buf@ == old(buf)@,
            rest@ == buf@.subrange(n as int, i as int),
        decreases buf@.len() - i,
    {
        rest.push(buf[i]);
        proof {
            assert(buf@.subrange(n as int, i + 1) =~= buf@.subrange(n as int, i as int) + seq![
                buf@[i as int],
            ]);
        }
        i = i + 1;
    }
    proof {
        assert(buf@.subrange(n as int, buf@.len() as int) =~= buf@.skip(n as int));
    }
    *buf = rest;
}

impl RespFrame {
    /// Decodes one frame from the front of the buffer. On success exactly
    /// that frame's bytes are removed; on any error the buffer is unchanged.
    pub fn decode(buf: &mut Vec<u8>) -> (r: Result<RespFrame, RespError>)
        ensures
            r matches Ok(f) ==> decode_spec(old(buf)@) matches FrameOutcome::Complete(m, used)
                && f@ == m && final(buf)@ == old(buf)@.skip(used),
            r matches Err(e) ==> final(buf)@ == old(buf)@ && ((e == RespError::NotComplete
                && decode_spec(old(buf)@) is Incomplete) || (e == RespError::InvalidFrame
                && decode_spec(old(buf)@) is Malformed)),
    {
        match parse_frame(buf.as_slice()) {
            Ok((f, used)) => {
                drain_prefix(buf, used);
                Ok(f)
            },
            Err(e) => Err(e),
        }
    }

    /// Number of bytes the complete frame at the front of the buffer occupies.
    pub fn expect_length(buf: &[u8]) -> (r: Result<usize, RespError>)
        ensures
            r matches Ok(n) ==> decode_spec(buf@) matches FrameOutcome::Complete(m, used) && used
                == n,
            r matches Err(e) ==> (e == RespError::NotComplete && decode_spec(buf@)
                is Incomplete) || (e == RespError::InvalidFrame && decode_spec(buf@) is Malformed),
    {
        match parse_frame(buf) {
            Ok((_, used)) => Ok(used),
            Err(e) => Err(e),
        }
    }
}

impl SimpleString {
    /// Decodes a simple-string frame from the buffer's front; a complete
    /// frame of any other type is refused and the buffer left unchanged.
    pub fn decode(buf: &mut Vec<u8>) -> (r: Result<SimpleString, RespError>)
        ensures
            r matches Ok(s) ==> decode_spec(old(buf)@) matches FrameOutcome::Complete(m, used)
                && m == FrameModel::SimpleString(s.0@) && final(buf)@ == old(buf)@.skip(used),
            r matches Err(e) ==> final(buf)@ == old(buf)@,
            r matches Err(e) ==> (e == RespError::NotComplete <==> decode_spec(old(buf)@)
                is Incomplete),
            decode_spec(old(buf)@) matches FrameOutcome::Complete(m, used) ==> (m
                is SimpleString ==> r is Ok),
    {
        match parse_frame(buf.as_slice()) {
            Ok((RespFrame::SimpleString(s), used)) => {
                drain_prefix(buf, used);
                Ok(s)
            },
            Ok((other, _)) => {
                proof {
                    lemma_view_variant(other);
                }
                Err(RespError::InvalidFrame)
            },
            Err(e) => Err(e),
        }
    }

    /// Number of bytes the simple-string frame at the front occupies.
    pub fn expect_length(buf: &[u8]) -> (r: Result<usize, RespError>)
        ensures
            r matches Ok(n) ==> decode_spec(buf@) matches FrameOutcome::Complete(m, used) && used
                == n && m is SimpleString,
            r matches Err(e) ==> (e == RespError::NotComplete && decode_spec(buf@)
                is Incomplete) || (e == RespError::InvalidFrame && (decode_spec(buf@)
                is Malformed || (decode_spec(buf@) matches FrameOutcome::Complete(m, u) && !(m
                is SimpleString)))),
            decode_spec(buf@) matches FrameOutcome::Complete(m, used) ==> (m is SimpleString ==> r
                is Ok),
    {
        match parse_frame(buf) {
            Ok((RespFrame::SimpleString(_), used)) => Ok(used),
            Ok((other, _)) => {
                proof {
                    lemma_view_variant(other);
                }
                Err(RespError::InvalidFrame)
            },
            Err(e) => Err(e),
        }
    }
}

impl SimpleError {
    /// Decodes an error-message frame from the buffer's front; a complete
    /// frame of any other type is refused and the buffer left unchanged.
    pub fn decode(buf: &mut Vec<u8>) -> (r: Result<SimpleError, RespError>)
        ensures
            r matches Ok(s) ==> decode_spec(old(buf)@) matches FrameOutcome::Complete(m, used)
                && m == FrameModel::SimpleError(s.0@) && final(buf)@ == old(buf)@.skip(used),
            r matches Err(e) ==> final(buf)@ == old(buf)@,
            r matches Err(e) ==> (e == RespError::NotComplete <==> decode_spec(old(buf)@)
                is Incomplete),
            decode_spec(old(buf)@) matches FrameOutcome::Complete(m, used) ==> (m
                is SimpleError ==> r is Ok),
    {
        match parse_frame(buf.as_slice()) {
            Ok((RespFrame::SimpleError(s), used)) => {
                drain_prefix(buf, used);
                Ok(s)
            },
            Ok((other, _)) => {
                proof {
                    lemma_view_variant(other);
                }
                Err(RespError::InvalidFrame)
            },
            Err(e) => Err(e),
        }
    }

    /// Number of bytes the error-message frame at the front occupies.
    pub fn expect_length(buf: &[u8]) -> (r: Result<usize, RespError>)
        ensures
            r matches Ok(n) ==> decode_spec(buf@) matches FrameOutcome::Complete(m, used) && used
                == n && m is SimpleError,
            r matches Err(e) ==> (e == RespError::NotComplete && decode_spec(buf@)
                is Incomplete) || (e == RespError::InvalidFrame && (decode_spec(buf@)
                is Malformed || (decode_spec(buf@) matches FrameOutcome::Complete(m, u) && !(m
                is SimpleError)))),
            decode_spec(buf@) matches FrameOutcome::Complete(m, used) ==> (m is SimpleError ==> r
                is Ok),
    {
        match parse_frame(buf) {
            Ok((RespFrame::SimpleError(_), used)) => Ok(used),
            Ok((other, _)) => {
                proof {
                    lemma_view_variant(other);
                }
                Err(RespError::InvalidFrame)
            },
            Err(e) => Err(e),
        }
    }
}

impl BulkString {
    /// Decodes a bulk-string frame (present or absent) from the buffer's
    /// front; a complete frame of any other type is refused.
    pub fn decode(buf: &mut Vec<u8>) -> (r: Result<BulkString, RespError>)
        ensures
            r matches Ok(b) ==> decode_spec(old(buf)@) matches FrameOutcome::Complete(m, used)
                && m == FrameModel::Bulk(
                match b.0 {
                    Some(d) => Some(d@),
                    None => None,
                },
            ) && final(buf)@ == old(buf)@.skip(used),
            r matches Err(e) ==> final(buf)@ == old(buf)@,
            r matches Err(e) ==> (e == RespError::NotComplete <==> decode_spec(old(buf)@)
                is Incomplete),
            decode_spec(old(buf)@) matches FrameOutcome::Complete(m, used) ==> (m is Bulk
                ==> r is Ok),
    {
        match parse_frame(buf.as_slice()) {
            Ok((RespFrame::BulkString(b), used)) => {
                drain_prefix(buf, used);
                Ok(b)
            },
            Ok((other, _)) => {
                proof {
                    lemma_view_variant(other);
                }
                Err(RespError::InvalidFrame)
            },
            Err(e) => Err(e),
        }
    }

    /// Number of bytes the bulk-string frame at the front occupies.
    pub fn expect_length(buf: &[u8]) -> (r: Result<usize, RespError>)
        ensures
            r matches Ok(n) ==> decode_spec(buf@) matches FrameOutcome::Complete(m, used) && used
                == n && m is Bulk,
            r matches Err(e) ==> (e == RespError::NotComplete && decode_spec(buf@)
                is Incomplete) || (e == RespError::InvalidFrame && (decode_spec(buf@)
                is Malformed || (decode_spec(buf@) matches FrameOutcome::Complete(m, u) && !(m
                is Bulk)))),
            decode_spec(buf@) matches FrameOutcome::Complete(m, used) ==> (m is Bulk ==> r
                is Ok),
    {
        match parse_frame(buf) {
            Ok((RespFrame::BulkString(_), used)) => Ok(used),
            Ok((other, _)) => {
                proof {
                    lemma_view_variant(other);
                }
                Err(RespError::InvalidFrame)
            },
            Err(e) => Err(e),
        }
    }
}

impl RespArray {
    /// Decodes an array frame (present or absent) from the buffer's front;
    /// a complete frame of any other type is refused.
    pub fn decode(buf: &mut Vec<u8>) -> (r: Result<RespArray, RespError>)
        ensures
            r matches Ok(a) ==> decode_spec(old(buf)@) matches FrameOutcome::Complete(m, used)
                && m == FrameModel::Array(
                match a.0 {
                    Some(v) => Some(frame_views(v@)),
                    None => None,
                },
            ) && final(buf)@ == old(buf)@.skip(used),
            r matches Err(e) ==> final(buf)@ == old(buf)@,
            r matches Err(e) ==> (e == RespError::NotComplete <==> decode_spec(old(buf)@)
                is Incomplete),
            decode_spec(old(buf)@) matches FrameOutcome::Complete(m, used) ==> (m is Array
                ==> r is Ok),
    {
        match parse_frame(buf.as_slice()) {
            Ok((RespFrame::Array(a), used)) => {
                drain_prefix(buf, used);
                Ok(a)
            },
            Ok((other, _)) => {
                proof {
                    lemma_view_variant(other);
                }
                Err(RespError::InvalidFrame)
            },
            Err(e) => Err(e),
        }
    }

    /// Number of bytes the array frame at the front occupies.
    pub fn expect_length(buf: &[u8]) -> (r: Result<usize, RespError>)
        ensures
            r matches Ok(n) ==> decode_spec(buf@) matches FrameOutcome::Complete(m, used) && used
                == n && m is Array,
            r matches Err(e) ==> (e == RespError::NotComplete && decode_spec(buf@)
                is Incomplete) || (e == RespError::InvalidFrame && (decode_spec(buf@)
                is Malformed || (decode_spec(buf@) matches FrameOutcome::Complete(m, u) && !(m
                is Array)))),
            decode_spec(buf@) matches FrameOutcome::Complete(m, used) ==> (m is Array ==> r
                is Ok),
    {
        match parse_frame(buf) {
            Ok((RespFrame::Array(_), used)) => Ok(used),
            Ok((other, _)) => {
                proof {
                    lemma_view_variant(other);
                }
                Err(RespError::InvalidFrame)
            },
            Err(e) => Err(e),
        }
    }
}

impl RespNull {
    /// Decodes the dedicated null frame from the buffer's front; a complete
    /// frame of any other type is refused.
    pub fn decode(buf: &mut Vec<u8>) -> (r: Result<RespNull, RespError>)
        ensures
            r matches Ok(x) ==> decode_spec(old(buf)@) matches FrameOutcome::Complete(m, used)
                && m == FrameModel::Null && final(buf)@ == old(buf)@.skip(used),
            r matches Err(e) ==> final(buf)@ == old(buf)@,
            r matches Err(e) ==> (e == RespError::NotComplete <==> decode_spec(old(buf)@)
                is Incomplete),
            decode_spec(old(buf)@) matches FrameOutcome::Complete(m, used) ==> (m is Null
                ==> r is Ok),
    {
        match parse_frame(buf.as_slice()) {
            Ok((RespFrame::Null(x), used)) => {
                drain_prefix(buf, used);
                Ok(x)
            },
            Ok((other, _)) => {
                proof {
                    lemma_view_variant(other);
                }
                Err(RespError::InvalidFrame)
            },
            Err(e) => Err(e),
        }
    }

    /// Number of bytes the null frame occupies on the wire.
    pub fn expect_length(buf: &[u8]) -> (r: Result<usize, RespError>)
        ensures
            r matches Ok(n) ==> decode_spec(buf@) matches FrameOutcome::Complete(m, used) && used
                == n && m is Null,
            r matches Err(e) ==> (e == RespError::NotComplete && decode_spec(buf@)
                is Incomplete) || (e == RespError::InvalidFrame && (decode_spec(buf@)
                is Malformed || (decode_spec(buf@) matches FrameOutcome::Complete(m, u) && !(m
                is Null)))),
            decode_spec(buf@) matches FrameOutcome::Complete(m, used) ==> (m is Null ==> r
                is Ok),
    {
        match parse_frame(buf) {
            Ok((RespFrame::Null(_), used)) => Ok(used),
            Ok((other, _)) => {
                proof {
                    lemma_view_variant(other);
                }
                Err(RespError::InvalidFrame)
            },
            Err(e) => Err(e),
        }
    }
}

} // verus!
