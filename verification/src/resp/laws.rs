//! The codec's laws: encoding any constructible frame and decoding it back
//! yields the same frame and consumes exactly its bytes; the three null-like
//! values keep three distinct wire forms; and any strict prefix of a frame's
//! bytes decodes to "not complete", never to a frame or an error.
use vstd::prelude::*;

use crate::resp::decode::{
    decode_spec, decode_elems, find_crlf, int_line_value, is_int_line, is_len_line, is_neg_one,
    lemma_find_crlf_at, lemma_find_crlf_none, ElemsOutcome, FrameOutcome,
};
use crate::resp::digits::{
    all_digits, dec_digits, dec_value, lemma_dec_digits_digits, lemma_dec_digits_value, MINUS_BYTE,
};
use crate::resp::encode::{
    encode_all, encode_spec, int_digits, CR_BYTE, DOLLAR_BYTE, HASH_BYTE, LF_BYTE, STAR_BYTE,
    UNDERSCORE_BYTE,
};
use crate::resp::{frame_wf, frames_wf, no_line_break, FrameModel};

verus! {

/// Every frame occupies at least three bytes on the wire.
pub proof fn lemma_encode_len(f: FrameModel)
    ensures
        encode_spec(f).len() >= 3,
{
    match f {
        FrameModel::Integer(n) => {
            if n < 0 {
                lemma_dec_digits_digits((-n) as nat);
            } else {
                lemma_dec_digits_digits(n as nat);
            }
        },
        FrameModel::Bulk(Some(d)) => {
            lemma_dec_digits_digits(d.len());
        },
        FrameModel::Array(Some(fs)) => {
            lemma_dec_digits_digits(fs.len());
        },
        _ => {},
    }
}

/// The first CRLF pair of `[c] + t + crlf() + rest` with a break-free `t`
/// stands exactly after `t`.
proof fn lemma_line_crlf(s: Seq<u8>, t: Seq<u8>)
    requires
        s.len() >= 3 + t.len(),
        no_line_break(t),
        forall|j: int| 0 <= j < t.len() ==> s[1 + j] == #[trigger] t[j],
        s[1 + t.len() as int] == CR_BYTE,
        s[2 + t.len() as int] == LF_BYTE,
    ensures
        find_crlf(s, 1) == Some(1 + t.len() as int),
{
    assert forall|k: int| 1 <= k < 1 + t.len() implies !(#[trigger] s[k] == CR_BYTE && s[k + 1]
        == LF_BYTE) by {
        assert(s[k] == t[k - 1]);
    }
    lemma_find_crlf_at(s, 1, 1 + t.len() as int);
}

/// A break-free line with at most one further byte holds no CRLF pair yet.
proof fn lemma_line_no_crlf(s: Seq<u8>, t: Seq<u8>)
    requires
        s.len() <= 2 + t.len(),
        no_line_break(t),
        forall|j: int| 0 <= j < t.len() && 1 + j < s.len() ==> s[1 + j] == #[trigger] t[j],
    ensures
        find_crlf(s, 1) is None,
{
    assert forall|k: int| 1 <= k && k + 2 <= s.len() implies !(#[trigger] s[k] == CR_BYTE && s[k
        + 1] == LF_BYTE) by {
        assert(s[k] == t[k - 1]);
    }
    lemma_find_crlf_none(s, 1);
}

/// Round trip: decoding the encoding of any constructible frame, whatever
/// bytes follow it, yields that frame and consumes exactly its bytes.
pub proof fn lemma_encode_decode(f: FrameModel, rest: Seq<u8>)
    requires
        frame_wf(f),
    ensures
        decode_spec(encode_spec(f) + rest) == FrameOutcome::Complete(
            f,
            encode_spec(f).len() as int,
        ),
    decreases f, 0int, 0int,
{
    let e = encode_spec(f);
    let s = e + rest;
    match f {
        FrameModel::SimpleString(t) => {
            lemma_line_crlf(s, t);
            assert(s.subrange(1, 1 + t.len() as int) =~= t);
        },
        FrameModel::SimpleError(t) => {
            lemma_line_crlf(s, t);
            assert(s.subrange(1, 1 + t.len() as int) =~= t);
        },
        FrameModel::Integer(n) => {
            let d = int_digits(n);
            if n < 0 {
                lemma_dec_digits_digits((-n) as nat);
                lemma_dec_digits_value((-n) as nat);
            } else {
                lemma_dec_digits_digits(n as nat);
                lemma_dec_digits_value(n as nat);
            }
            assert(no_line_break(d));
            lemma_line_crlf(s, d);
            let line = s.subrange(1, 1 + d.len() as int);
            assert(line =~= d);
            if n < 0 {
                assert(line.skip(1) =~= dec_digits((-n) as nat));
                assert(is_int_line(line));
                assert(int_line_value(line) == n);
            } else {
                assert(line[0] != MINUS_BYTE);
                assert(is_int_line(line));
                assert(int_line_value(line) == n);
            }
        },
        FrameModel::Null => {
            assert(s[0] == UNDERSCORE_BYTE && s[1] == CR_BYTE && s[2] == LF_BYTE);
            assert(decode_spec(s) == FrameOutcome::Complete(FrameModel::Null, 3));
        },
        FrameModel::Boolean(b) => {
            assert(s[0] == HASH_BYTE && s[2] == CR_BYTE && s[3] == LF_BYTE);
            assert(decode_spec(s) == FrameOutcome::Complete(FrameModel::Boolean(b), 4));
        },
        FrameModel::Bulk(None) => {
            assert(s[0] == DOLLAR_BYTE);
            lemma_find_crlf_at(s, 1, 3);
            let line = s.subrange(1, 3);
            assert(is_neg_one(line));
        },
        FrameModel::Bulk(Some(data)) => {
            let dd = dec_digits(data.len());
            lemma_dec_digits_digits(data.len());
            lemma_dec_digits_value(data.len());
            lemma_line_crlf(s, dd);
            let end = 1 + dd.len() as int;
            let line = s.subrange(1, end);
            assert(line =~= dd);
            assert(!is_neg_one(line));
            assert(is_len_line(line));
            let n = dec_value(line);
            assert(n == data.len());
            assert(s.len() >= end + 2 + n + 2);
            assert(s[end + 2 + n] == CR_BYTE && s[end + 2 + n + 1] == LF_BYTE);
            assert(s.subrange(end + 2, end + 2 + n) =~= data);
        },
        FrameModel::Array(None) => {
            assert(s[0] == STAR_BYTE);
            lemma_find_crlf_at(s, 1, 3);
            let line = s.subrange(1, 3);
            assert(is_neg_one(line));
        },
        FrameModel::Array(Some(fs)) => {
            let dd = dec_digits(fs.len());
            lemma_dec_digits_digits(fs.len());
            lemma_dec_digits_value(fs.len());
            lemma_line_crlf(s, dd);
            let end = 1 + dd.len() as int;
            let line = s.subrange(1, end);
            assert(line =~= dd);
            assert(!is_neg_one(line));
            assert(is_len_line(line));
            let n = dec_value(line);
            assert(n == fs.len());
            assert(decreases_to!(f => fs));
            assert(s.skip(end + 2) =~= encode_all(fs, 0) + rest);
            lemma_encode_decode_elems(fs, 0, rest);
            assert(fs.skip(0) =~= fs);
            assert(decode_elems(s.skip(end + 2), n) == ElemsOutcome::Complete(
                fs,
                encode_all(fs, 0).len() as int,
            ));
        },
    }
}

/// Round trip for a run of frames, element by element.
proof fn lemma_encode_decode_elems(fs: Seq<FrameModel>, i: int, rest: Seq<u8>)
    requires
        0 <= i <= fs.len(),
        frames_wf(fs, i),
    ensures
        decode_elems(encode_all(fs, i) + rest, fs.len() - i) == ElemsOutcome::Complete(
            fs.skip(i),
            encode_all(fs, i).len() as int,
        ),
    decreases fs, 1int, fs.len() - i,
{
    if i == fs.len() {
        assert(encode_all(fs, i) + rest =~= rest);
        assert(fs.skip(i) =~= Seq::<FrameModel>::empty());
        assert(decode_elems(rest, 0) == ElemsOutcome::Complete(Seq::empty(), 0));
    } else {
        assert(decreases_to!(fs => fs[i]));
        let e = encode_spec(fs[i]);
        let tail = encode_all(fs, i + 1);
        let s = encode_all(fs, i) + rest;
        assert(s =~= e + (tail + rest));
        lemma_encode_decode(fs[i], tail + rest);
        lemma_encode_len(fs[i]);
        assert(decode_spec(s) == FrameOutcome::Complete(fs[i], e.len() as int));
        assert(s.skip(e.len() as int) =~= tail + rest);
        lemma_encode_decode_elems(fs, i + 1, rest);
        assert(seq![fs[i]] + fs.skip(i + 1) =~= fs.skip(i));
    }
}

/// The dedicated null, the absent bulk string and the absent array encode to
/// three pairwise different byte sequences, each also different from the
/// present-but-empty bulk string's and array's encodings; and the five frame
/// values are pairwise unequal.
pub proof fn lemma_null_distinctness()
    ensures
        encode_spec(FrameModel::Null) != encode_spec(FrameModel::Bulk(None)),
        encode_spec(FrameModel::Null) != encode_spec(FrameModel::Array(None)),
        encode_spec(FrameModel::Bulk(None)) != encode_spec(FrameModel::Array(None)),
        encode_spec(FrameModel::Bulk(None)) != encode_spec(
            FrameModel::Bulk(Some(Seq::empty())),
        ),
        encode_spec(FrameModel::Array(None)) != encode_spec(
            FrameModel::Array(Some(Seq::empty())),
        ),
        FrameModel::Null != FrameModel::Bulk(None),
        FrameModel::Null != FrameModel::Array(None),
        FrameModel::Bulk(None) != FrameModel::Array(None),
        FrameModel::Bulk(None) != FrameModel::Bulk(Some(Seq::empty())),
        FrameModel::Array(None) != FrameModel::Array(Some(Seq::empty())),
{
    assert(encode_spec(FrameModel::Null)[0] == UNDERSCORE_BYTE);
    assert(encode_spec(FrameModel::Bulk(None))[0] == DOLLAR_BYTE);
    assert(encode_spec(FrameModel::Array(None))[0] == STAR_BYTE);
    assert(encode_spec(FrameModel::Bulk(Some(Seq::empty())))[1] == dec_digits(0)[0]);
    assert(encode_spec(FrameModel::Bulk(None))[1] == MINUS_BYTE);
    assert(encode_spec(FrameModel::Array(Some(Seq::empty())))[1] == dec_digits(0)[0]);
    assert(encode_spec(FrameModel::Array(None))[1] == MINUS_BYTE);
}

/// Any strict prefix of a constructible frame's encoding decodes to "not
/// complete": never to a frame, never to an error.
pub proof fn lemma_prefix_incomplete(f: FrameModel, k: int)
    requires
        frame_wf(f),
        0 <= k < encode_spec(f).len(),
    ensures
        decode_spec(encode_spec(f).take(k)) == FrameOutcome::Incomplete,
    decreases f, 0int, 0int,
{
    let e = encode_spec(f);
    let p = e.take(k);
    if k == 0 {
        return ;
    }
    match f {
        FrameModel::SimpleString(t) => {
            lemma_line_no_crlf(p, t);
        },
        FrameModel::SimpleError(t) => {
            lemma_line_no_crlf(p, t);
        },
        FrameModel::Integer(n) => {
            let d = int_digits(n);
            if n < 0 {
                lemma_dec_digits_digits((-n) as nat);
            } else {
                lemma_dec_digits_digits(n as nat);
            }
            assert(no_line_break(d));
            lemma_line_no_crlf(p, d);
        },
        FrameModel::Null => {
            assert(p[0] == UNDERSCORE_BYTE);
        },
        FrameModel::Boolean(b) => {
            assert(p[0] == HASH_BYTE);
        },
        FrameModel::Bulk(None) => {
            assert(p[0] == DOLLAR_BYTE);
            lemma_line_no_crlf(p, seq![MINUS_BYTE, 49u8]);
        },
        FrameModel::Bulk(Some(data)) => {
            let dd = dec_digits(data.len());
            lemma_dec_digits_digits(data.len());
            lemma_dec_digits_value(data.len());
            let hdr = 3 + dd.len() as int;
            if k < hdr {
                lemma_line_no_crlf(p, dd);
            } else {
                lemma_line_crlf(p, dd);
                let end = 1 + dd.len() as int;
                let line = p.subrange(1, end);
                assert(line =~= dd);
                assert(!is_neg_one(line));
                assert(is_len_line(line));
                assert(dec_value(line) == data.len());
                assert(p.len() < end + 2 + data.len() + 2);
            }
        },
        FrameModel::Array(None) => {
            assert(p[0] == STAR_BYTE);
            lemma_line_no_crlf(p, seq![MINUS_BYTE, 49u8]);
        },
        FrameModel::Array(Some(fs)) => {
            let dd = dec_digits(fs.len());
            lemma_dec_digits_digits(fs.len());
            lemma_dec_digits_value(fs.len());
            let hdr = 3 + dd.len() as int;
            if k < hdr {
                lemma_line_no_crlf(p, dd);
            } else {
                lemma_line_crlf(p, dd);
                let end = 1 + dd.len() as int;
                let line = p.subrange(1, end);
                assert(line =~= dd);
                assert(!is_neg_one(line));
                assert(is_len_line(line));
                assert(dec_value(line) == fs.len());
                assert(decreases_to!(f => fs));
                assert(p.skip(end + 2) =~= encode_all(fs, 0).take(k - hdr));
                lemma_prefix_incomplete_elems(fs, 0, k - hdr);
            }
        },
    }
}

/// Any strict prefix of a run of encoded frames decodes to "not complete".
proof fn lemma_prefix_incomplete_elems(fs: Seq<FrameModel>, i: int, k: int)
    requires
        0 <= i <= fs.len(),
        frames_wf(fs, i),
        0 <= k < encode_all(fs, i).len(),
    ensures
        decode_elems(encode_all(fs, i).take(k), fs.len() - i) == ElemsOutcome::Incomplete,
    decreases fs, 1int, fs.len() - i,
{
    assert(i < fs.len());
    assert(decreases_to!(fs => fs[i]));
    let e = encode_spec(fs[i]);
    let tail = encode_all(fs, i + 1);
    let p = encode_all(fs, i).take(k);
    lemma_encode_len(fs[i]);
    if k < e.len() {
        assert(p =~= e.take(k));
        lemma_prefix_incomplete(fs[i], k);
    } else {
        assert(p =~= e + tail.take(k - e.len()));
        lemma_encode_decode(fs[i], tail.take(k - e.len()));
        assert(decode_spec(p) == FrameOutcome::Complete(fs[i], e.len() as int));
        assert(p.skip(e.len() as int) =~= tail.take(k - e.len()));
        lemma_prefix_incomplete_elems(fs, i + 1, k - e.len());
    }
}

/// Feeding a frame's bytes split at any boundary: the first part alone is
/// "not complete"; the whole, once the remainder arrives, is the frame.
pub proof fn lemma_split_decode(f: FrameModel, k: int)
    requires
        frame_wf(f),
        0 <= k < encode_spec(f).len(),
    ensures
        decode_spec(encode_spec(f).take(k)) == FrameOutcome::Incomplete,
        decode_spec(encode_spec(f)) == FrameOutcome::Complete(f, encode_spec(f).len() as int),
{
    lemma_prefix_incomplete(f, k);
    lemma_encode_decode(f, Seq::empty());
    assert(encode_spec(f) + Seq::<u8>::empty() =~= encode_spec(f));
}

} // verus!

