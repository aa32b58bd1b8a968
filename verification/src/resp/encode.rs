//! Encoding: the byte sequence each frame value occupies on the wire, and the
//! verified encoder. Encoding is total and deterministic.
use vstd::prelude::*;

use crate::resp::digits::{dec_digits, format_u64, MINUS_BYTE};
use crate::resp::{frame_view, frame_views, BulkString, FrameModel, RespArray, RespFrame};

verus! {

pub const CR_BYTE: u8 = 13;
pub const LF_BYTE: u8 = 10;
pub const PLUS_BYTE: u8 = 43;
pub const COLON_BYTE: u8 = 58;
pub const DOLLAR_BYTE: u8 = 36;
pub const STAR_BYTE: u8 = 42;
pub const UNDERSCORE_BYTE: u8 = 95;
pub const HASH_BYTE: u8 = 35;
pub const TRUE_BYTE: u8 = 116;
pub const FALSE_BYTE: u8 = 102;

pub open spec fn crlf() -> Seq<u8> {
    seq![CR_BYTE, LF_BYTE]
}

/// Digit string of an integer, with a leading minus sign when negative.
pub open spec fn int_digits(n: int) -> Seq<u8> {
    if n < 0 {
        seq![MINUS_BYTE] + dec_digits((-n) as nat)
    } else {
        dec_digits(n as nat)
    }
}

/// The exact bytes a frame value occupies on the wire.
pub open spec fn encode_spec(f: FrameModel) -> Seq<u8>
    decreases f, 0int,
{
    match f {
        FrameModel::SimpleString(t) => seq![PLUS_BYTE] + t + crlf(),
        FrameModel::SimpleError(t) => seq![MINUS_BYTE] + t + crlf(),
        FrameModel::Integer(n) => seq![COLON_BYTE] + int_digits(n) + crlf(),
        FrameModel::Bulk(None) => seq![DOLLAR_BYTE, MINUS_BYTE, 49u8, CR_BYTE, LF_BYTE],
        FrameModel::Bulk(Some(d)) => seq![DOLLAR_BYTE] + dec_digits(d.len()) + crlf() + d + crlf(),
        FrameModel::Array(None) => seq![STAR_BYTE, MINUS_BYTE, 49u8, CR_BYTE, LF_BYTE],
        FrameModel::Array(Some(fs)) => seq![STAR_BYTE] + dec_digits(fs.len()) + crlf()
            + encode_all(fs, 0),
        FrameModel::Null => seq![UNDERSCORE_BYTE, CR_BYTE, LF_BYTE],
        FrameModel::Boolean(b) => seq![
            HASH_BYTE,
            if b {
                TRUE_BYTE
            } else {
                FALSE_BYTE
            },
            CR_BYTE,
            LF_BYTE,
        ],
    }
}

/// Concatenated encodings of the frames of `fs` from index `i` on.
pub open spec fn encode_all(fs: Seq<FrameModel>, i: int) -> Seq<u8>
    decreases fs, 1int, fs.len() - i,
{
    if i < 0 || i >= fs.len() {
        Seq::empty()
    } else {
        encode_spec(fs[i]) + encode_all(fs, i + 1)
    }
}

/// Splitting the element encodings at any element boundary.
pub proof fn lemma_encode_all_split(fs: Seq<FrameModel>, i: int)
    requires
        0 <= i < fs.len(),
    ensures
        encode_all(fs, i) == encode_spec(fs[i]) + encode_all(fs, i + 1),
{
}

/// Appends `tail` to `buf`.
pub fn extend_bytes(buf: &mut Vec<u8>, tail: &Vec<u8>)
    ensures
        final(buf)@ == old(buf)@ + tail@,
{
    let mut i: usize = 0;
    while i < tail.len()
        invariant
            0 <= i <= tail@.len(),
            buf@ == old(buf)@ + tail@.take(i as int),
        decreases tail@.len() - i,
    {
        buf.push(tail[i]);
        proof {
            assert(old(buf)@ + tail@.take(i + 1) =~= (old(buf)@ + tail@.take(i as int)) + seq![
                tail@[i as int],
            ]);
        }
        i = i + 1;
    }
    proof {
        assert(tail@.take(tail@.len() as int) =~= tail@);
    }
}

/// Appends the digit string of `n`, then a CRLF pair.
fn push_length_line(buf: &mut Vec<u8>, n: u64)
    ensures
        final(buf)@ == old(buf)@ + dec_digits(n as nat) + crlf(),
{
    let digits = format_u64(n);
    extend_bytes(buf, &digits);
    buf.push(CR_BYTE);
    buf.push(LF_BYTE);
    proof {
        assert(buf@ =~= old(buf)@ + dec_digits(n as nat) + crlf());
    }
}

impl RespFrame {
    /// Encodes the frame as the exact byte sequence it occupies on the wire.
    #[verifier::loop_isolation(false)]
    pub fn encode(&self) -> (r: Vec<u8>)
        ensures
            r@ == encode_spec(self@),
        decreases *self,
    {
        let mut out: Vec<u8> = Vec::new();
        match self {
            RespFrame::SimpleString(s) => {
                out.push(PLUS_BYTE);
                extend_bytes(&mut out, &s.0);
                out.push(CR_BYTE);
                out.push(LF_BYTE);
                proof {
                    assert(out@ =~= encode_spec(self@));
                }
            },
            RespFrame::SimpleError(s) => {
                out.push(MINUS_BYTE);
                extend_bytes(&mut out, &s.0);
                out.push(CR_BYTE);
                out.push(LF_BYTE);
                proof {
                    assert(out@ =~= encode_spec(self@));
                }
            },
            RespFrame::Integer(n) => {
                out.push(COLON_BYTE);
                let m = *n;
                if m < 0 {
                    out.push(MINUS_BYTE);
                    let mag: u64 = (-(m as i128)) as u64;
                    proof {
                        assert(mag == -(m as int));
                    }
                    let digits = format_u64(mag);
                    extend_bytes(&mut out, &digits);
                } else {
                    let digits = format_u64(m as u64);
                    extend_bytes(&mut out, &digits);
                }
                out.push(CR_BYTE);
                out.push(LF_BYTE);
                proof {
                    assert(out@ =~= encode_spec(self@));
                }
            },
            RespFrame::BulkString(BulkString(opt)) => {
                match opt {
                    None => {
                        out.push(DOLLAR_BYTE);
                        out.push(MINUS_BYTE);
                        out.push(49);
                        out.push(CR_BYTE);
                        out.push(LF_BYTE);
                        proof {
                            assert(out@ =~= encode_spec(self@));
                        }
                    },
                    Some(d) => {
                        out.push(DOLLAR_BYTE);
                        push_length_line(&mut out, d.len() as u64);
                        extend_bytes(&mut out, d);
                        out.push(CR_BYTE);
                        out.push(LF_BYTE);
                        proof {
                            assert(out@ =~= encode_spec(self@));
                        }
                    },
                }
            },
            RespFrame::Array(RespArray(opt)) => {
                match opt {
                    None => {
                        out.push(STAR_BYTE);
                        out.push(MINUS_BYTE);
                        out.push(49);
                        out.push(CR_BYTE);
                        out.push(LF_BYTE);
                        proof {
                            assert(out@ =~= encode_spec(self@));
                        }
                    },
                    Some(v) => {
                        out.push(STAR_BYTE);
                        push_length_line(&mut out, v.len() as u64);
                        let ghost fs = frame_views(v@);
                        let ghost header = out@;
                        let mut i: usize = 0;
                        while i < v.len()
                            invariant
                                0 <= i <= v@.len(),
                                fs == frame_views(v@),
                                fs.len() == v@.len(),
                                out@ + encode_all(fs, i as int) == header + encode_all(fs, 0),
                            decreases v@.len() - i,
                        {
                            proof {
                                assert(decreases_to!(*self => *v));
                                assert(decreases_to!(*v => v@));
                                assert(decreases_to!(v@ => v@[i as int]));
                            }
                            let ghost prev = out@;
                            let piece = v[i].encode();
                            extend_bytes(&mut out, &piece);
                            proof {
                                lemma_encode_all_split(fs, i as int);
                                assert(fs[i as int] == frame_view(v@[i as int]));
                                assert(piece@ == encode_spec(fs[i as int]));
                                assert(out@ + encode_all(fs, i + 1) =~= prev + encode_all(
                                    fs,
                                    i as int,
                                ));
                            }
                            i = i + 1;
                        }
                        proof {
                            assert(encode_all(fs, v@.len() as int) =~= Seq::<u8>::empty());
                            assert(out@ =~= out@ + encode_all(fs, v@.len() as int));
                            assert(self@ == FrameModel::Array(Some(fs)));
                            assert(out@ =~= encode_spec(self@)) by {
                                assert(header =~= seq![STAR_BYTE] + dec_digits(v@.len() as nat)
                                    + crlf());
                            };
                        }
                    },
                }
            },
            RespFrame::Null(_) => {
                out.push(UNDERSCORE_BYTE);
                out.push(CR_BYTE);
                out.push(LF_BYTE);
                proof {
                    assert(out@ =~= encode_spec(self@));
                }
            },
            RespFrame::Boolean(b) => {
                out.push(HASH_BYTE);
                if *b {
                    out.push(TRUE_BYTE);
                } else {
                    out.push(FALSE_BYTE);
                }
                out.push(CR_BYTE);
                out.push(LF_BYTE);
                proof {
                    assert(out@ =~= encode_spec(self@));
                }
            },
        }
        out
    }
}

} // verus!
