//! The frame data model of the wire protocol: one variant per wire type, each
//! carrying exactly the payload needed to re-encode it, together with the
//! mathematical model (`FrameModel`) that the codec contracts speak about.
//!
//! All text payloads are kept as raw bytes: the wire format is a byte
//! protocol, and keeping bytes makes the round-trip law hold without any
//! character re-encoding caveats.
use vstd::prelude::*;
use vstd::string::{StrSliceExecFns, StringSliceAdditionalSpecFns};

pub mod decode;
pub mod digits;
pub mod encode;
pub mod laws;

verus! {

/// Error outcome of decoding.
///
/// `NotComplete` is not a failure: the buffer holds only part of a frame and
/// the caller must wait for more bytes. `InvalidFrame` means the bytes do not
/// conform to the wire grammar, which is fatal to the connection.
#[derive(Debug, Clone, Copy, PartialEq, Eq, Structural)]
pub enum RespError {
    NotComplete,
    InvalidFrame,
}

/// A simple string: short trusted text with no embedded line breaks.
#[derive(Debug, Clone, PartialEq, Eq)]
pub struct SimpleString(pub Vec<u8>);

/// A protocol-level error message line.
#[derive(Debug, Clone, PartialEq, Eq)]
pub struct SimpleError(pub Vec<u8>);

/// A length-prefixed byte string; `None` is the wire "null bulk string",
/// distinct from the present-but-empty string.
#[derive(Debug, Clone, PartialEq, Eq)]
pub struct BulkString(pub Option<Vec<u8>>);

/// An ordered sequence of frames; `None` is the wire "null array", distinct
/// from the present-but-empty array.
#[derive(Debug)]
pub struct RespArray(pub Option<Vec<RespFrame>>);

/// The dedicated null marker, distinct from null bulk string and null array.
#[derive(Debug, Clone, PartialEq, Eq)]
pub struct RespNull;

/// One decoded unit of the wire protocol.
#[derive(Debug)]
pub enum RespFrame {
    SimpleString(SimpleString),
    SimpleError(SimpleError),
    Integer(i64),
    BulkString(BulkString),
    Array(RespArray),
    Null(RespNull),
    Boolean(bool),
}

/// The mathematical value of a frame, used by every codec contract.
pub enum FrameModel {
    SimpleString(Seq<u8>),
    SimpleError(Seq<u8>),
    Integer(int),
    Bulk(Option<Seq<u8>>),
    Array(Option<Seq<FrameModel>>),
    Null,
    Boolean(bool),
}

impl SimpleString {
    /// Builds a simple string from text; the bytes kept are the text's UTF-8 bytes.
    pub fn new(s: String) -> (r: SimpleString)
        ensures
            r.0@ == vstd::utf8::encode_utf8(s@),
    {
        SimpleString(s.as_str().as_bytes_vec())
    }
}

impl SimpleError {
    /// Builds an error message frame from text.
    pub fn new(s: String) -> (r: SimpleError)
        ensures
            r.0@ == vstd::utf8::encode_utf8(s@),
    {
        SimpleError(s.as_str().as_bytes_vec())
    }
}

impl BulkString {
    /// Builds a present bulk string holding the given bytes.
    pub fn new(data: Vec<u8>) -> (r: BulkString)
        ensures
            r.0 matches Some(d) && d@ == data@,
    {
        BulkString(Some(data))
    }

    /// The absent ("null") bulk string.
    pub fn null() -> (r: BulkString)
        ensures
            r.0 is None,
    {
        BulkString(None)
    }
}

impl RespArray {
    /// Builds a present array of the given frames.
    pub fn new(frames: Vec<RespFrame>) -> (r: RespArray)
        ensures
            r.0 matches Some(v) && v@ == frames@,
    {
        RespArray(Some(frames))
    }

    /// The absent ("null") array.
    pub fn null() -> (r: RespArray)
        ensures
            r.0 is None,
    {
        RespArray(None)
    }
}

/// Model of a frame value.
pub open spec fn frame_view(f: RespFrame) -> FrameModel
    decreases f,
        via frame_view_decreases
{
    match f {
        RespFrame::SimpleString(s) => FrameModel::SimpleString(s.0@),
        RespFrame::SimpleError(s) => FrameModel::SimpleError(s.0@),
        RespFrame::Integer(n) => FrameModel::Integer(n as int),
        RespFrame::BulkString(BulkString(Some(d))) => FrameModel::Bulk(Some(d@)),
        RespFrame::BulkString(BulkString(None)) => FrameModel::Bulk(None),
        RespFrame::Array(RespArray(Some(v))) => FrameModel::Array(Some(frame_views(v@))),
        RespFrame::Array(RespArray(None)) => FrameModel::Array(None),
        RespFrame::Null(_) => FrameModel::Null,
        RespFrame::Boolean(b) => FrameModel::Boolean(b),
    }
}

#[via_fn]
proof fn frame_view_decreases(f: RespFrame) {
    match f {
        RespFrame::Array(RespArray(Some(v))) => {
            assert(decreases_to!(f => v));
            assert(decreases_to!(v => v@));
        },
        _ => {},
    }
}

/// Models of a sequence of frames, elementwise.
pub open spec fn frame_views(v: Seq<RespFrame>) -> Seq<FrameModel>
    decreases v,
{
    Seq::new(
        v.len(),
        |i: int|
            if 0 <= i < v.len() {
                frame_view(v[i])
            } else {
                FrameModel::Null
            },
    )
}

impl View for RespFrame {
    type V = FrameModel;

    open spec fn view(&self) -> FrameModel {
        frame_view(*self)
    }
}

pub open spec fn no_line_break(t: Seq<u8>) -> bool {
    forall|i: int| 0 <= i < t.len() ==> #[trigger] t[i] != 13u8 && t[i] != 10u8
}

/// A constructible frame: one whose payloads the wire format can carry.
/// Simple lines must not embed a line break, and lengths must fit the
/// decimal length fields (which are read back as signed 64-bit numbers).
pub open spec fn frame_wf(f: FrameModel) -> bool
    decreases f, 0int,
{
    match f {
        FrameModel::SimpleString(t) => no_line_break(t),
        FrameModel::SimpleError(t) => no_line_break(t),
        FrameModel::Integer(n) => i64::MIN <= n <= i64::MAX,
        FrameModel::Bulk(d) => d matches Some(b) ==> b.len() <= i64::MAX,
        FrameModel::Array(a) => match a {
            Some(fs) => fs.len() <= i64::MAX && frames_wf(fs, 0),
            None => true,
        },
        FrameModel::Null => true,
        FrameModel::Boolean(_) => true,
    }
}

/// All frames of `fs` from index `i` on are well formed.
pub open spec fn frames_wf(fs: Seq<FrameModel>, i: int) -> bool
    decreases fs, 1int, fs.len() - i,
{
    if i < 0 || i >= fs.len() {
        true
    } else {
        frame_wf(fs[i]) && frames_wf(fs, i + 1)
    }
}

/// Byte-for-byte equality of two byte slices.
pub fn bytes_eq(a: &[u8], b: &[u8]) -> (r: bool)
    ensures
        r == (a@ == b@),
{
    if a.len() != b.len() {
        return false;
    }
    let mut i: usize = 0;
    while i < a.len()
        invariant
            0 <= i <= a@.len(),
            a@.len() == b@.len(),
            forall|k: int| 0 <= k < i ==> a@[k] == b@[k],
        decreases a@.len() - i,
    {
        if a[i] != b[i] {
            return false;
        }
        i = i + 1;
    }
    proof {
        assert(a@ =~= b@);
    }
    true
}

/// Deep equality of two frames: equality of their models.
pub fn frame_eq(a: &RespFrame, b: &RespFrame) -> (r: bool)
    ensures
        r == (frame_view(*a) == frame_view(*b)),
    decreases *a,
{
    match a {
        RespFrame::SimpleString(x) => match b {
            RespFrame::SimpleString(y) => bytes_eq(x.0.as_slice(), y.0.as_slice()),
            _ => false,
        },
        RespFrame::SimpleError(x) => match b {
            RespFrame::SimpleError(y) => bytes_eq(x.0.as_slice(), y.0.as_slice()),
            _ => false,
        },
        RespFrame::Integer(x) => match b {
            RespFrame::Integer(y) => *x == *y,
            _ => false,
        },
        RespFrame::BulkString(x) => match b {
            RespFrame::BulkString(y) => match (&x.0, &y.0) {
                (Some(p), Some(q)) => bytes_eq(p.as_slice(), q.as_slice()),
                (None, None) => true,
                _ => false,
            },
            _ => false,
        },
        RespFrame::Array(RespArray(Some(v))) => match b {
            RespFrame::Array(RespArray(Some(w))) => {
                proof {
                    assert(decreases_to!(*a => *v));
                    assert(decreases_to!(*v => v@));
                }
                frame_vecs_eq(v, w)
            },
            _ => false,
        },
        RespFrame::Array(RespArray(None)) => match b {
            RespFrame::Array(RespArray(None)) => true,
            _ => false,
        },
        RespFrame::Null(_) => match b {
            RespFrame::Null(_) => true,
            _ => false,
        },
        RespFrame::Boolean(x) => match b {
            RespFrame::Boolean(y) => *x == *y,
            _ => false,
        },
    }
}

/// Elementwise deep equality of two frame vectors.
fn frame_vecs_eq(v: &Vec<RespFrame>, w: &Vec<RespFrame>) -> (r: bool)
    ensures
        r == (frame_views(v@) == frame_views(w@)),
    decreases v@,
{
    if v.len() != w.len() {
        proof {
            assert(frame_views(v@).len() != frame_views(w@).len());
        }
        return false;
    }
    let mut i: usize = 0;
    while i < v.len()
        invariant
            0 <= i <= v@.len(),
            v@.len() == w@.len(),
            forall|k: int| 0 <= k < i ==> frame_view(v@[k]) == frame_view(w@[k]),
        decreases v@.len() - i,
    {
        proof {
            assert(decreases_to!(v@ => v@[i as int]));
        }
        if !frame_eq(&v[i], &w[i]) {
            proof {
                assert(frame_views(v@)[i as int] != frame_views(w@)[i as int]);
            }
            return false;
        }
        i = i + 1;
    }
    proof {
        assert(frame_views(v@) =~= frame_views(w@));
    }
    true
}

/// Copies a byte vector.
pub fn clone_bytes(v: &Vec<u8>) -> (r: Vec<u8>)
    ensures
        r@ == v@,
{
    let mut out: Vec<u8> = Vec::new();
    let mut i: usize = 0;
    while i < v.len()
        invariant
            0 <= i <= v@.len(),
            out@ == v@.take(i as int),
        decreases v@.len() - i,
    {
        out.push(v[i]);
        proof {
            assert(v@.take(i + 1) =~= v@.take(i as int) + seq![v@[i as int]]);
        }
        i = i + 1;
    }
    proof {
        assert(v@.take(v@.len() as int) =~= v@);
    }
    out
}

/// Copies a frame; the copy has the same model.
#[verifier::loop_isolation(false)]
pub fn frame_clone(a: &RespFrame) -> (r: RespFrame)
    ensures
        frame_view(r) == frame_view(*a),
    decreases *a,
{
    match a {
        RespFrame::SimpleString(x) => RespFrame::SimpleString(SimpleString(clone_bytes(&x.0))),
        RespFrame::SimpleError(x) => RespFrame::SimpleError(SimpleError(clone_bytes(&x.0))),
        RespFrame::Integer(x) => RespFrame::Integer(*x),
        RespFrame::BulkString(x) => match &x.0 {
            Some(d) => RespFrame::BulkString(BulkString(Some(clone_bytes(d)))),
            None => RespFrame::BulkString(BulkString(None)),
        },
        RespFrame::Array(RespArray(Some(v))) => {
            {
                let mut out: Vec<RespFrame> = Vec::new();
                let mut i: usize = 0;
                while i < v.len()
                    invariant
                        0 <= i <= v@.len(),
                        out@.len() == i,
                        forall|k: int| 0 <= k < i ==> frame_view(#[trigger] out@[k]) == frame_view(
                            v@[k],
                        ),
                    decreases v@.len() - i,
                {
                    proof {
                        assert(decreases_to!(*a => *v));
                        assert(decreases_to!(*v => v@));
                        assert(decreases_to!(v@ => v@[i as int]));
                    }
                    let e = frame_clone(&v[i]);
                    out.push(e);
                    i = i + 1;
                }
                proof {
                    assert(frame_views(out@) =~= frame_views(v@));
                }
                RespFrame::Array(RespArray(Some(out)))
            }
        },
        RespFrame::Array(RespArray(None)) => RespFrame::Array(RespArray(None)),
        RespFrame::Null(_) => RespFrame::Null(RespNull),
        RespFrame::Boolean(x) => RespFrame::Boolean(*x),
    }
}

impl Clone for RespFrame {
    /// The copy has the same model as the original.
    fn clone(&self) -> (r: Self)
        ensures
            r@ == self@,
    {
        frame_clone(self)
    }
}

impl Clone for RespArray {
    /// The copy has the same model as the original.
    fn clone(&self) -> (r: Self)
        ensures
            match (r.0, self.0) {
                (Some(v), Some(w)) => frame_views(v@) == frame_views(w@),
                (None, None) => true,
                _ => false,
            },
    {
        match &self.0 {
            Some(v) => {
                let mut out: Vec<RespFrame> = Vec::new();
                let mut i: usize = 0;
                while i < v.len()
                    invariant
                        0 <= i <= v@.len(),
                        out@.len() == i,
                        forall|k: int| 0 <= k < i ==> frame_view(#[trigger] out@[k]) == frame_view(
                            v@[k],
                        ),
                    decreases v@.len() - i,
                {
                    let e = frame_clone(&v[i]);
                    out.push(e);
                    i = i + 1;
                }
                proof {
                    assert(frame_views(out@) =~= frame_views(v@));
                }
                RespArray(Some(out))
            },
            None => RespArray(None),
        }
    }
}

impl PartialEq for RespFrame {
    /// Two frames are equal when their models are equal.
    fn eq(&self, other: &Self) -> (r: bool)
        ensures
            r == (self@ == other@),
    {
        frame_eq(self, other)
    }
}

impl vstd::std_specs::cmp::PartialEqSpecImpl for RespFrame {
    open spec fn obeys_eq_spec() -> bool {
        true
    }

    open spec fn eq_spec(&self, other: &Self) -> bool {
        self@ == other@
    }
}

impl PartialEq for RespArray {
    /// Two arrays are equal when both are absent or their frames are equal.
    fn eq(&self, other: &Self) -> (r: bool)
        ensures
            r == (match (self.0, other.0) {
                (Some(v), Some(w)) => frame_views(v@) == frame_views(w@),
                (None, None) => true,
                _ => false,
            }),
    {
        match (&self.0, &other.0) {
            (Some(v), Some(w)) => frame_vecs_eq(v, w),
            (None, None) => true,
            _ => false,
        }
    }
}

impl vstd::std_specs::cmp::PartialEqSpecImpl for RespArray {
    open spec fn obeys_eq_spec() -> bool {
        true
    }

    open spec fn eq_spec(&self, other: &Self) -> bool {
        match (self.0, other.0) {
            (Some(v), Some(w)) => frame_views(v@) == frame_views(w@),
            (None, None) => true,
            _ => false,
        }
    }
}

} // verus!
