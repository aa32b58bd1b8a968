//! HGET, HSET, HGETALL and HMGET: the hash-of-frames namespace. HGETALL's
//! reply lists fields in strictly increasing byte order, so its output is
//! determined by the hash's contents alone, whatever order the backing
//! storage walked them in.
use vstd::prelude::*;
use vstd::string::StringSliceAdditionalSpecFns;

use crate::backend::Backend;
use crate::cmd::{
    arr_view, bool_int_reply, extract_args, frame_or_null, validate_command, validate_spec,
    CommandError,
};
use crate::resp::{clone_bytes, BulkString, FrameModel, RespArray, RespFrame};

verus! {

#[derive(Debug, PartialEq, Eq)]
pub struct HGet {
    pub key: Vec<u8>,
    pub field: Vec<u8>,
}

#[derive(Debug)]
pub struct HSet {
    pub key: Vec<u8>,
    pub field: Vec<u8>,
    pub value: RespFrame,
}

#[derive(Debug)]
pub struct HGetAll {
    pub key: Vec<u8>,
    pub sort: bool,
}

#[derive(Debug)]
pub struct HMGet {
    pub gets: Vec<HGet>,
}

/// Strict lexicographic byte order: the usual dictionary order, a proper
/// prefix ordering before everything it prefixes.
pub open spec fn lex_lt(a: Seq<u8>, b: Seq<u8>) -> bool
    decreases a.len(),
{
    if b.len() == 0 {
        false
    } else if a.len() == 0 {
        true
    } else if a[0] < b[0] {
        true
    } else if a[0] > b[0] {
        false
    } else {
        lex_lt(a.drop_first(), b.drop_first())
    }
}

/// Exactly one of `a == b`, `a < b`, `b < a` holds.
pub proof fn lemma_lex_trichotomy(a: Seq<u8>, b: Seq<u8>)
    ensures
        a == b || lex_lt(a, b) || lex_lt(b, a),
        !(lex_lt(a, b) && lex_lt(b, a)),
        !(a == b && lex_lt(a, b)),
    decreases a.len(),
{
    if a.len() == 0 && b.len() == 0 {
        assert(a =~= b);
    } else if a.len() > 0 && b.len() > 0 {
        lemma_lex_trichotomy(a.drop_first(), b.drop_first());
        if a[0] == b[0] && a.drop_first() == b.drop_first() {
            assert(a =~= b) by {
                assert(forall|i: int|
                    1 <= i < a.len() ==> a[i] == a.drop_first()[i - 1] && b[i] == b.drop_first()[i
                        - 1]);
            }
        }
        if a == b {
            assert(a.drop_first() =~= b.drop_first());
        }
    } else if a == b {
        assert(a.len() == b.len());
    }
}

/// Lexicographic order is transitive.
pub proof fn lemma_lex_trans(a: Seq<u8>, b: Seq<u8>, c: Seq<u8>)
    requires
        lex_lt(a, b),
        lex_lt(b, c),
    ensures
        lex_lt(a, c),
    decreases a.len(),
{
    if a.len() > 0 && b.len() > 0 && c.len() > 0 {
        if a[0] == b[0] && b[0] == c[0] {
            lemma_lex_trans(a.drop_first(), b.drop_first(), c.drop_first());
        }
    }
}

/// Equal prefixes do not affect the order of what follows.
proof fn lemma_lex_skip(a: Seq<u8>, b: Seq<u8>, i: int)
    requires
        0 <= i <= a.len(),
        i <= b.len(),
        forall|k: int| 0 <= k < i ==> a[k] == b[k],
    ensures
        lex_lt(a, b) == lex_lt(a.skip(i), b.skip(i)),
    decreases i,
{
    if i == 0 {
        assert(a.skip(0) =~= a);
        assert(b.skip(0) =~= b);
    } else {
        assert(a.len() > 0 && b.len() > 0 && a[0] == b[0]);
        lemma_lex_skip(a.drop_first(), b.drop_first(), i - 1);
        assert(a.drop_first().skip(i - 1) =~= a.skip(i));
        assert(b.drop_first().skip(i - 1) =~= b.skip(i));
    }
}

/// Compares two byte strings in lexicographic order.
pub fn bytes_lt(a: &[u8], b: &[u8]) -> (r: bool)
    ensures
        r == lex_lt(a@, b@),
{
    let mut i: usize = 0;
    while i < a.len() && i < b.len()
        invariant
            0 <= i <= a@.len(),
            i <= b@.len(),
            forall|k: int| 0 <= k < i ==> a@[k] == b@[k],
        decreases a@.len() - i,
    {
        if a[i] < b[i] {
            proof {
                lemma_lex_skip(a@, b@, i as int);
            }
            return true;
        }
        if a[i] > b[i] {
            proof {
                lemma_lex_skip(a@, b@, i as int);
            }
            return false;
        }
        i = i + 1;
    }
    proof {
        lemma_lex_skip(a@, b@, i as int);
    }
    a.len() < b.len()
}

/// Field names pairwise distinct.
pub open spec fn distinct_keys(ps: Seq<(Vec<u8>, RespFrame)>) -> bool {
    forall|i: int, j: int|
        0 <= i < j < ps.len() ==> (#[trigger] ps[i]).0@ != (#[trigger] ps[j]).0@
}

/// Field names in strictly increasing lexicographic order.
pub open spec fn sorted_pairs(ps: Seq<(Vec<u8>, RespFrame)>) -> bool {
    forall|i: int, j: int|
        0 <= i < j < ps.len() ==> lex_lt((#[trigger] ps[i]).0@, (#[trigger] ps[j]).0@)
}

/// Whether the snapshot holds the field `k` with the value `v`, as models.
pub open spec fn has_entry(ps: Seq<(Vec<u8>, RespFrame)>, k: Seq<u8>, v: FrameModel) -> bool {
    exists|i: int| 0 <= i < ps.len() && (#[trigger] ps[i]).0@ == k && ps[i].1@ == v
}

/// The same field/value entries, as models.
pub open spec fn same_entries(
    ps: Seq<(Vec<u8>, RespFrame)>,
    qs: Seq<(Vec<u8>, RespFrame)>,
) -> bool {
    forall|k: Seq<u8>, v: FrameModel|
        #![trigger has_entry(ps, k, v)]
        #![trigger has_entry(qs, k, v)]
        has_entry(ps, k, v) == has_entry(qs, k, v)
}

/// Sorts a snapshot by field name. The output is a reordering of the input:
/// same length, same entries, names strictly increasing.
#[verifier::rlimit(100)]
fn sort_pairs(pairs: Vec<(Vec<u8>, RespFrame)>) -> (r: Vec<(Vec<u8>, RespFrame)>)
    requires
        distinct_keys(pairs@),
    ensures
        r@.len() == pairs@.len(),
        sorted_pairs(r@),
        same_entries(r@, pairs@),
{
    let ghost orig = pairs@;
    let mut rest = pairs;
    let mut out: Vec<(Vec<u8>, RespFrame)> = Vec::new();
    while rest.len() > 0
        invariant
            out@.len() + rest@.len() == orig.len(),
            rest@ == orig.skip(out@.len() as int),
            distinct_keys(orig),
            sorted_pairs(out@),
            same_entries(out@, orig.take(out@.len() as int)),
        decreases rest@.len(),
    {
        let ghost done = out@.len() as int;
        let p = rest.remove(0);
        proof {
            assert(p == orig[done]);
            assert(orig.skip(done).skip(1) =~= orig.skip(done + 1));
        }
        let mut pos: usize = 0;
        while pos < out.len() && bytes_lt(out[pos].0.as_slice(), p.0.as_slice())
            invariant
                0 <= pos <= out@.len(),
                forall|k: int| 0 <= k < pos ==> lex_lt((#[trigger] out@[k]).0@, p.0@),
            decreases out@.len() - pos,
        {
            pos = pos + 1;
        }
        proof {
            // The new name differs from every name already placed.
            assert forall|k: int| 0 <= k < out@.len() implies out@[k].0@ != p.0@ by {
                assert(has_entry(out@, out@[k].0@, out@[k].1@));
                let j = choose|j: int|
                    0 <= j < done && (#[trigger] orig.take(done)[j]).0@ == out@[k].0@ && orig.take(
                        done,
                    )[j].1@ == out@[k].1@;
                assert(orig[j].0@ != orig[done].0@);
            }
            if pos < out@.len() {
                lemma_lex_trichotomy(out@[pos as int].0@, p.0@);
            }
        }
        let ghost before = out@;
        out.insert(pos, p);
        proof {
            assert(out@ =~= before.take(pos as int) + seq![p] + before.skip(pos as int));
            assert forall|i: int, j: int| 0 <= i < j < out@.len() implies lex_lt(
                (#[trigger] out@[i]).0@,
                (#[trigger] out@[j]).0@,
            ) by {
                if i < pos && j > pos {
                    assert(out@[i] == before[i]);
                    assert(out@[j] == before[j - 1]);
                    if j - 1 == pos as int {
                        assert(lex_lt(before[i].0@, p.0@));
                        assert(out@[j] == before[pos as int]);
                    }
                    assert(lex_lt(out@[i].0@, out@[j].0@)) by {
                        if j - 1 > pos {
                            assert(lex_lt(before[i].0@, before[j - 1].0@));
                        } else {
                            lemma_lex_trans(before[i].0@, p.0@, before[pos as int].0@);
                            assert(lex_lt(before[i].0@, before[pos as int].0@));
                        }
                    }
                } else if i == pos && j > pos {
                    assert(out@[i] == p);
                    assert(out@[j] == before[j - 1]);
                    if j - 1 > pos {
                        lemma_lex_trans(p.0@, before[pos as int].0@, before[j - 1].0@);
                    }
                } else if i < pos && j == pos {
                    assert(out@[i] == before[i]);
                    assert(out@[j] == p);
                } else if j < pos {
                    assert(out@[i] == before[i] && out@[j] == before[j]);
                } else if i > pos {
                    assert(out@[i] == before[i - 1] && out@[j] == before[j - 1]);
                }
            }
            let ghost upto = orig.take(done + 1);
            assert(upto =~= orig.take(done) + seq![orig[done]]);
            assert forall|k: Seq<u8>, v: FrameModel|
                #![trigger has_entry(out@, k, v)]
                #![trigger has_entry(upto, k, v)]
            has_entry(out@, k, v) == has_entry(upto, k, v) by {
                if has_entry(out@, k, v) {
                    let i = choose|i: int|
                        0 <= i < out@.len() && (#[trigger] out@[i]).0@ == k && out@[i].1@ == v;
                    if i == pos {
                        assert(upto[done].0@ == k && upto[done].1@ == v);
                    } else {
                        let e = if i < pos {
                            before[i]
                        } else {
                            before[i - 1]
                        };
                        assert(out@[i] == e);
                        assert(has_entry(before, k, v)) by {
                            if i < pos {
                                assert(before[i].0@ == k && before[i].1@ == v);
                            } else {
                                assert(before[i - 1].0@ == k && before[i - 1].1@ == v);
                            }
                        }
                        assert(has_entry(orig.take(done), k, v));
                        let j = choose|j: int|
                            0 <= j < done && (#[trigger] orig.take(done)[j]).0@ == k && orig.take(
                                done,
                            )[j].1@ == v;
                        assert(upto[j].0@ == k && upto[j].1@ == v);
                    }
                    assert(has_entry(upto, k, v));
                }
                if has_entry(upto, k, v) {
                    let j = choose|j: int|
                        0 <= j < upto.len() && (#[trigger] upto[j]).0@ == k && upto[j].1@ == v;
                    if j == done {
                        assert(out@[pos as int].0@ == k && out@[pos as int].1@ == v);
                    } else {
                        assert(orig.take(done)[j].0@ == k && orig.take(done)[j].1@ == v);
                        assert(has_entry(orig.take(done), k, v));
                        let i = choose|i: int|
                            0 <= i < before.len() && (#[trigger] before[i]).0@ == k && before[i].1@
                                == v;
                        if i < pos {
                            assert(out@[i].0@ == k && out@[i].1@ == v);
                        } else {
                            assert(out@[i + 1].0@ == k && out@[i + 1].1@ == v);
                        }
                    }
                    assert(has_entry(out@, k, v));
                }
            }
        }
    }
    proof {
        assert(orig.take(orig.len() as int) =~= orig);
    }
    out
}

/// The flattened alternating name/value items of a sorted snapshot.
pub open spec fn flat_items(ps: Seq<(Vec<u8>, RespFrame)>) -> Seq<FrameModel> {
    Seq::new(
        2 * ps.len(),
        |i: int|
            if i % 2 == 0 {
                FrameModel::Bulk(Some(ps[i / 2].0@))
            } else {
                ps[i / 2].1@
            },
    )
}

/// What the HGETALL reply is for a present hash: the flattening of some
/// reordering of the snapshot whose field names strictly increase. Together
/// with distinct field names this determines the reply uniquely.
pub open spec fn hgetall_post(ps: Seq<(Vec<u8>, RespFrame)>, m: FrameModel) -> bool {
    exists|sorted: Seq<(Vec<u8>, RespFrame)>|
        {
            &&& m == FrameModel::Array(Some(flat_items(sorted)))
            &&& #[trigger] sorted_pairs(sorted)
            &&& same_entries(sorted, ps)
        }
}

/// Builds the HGETALL reply: the absent array for a missing key, else the
/// field-sorted alternating name/value array.
pub fn hgetall_reply(snapshot: Option<Vec<(Vec<u8>, RespFrame)>>) -> (r: RespFrame)
    requires
        snapshot matches Some(ps) ==> distinct_keys(ps@),
    ensures
        snapshot is None ==> r@ == FrameModel::Array(None),
        snapshot matches Some(ps) ==> hgetall_post(ps@, r@),
{
    match snapshot {
        None => RespFrame::Array(RespArray(None)),
        Some(pairs) => {
            let ghost ps = pairs@;
            let sorted = sort_pairs(pairs);
            let ghost sp = sorted@;
            let mut rest = sorted;
            let mut items: Vec<RespFrame> = Vec::new();
            while rest.len() > 0
                invariant
                    2 * (sp.len() - rest@.len()) == items@.len(),
                    rest@ == sp.skip((sp.len() - rest@.len()) as int),
                    forall|i: int|
                        0 <= i < items@.len() ==> crate::resp::frame_view(#[trigger] items@[i])
                            == flat_items(sp)[i],
                decreases rest@.len(),
            {
                let ghost k = (sp.len() - rest@.len()) as int;
                let p = rest.remove(0);
                proof {
                    assert(p == sp[k]);
                    assert(sp.skip(k).skip(1) =~= sp.skip(k + 1));
                }
                items.push(RespFrame::BulkString(BulkString(Some(p.0))));
                items.push(p.1);
            }
            proof {
                assert(crate::resp::frame_views(items@) =~= flat_items(sp));
            }
            RespFrame::Array(RespArray(Some(items)))
        },
    }
}

/// HGETALL's reply is a function of the hash's contents alone: two
/// snapshots holding the same entries, in whatever order the storage walked
/// them, yield the same reply.
pub proof fn lemma_hgetall_deterministic(
    ps1: Seq<(Vec<u8>, RespFrame)>,
    ps2: Seq<(Vec<u8>, RespFrame)>,
    m1: FrameModel,
    m2: FrameModel,
)
    requires
        same_entries(ps1, ps2),
        hgetall_post(ps1, m1),
        hgetall_post(ps2, m2),
    ensures
        m1 == m2,
{
    let s1 = choose|sorted: Seq<(Vec<u8>, RespFrame)>|
        {
            &&& m1 == FrameModel::Array(Some(flat_items(sorted)))
            &&& #[trigger] sorted_pairs(sorted)
            &&& same_entries(sorted, ps1)
        };
    let s2 = choose|sorted: Seq<(Vec<u8>, RespFrame)>|
        {
            &&& m2 == FrameModel::Array(Some(flat_items(sorted)))
            &&& #[trigger] sorted_pairs(sorted)
            &&& same_entries(sorted, ps2)
        };
    lemma_sorted_same_entries_unique(s1, s2);
    assert(flat_items(s1) =~= flat_items(s2));
}

/// Two snapshots sorted strictly by field name that hold the same entries
/// are the same sequence, entry for entry.
#[verifier::rlimit(100)]
proof fn lemma_sorted_same_entries_unique(
    s1: Seq<(Vec<u8>, RespFrame)>,
    s2: Seq<(Vec<u8>, RespFrame)>,
)
    requires
        sorted_pairs(s1),
        sorted_pairs(s2),
        same_entries(s1, s2),
    ensures
        s1.len() == s2.len(),
        forall|i: int| 0 <= i < s1.len() ==> (#[trigger] s1[i]).0@ == s2[i].0@ && s1[i].1@
            == s2[i].1@,
    decreases s1.len(),
{
    if s1.len() == 0 {
        if s2.len() > 0 {
            assert(has_entry(s2, s2[0].0@, s2[0].1@));
            assert(has_entry(s1, s2[0].0@, s2[0].1@));
        }
    } else if s2.len() == 0 {
        assert(has_entry(s1, s1[0].0@, s1[0].1@));
        assert(has_entry(s2, s1[0].0@, s1[0].1@));
    } else {
        // The heads are equal: each is the strict minimum of the same name set.
        assert(has_entry(s1, s1[0].0@, s1[0].1@));
        assert(has_entry(s2, s1[0].0@, s1[0].1@));
        let j0 = choose|j: int| 0 <= j < s2.len() && (#[trigger] s2[j]).0@ == s1[0].0@ && s2[j].1@
            == s1[0].1@;
        assert(has_entry(s2, s2[0].0@, s2[0].1@));
        assert(has_entry(s1, s2[0].0@, s2[0].1@));
        let i0 = choose|i: int| 0 <= i < s1.len() && (#[trigger] s1[i]).0@ == s2[0].0@ && s1[i].1@
            == s2[0].1@;
        if j0 > 0 {
            assert(lex_lt(s2[0].0@, s2[j0].0@));
            if i0 > 0 {
                assert(lex_lt(s1[0].0@, s1[i0].0@));
                lemma_lex_trans(s1[0].0@, s1[i0].0@, s2[j0].0@);
                lemma_lex_trichotomy(s1[0].0@, s2[0].0@);
            } else {
                lemma_lex_trichotomy(s1[0].0@, s2[0].0@);
            }
        }
        assert(s1[0].0@ == s2[0].0@ && s1[0].1@ == s2[0].1@);
        let t1 = s1.drop_first();
        let t2 = s2.drop_first();
        assert(sorted_pairs(t1)) by {
            assert(forall|i: int, j: int|
                0 <= i < j < t1.len() ==> t1[i] == s1[i + 1] && t1[j] == s1[j + 1]);
        }
        assert(sorted_pairs(t2)) by {
            assert(forall|i: int, j: int|
                0 <= i < j < t2.len() ==> t2[i] == s2[i + 1] && t2[j] == s2[j + 1]);
        }
        assert forall|k: Seq<u8>, v: FrameModel|
            #![trigger has_entry(t1, k, v)]
            #![trigger has_entry(t2, k, v)]
        has_entry(t1, k, v) == has_entry(t2, k, v) by {
            if has_entry(t1, k, v) {
                let i = choose|i: int|
                    0 <= i < t1.len() && (#[trigger] t1[i]).0@ == k && t1[i].1@ == v;
                assert(t1[i] == s1[i + 1]);
                assert(has_entry(s1, k, v)) by {
                    assert(s1[i + 1].0@ == k && s1[i + 1].1@ == v);
                }
                let j = choose|j: int|
                    0 <= j < s2.len() && (#[trigger] s2[j]).0@ == k && s2[j].1@ == v;
                assert(lex_lt(s1[0].0@, s1[i + 1].0@));
                lemma_lex_trichotomy(s2[0].0@, k);
                assert(j > 0);
                assert(has_entry(t2, k, v)) by {
                    assert(t2[j - 1].0@ == k && t2[j - 1].1@ == v);
                }
            }
            if has_entry(t2, k, v) {
                let j = choose|j: int|
                    0 <= j < t2.len() && (#[trigger] t2[j]).0@ == k && t2[j].1@ == v;
                assert(t2[j] == s2[j + 1]);
                assert(has_entry(s2, k, v)) by {
                    assert(s2[j + 1].0@ == k && s2[j + 1].1@ == v);
                }
                let i = choose|i: int|
                    0 <= i < s1.len() && (#[trigger] s1[i]).0@ == k && s1[i].1@ == v;
                assert(lex_lt(s2[0].0@, s2[j + 1].0@));
                lemma_lex_trichotomy(s1[0].0@, k);
                assert(i > 0);
                assert(has_entry(t1, k, v)) by {
                    assert(t1[i - 1].0@ == k && t1[i - 1].1@ == v);
                }
            }
        }
        lemma_sorted_same_entries_unique(t1, t2);
        assert forall|i: int| 0 <= i < s1.len() implies (#[trigger] s1[i]).0@ == s2[i].0@
            && s1[i].1@ == s2[i].1@ by {
            if i > 0 {
                assert(s1[i] == t1[i - 1] && s2[i] == t2[i - 1]);
            }
        }
    }
}

/// Exactly what parsing `HGET` yields, for every request.
pub open spec fn parse_hget_post(value: RespArray, r: Result<HGet, CommandError>) -> bool {
    match validate_spec(arr_view(value), "hget".spec_bytes(), 2, false) {
        Err(e) => r == Err::<HGet, CommandError>(e),
        Ok(_) => match arr_view(value) {
            Some(es) => match (es[1], es[2]) {
                (
                    RespFrame::BulkString(BulkString(Some(k))),
                    RespFrame::BulkString(BulkString(Some(f))),
                ) => r matches Ok(c) && c.key@ == k@ && c.field@ == f@,
                _ => r == Err::<HGet, CommandError>(CommandError::InvalidArgument),
            },
            None => false,
        },
    }
}

/// Exactly what parsing `HSET` yields, for every request.
pub open spec fn parse_hset_post(value: RespArray, r: Result<HSet, CommandError>) -> bool {
    match validate_spec(arr_view(value), "hset".spec_bytes(), 3, false) {
        Err(e) => r == Err::<HSet, CommandError>(e),
        Ok(_) => match arr_view(value) {
            Some(es) => match (es[1], es[2]) {
                (
                    RespFrame::BulkString(BulkString(Some(k))),
                    RespFrame::BulkString(BulkString(Some(f))),
                ) => r matches Ok(c) && c.key@ == k@ && c.field@ == f@ && c.value@ == es[3]@,
                _ => r == Err::<HSet, CommandError>(CommandError::InvalidArgument),
            },
            None => false,
        },
    }
}

/// Exactly what parsing `HGETALL` yields, for every request.
pub open spec fn parse_hgetall_post(value: RespArray, r: Result<HGetAll, CommandError>) -> bool {
    match validate_spec(arr_view(value), "hgetall".spec_bytes(), 1, false) {
        Err(e) => r == Err::<HGetAll, CommandError>(e),
        Ok(_) => match arr_view(value) {
            Some(es) => match es[1] {
                RespFrame::BulkString(BulkString(Some(k))) => r matches Ok(c) && c.key@ == k@
                    && c.sort,
                _ => r == Err::<HGetAll, CommandError>(CommandError::InvalidArgument),
            },
            None => false,
        },
    }
}

/// Every argument after the name token is a present bulk string, and there
/// is at least the key: the shape HMGET accepts.
pub open spec fn hmget_args_ok(es: Seq<RespFrame>) -> bool {
    es.len() >= 2 && forall|i: int|
        1 <= i < es.len() ==> (#[trigger] es[i]) matches RespFrame::BulkString(BulkString(Some(_)))
}

/// Exactly what parsing `HMGET` yields, for every request: acceptance is
/// owed precisely when the name validates and key and fields are present
/// bulk strings, and the parsed gets pair each field with the key in order.
pub open spec fn parse_hmget_post(value: RespArray, r: Result<HMGet, CommandError>) -> bool {
    match validate_spec(arr_view(value), "hmget".spec_bytes(), usize::MAX as int, true) {
        Err(e) => r == Err::<HMGet, CommandError>(e),
        Ok(_) => match arr_view(value) {
            Some(es) => if hmget_args_ok(es) {
                match r {
                    Ok(h) => es[1] matches RespFrame::BulkString(BulkString(Some(k)))
                        && h.gets@.len() == es.len() - 2 && (forall|i: int|
                        0 <= i < h.gets@.len() ==> (#[trigger] h.gets@[i]).key@ == k@ && (es[2 + i]
                            matches RespFrame::BulkString(BulkString(Some(f)))
                            && h.gets@[i].field@ == f@)),
                    _ => false,
                }
            } else {
                r == Err::<HMGet, CommandError>(CommandError::InvalidArgument)
            },
            None => false,
        },
    }
}

impl HGet {
    /// Parses `HGET key field`: two arguments, both present bulk strings.
    pub fn try_from(value: RespArray) -> (r: Result<HGet, CommandError>)
        ensures
            parse_hget_post(value, r),
    {
        match validate_command(&value, "hget".as_bytes(), 2) {
            Err(e) => {
                return Err(e);
            },
            Ok(_) => {},
        }
        let mut args = match extract_args(value, 1) {
            Ok(a) => a,
            Err(e) => {
                return Err(e);
            },
        };
        let first = args.remove(0);
        let second = args.remove(0);
        match (first, second) {
            (
                RespFrame::BulkString(BulkString(Some(k))),
                RespFrame::BulkString(BulkString(Some(f))),
            ) => Ok(HGet { key: k, field: f }),
            _ => Err(CommandError::InvalidArgument),
        }
    }

    /// The reply is the stored frame, or the dedicated null when the key or
    /// field is absent; which depends on the shared state.
    pub fn execute(self, backend: &Backend) -> RespFrame {
        let stored = backend.hget(self.key.as_slice(), self.field.as_slice());
        frame_or_null(stored)
    }
}

impl HSet {
    /// Parses `HSET key field value`: key and field present bulk strings,
    /// the value kept as whatever frame it arrived as.
    pub fn try_from(value: RespArray) -> (r: Result<HSet, CommandError>)
        ensures
            parse_hset_post(value, r),
    {
        match validate_command(&value, "hset".as_bytes(), 3) {
            Err(e) => {
                return Err(e);
            },
            Ok(_) => {},
        }
        let mut args = match extract_args(value, 1) {
            Ok(a) => a,
            Err(e) => {
                return Err(e);
            },
        };
        let first = args.remove(0);
        let second = args.remove(0);
        let third = args.remove(0);
        match (first, second) {
            (
                RespFrame::BulkString(BulkString(Some(k))),
                RespFrame::BulkString(BulkString(Some(f))),
            ) => Ok(HSet { key: k, field: f, value: third }),
            _ => Err(CommandError::InvalidArgument),
        }
    }

    /// One when the field was newly created, zero when it overwrote; which
    /// depends on the shared state.
    pub fn execute(self, backend: &Backend) -> (r: RespFrame)
        ensures
            r@ == FrameModel::Integer(1) || r@ == FrameModel::Integer(0),
    {
        let previous = backend.hset(self.key, self.field, self.value);
        bool_int_reply(previous.is_none())
    }
}

impl HGetAll {
    /// Parses `HGETALL key`: one argument, a present bulk string. The reply
    /// is always field-sorted; the flag records the request's intent.
    pub fn try_from(value: RespArray) -> (r: Result<HGetAll, CommandError>)
        ensures
            parse_hgetall_post(value, r),
    {
        match validate_command(&value, "hgetall".as_bytes(), 1) {
            Err(e) => {
                return Err(e);
            },
            Ok(_) => {},
        }
        let mut args = match extract_args(value, 1) {
            Ok(a) => a,
            Err(e) => {
                return Err(e);
            },
        };
        let first = args.remove(0);
        match first {
            RespFrame::BulkString(BulkString(Some(k))) => Ok(HGetAll { key: k, sort: true }),
            _ => Err(CommandError::InvalidArgument),
        }
    }

    /// The reply is the absent array for a missing key, else the
    /// field-sorted alternating name/value array of the hash's snapshot.
    pub fn execute(self, backend: &Backend) -> (r: RespFrame)
        ensures
            r@ == FrameModel::Array(None) || (exists|ps: Seq<(Vec<u8>, RespFrame)>|
                #[trigger] hgetall_post(ps, r@)),
    {
        let snapshot = backend.hgetall(self.key.as_slice());
        hgetall_reply(snapshot)
    }
}

impl HMGet {
    /// Parses `HMGET key field...`: variadic, the key and every field a
    /// present bulk string; each field resolves independently as HGET would.
    #[verifier::loop_isolation(false)]
    #[verifier::rlimit(100)]
    pub fn try_from(value: RespArray) -> (r: Result<HMGet, CommandError>)
        ensures
            parse_hmget_post(value, r),
    {
        match validate_command(&value, "hmget".as_bytes(), usize::MAX) {
            Err(e) => {
                return Err(e);
            },
            Ok(_) => {},
        }
        let mut args = match extract_args(value, 1) {
            Ok(a) => a,
            Err(e) => {
                return Err(e);
            },
        };
        let ghost es = arr_view(value)->Some_0;
        if args.len() == 0 {
            proof {
                assert(!hmget_args_ok(es));
            }
            return Err(CommandError::InvalidArgument);
        }
        let first = args.remove(0);
        proof {
            assert(first == es[1]);
        }
        let key = match first {
            RespFrame::BulkString(BulkString(Some(k))) => k,
            _ => {
                proof {
                    assert(!hmget_args_ok(es)) by {
                        assert(!(es[1] matches RespFrame::BulkString(BulkString(Some(_)))));
                    }
                }
                return Err(CommandError::InvalidArgument);
            },
        };
        let mut gets: Vec<HGet> = Vec::new();
        while args.len() > 0
            invariant
                es.len() >= 2,
                key@ == (match es[1] {
                    RespFrame::BulkString(BulkString(Some(k0))) => k0@,
                    _ => Seq::empty(),
                }),
                gets@.len() + 2 + args@.len() == es.len(),
                args@ == es.skip((gets@.len() + 2) as int),
                forall|i: int|
                    0 <= i < gets@.len() ==> (#[trigger] gets@[i]).key@ == key@ && (es[2 + i]
                        matches RespFrame::BulkString(BulkString(Some(f))) && gets@[i].field@
                        == f@),
            decreases args@.len(),
        {
            let ghost k0 = gets@.len() as int;
            let arg = args.remove(0);
            proof {
                assert(arg == es[2 + k0]);
                assert(es.skip(2 + k0).skip(1) =~= es.skip(2 + k0 + 1));
            }
            match arg {
                RespFrame::BulkString(BulkString(Some(f))) => {
                    let ghost prev = gets@;
                    let ghost fv = f@;
                    let kk = clone_bytes(&key);
                    gets.push(HGet { key: kk, field: f });
                    proof {
                        assert(gets@.len() == prev.len() + 1);
                        assert(gets@[k0].key@ == key@);
                        assert(gets@[k0].field@ == fv);
                        assert(es[2 + k0] matches RespFrame::BulkString(BulkString(Some(f2)))
                            && fv == f2@);
                        assert(forall|i: int| 0 <= i < prev.len() ==> gets@[i] == prev[i]);
                    }
                },
                _ => {
                    proof {
                        assert(!hmget_args_ok(es)) by {
                            assert(!(es[2 + k0] matches RespFrame::BulkString(BulkString(Some(_)))));
                        }
                    }
                    return Err(CommandError::InvalidArgument);
                },
            }
        }
        proof {
            assert(es[1] matches RespFrame::BulkString(BulkString(Some(k))) && key@ == k@);
            assert(gets@.len() == es.len() - 2);
            assert(hmget_args_ok(es)) by {
                assert forall|i: int|
                    1 <= i < es.len() implies (#[trigger] es[i]) matches RespFrame::BulkString(
                    BulkString(Some(_)),
                ) by {
                    if i >= 2 {
                        let j = i - 2;
                        assert(0 <= j < gets@.len());
                        assert(gets@[j].key@ == key@);
                        assert(es[2 + j] matches RespFrame::BulkString(BulkString(Some(_))));
                        assert(es[i] == es[2 + j]);
                    }
                }
            }
        }
        Ok(HMGet { gets })
    }

    /// The reply is an array with one element per requested field, in
    /// request order; what each store lookup answered is rendered by the
    /// verified `hmget_reply`, element for element.
    pub fn execute(self, backend: &Backend) -> (r: RespFrame)
        ensures
            r@ matches FrameModel::Array(Some(items)) && items.len() == self.gets@.len(),
    {
        let mut rest = self.gets;
        let ghost total = rest@.len();
        let mut answers: Vec<Option<RespFrame>> = Vec::new();
        while rest.len() > 0
            invariant
                answers@.len() + rest@.len() == total,
            decreases rest@.len(),
        {
            let g = rest.remove(0);
            let one = backend.hget(g.key.as_slice(), g.field.as_slice());
            answers.push(one);
        }
        hmget_reply(answers)
    }
}

/// Builds the HMGET reply from the per-field lookup answers: one element per
/// answer, in order — the stored frame where the lookup found one, the
/// dedicated null where it did not.
pub fn hmget_reply(answers: Vec<Option<RespFrame>>) -> (r: RespFrame)
    ensures
        r@ matches FrameModel::Array(Some(items)) && items.len() == answers@.len() && (forall|
            i: int,
        |
            0 <= i < answers@.len() ==> #[trigger] items[i] == (match answers@[i] {
                Some(f) => f@,
                None => FrameModel::Null,
            })),
{
    let ghost total = answers@;
    let mut rest = answers;
    let mut items: Vec<RespFrame> = Vec::new();
    while rest.len() > 0
        invariant
            items@.len() + rest@.len() == total.len(),
            rest@ == total.skip(items@.len() as int),
            forall|i: int|
                0 <= i < items@.len() ==> crate::resp::frame_view(#[trigger] items@[i]) == (
                match total[i] {
                    Some(f) => f@,
                    None => FrameModel::Null,
                }),
        decreases rest@.len(),
    {
        let ghost k = items@.len() as int;
        let a = rest.remove(0);
        proof {
            assert(a == total[k]);
            assert(total.skip(k).skip(1) =~= total.skip(k + 1));
        }
        let one = frame_or_null(a);
        items.push(one);
    }
    proof {
        assert forall|i: int| 0 <= i < total.len() implies #[trigger] crate::resp::frame_views(
            items@,
        )[i] == (match total[i] {
            Some(f) => f@,
            None => FrameModel::Null,
        }) by {
            assert(crate::resp::frame_views(items@)[i] == crate::resp::frame_view(items@[i]));
        }
    }
    RespFrame::Array(RespArray(Some(items)))
}

} // verus!
