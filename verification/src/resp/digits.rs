//! Decimal digit strings: the specification of the ASCII decimal numbers that
//! appear in the wire format (integer frames, bulk-string and array lengths),
//! with verified routines to format and parse them.
use vstd::prelude::*;

verus! {

pub const ZERO_DIGIT: u8 = 48;
pub const NINE_DIGIT: u8 = 57;
pub const MINUS_BYTE: u8 = 45;

/// Magnitude of `i64::MIN`, the largest magnitude a negative integer frame may carry.
pub const I64_MIN_MAGNITUDE: u64 = 9223372036854775808;

pub open spec fn is_digit(b: u8) -> bool {
    ZERO_DIGIT <= b <= NINE_DIGIT
}

pub open spec fn all_digits(s: Seq<u8>) -> bool {
    forall|i: int| 0 <= i < s.len() ==> is_digit(#[trigger] s[i])
}

/// Value of a digit string, most significant digit first.
pub open spec fn dec_value(s: Seq<u8>) -> int
    decreases s.len(),
{
    if s.len() == 0 {
        0
    } else {
        dec_value(s.drop_last()) * 10 + (s.last() - ZERO_DIGIT)
    }
}

/// Canonical digit string of a natural number: no leading zeros.
pub open spec fn dec_digits(n: nat) -> Seq<u8>
    decreases n,
{
    if n < 10 {
        seq![(ZERO_DIGIT + n) as u8]
    } else {
        dec_digits(n / 10) + seq![(ZERO_DIGIT + n % 10) as u8]
    }
}

pub proof fn lemma_dec_value_nonneg(s: Seq<u8>)
    requires
        all_digits(s),
    ensures
        dec_value(s) >= 0,
    decreases s.len(),
{
    if s.len() > 0 {
        assert(all_digits(s.drop_last()));
        lemma_dec_value_nonneg(s.drop_last());
    }
}

pub proof fn lemma_dec_digits_digits(n: nat)
    ensures
        dec_digits(n).len() >= 1,
        all_digits(dec_digits(n)),
    decreases n,
{
    if n >= 10 {
        lemma_dec_digits_digits(n / 10);
        assert forall|i: int| 0 <= i < dec_digits(n).len() implies is_digit(
            #[trigger] dec_digits(n)[i],
        ) by {
            if i < dec_digits(n / 10).len() {
                assert(dec_digits(n)[i] == dec_digits(n / 10)[i]);
            }
        }
    }
}

/// Formatting then evaluating a number gives the number back.
pub proof fn lemma_dec_digits_value(n: nat)
    ensures
        dec_value(dec_digits(n)) == n,
    decreases n,
{
    if n < 10 {
        let s = dec_digits(n);
        assert(s == seq![(ZERO_DIGIT + n) as u8]);
        assert(s.drop_last() =~= Seq::<u8>::empty());
        assert(dec_value(Seq::<u8>::empty()) == 0);
        assert(dec_value(s) == dec_value(s.drop_last()) * 10 + (s.last() - ZERO_DIGIT));
    } else {
        lemma_dec_digits_value(n / 10);
        let s = dec_digits(n);
        assert(s.drop_last() =~= dec_digits(n / 10));
        assert(s.last() == (ZERO_DIGIT + n % 10) as u8);
        assert(dec_value(s) == dec_value(s.drop_last()) * 10 + (s.last() - ZERO_DIGIT));
        assert(dec_value(s) == (n / 10) * 10 + n % 10);
    }
}

/// Formats a natural number as its canonical decimal digit string.
pub fn format_u64(n: u64) -> (r: Vec<u8>)
    ensures
        r@ == dec_digits(n as nat),
{
    if n < 10 {
        let mut out: Vec<u8> = Vec::new();
        out.push(ZERO_DIGIT + (n as u8));
        proof {
            assert(out@ =~= dec_digits(n as nat));
        }
        return out;
    }
    let mut acc: Vec<u8> = Vec::new();
    let mut m: u64 = n;
    while m > 0
        invariant
            m >= 0,
            if m > 0 {
                dec_digits(n as nat) =~= dec_digits(m as nat) + acc@
            } else {
                dec_digits(n as nat) =~= acc@
            },
        decreases m,
    {
        let d = ZERO_DIGIT + ((m % 10) as u8);
        acc.insert(0, d);
        proof {
            if m >= 10 {
                assert(dec_digits(m as nat) =~= dec_digits((m / 10) as nat) + seq![d]);
                assert(dec_digits((m / 10) as nat) + (seq![d] + acc@.drop_first()) =~= (dec_digits(
                    (m / 10) as nat,
                ) + seq![d]) + acc@.drop_first());
            } else {
                assert(dec_digits(m as nat) =~= seq![d]);
            }
        }
        m = m / 10;
    }
    acc
}

/// Parses a digit-only line as a number, refusing empty lines, non-digits,
/// and values above `max`.
pub fn parse_digits(line: &[u8], max: u64) -> (r: Option<u64>)
    requires
        max >= 9,
    ensures
        r matches Some(v) ==> line@.len() >= 1 && all_digits(line@) && dec_value(line@) == v
            && v <= max,
        r is None ==> line@.len() == 0 || !all_digits(line@) || dec_value(line@) > max,
{
    if line.len() == 0 {
        return None;
    }
    let mut acc: u64 = 0;
    let mut i: usize = 0;
    while i < line.len()
        invariant
            0 <= i <= line@.len(),
            all_digits(line@.take(i as int)),
            acc == dec_value(line@.take(i as int)),
            acc <= max,
            9 <= max,
        decreases line@.len() - i,
    {
        let b = line[i];
        if b < ZERO_DIGIT || b > NINE_DIGIT {
            assert(!all_digits(line@)) by {
                assert(line@[i as int] == b);
            }
            return None;
        }
        let d = (b - ZERO_DIGIT) as u64;
        proof {
            assert(line@.take(i + 1).drop_last() =~= line@.take(i as int));
            assert(line@.take(i + 1).last() == b);
        }
        if acc > (max - d) / 10 {
            proof {
                assert(dec_value(line@.take(i + 1)) == acc * 10 + d);
                assert(acc * 10 + d > max) by {
                    assert(acc >= (max - d) / 10 + 1);
                    assert(((max - d) / 10 + 1) * 10 == ((max - d) / 10) * 10 + 10);
                    assert(((max - d) / 10) * 10 == (max - d) - (max - d) % 10);
                };
                if all_digits(line@) {
                    lemma_prefix_value_monotone(line@, i + 1);
                }
            }
            return None;
        }
        acc = acc * 10 + d;
        i = i + 1;
    }
    proof {
        assert(line@.take(line@.len() as int) =~= line@);
    }
    Some(acc)
}

/// A digit string's value never shrinks as more digits are appended.
proof fn lemma_prefix_value_monotone(s: Seq<u8>, i: int)
    requires
        0 <= i <= s.len(),
        all_digits(s),
    ensures
        dec_value(s.take(i)) <= dec_value(s),
    decreases s.len() - i,
{
    if i < s.len() {
        lemma_prefix_value_monotone(s, i + 1);
        assert(s.take(i + 1).drop_last() =~= s.take(i));
        assert(all_digits(s.take(i))) by {
            assert(forall|k: int| 0 <= k < i ==> s.take(i)[k] == #[trigger] s[k]);
        }
        lemma_dec_value_nonneg(s.take(i));
        assert(is_digit(s.take(i + 1).last())) by {
            assert(s.take(i + 1)[i] == s[i]);
        }
        assert(dec_value(s.take(i + 1)) == dec_value(s.take(i)) * 10 + (s.take(i + 1).last()
            - ZERO_DIGIT));
        assert(dec_value(s.take(i)) <= dec_value(s.take(i + 1)));
    } else {
        assert(s.take(i) =~= s);
    }
}

} // verus!
