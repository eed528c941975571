//! Little-endian sequences of base-2^32 digits and the numbers they denote.

use crate::bits::{bit_length, lemma_bit_length_below, lemma_bit_length_bounds, lemma_bit_length_is};
use vstd::arithmetic::power2::{lemma2_to64, lemma_pow2_adds, lemma_pow2_pos, pow2};
use vstd::prelude::*;

verus! {

/// The number that the digits `s` denote, least significant digit first.
pub open spec fn digits_value(s: Seq<u32>) -> nat
    decreases s.len(),
{
    if s.len() == 0 {
        0
    } else {
        (s[0] as nat) + 0x1_0000_0000 * digits_value(s.drop_first())
    }
}

/// A digit sequence is canonical when its most significant digit is not zero.
/// Zero is the empty sequence.
pub open spec fn canonical(s: Seq<u32>) -> bool {
    s.len() > 0 ==> s.last() != 0
}

/// `len` digits denote less than `2^(32 * len)`.
pub proof fn lemma_value_upper(s: Seq<u32>)
    ensures
        digits_value(s) < pow2(32 * s.len()),
    decreases s.len(),
{
    lemma2_to64();
    if s.len() > 0 {
        let t = s.drop_first();
        lemma_value_upper(t);
        lemma_pow2_adds(32, 32 * t.len());
        let v = digits_value(t) as int;
        let p = pow2(32 * t.len()) as int;
        assert(0x1_0000_0000 * v + 0x1_0000_0000 <= 0x1_0000_0000 * p) by (nonlinear_arith)
            requires
                v + 1 <= p,
        ;
    }
}

/// A canonical sequence of `len > 0` digits denotes at least `2^(32 * (len - 1))`.
pub proof fn lemma_value_lower(s: Seq<u32>)
    requires
        s.len() > 0,
        s.last() != 0,
    ensures
        digits_value(s) >= pow2((32 * (s.len() - 1)) as nat),
    decreases s.len(),
{
    lemma2_to64();
    let t = s.drop_first();
    if s.len() == 1 {
        assert(digits_value(t) == 0);
    } else {
        assert(t.last() == s.last());
        lemma_value_lower(t);
        lemma_pow2_adds(32, (32 * (t.len() - 1)) as nat);
        let v = digits_value(t) as int;
        let p = pow2((32 * (t.len() - 1)) as nat) as int;
        assert(0x1_0000_0000 * p <= 0x1_0000_0000 * v) by (nonlinear_arith)
            requires
                p <= v,
        ;
    }
}

/// The most significant digit counts `2^(32 * (len - 1))` times.
pub proof fn lemma_value_split_last(s: Seq<u32>)
    requires
        s.len() > 0,
    ensures
        digits_value(s) == digits_value(s.drop_last()) + s.last() * pow2(
            (32 * (s.len() - 1)) as nat,
        ),
    decreases s.len(),
{
    lemma2_to64();
    let t = s.drop_first();
    let top = s.last() as int;
    if s.len() == 1 {
        assert(digits_value(t) == 0);
        assert(digits_value(s.drop_last()) == 0);
        assert(top * 1 == top) by (nonlinear_arith);
    } else {
        let front = s.drop_last();
        lemma_value_split_last(t);
        assert(t.last() == s.last());
        assert(front.drop_first() =~= t.drop_last());
        assert(front[0] == s[0]);
        lemma_pow2_adds(32, (32 * (t.len() - 1)) as nat);
        let low = digits_value(t.drop_last()) as int;
        let p = pow2((32 * (t.len() - 1)) as nat) as int;
        assert(pow2((32 * (s.len() - 1)) as nat) == 0x1_0000_0000 * p);
        assert(digits_value(front) == s[0] + 0x1_0000_0000 * low);
        assert(digits_value(s) == s[0] + 0x1_0000_0000 * (low + top * p));
        assert(0x1_0000_0000 * (low + top * p) == 0x1_0000_0000 * low + top * (0x1_0000_0000 * p))
            by (nonlinear_arith);
    }
}

/// A zero in the most significant place adds nothing.
pub proof fn lemma_value_drop_zero(s: Seq<u32>)
    requires
        s.len() > 0,
        s.last() == 0,
    ensures
        digits_value(s.drop_last()) == digits_value(s),
{
    lemma_value_split_last(s);
    let p = pow2((32 * (s.len() - 1)) as nat) as int;
    assert(0 * p == 0) by (nonlinear_arith);
}

/// A canonical sequence denotes zero exactly when it is empty.
pub proof fn lemma_value_zero(s: Seq<u32>)
    requires
        canonical(s),
    ensures
        digits_value(s) == 0 <==> s.len() == 0,
{
    if s.len() > 0 {
        lemma_value_lower(s);
        lemma_pow2_pos((32 * (s.len() - 1)) as nat);
    }
}

/// Every number has one canonical digit sequence only.
pub proof fn lemma_canonical_unique(a: Seq<u32>, b: Seq<u32>)
    requires
        canonical(a),
        canonical(b),
        digits_value(a) == digits_value(b),
    ensures
        a == b,
    decreases a.len(),
{
    lemma_value_zero(a);
    lemma_value_zero(b);
    if a.len() > 0 {
        let ta = a.drop_first();
        let tb = b.drop_first();
        assert(a[0] == b[0] && digits_value(ta) == digits_value(tb));
        assert(canonical(ta)) by {
            if ta.len() > 0 {
                assert(ta.last() == a.last());
            }
        }
        assert(canonical(tb)) by {
            if tb.len() > 0 {
                assert(tb.last() == b.last());
            }
        }
        lemma_canonical_unique(ta, tb);
        assert(a =~= seq![a[0]] + ta);
        assert(b =~= seq![b[0]] + tb);
    }
}

/// The bit length of a canonical sequence: 32 for every digit below the most
/// significant one, plus the bit length of that digit.
pub proof fn lemma_value_bit_length(s: Seq<u32>)
    requires
        s.len() > 0,
        s.last() != 0,
    ensures
        bit_length(digits_value(s)) == 32 * (s.len() - 1) + bit_length(s.last() as nat),
{
    let shift: nat = (32 * (s.len() - 1)) as nat;
    let top = s.last() as nat;
    let k = bit_length(top);
    let low = digits_value(s.drop_last()) as int;
    let p = pow2(shift) as int;
    lemma_value_split_last(s);
    lemma_value_upper(s.drop_last());
    lemma_bit_length_bounds(top);
    lemma_pow2_adds((k - 1) as nat, shift);
    lemma_pow2_adds(k, shift);
    let lo = pow2((k - 1) as nat) as int;
    let hi = pow2(k) as int;
    assert(lo * p <= top * p && top * p + p <= hi * p) by (nonlinear_arith)
        requires
            lo <= top,
            top + 1 <= hi,
            p >= 0,
    ;
    lemma_bit_length_is(digits_value(s), k + shift);
}

/// `len` digits have at most `32 * len` bits.
pub proof fn lemma_value_bit_length_upper(s: Seq<u32>)
    ensures
        bit_length(digits_value(s)) <= 32 * s.len(),
{
    lemma_value_upper(s);
    lemma_bit_length_below(digits_value(s), 32 * s.len());
}

} // verus!
