//! What holds of the three multipliers taken together.
//!
//! `call_ensures(f, (x, y), r)` says that `r` is a value that `f` may return
//! for the operands `x` and `y`. The statements below hold of every such
//! value.

use crate::bigint::{sign_of, BigInt};
use crate::bits::{bit_length, lemma_recursion_depth_logarithmic, magnitude, recursion_depth};
use crate::digits::{lemma_canonical_unique, lemma_value_zero};
use crate::mult::{katsubo_mult, naive_mult, native_mult};
use crate::split::{lemma_signed_product, longer_bits};
use vstd::arithmetic::logarithm::log;
use vstd::prelude::*;

verus! {

/// Two values have the same representation: the same sign flag and the same
/// digits. This is what `==` decides.
pub open spec fn same_representation(a: BigInt, b: BigInt) -> bool {
    &&& a.is_negative() == b.is_negative()
    &&& a.magnitude_digits() == b.magnitude_digits()
}

/// An integer has one representation only: canonical values that stand for
/// the same integer have the same sign flag and the same digits.
pub proof fn one_representation(a: BigInt, b: BigInt)
    requires
        a.wf(),
        b.wf(),
        a@ == b@,
    ensures
        same_representation(a, b),
{
    lemma_value_zero(a.magnitude_digits());
    lemma_value_zero(b.magnitude_digits());
    lemma_canonical_unique(a.magnitude_digits(), b.magnitude_digits());
}

/// The three multipliers agree: whatever `native_mult`, `naive_mult` and
/// `katsubo_mult` return for the same operands is the same integer in the
/// same representation.
pub proof fn agreement(x: BigInt, y: BigInt, native: BigInt, naive: BigInt, karatsuba: BigInt)
    requires
        call_ensures(native_mult, (x, y), native),
        call_ensures(naive_mult, (x, y), naive),
        call_ensures(katsubo_mult, (x, y), karatsuba),
    ensures
        naive@ == karatsuba@ == native@,
        same_representation(naive, karatsuba),
        same_representation(karatsuba, native),
{
    one_representation(naive, karatsuba);
    one_representation(karatsuba, native);
}

/// Multiplication commutes: the result for `(x, y)` and the result for
/// `(y, x)` are the same integer in the same representation.
pub proof fn commutativity(x: BigInt, y: BigInt, xy: BigInt, yx: BigInt)
    requires
        call_ensures(katsubo_mult, (x, y), xy),
        call_ensures(katsubo_mult, (y, x), yx),
    ensures
        xy@ == yx@,
        same_representation(xy, yx),
{
    assert(x@ * y@ == y@ * x@) by (nonlinear_arith);
    one_representation(xy, yx);
}

/// Zero annihilates: the product of anything with zero is zero, which has no
/// digits and no sign.
pub proof fn zero_annihilates(x: BigInt, zero: BigInt, r: BigInt)
    requires
        zero@ == 0,
        call_ensures(katsubo_mult, (x, zero), r),
    ensures
        r@ == 0,
        r.magnitude_digits().len() == 0,
        !r.is_negative(),
        zero.wf() ==> same_representation(r, zero),
{
    assert(x@ * 0 == 0) by (nonlinear_arith);
    lemma_value_zero(r.magnitude_digits());
    if zero.wf() {
        one_representation(r, zero);
    }
}

/// One is neutral: the product of `x` with one is `x` again, digit for digit.
pub proof fn one_is_neutral(x: BigInt, one: BigInt, r: BigInt)
    requires
        x.wf(),
        one@ == 1,
        call_ensures(katsubo_mult, (x, one), r),
    ensures
        r@ == x@,
        same_representation(r, x),
{
    assert(x@ * 1 == x@) by (nonlinear_arith);
    one_representation(r, x);
}

/// The sign of a product: negative exactly when one operand is negative and
/// the other positive, positive exactly when both are nonzero with the same
/// sign, zero exactly when an operand is zero.
pub proof fn sign_of_product(x: BigInt, y: BigInt, r: BigInt)
    requires
        call_ensures(katsubo_mult, (x, y), r),
    ensures
        sign_of(r@) == sign_of(x@).spec_times(sign_of(y@)),
        r@ < 0 <==> (x@ < 0 && y@ > 0) || (x@ > 0 && y@ < 0),
        r@ > 0 <==> (x@ < 0 && y@ < 0) || (x@ > 0 && y@ > 0),
        r@ == 0 <==> x@ == 0 || y@ == 0,
{
    lemma_signed_product(x@, y@);
}

/// The recursive multipliers stop, and their calls nest no deeper than the
/// binary logarithm of the longer operand's bit length; the shorter operand
/// plays no part. Both functions decrease `recursion_depth` of that bit
/// length at every nested call, so the depth of nesting is at most its value
/// for the operands first given.
pub proof fn depth_is_logarithmic(x: BigInt, y: BigInt)
    ensures
        longer_bits(x@, y@) < 32 ==> recursion_depth(longer_bits(x@, y@)) == 0,
        longer_bits(x@, y@) >= 1 ==> recursion_depth(longer_bits(x@, y@)) <= log(
            2,
            longer_bits(x@, y@) as int,
        ),
        bit_length(magnitude(y@)) <= bit_length(magnitude(x@)) ==> recursion_depth(
            longer_bits(x@, y@),
        ) == recursion_depth(bit_length(magnitude(x@))),
{
    if longer_bits(x@, y@) >= 1 {
        lemma_recursion_depth_logarithmic(longer_bits(x@, y@));
    }
}

} // verus!
