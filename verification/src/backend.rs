//! The arithmetic that `num_bigint` does for this library.
//!
//! Each function here hands its operands to `num_bigint` as a sign and
//! base-2^32 digits (`BigInt::from_slice`), makes one call, and takes the
//! result back the same way (`BigInt::to_u32_digits`, which gives no leading
//! zero digit, and no digit at all for zero). The contracts are not proved:
//! they state what `num_bigint` computes.

use crate::bigint::BigInt;
use crate::split::int_and;
use vstd::arithmetic::power2::pow2;
use vstd::prelude::*;

verus! {

/// `num_bigint::BigInt`'s `*`: the product of the two integers.
#[verifier::external_body]
pub(crate) fn product(x: &BigInt, y: &BigInt) -> (r: BigInt)
    ensures
        r.wf(),
        r@ == x@ * y@,
{
    let sx = if x.negative { num_bigint::Sign::Minus } else { num_bigint::Sign::Plus };
    let sy = if y.negative { num_bigint::Sign::Minus } else { num_bigint::Sign::Plus };
    let a = num_bigint::BigInt::from_slice(sx, &x.digits);
    let b = num_bigint::BigInt::from_slice(sy, &y.digits);
    let (sign, digits) = (a * b).to_u32_digits();
    BigInt { negative: sign == num_bigint::Sign::Minus, digits }
}

/// `num_bigint::BigInt`'s `+`: the sum of the two integers.
#[verifier::external_body]
pub(crate) fn sum(x: &BigInt, y: &BigInt) -> (r: BigInt)
    ensures
        r.wf(),
        r@ == x@ + y@,
{
    let sx = if x.negative { num_bigint::Sign::Minus } else { num_bigint::Sign::Plus };
    let sy = if y.negative { num_bigint::Sign::Minus } else { num_bigint::Sign::Plus };
    let a = num_bigint::BigInt::from_slice(sx, &x.digits);
    let b = num_bigint::BigInt::from_slice(sy, &y.digits);
    let (sign, digits) = (a + b).to_u32_digits();
    BigInt { negative: sign == num_bigint::Sign::Minus, digits }
}

/// `num_bigint::BigInt`'s `-`: the first integer less the second.
#[verifier::external_body]
pub(crate) fn difference(x: &BigInt, y: &BigInt) -> (r: BigInt)
    ensures
        r.wf(),
        r@ == x@ - y@,
{
    let sx = if x.negative { num_bigint::Sign::Minus } else { num_bigint::Sign::Plus };
    let sy = if y.negative { num_bigint::Sign::Minus } else { num_bigint::Sign::Plus };
    let a = num_bigint::BigInt::from_slice(sx, &x.digits);
    let b = num_bigint::BigInt::from_slice(sy, &y.digits);
    let (sign, digits) = (a - b).to_u32_digits();
    BigInt { negative: sign == num_bigint::Sign::Minus, digits }
}

/// `num_bigint::BigInt`'s `<<` by a `u128`: the integer times `2^n`, sign
/// kept. For a nonzero integer `num_bigint` needs the count of whole digits
/// shifted in to fit in `usize`.
#[verifier::external_body]
pub(crate) fn shift_left(x: &BigInt, n: u128) -> (r: BigInt)
    requires
        x@ != 0 ==> n / 32 <= usize::MAX,
    ensures
        r.wf(),
        r@ == x@ * pow2(n as nat),
{
    let sx = if x.negative { num_bigint::Sign::Minus } else { num_bigint::Sign::Plus };
    let a = num_bigint::BigInt::from_slice(sx, &x.digits);
    let (sign, digits) = (a << n).to_u32_digits();
    BigInt { negative: sign == num_bigint::Sign::Minus, digits }
}

/// `num_bigint::BigInt`'s `>>` by a `u128`: the integer divided by `2^n` and
/// rounded towards minus infinity, which is what `/` means here for a
/// positive divisor.
#[verifier::external_body]
pub(crate) fn shift_right(x: &BigInt, n: u128) -> (r: BigInt)
    ensures
        r.wf(),
        r@ == x@ / (pow2(n as nat) as int),
{
    let sx = if x.negative { num_bigint::Sign::Minus } else { num_bigint::Sign::Plus };
    let a = num_bigint::BigInt::from_slice(sx, &x.digits);
    let (sign, digits) = (a >> n).to_u32_digits();
    BigInt { negative: sign == num_bigint::Sign::Minus, digits }
}

/// `num_bigint::BigInt`'s `&`: bitwise "and" on two's complement, as if both
/// integers had endlessly many sign bits.
#[verifier::external_body]
pub(crate) fn bit_and(x: &BigInt, mask: &BigInt) -> (r: BigInt)
    ensures
        r.wf(),
        r@ == int_and(x@, mask@),
{
    let sx = if x.negative { num_bigint::Sign::Minus } else { num_bigint::Sign::Plus };
    let sm = if mask.negative { num_bigint::Sign::Minus } else { num_bigint::Sign::Plus };
    let a = num_bigint::BigInt::from_slice(sx, &x.digits);
    let b = num_bigint::BigInt::from_slice(sm, &mask.digits);
    let (sign, digits) = (a & b).to_u32_digits();
    BigInt { negative: sign == num_bigint::Sign::Minus, digits }
}

} // verus!
