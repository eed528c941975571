//! Three ways to multiply two integers.
//!
//! `native_mult` is a single multiplication by the underlying arithmetic.
//! `naive_mult` and `katsubo_mult` split both operands at half the bit length
//! of the longer one and recurse on the halves, four and three times for each
//! level; operands whose magnitudes are both below [`SMALL`] are multiplied
//! as machine integers.
//!
//! The recursive functions decrease `recursion_depth` of the longer operand's
//! bit length, so that number bounds how deep their calls nest.

use crate::backend::{bit_and, difference, product, shift_left, shift_right, sum};
use crate::bigint::{sign_of, to_u64, BigInt, Sign, SMALL};
use crate::bits::{lemma_bit_length_above, lemma_recursion_depth_step, magnitude, recursion_depth};
use crate::split::{
    high_half, lemma_and_low_mask, lemma_cross_term, lemma_halves, lemma_halves_are_shorter,
    lemma_recombine, lemma_signed_product, lemma_small_product, longer_bits, low_half,
};
use vstd::arithmetic::power2::{lemma2_to64, pow2};
use vstd::prelude::*;

verus! {

/// The product as the underlying big-integer arithmetic computes it in one
/// multiplication.
pub fn native_mult(num1: BigInt, num2: BigInt) -> (r: BigInt)
    ensures
        r.wf(),
        r@ == num1@ * num2@,
        sign_of(r@) == sign_of(num1@).spec_times(sign_of(num2@)),
{
    proof {
        lemma_signed_product(num1@, num2@);
    }
    product(&num1, &num2)
}

/// The product of two operands whose magnitudes are both below [`SMALL`]:
/// one machine multiplication of the magnitudes, under the product of the
/// signs.
fn small_mult(num1: &BigInt, num2: &BigInt) -> (r: BigInt)
    requires
        magnitude(num1@) < SMALL,
        magnitude(num2@) < SMALL,
    ensures
        r.wf(),
        r@ == num1@ * num2@,
{
    proof {
        lemma_small_product(magnitude(num1@), magnitude(num2@));
        lemma_signed_product(num1@, num2@);
    }
    BigInt::from_u64(num1.sign().times(num2.sign()), to_u64(num1) * to_u64(num2))
}

/// The mask `2^mid - 1`, which keeps the `mid` low bits.
fn low_mask(mid: u128) -> (r: BigInt)
    requires
        mid / 32 <= usize::MAX,
    ensures
        r.wf(),
        r@ == pow2(mid as nat) - 1,
{
    let one = BigInt::from_u64(Sign::Plus, 1);
    assert(one@ == 1);
    let power = shift_left(&one, mid);
    assert(power@ == pow2(mid as nat)) by (nonlinear_arith)
        requires
            power@ == one@ * pow2(mid as nat),
            one@ == 1,
    ;
    difference(&power, &one)
}

/// The product by the schoolbook recursion: with `x = a * 2^mid + b` and
/// `y = c * 2^mid + d`, four products of halves give
/// `x * y = ac * 2^(2 mid) + (ad + bc) * 2^mid + bd`.
pub fn naive_mult(num1: BigInt, num2: BigInt) -> (r: BigInt)
    ensures
        r.wf(),
        r@ == num1@ * num2@,
        sign_of(r@) == sign_of(num1@).spec_times(sign_of(num2@)),
    decreases recursion_depth(longer_bits(num1@, num2@)),
{
    proof {
        lemma_signed_product(num1@, num2@);
    }
    // small operands take one machine multiplication
    if num1.magnitude_below(SMALL) && num2.magnitude_below(SMALL) {
        return small_mult(&num1, &num2);
    }
    let bits1 = num1.bits();
    let bits2 = num2.bits();
    let mid = (if bits1 >= bits2 { bits1 } else { bits2 }) / 2;
    let ghost n = longer_bits(num1@, num2@);
    let ghost k = mid as nat;
    proof {
        lemma2_to64();
        if magnitude(num1@) >= SMALL {
            lemma_bit_length_above(magnitude(num1@), 31);
        } else {
            lemma_bit_length_above(magnitude(num2@), 31);
        }
        lemma_halves(num1@, k);
        lemma_halves(num2@, k);
        lemma_and_low_mask(num1@, k);
        lemma_and_low_mask(num2@, k);
        lemma_halves_are_shorter(num1@, n, k);
        lemma_halves_are_shorter(num2@, n, k);
    }
    let mask = low_mask(mid);
    let (a, b): (BigInt, BigInt) = (shift_right(&num1, mid), bit_and(&num1, &mask));
    let (c, d): (BigInt, BigInt) = (shift_right(&num2, mid), bit_and(&num2, &mask));
    let ghost (av, bv, cv, dv) = (a@, b@, c@, d@);
    proof {
        assert(av == high_half(num1@, k) && bv == low_half(num1@, k));
        assert(cv == high_half(num2@, k) && dv == low_half(num2@, k));
        lemma_recursion_depth_step(n, longer_bits(av, cv));
        lemma_recursion_depth_step(n, longer_bits(bv, dv));
        lemma_recursion_depth_step(n, longer_bits(av, dv));
        lemma_recursion_depth_step(n, longer_bits(bv, cv));
    }

    let ac = naive_mult(a.clone(), c.clone());
    let bd = naive_mult(b.clone(), d.clone());
    let ad = naive_mult(a, d);
    let bc = naive_mult(b, c);
    let ad_plus_bc = sum(&ad, &bc);
    proof {
        lemma_recombine(num1@, num2@, av, bv, cv, dv, k);
    }

    sum(&shift_left(&ac, 2 * mid), &sum(&shift_left(&ad_plus_bc, mid), &bd))
}

/// The product by Karatsuba's recursion: the same split as `naive_mult`, but
/// the cross term `ad + bc` comes from one product, `(a + b)(c + d)`, less
/// `ac` and `bd`, so that three products of halves are enough.
pub fn katsubo_mult(num1: BigInt, num2: BigInt) -> (r: BigInt)
    ensures
        r.wf(),
        r@ == num1@ * num2@,
        sign_of(r@) == sign_of(num1@).spec_times(sign_of(num2@)),
    decreases recursion_depth(longer_bits(num1@, num2@)),
{
    proof {
        lemma_signed_product(num1@, num2@);
    }
    // small operands take one machine multiplication
    if num1.magnitude_below(SMALL) && num2.magnitude_below(SMALL) {
        return small_mult(&num1, &num2);
    }
    let bits1 = num1.bits();
    let bits2 = num2.bits();
    let mid = (if bits1 >= bits2 { bits1 } else { bits2 }) / 2;
    let ghost n = longer_bits(num1@, num2@);
    let ghost k = mid as nat;
    proof {
        lemma2_to64();
        if magnitude(num1@) >= SMALL {
            lemma_bit_length_above(magnitude(num1@), 31);
        } else {
            lemma_bit_length_above(magnitude(num2@), 31);
        }
        lemma_halves(num1@, k);
        lemma_halves(num2@, k);
        lemma_and_low_mask(num1@, k);
        lemma_and_low_mask(num2@, k);
        lemma_halves_are_shorter(num1@, n, k);
        lemma_halves_are_shorter(num2@, n, k);
    }
    let mask = low_mask(mid);
    let (a, b): (BigInt, BigInt) = (shift_right(&num1, mid), bit_and(&num1, &mask));
    let (c, d): (BigInt, BigInt) = (shift_right(&num2, mid), bit_and(&num2, &mask));
    let ghost (av, bv, cv, dv) = (a@, b@, c@, d@);
    proof {
        assert(av == high_half(num1@, k) && bv == low_half(num1@, k));
        assert(cv == high_half(num2@, k) && dv == low_half(num2@, k));
        lemma_recursion_depth_step(n, longer_bits(av + bv, cv + dv));
        lemma_recursion_depth_step(n, longer_bits(av, cv));
        lemma_recursion_depth_step(n, longer_bits(bv, dv));
    }

    let abcd = katsubo_mult(sum(&a, &b), sum(&c, &d));
    let ac = katsubo_mult(a, c);
    let bd = katsubo_mult(b, d);
    let abcd_minus_ac_minus_bd = difference(&difference(&abcd, &ac), &bd);
    proof {
        lemma_cross_term(av, bv, cv, dv);
        lemma_recombine(num1@, num2@, av, bv, cv, dv, k);
    }

    sum(&shift_left(&ac, 2 * mid), &sum(&shift_left(&abcd_minus_ac_minus_bd, mid), &bd))
}

} // verus!
