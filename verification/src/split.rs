//! Splitting an integer at a bit boundary, and putting a product back
//! together from the products of the halves.

use crate::bigint::{sign_of, signed};
use crate::bits::{bit_length, lemma_bit_length_below, lemma_bit_length_bounds, magnitude};
use vstd::arithmetic::div_mod::{
    lemma_fundamental_div_mod, lemma_fundamental_div_mod_converse, lemma_mod_bound, lemma_small_mod,
};
use vstd::arithmetic::power2::{
    lemma2_to64, lemma_pow2_adds, lemma_pow2_pos, lemma_pow2_strictly_increases, lemma_pow2_unfold,
    pow2,
};
use vstd::prelude::*;

verus! {

/// The high half of `x` when it is split `k` bits up: `x` divided by `2^k`,
/// rounded towards minus infinity.
pub open spec fn high_half(x: int, k: nat) -> int {
    x / (pow2(k) as int)
}

/// The low half of `x` when it is split `k` bits up: the `k` low bits of its
/// two's complement, never negative.
pub open spec fn low_half(x: int, k: nat) -> int {
    x % (pow2(k) as int)
}

/// The bit length of the longer of two integers.
pub open spec fn longer_bits(x: int, y: int) -> nat {
    if bit_length(magnitude(x)) >= bit_length(magnitude(y)) {
        bit_length(magnitude(x))
    } else {
        bit_length(magnitude(y))
    }
}

/// Bitwise "and" of two integers in two's complement of unbounded width:
/// zero has no bit set and `-1` has every bit set; otherwise the lowest bit
/// is the "and" of the two lowest bits, and the bits above it are the "and"
/// of the two integers halved, rounding towards minus infinity.
pub open spec fn int_and(x: int, y: int) -> int
    decreases magnitude(x),
{
    if x == 0 || y == 0 {
        0
    } else if x == -1 {
        y
    } else if y == -1 {
        x
    } else {
        (x % 2) * (y % 2) + 2 * int_and(x / 2, y / 2)
    }
}

/// "And" with the mask `2^k - 1` keeps the low half.
pub proof fn lemma_and_low_mask(x: int, k: nat)
    ensures
        int_and(x, pow2(k) - 1) == low_half(x, k),
    decreases k,
{
    let p = pow2(k) as int;
    lemma_pow2_pos(k);
    if k == 0 {
        lemma2_to64();
    } else if x == 0 {
        lemma_small_mod(0, p as nat);
    } else {
        let q = pow2((k - 1) as nat) as int;
        lemma_pow2_unfold(k);
        lemma_pow2_pos((k - 1) as nat);
        if x == -1 {
            lemma_fundamental_div_mod_converse(x, p, -1, p - 1);
        } else {
            let h = x / 2;
            lemma_and_low_mask(h, (k - 1) as nat);
            lemma_fundamental_div_mod(h, q);
            lemma_mod_bound(h, q);
            assert((p - 1) % 2 == 1 && (p - 1) / 2 == q - 1);
            assert(x == (h / q) * p + (2 * (h % q) + x % 2)) by (nonlinear_arith)
                requires
                    x == 2 * h + x % 2,
                    h == q * (h / q) + h % q,
                    p == 2 * q,
            ;
            lemma_fundamental_div_mod_converse(x, p, h / q, 2 * (h % q) + x % 2);
        }
    }
}

/// The halves make up the whole, and the low half has `k` bits at most.
pub proof fn lemma_halves(x: int, k: nat)
    ensures
        x == high_half(x, k) * pow2(k) + low_half(x, k),
        0 <= low_half(x, k) < pow2(k),
{
    let p = pow2(k) as int;
    lemma_pow2_pos(k);
    lemma_fundamental_div_mod(x, p);
    lemma_mod_bound(x, p);
    assert(p * (x / p) == (x / p) * p) by (nonlinear_arith);
}

/// Splitting an integer of at most `n` bits at `k`, where `k` is at most half
/// of `n`, leaves halves, and a sum of the halves, of at most `n - k + 1`
/// bits.
pub proof fn lemma_halves_are_shorter(x: int, n: nat, k: nat)
    requires
        bit_length(magnitude(x)) <= n,
        2 * k <= n,
    ensures
        bit_length(magnitude(high_half(x, k))) <= n - k + 1,
        bit_length(magnitude(low_half(x, k))) <= n - k + 1,
        bit_length(magnitude(high_half(x, k) + low_half(x, k))) <= n - k + 1,
{
    let p = pow2(k) as int;
    let q = pow2((n - k) as nat) as int;
    let a = high_half(x, k);
    let b = low_half(x, k);
    let m = (n - k + 1) as nat;
    lemma_halves(x, k);
    lemma_pow2_pos(k);
    lemma_pow2_pos((n - k) as nat);
    lemma_pow2_adds(k, (n - k) as nat);
    lemma_pow2_unfold(m);
    assert(magnitude(x) < p * q) by {
        assert(k + (n - k) as nat == n);
        assert(pow2(n) == p * q);
        lemma_pow2_pos(n);
        if x != 0 {
            lemma_bit_length_bounds(magnitude(x));
            if bit_length(magnitude(x)) < n {
                lemma_pow2_strictly_increases(bit_length(magnitude(x)), n);
            }
        }
    }
    assert(p <= q) by {
        if k < n - k {
            lemma_pow2_strictly_increases(k, (n - k) as nat);
        }
    }
    assert(-q <= a < q) by (nonlinear_arith)
        requires
            x == a * p + b,
            0 <= b < p,
            -(p * q) < x < p * q,
            p > 0,
    ;
    assert(a < 0 ==> x < 0) by (nonlinear_arith)
        requires
            x == a * p + b,
            0 <= b < p,
            p > 0,
    ;
    assert(x < 0 ==> a < 0) by (nonlinear_arith)
        requires
            x == a * p + b,
            0 <= b < p,
            p > 0,
    ;
    lemma_bit_length_below(magnitude(a), m);
    lemma_bit_length_below(magnitude(b), m);
    lemma_bit_length_below(magnitude(a + b), m);
}

/// The product of two split integers from the four products of their halves.
pub proof fn lemma_recombine(x: int, y: int, a: int, b: int, c: int, d: int, k: nat)
    requires
        x == a * pow2(k) + b,
        y == c * pow2(k) + d,
    ensures
        x * y == (a * c) * pow2(2 * k) + (a * d + b * c) * pow2(k) + b * d,
{
    let p = pow2(k) as int;
    lemma_pow2_adds(k, k);
    let ap = a * p;
    let cp = c * p;
    assert((ap + b) * (cp + d) == ap * cp + ap * d + b * cp + b * d) by (nonlinear_arith);
    assert(ap * cp == (a * c) * (p * p)) by (nonlinear_arith)
        requires
            ap == a * p,
            cp == c * p,
    ;
    assert(ap * d + b * cp == (a * d + b * c) * p) by (nonlinear_arith)
        requires
            ap == a * p,
            cp == c * p,
    ;
}

/// Karatsuba's identity: the two cross products together, from one product
/// of sums and the two products already known.
pub proof fn lemma_cross_term(a: int, b: int, c: int, d: int)
    ensures
        (a + b) * (c + d) - a * c - b * d == a * d + b * c,
{
    assert((a + b) * (c + d) - a * c - b * d == a * d + b * c) by (nonlinear_arith);
}

/// A product is the product of the magnitudes under the product of the signs.
pub proof fn lemma_signed_product(x: int, y: int)
    ensures
        x * y == signed(sign_of(x).spec_times(sign_of(y)), magnitude(x) * magnitude(y)),
        sign_of(x * y) == sign_of(x).spec_times(sign_of(y)),
{
    let mx = magnitude(x) as int;
    let my = magnitude(y) as int;
    assert(mx * my >= 0) by (nonlinear_arith)
        requires
            mx >= 0,
            my >= 0,
    ;
    if x == 0 || y == 0 {
        assert(x * y == 0) by (nonlinear_arith)
            requires
                x == 0 || y == 0,
        ;
    } else {
        assert(mx * my > 0) by (nonlinear_arith)
            requires
                mx > 0,
                my > 0,
        ;
        if (x < 0) == (y < 0) {
            assert(x * y == mx * my) by (nonlinear_arith)
                requires
                    (mx == x && my == y) || (mx == -x && my == -y),
            ;
        } else {
            assert(x * y == -(mx * my)) by (nonlinear_arith)
                requires
                    (mx == x && my == -y) || (mx == -x && my == y),
            ;
        }
    }
}

/// Two magnitudes below `2^32` have a product below `2^64`.
pub proof fn lemma_small_product(x: nat, y: nat)
    requires
        x < 0x1_0000_0000,
        y < 0x1_0000_0000,
    ensures
        x * y <= 0xffff_ffff_ffff_ffff,
{
    assert(x * y <= 0xffff_ffff * 0xffff_ffff) by (nonlinear_arith)
        requires
            x <= 0xffff_ffff,
            y <= 0xffff_ffff,
    ;
}

} // verus!
