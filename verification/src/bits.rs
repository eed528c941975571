//! Bit lengths of natural numbers, and the bound on how deep the recursive
//! multipliers nest.

use vstd::arithmetic::logarithm::{lemma_log_is_ordered, lemma_log_pow, log};
use vstd::arithmetic::power2::{lemma2_to64, lemma_pow2, lemma_pow2_pos, lemma_pow2_unfold, pow2};
use vstd::prelude::*;

verus! {

/// The absolute value of `v`.
pub open spec fn magnitude(v: int) -> nat {
    if v < 0 {
        (-v) as nat
    } else {
        v as nat
    }
}

/// The number of binary digits needed to write `n`; zero needs none.
pub open spec fn bit_length(n: nat) -> nat
    decreases n,
{
    if n == 0 {
        0
    } else {
        1 + bit_length(n / 2)
    }
}

/// A positive `n` lies between the two powers of two that its bit length names.
pub proof fn lemma_bit_length_bounds(n: nat)
    requires
        n > 0,
    ensures
        bit_length(n) >= 1,
        pow2((bit_length(n) - 1) as nat) <= n < pow2(bit_length(n)),
    decreases n,
{
    if n == 1 {
        lemma2_to64();
        assert(bit_length(0) == 0);
        assert(bit_length(1) == 1);
    } else {
        let h: nat = n / 2;
        lemma_bit_length_bounds(h);
        lemma_pow2_unfold(bit_length(h));
        lemma_pow2_unfold(bit_length(n));
    }
}

/// Anything below `2^k` has at most `k` bits.
pub proof fn lemma_bit_length_below(n: nat, k: nat)
    requires
        n < pow2(k),
    ensures
        bit_length(n) <= k,
    decreases n,
{
    if n > 0 {
        if k == 0 {
            lemma2_to64();
        } else {
            lemma_pow2_unfold(k);
            lemma_bit_length_below(n / 2, (k - 1) as nat);
        }
    }
}

/// Anything from `2^k` upwards has more than `k` bits.
pub proof fn lemma_bit_length_above(n: nat, k: nat)
    requires
        n >= pow2(k),
    ensures
        bit_length(n) > k,
    decreases k,
{
    lemma_pow2_pos(k);
    if k > 0 {
        lemma_pow2_unfold(k);
        lemma_bit_length_above(n / 2, (k - 1) as nat);
    }
}

/// A number between `2^(k-1)` and `2^k` has exactly `k` bits.
pub proof fn lemma_bit_length_is(n: nat, k: nat)
    requires
        k >= 1,
        pow2((k - 1) as nat) <= n < pow2(k),
    ensures
        bit_length(n) == k,
{
    lemma_bit_length_below(n, k);
    lemma_bit_length_above(n, (k - 1) as nat);
}

/// How many nested calls the recursive multipliers can make when the longer
/// operand has `n` bits: below 32 bits both operands are multiplied directly;
/// from there on one level of splitting leaves at most `n - n / 2 + 1` bits.
pub open spec fn recursion_depth(n: nat) -> nat
    decreases n,
{
    if n < 32 {
        0
    } else {
        1 + recursion_depth((n - n / 2 + 1) as nat)
    }
}

/// Shorter operands never nest deeper.
pub proof fn lemma_recursion_depth_monotone(a: nat, b: nat)
    requires
        a <= b,
    ensures
        recursion_depth(a) <= recursion_depth(b),
    decreases b,
{
    if a >= 32 {
        lemma_recursion_depth_monotone((a - a / 2 + 1) as nat, (b - b / 2 + 1) as nat);
    }
}

/// One level of splitting strictly lowers the depth that is left.
pub proof fn lemma_recursion_depth_step(n: nat, m: nat)
    requires
        n >= 32,
        m <= n - n / 2 + 1,
    ensures
        recursion_depth(m) < recursion_depth(n),
{
    lemma_recursion_depth_monotone(m, (n - n / 2 + 1) as nat);
}

/// Every level of splitting at least halves `n - 3`, and splitting starts at
/// 32 bits only.
proof fn lemma_recursion_depth_doubling(n: nat)
    requires
        n >= 32,
    ensures
        14 * pow2(recursion_depth(n)) + 3 <= n,
    decreases n,
{
    let m: nat = (n - n / 2 + 1) as nat;
    lemma2_to64();
    lemma_pow2_unfold(recursion_depth(n));
    if m >= 32 {
        lemma_recursion_depth_doubling(m);
    } else {
        assert(recursion_depth(m) == 0);
    }
}

/// The nesting depth is logarithmic in the bit length: `2^depth` never
/// exceeds `n`, so the depth is at most the binary logarithm of `n`.
pub proof fn lemma_recursion_depth_logarithmic(n: nat)
    requires
        n >= 1,
    ensures
        pow2(recursion_depth(n)) <= n,
        recursion_depth(n) <= log(2, n as int),
{
    let d = recursion_depth(n);
    if n >= 32 {
        lemma_recursion_depth_doubling(n);
    } else {
        lemma2_to64();
    }
    lemma_pow2(d);
    lemma_log_pow(2, d);
    lemma_log_is_ordered(2, pow2(d) as int, n as int);
}

} // verus!
