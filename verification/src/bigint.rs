//! Signed integers of any size, held as a sign and base-2^32 digits.

use crate::bits::{bit_length, lemma_bit_length_below, magnitude};
use crate::digits::{
    canonical, digits_value, lemma_canonical_unique, lemma_value_bit_length,
    lemma_value_bit_length_upper, lemma_value_drop_zero, lemma_value_lower, lemma_value_zero,
};
use vstd::arithmetic::power2::{lemma2_to64, lemma_pow2_strictly_increases};
use vstd::prelude::*;
use vstd::std_specs::cmp::PartialEqSpecImpl;

verus! {

/// Magnitudes strictly below this bound are multiplied in one machine
/// multiplication.
pub const SMALL: u32 = 0xffff_ffff;

/// The sign of an integer.
#[derive(Clone, Copy, Debug, PartialEq, Eq, Structural)]
pub enum Sign {
    /// Less than zero.
    Minus,
    /// Zero.
    NoSign,
    /// Greater than zero.
    Plus,
}

impl Sign {
    /// The sign as a factor: `-1`, `0` or `1`.
    pub open spec fn factor(self) -> int {
        match self {
            Sign::Minus => -1,
            Sign::NoSign => 0,
            Sign::Plus => 1,
        }
    }

    /// The sign of a product whose factors have the signs `self` and `other`.
    pub open spec fn spec_times(self, other: Sign) -> Sign {
        sign_of(self.factor() * other.factor())
    }

    /// The sign of a product whose factors have the signs `self` and `other`.
    pub fn times(self, other: Sign) -> (r: Sign)
        ensures
            r == self.spec_times(other),
    {
        match self {
            Sign::Plus => other,
            Sign::NoSign => Sign::NoSign,
            Sign::Minus => match other {
                Sign::Plus => Sign::Minus,
                Sign::NoSign => Sign::NoSign,
                Sign::Minus => Sign::Plus,
            },
        }
    }
}

/// The sign of the integer `v`.
pub open spec fn sign_of(v: int) -> Sign {
    if v < 0 {
        Sign::Minus
    } else if v == 0 {
        Sign::NoSign
    } else {
        Sign::Plus
    }
}

/// The integer with the given sign and magnitude; `NoSign` gives zero
/// whatever the magnitude.
pub open spec fn signed(sign: Sign, m: nat) -> int {
    match sign {
        Sign::Minus => -(m as int),
        Sign::NoSign => 0,
        Sign::Plus => m as int,
    }
}

/// A signed integer of any size.
///
/// The magnitude is a canonical sequence of base-2^32 digits, least
/// significant first; zero has no digits and is not negative. A value never
/// changes once it is built.
#[derive(Debug, Eq)]
pub struct BigInt {
    pub(crate) negative: bool,
    pub(crate) digits: Vec<u32>,
}

impl View for BigInt {
    type V = int;

    /// The integer that the value stands for.
    open spec fn view(&self) -> int {
        if self.is_negative() {
            -(digits_value(self.magnitude_digits()) as int)
        } else {
            digits_value(self.magnitude_digits()) as int
        }
    }
}

impl PartialEq for BigInt {
    /// Whether the two values are the same integer.
    fn eq(&self, other: &BigInt) -> (r: bool) {
        proof {
            use_type_invariant(self);
            use_type_invariant(other);
            lemma_value_zero(self.digits@);
            lemma_value_zero(other.digits@);
            if self@ == other@ {
                lemma_canonical_unique(self.digits@, other.digits@);
            }
        }
        if self.negative != other.negative || self.digits.len() != other.digits.len() {
            return false;
        }
        let mut i: usize = 0;
        while i < self.digits.len()
            invariant
                i <= self.digits.len(),
                self.digits.len() == other.digits.len(),
                forall|j: int| 0 <= j < i ==> self.digits@[j] == other.digits@[j],
                self@ == other@ ==> self.digits@ == other.digits@,
                self.negative == other.negative,
            decreases self.digits.len() - i,
        {
            if self.digits[i] != other.digits[i] {
                return false;
            }
            i = i + 1;
        }
        assert(self.digits@ =~= other.digits@);
        true
    }
}

impl PartialEqSpecImpl for BigInt {
    open spec fn obeys_eq_spec() -> bool {
        true
    }

    open spec fn eq_spec(&self, other: &BigInt) -> bool {
        self@ == other@
    }
}

impl Clone for BigInt {
    fn clone(&self) -> (r: Self)
        ensures
            r.wf(),
            r.is_negative() == self.is_negative(),
            r.magnitude_digits() == self.magnitude_digits(),
            r@ == self@,
    {
        proof {
            use_type_invariant(self);
        }
        BigInt { negative: self.negative, digits: self.digits.clone() }
    }
}

impl BigInt {
    /// Whether the value is held as negative.
    pub closed spec fn is_negative(&self) -> bool {
        self.negative
    }

    /// The digits of the magnitude, least significant first.
    pub closed spec fn magnitude_digits(&self) -> Seq<u32> {
        self.digits@
    }

    /// The representation is canonical: no leading zero digit, and no
    /// negative zero.
    #[verifier::type_invariant]
    pub open spec fn wf(&self) -> bool {
        &&& canonical(self.magnitude_digits())
        &&& self.magnitude_digits().len() == 0 ==> !self.is_negative()
    }

    /// Builds the integer with the given sign and magnitude; the digits are
    /// taken least significant first and may end in zeros. `NoSign` gives
    /// zero whatever the digits, and a zero magnitude gives zero whatever the
    /// sign.
    pub fn new(sign: Sign, digits: Vec<u32>) -> (r: BigInt)
        ensures
            r.wf(),
            r@ == signed(sign, digits_value(digits@)),
    {
        let ghost given = digits@;
        let mut digits = digits;
        while digits.len() > 0 && digits[digits.len() - 1] == 0
            invariant
                digits_value(digits@) == digits_value(given),
            decreases digits.len(),
        {
            proof {
                lemma_value_drop_zero(digits@);
            }
            digits.pop();
        }
        proof {
            lemma_value_zero(digits@);
        }
        match sign {
            Sign::NoSign => BigInt { negative: false, digits: Vec::new() },
            Sign::Plus => BigInt { negative: false, digits },
            Sign::Minus => {
                let negative = digits.len() > 0;
                BigInt { negative, digits }
            },
        }
    }

    /// Builds the integer with the given sign and a magnitude of machine
    /// width.
    pub fn from_u64(sign: Sign, magnitude: u64) -> (r: BigInt)
        ensures
            r.wf(),
            r@ == signed(sign, magnitude as nat),
    {
        let low: u32 = (magnitude % 0x1_0000_0000) as u32;
        let high: u32 = (magnitude / 0x1_0000_0000) as u32;
        let mut digits: Vec<u32> = Vec::new();
        digits.push(low);
        digits.push(high);
        proof {
            let s = digits@;
            let t = s.drop_first();
            assert(t[0] == high && s[0] == low);
            assert(digits_value(t.drop_first()) == 0);
            assert(digits_value(t) == high);
            assert(digits_value(s) == magnitude);
        }
        BigInt::new(sign, digits)
    }

    /// The sign of the value.
    pub fn sign(&self) -> (r: Sign)
        ensures
            r == sign_of(self@),
    {
        proof {
            use_type_invariant(self);
            lemma_value_zero(self.digits@);
        }
        if self.digits.len() == 0 {
            Sign::NoSign
        } else if self.negative {
            Sign::Minus
        } else {
            Sign::Plus
        }
    }

    /// The sign and a copy of the magnitude's digits, least significant
    /// first.
    pub fn to_u32_digits(&self) -> (r: (Sign, Vec<u32>))
        ensures
            r.0 == sign_of(self@),
            r.1@ == self.magnitude_digits(),
            canonical(r.1@),
            self@ == signed(r.0, digits_value(r.1@)),
    {
        proof {
            use_type_invariant(self);
        }
        (self.sign(), self.digits.clone())
    }

    /// The number of bits of the magnitude; zero has none.
    pub fn bits(&self) -> (r: u128)
        ensures
            r == bit_length(magnitude(self@)),
            r <= 32 * usize::MAX,
    {
        proof {
            use_type_invariant(self);
            lemma_value_bit_length_upper(self.digits@);
        }
        let len = self.digits.len();
        if len == 0 {
            return 0;
        }
        let top = self.digits[len - 1];
        let top_bits = bits_of_digit(top);
        proof {
            lemma_value_bit_length(self.digits@);
        }
        ((len - 1) as u128) * 32 + (top_bits as u128)
    }

    /// Whether the magnitude is strictly below `bound`.
    pub fn magnitude_below(&self, bound: u32) -> (r: bool)
        ensures
            r == (magnitude(self@) < bound),
    {
        proof {
            use_type_invariant(self);
            lemma2_to64();
        }
        let len = self.digits.len();
        if len == 0 {
            assert(magnitude(self@) == 0);
            bound > 0
        } else if len == 1 {
            assert(digits_value(self.digits@.drop_first()) == 0);
            assert(magnitude(self@) == self.digits@[0]);
            self.digits[0] < bound
        } else {
            proof {
                lemma_value_lower(self.digits@);
                if len > 2 {
                    lemma_pow2_strictly_increases(32, (32 * (len - 1)) as nat);
                }
                assert(magnitude(self@) >= 0x1_0000_0000);
            }
            false
        }
    }
}

/// The number of bits of one digit.
fn bits_of_digit(digit: u32) -> (r: u32)
    ensures
        r == bit_length(digit as nat),
        r <= 32,
{
    proof {
        lemma2_to64();
        lemma_bit_length_below(digit as nat, 32);
    }
    let mut rest = digit;
    let mut count: u32 = 0;
    while rest > 0
        invariant
            count + bit_length(rest as nat) == bit_length(digit as nat),
            bit_length(digit as nat) <= 32,
        decreases rest,
    {
        rest = rest / 2;
        count = count + 1;
    }
    count
}

/// The magnitude of a value that fits in one digit, as a machine integer.
pub fn to_u64(num: &BigInt) -> (r: u64)
    requires
        magnitude(num@) <= u32::MAX,
    ensures
        r == magnitude(num@),
{
    proof {
        use_type_invariant(num);
        lemma2_to64();
        if num.digits@.len() >= 2 {
            lemma_value_lower(num.digits@);
            if num.digits@.len() > 2 {
                lemma_pow2_strictly_increases(32, (32 * (num.digits@.len() - 1)) as nat);
            }
        }
    }
    if num.digits.len() == 0 {
        0
    } else {
        assert(num.digits@.drop_first().len() == 0);
        num.digits[0] as u64
    }
}

} // verus!
