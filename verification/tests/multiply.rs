use karatsuba::{katsubo_mult, naive_mult, native_mult, BigInt, Sign};
use std::str::FromStr;

fn big(decimal: &str) -> BigInt {
    let (sign, digits) = num_bigint::BigInt::from_str(decimal).unwrap().to_u32_digits();
    let sign = match sign {
        num_bigint::Sign::Minus => Sign::Minus,
        num_bigint::Sign::NoSign => Sign::NoSign,
        num_bigint::Sign::Plus => Sign::Plus,
    };
    BigInt::new(sign, digits)
}

fn decimal(value: &BigInt) -> String {
    let (sign, digits) = value.to_u32_digits();
    let sign = match sign {
        Sign::Minus => num_bigint::Sign::Minus,
        Sign::NoSign => num_bigint::Sign::NoSign,
        Sign::Plus => num_bigint::Sign::Plus,
    };
    num_bigint::BigInt::new(sign, digits).to_string()
}

fn oracle(x: &str, y: &str) -> String {
    let x = num_bigint::BigInt::from_str(x).unwrap();
    let y = num_bigint::BigInt::from_str(y).unwrap();
    (x * y).to_string()
}

fn check_all(x: &str, y: &str, expected: &str) {
    assert_eq!(decimal(&native_mult(big(x), big(y))), expected);
    assert_eq!(decimal(&naive_mult(big(x), big(y))), expected);
    assert_eq!(decimal(&katsubo_mult(big(x), big(y))), expected);
}

#[test]
fn literal_scenario() {
    check_all(
        "123456789123456789123456789",
        "987654321987654321987654321",
        "121932631356500531591068431581771069347203169112635269",
    );
}

#[test]
fn several_hundred_digits() {
    let x = "123456789123456789123456789123456789123456789123456789123456789123456789123456789123456789123456789123456789123456789123456789123456789123456789123456789123456789123456789123456789123456789123456789123456789123456789123456789123456789123456789123456789123456789123456789123456789123456789";
    let y = "987654321987654321987654321987654321987654321987654321987654321987654321987654321987654321987654321987654321987654321987654321987654321987654321987654321987654321987654321987654321987654321987654321987654321987654321987654321987654321987654321987654321987654321987654321987654321987654321";
    let expected = "121932631356500531591068431825636332060204232294772132529340032763907932998475833233043733467611633702179533936747434171315334405883234640451134875019035109586935344154835578722735813290636047858536282426436516994336751562236986130137220698037455265937689833837924401738158969638393537538384240176149672275915104375680536475445968575211400674976832774742264874507696974273129074038561173803993273569425373334857473100289572865721672631153772396585872162017971927450071692882171458314271223746370989178470754610570520042670285474770050906869816338969581771069347203169112635269";
    let native = native_mult(big(x), big(y));
    let naive = naive_mult(big(x), big(y));
    let karatsuba = katsubo_mult(big(x), big(y));
    assert_eq!(native, naive);
    assert_eq!(native, karatsuba);
    assert_eq!(decimal(&karatsuba), expected);
}

#[test]
fn agreement_on_signed_pairs() {
    let values = [
        "0",
        "1",
        "-1",
        "4294967294",
        "4294967295",
        "-4294967295",
        "4294967296",
        "18446744073709551616",
        "-340282366920938463463374607431768211457",
        "123456789012345678901234567890123456789012345678901234567890",
        "-1000000000000000000000000000000000000000000000000000000000001",
    ];
    for x in values {
        for y in values {
            let native = native_mult(big(x), big(y));
            let naive = naive_mult(big(x), big(y));
            let karatsuba = katsubo_mult(big(x), big(y));
            assert_eq!(naive, karatsuba);
            assert_eq!(karatsuba, native);
            assert_eq!(decimal(&native), oracle(x, y));
        }
    }
}

#[test]
fn commutativity() {
    let x = "-98765432109876543210987654321098765432109876543210";
    let y = "314159265358979323846264338327950288419716939937510582097494";
    assert_eq!(katsubo_mult(big(x), big(y)), katsubo_mult(big(y), big(x)));
    assert_eq!(naive_mult(big(x), big(y)), naive_mult(big(y), big(x)));
    assert_eq!(
        decimal(&katsubo_mult(big(x), big(y))),
        "-31028075594500962094092227555189824498611952182478864576673491713279402750014482468984017317201075551923715740"
    );
}

#[test]
fn zero_annihilates() {
    for x in ["0", "7", "-7", "4294967295", "-79228162514264337593543950336"] {
        assert_eq!(katsubo_mult(big(x), big("0")), big("0"));
        assert_eq!(katsubo_mult(big("0"), big(x)), big("0"));
        assert_eq!(naive_mult(big(x), big("0")), big("0"));
        assert_eq!(decimal(&katsubo_mult(big(x), big("0"))), "0");
    }
}

#[test]
fn one_is_neutral() {
    for x in ["0", "7", "-7", "4294967295", "-79228162514264337593543950336"] {
        assert_eq!(katsubo_mult(big(x), big("1")), big(x));
        assert_eq!(katsubo_mult(big("1"), big(x)), big(x));
        assert_eq!(naive_mult(big(x), big("1")), big(x));
        assert_eq!(decimal(&katsubo_mult(big(x), big("1"))), x);
    }
}

#[test]
fn sign_of_every_combination() {
    let p = "12345678901234567890123";
    let n = "-12345678901234567890123";
    assert_eq!(katsubo_mult(big(p), big(p)).sign(), Sign::Plus);
    assert_eq!(katsubo_mult(big(p), big(n)).sign(), Sign::Minus);
    assert_eq!(katsubo_mult(big(n), big(p)).sign(), Sign::Minus);
    assert_eq!(katsubo_mult(big(n), big(n)).sign(), Sign::Plus);
    assert_eq!(katsubo_mult(big(n), big("0")).sign(), Sign::NoSign);
    assert_eq!(naive_mult(big(p), big(n)).sign(), Sign::Minus);
    assert_eq!(naive_mult(big(n), big(n)).sign(), Sign::Plus);
    assert_eq!(native_mult(big(n), big(p)).sign(), Sign::Minus);
    check_all(p, n, "-152415787532388367504942236884722755800955129");
    check_all(n, n, "152415787532388367504942236884722755800955129");
}

#[test]
fn small_signs() {
    check_all("6", "7", "42");
    check_all("-6", "7", "-42");
    check_all("6", "-7", "-42");
    check_all("-6", "-7", "42");
}

#[test]
fn threshold_boundary() {
    // 2^32 - 2 is the largest magnitude multiplied directly.
    check_all("4294967294", "4294967294", "18446744056529682436");
    check_all("4294967294", "4294967295", "18446744060824649730");
    check_all("4294967295", "4294967295", "18446744065119617025");
    check_all("4294967294", "4294967296", "18446744065119617024");
    check_all("-4294967295", "4294967294", "-18446744060824649730");
    check_all("4294967296", "-4294967296", "-18446744073709551616");
}

#[test]
fn asymmetric_operands() {
    check_all("1", "340282366920938463463374607431768211456", "340282366920938463463374607431768211456");
    check_all("-1099511627776", "3", "-3298534883328");
    check_all("18446744073709563961", "4294967294", "79228162477370902467496091534");
    let long = "9999999999999999999999999999999999999999999999999999999999999999999999999999999999999999999999999999999999999999999999999999999999999999999999999999999999999999999999999999999999999999999999999999999999999999999999999999999999999999999999999999999999999999999999999999999999999999999999999999999999999999999999999999999999999999999999999999999999999999999999999999999999999999999999999999999999999999";
    check_all(long, "1", long);
    check_all("-1", long, &format!("-{}", long));
    check_all(long, "2", &oracle(long, "2"));
}

fn next_word(state: &mut u64) -> u32 {
    *state = state.wrapping_mul(6364136223846793005).wrapping_add(1442695040888963407);
    (*state >> 32) as u32
}

fn sample(state: &mut u64, longest: u32) -> (BigInt, num_bigint::BigInt) {
    let len = next_word(state) % (longest + 1);
    let mut digits: Vec<u32> = Vec::new();
    for _ in 0..len {
        digits.push(next_word(state));
    }
    let (sign, outside_sign) = if next_word(state) % 2 == 0 {
        (Sign::Plus, num_bigint::Sign::Plus)
    } else {
        (Sign::Minus, num_bigint::Sign::Minus)
    };
    (BigInt::new(sign, digits.clone()), num_bigint::BigInt::new(outside_sign, digits))
}

#[test]
fn agreement_on_generated_operands() {
    let mut state: u64 = 0x2545_f491_4f6c_dd1d;
    for round in 0..300 {
        let longest = if round % 3 == 0 { 2 } else { 12 };
        let (x, outside_x) = sample(&mut state, longest);
        let (y, outside_y) = sample(&mut state, 12);
        let expected = (outside_x * outside_y).to_string();
        assert_eq!(decimal(&naive_mult(x.clone(), y.clone())), expected);
        assert_eq!(decimal(&katsubo_mult(x.clone(), y.clone())), expected);
        assert_eq!(decimal(&native_mult(x, y)), expected);
    }
}
