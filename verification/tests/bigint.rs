use karatsuba::{to_u64, BigInt, Sign, SMALL};

#[test]
fn new_strips_leading_zero_digits() {
    let x = BigInt::new(Sign::Plus, vec![5, 0, 0]);
    assert_eq!(x.to_u32_digits(), (Sign::Plus, vec![5]));
    assert_eq!(x, BigInt::new(Sign::Plus, vec![5]));
    let y = BigInt::new(Sign::Minus, vec![0, 7, 0]);
    assert_eq!(y.to_u32_digits(), (Sign::Minus, vec![0, 7]));
}

#[test]
fn new_gives_zero_without_sign_or_magnitude() {
    let zero = BigInt::new(Sign::NoSign, vec![]);
    assert_eq!(BigInt::new(Sign::NoSign, vec![1, 2, 3]), zero);
    assert_eq!(BigInt::new(Sign::Minus, vec![0, 0]), zero);
    assert_eq!(BigInt::new(Sign::Plus, vec![]), zero);
    assert_eq!(zero.to_u32_digits(), (Sign::NoSign, vec![]));
    assert_eq!(zero.sign(), Sign::NoSign);
}

#[test]
fn sign_of_each_kind() {
    assert_eq!(BigInt::new(Sign::Plus, vec![1]).sign(), Sign::Plus);
    assert_eq!(BigInt::new(Sign::Minus, vec![1]).sign(), Sign::Minus);
    assert_eq!(BigInt::new(Sign::Minus, vec![0]).sign(), Sign::NoSign);
}

#[test]
fn from_u64_splits_into_digits() {
    assert_eq!(BigInt::from_u64(Sign::Plus, 0).to_u32_digits(), (Sign::NoSign, vec![]));
    assert_eq!(BigInt::from_u64(Sign::Plus, 1).to_u32_digits(), (Sign::Plus, vec![1]));
    assert_eq!(
        BigInt::from_u64(Sign::Minus, 0xffff_ffff).to_u32_digits(),
        (Sign::Minus, vec![0xffff_ffff])
    );
    assert_eq!(
        BigInt::from_u64(Sign::Plus, 0x1_0000_0000).to_u32_digits(),
        (Sign::Plus, vec![0, 1])
    );
    assert_eq!(
        BigInt::from_u64(Sign::Minus, 112_500_000_000).to_u32_digits(),
        (Sign::Minus, vec![830_850_304, 26])
    );
    assert_eq!(
        BigInt::from_u64(Sign::Plus, u64::MAX).to_u32_digits(),
        (Sign::Plus, vec![0xffff_ffff, 0xffff_ffff])
    );
    assert_eq!(BigInt::from_u64(Sign::NoSign, 99).to_u32_digits(), (Sign::NoSign, vec![]));
}

#[test]
fn to_u64_gives_the_magnitude() {
    assert_eq!(to_u64(&BigInt::from_u64(Sign::Plus, 0)), 0);
    assert_eq!(to_u64(&BigInt::from_u64(Sign::Plus, 1125)), 1125);
    assert_eq!(to_u64(&BigInt::from_u64(Sign::Minus, 1125)), 1125);
    assert_eq!(to_u64(&BigInt::from_u64(Sign::Plus, 4_294_967_295)), 4_294_967_295);
    assert_eq!(to_u64(&BigInt::from_u64(Sign::Minus, 4_294_967_294)), 4_294_967_294);
}

#[test]
fn bits_counts_the_magnitude() {
    assert_eq!(BigInt::from_u64(Sign::Plus, 0).bits(), 0);
    assert_eq!(BigInt::from_u64(Sign::Plus, 1).bits(), 1);
    assert_eq!(BigInt::from_u64(Sign::Minus, 1).bits(), 1);
    assert_eq!(BigInt::from_u64(Sign::Plus, 255).bits(), 8);
    assert_eq!(BigInt::from_u64(Sign::Plus, 256).bits(), 9);
    assert_eq!(BigInt::from_u64(Sign::Plus, 0xffff_ffff).bits(), 32);
    assert_eq!(BigInt::from_u64(Sign::Minus, 0x1_0000_0000).bits(), 33);
    assert_eq!(BigInt::from_u64(Sign::Plus, u64::MAX).bits(), 64);
    assert_eq!(BigInt::new(Sign::Plus, vec![0, 0, 0, 4]).bits(), 99);
}

#[test]
fn magnitude_below_the_threshold() {
    assert_eq!(SMALL, u32::MAX);
    assert!(BigInt::from_u64(Sign::Plus, 0).magnitude_below(SMALL));
    assert!(BigInt::from_u64(Sign::Plus, 4_294_967_294).magnitude_below(SMALL));
    assert!(BigInt::from_u64(Sign::Minus, 4_294_967_294).magnitude_below(SMALL));
    assert!(!BigInt::from_u64(Sign::Plus, 4_294_967_295).magnitude_below(SMALL));
    assert!(!BigInt::from_u64(Sign::Minus, 4_294_967_295).magnitude_below(SMALL));
    assert!(!BigInt::from_u64(Sign::Minus, 4_294_967_296).magnitude_below(SMALL));
    assert!(!BigInt::from_u64(Sign::Plus, 0).magnitude_below(0));
    assert!(BigInt::from_u64(Sign::Plus, 9).magnitude_below(10));
    assert!(!BigInt::from_u64(Sign::Plus, 10).magnitude_below(10));
}

#[test]
fn equality_is_equality_of_values() {
    let a = BigInt::new(Sign::Minus, vec![1, 2, 3]);
    let b = BigInt::new(Sign::Minus, vec![1, 2, 3, 0]);
    assert_eq!(a, b);
    assert_ne!(a, BigInt::new(Sign::Plus, vec![1, 2, 3]));
    assert_ne!(a, BigInt::new(Sign::Minus, vec![1, 2]));
    assert_ne!(a, BigInt::new(Sign::Minus, vec![1, 2, 4]));
    assert_eq!(a.clone(), a);
    assert_eq!(a.clone().to_u32_digits(), (Sign::Minus, vec![1, 2, 3]));
}

#[test]
fn sign_times_sign() {
    assert_eq!(Sign::Plus.times(Sign::Plus), Sign::Plus);
    assert_eq!(Sign::Plus.times(Sign::Minus), Sign::Minus);
    assert_eq!(Sign::Minus.times(Sign::Plus), Sign::Minus);
    assert_eq!(Sign::Minus.times(Sign::Minus), Sign::Plus);
    assert_eq!(Sign::NoSign.times(Sign::Minus), Sign::NoSign);
    assert_eq!(Sign::Plus.times(Sign::NoSign), Sign::NoSign);
    assert_eq!(Sign::NoSign.times(Sign::NoSign), Sign::NoSign);
}

#[test]
fn bits_agree_with_num_bigint() {
    let samples: [Vec<u32>; 6] = [
        vec![],
        vec![1],
        vec![0x8000_0000],
        vec![0xffff_ffff, 0x7fff_ffff],
        vec![0, 0, 1],
        vec![7, 0, 0, 0, 0x0001_0000],
    ];
    for digits in samples {
        let outside = num_bigint::BigInt::new(num_bigint::Sign::Minus, digits.clone());
        let value = BigInt::new(Sign::Minus, digits);
        assert_eq!(value.bits(), u128::from(outside.bits()));
    }
}

#[test]
fn digits_round_trip_through_num_bigint() {
    let outside = num_bigint::BigInt::from(-112_500_000_000i64);
    let (sign, digits) = outside.to_u32_digits();
    assert_eq!(sign, num_bigint::Sign::Minus);
    let value = BigInt::new(Sign::Minus, digits);
    assert_eq!(value, BigInt::from_u64(Sign::Minus, 112_500_000_000));
    assert_eq!(value.to_u32_digits().1, outside.to_u32_digits().1);
}
