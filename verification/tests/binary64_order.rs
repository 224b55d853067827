use expsum_wallpaper::binary64::{
    is_nan, maximum, minimum, rank, NEGATIVE_INFINITY, POSITIVE_INFINITY, SIGN_BIT,
};

fn specimens() -> Vec<f64> {
    vec![
        f64::NEG_INFINITY,
        f64::MIN,
        -1.0e300,
        -2.5,
        -1.0,
        -f64::MIN_POSITIVE,
        -5e-324,
        -0.0,
        0.0,
        5e-324,
        f64::MIN_POSITIVE,
        0.1,
        1.0,
        1.0000000000000002,
        2.5,
        1.0e300,
        f64::MAX,
        f64::INFINITY,
    ]
}

#[test]
fn constants_are_the_patterns_of_the_standard() {
    assert_eq!(POSITIVE_INFINITY, f64::INFINITY.to_bits());
    assert_eq!(NEGATIVE_INFINITY, f64::NEG_INFINITY.to_bits());
    assert_eq!(SIGN_BIT, (-0.0f64).to_bits());
}

#[test]
fn nan_is_recognised_whatever_its_sign_or_payload() {
    assert!(is_nan(f64::NAN.to_bits()));
    assert!(is_nan((-f64::NAN).to_bits()));
    assert!(is_nan(0x7FF0_0000_0000_0001));
    assert!(is_nan(0xFFFF_FFFF_FFFF_FFFF));
    assert!(is_nan(0x7FF8_0000_0000_0000));
    for x in specimens() {
        assert!(!is_nan(x.to_bits()), "{} is a number", x);
    }
}

#[test]
fn rank_counts_up_from_zero_and_down_from_minus_one() {
    assert_eq!(rank(0), 0);
    assert_eq!(rank(1), 1);
    assert_eq!(rank(POSITIVE_INFINITY), 0x7FF0_0000_0000_0000);
    assert_eq!(rank(SIGN_BIT), -1);
    assert_eq!(rank(SIGN_BIT + 1), -2);
    assert_eq!(rank(NEGATIVE_INFINITY), -0x7FF0_0000_0000_0001);
    assert_eq!(rank(u64::MAX), i64::MIN);
    assert_eq!(rank(SIGN_BIT - 1), i64::MAX);
}

#[test]
fn rank_orders_numbers_as_less_than_does() {
    let xs = specimens();
    for a in &xs {
        for b in &xs {
            let by_rank = rank(a.to_bits()) < rank(b.to_bits());
            if a < b {
                assert!(by_rank, "{} < {}", a, b);
            }
            if by_rank {
                assert!(a <= b, "{} <= {}", a, b);
            }
        }
    }
}

#[test]
fn negative_zero_ranks_directly_below_positive_zero() {
    assert_eq!(rank((-0.0f64).to_bits()) + 1, rank(0.0f64.to_bits()));
}

#[test]
fn minimum_and_maximum_agree_with_the_standard_library() {
    let xs = specimens();
    for a in &xs {
        for b in &xs {
            let lo = f64::from_bits(minimum(a.to_bits(), b.to_bits()));
            let hi = f64::from_bits(maximum(a.to_bits(), b.to_bits()));
            assert_eq!(lo, a.min(*b));
            assert_eq!(hi, a.max(*b));
        }
    }
}

#[test]
fn minimum_and_maximum_pass_over_a_nan() {
    let nan = f64::NAN.to_bits();
    let one = 1.0f64.to_bits();
    assert_eq!(minimum(nan, one), one);
    assert_eq!(minimum(one, nan), one);
    assert_eq!(maximum(nan, one), one);
    assert_eq!(maximum(one, nan), one);
    assert_eq!(minimum(nan, 0x7FF0_0000_0000_0001), nan);
    assert_eq!(maximum(nan, 0x7FF0_0000_0000_0001), nan);
}

#[test]
fn of_the_two_zeros_the_negative_is_the_smaller() {
    let minus = (-0.0f64).to_bits();
    let plus = 0.0f64.to_bits();
    assert_eq!(minimum(minus, plus), minus);
    assert_eq!(minimum(plus, minus), minus);
    assert_eq!(maximum(minus, plus), plus);
    assert_eq!(maximum(plus, minus), plus);
}

#[test]
fn minimum_of_equal_patterns_is_that_pattern() {
    for x in specimens() {
        assert_eq!(minimum(x.to_bits(), x.to_bits()), x.to_bits());
        assert_eq!(maximum(x.to_bits(), x.to_bits()), x.to_bits());
    }
}
