use butler::util::math::{gcd, limit_ratio, RatioError};

#[test]
fn test_limit_ratio() {
    let x = 3141592653u32;
    let y = 1000000000u32;
    assert_eq!(limit_ratio(x, y, 10000), Ok((355, 113)));
    assert_eq!(limit_ratio(y, x, 10000), Ok((113, 355)));
    assert_eq!(limit_ratio(x, y, 355), Ok((355, 113)));
    assert_eq!(limit_ratio(x, y, 354), Ok((333, 106)));
    assert_eq!(limit_ratio(3840, 5120, 255), Ok((3, 4)));
}

#[test]
fn limit_ratio_refuses_a_unit_term() {
    assert_eq!(limit_ratio(100, 200, 255), Err(RatioError::UnitTerm));
    assert_eq!(limit_ratio(7, 7, 255), Err(RatioError::UnitTerm));
    assert_eq!(limit_ratio(1, 3, 1), Err(RatioError::UnitTerm));
}

#[test]
fn limit_ratio_keeps_a_zero_term() {
    assert_eq!(limit_ratio(0, 5, 255), Ok((0, 1)));
    assert_eq!(limit_ratio(5, 0, 255), Ok((1, 0)));
}

#[test]
fn limit_ratio_stays_within_the_bound() {
    let (p, q) = limit_ratio(4000, 6001, 255).unwrap();
    assert!(p <= 255 && q <= 255);
    assert_eq!((p, q), (2, 3));
    assert_eq!(limit_ratio(3, 1000, 10), Ok((0, 1)));
    assert_eq!(limit_ratio(2, 1000, 10), Err(RatioError::UnitTerm));
}

#[test]
fn gcd_of_known_pairs() {
    assert_eq!(gcd(3840, 5120), 1280);
    assert_eq!(gcd(0, 9), 9);
    assert_eq!(gcd(9, 0), 9);
    assert_eq!(gcd(17, 5), 1);
    assert_eq!(gcd(0, 0), 0);
}
