use kalman1d::ratio::Ratio;

fn rat(n: i64, d: i64) -> Ratio {
    Ratio::from_parts(n, d).unwrap()
}

#[test]
fn from_parts_reduces() {
    let v = rat(454276, 100);
    assert_eq!(v.num(), 113569);
    assert_eq!(v.den(), 25);
}

#[test]
fn from_parts_rejects_nonpositive_denominator() {
    assert!(Ratio::from_parts(1, 0).is_none());
    assert!(Ratio::from_parts(1, -5).is_none());
}

#[test]
fn from_parts_keeps_sign_in_numerator() {
    let v = rat(-4, 6);
    assert_eq!(v.num(), -2);
    assert_eq!(v.den(), 3);
}

#[test]
fn from_int_is_whole() {
    let v = Ratio::from_int(-7);
    assert_eq!(v.num(), -7);
    assert_eq!(v.den(), 1);
}

#[test]
fn add_is_exact() {
    let v = rat(1, 2).add(rat(1, 3)).unwrap();
    assert_eq!((v.num(), v.den()), (5, 6));
}

#[test]
fn sub_is_exact() {
    let v = rat(1, 2).sub(rat(1, 3)).unwrap();
    assert_eq!((v.num(), v.den()), (1, 6));
}

#[test]
fn mul_is_exact() {
    let v = rat(2, 3).mul(rat(3, 4)).unwrap();
    assert_eq!((v.num(), v.den()), (1, 2));
}

#[test]
fn div_is_exact() {
    let v = rat(1, 2).div(rat(3, 4)).unwrap();
    assert_eq!((v.num(), v.den()), (2, 3));
}

#[test]
fn div_by_negative_keeps_denominator_positive() {
    let v = rat(1, 2).div(rat(-3, 4)).unwrap();
    assert_eq!((v.num(), v.den()), (-2, 3));
}

#[test]
fn div_by_zero_is_none() {
    assert!(rat(1, 2).div(rat(0, 1)).is_none());
}

#[test]
fn overflow_is_reported_not_rounded() {
    let big = rat(i64::MAX, 1);
    assert!(big.mul(big).is_none());
    assert!(big.add(rat(1, 1)).is_none());
}

#[test]
fn le_and_equals_follow_the_rational_order() {
    assert!(rat(1, 3).le(rat(1, 2)));
    assert!(!rat(1, 2).le(rat(1, 3)));
    assert!(rat(2, 4).equals(rat(1, 2)));
    assert!(!rat(2, 4).equals(rat(1, 3)));
    assert!(rat(-1, 2).le(rat(1, 2)));
}
