//! Tests for the canonical rational arithmetic.

use matter_sandbox::rat::Rat;

#[test]
fn new_reduces_to_canonical_form() {
    let r = Rat::new(512, 1080);
    assert_eq!(r, Rat { num: 64, den: 135 });
    let r = Rat::new(4, 2);
    assert_eq!(r, Rat { num: 2, den: 1 });
    let r = Rat::new(0, 7);
    assert_eq!(r, Rat { num: 0, den: 1 });
}

#[test]
fn new_normalizes_signs() {
    assert_eq!(Rat::new(-6, 4), Rat { num: -3, den: 2 });
    assert_eq!(Rat::new(6, -4), Rat { num: -3, den: 2 });
    assert_eq!(Rat::new(-6, -4), Rat { num: 3, den: 2 });
}

#[test]
fn add_is_exact() {
    let a = Rat::new(1, 3);
    let b = Rat::new(1, 6);
    assert_eq!(a.checked_add(b), Some(Rat { num: 1, den: 2 }));
}

#[test]
fn sub_is_exact() {
    let a = Rat::new(3, 4);
    let b = Rat::new(1, 4);
    assert_eq!(a.checked_sub(b), Some(Rat { num: 1, den: 2 }));
}

#[test]
fn mul_is_exact() {
    let a = Rat::new(21, 20);
    let b = Rat::new(20, 21);
    assert_eq!(a.checked_mul(b), Some(Rat { num: 1, den: 1 }));
}

#[test]
fn div_is_exact() {
    let a = Rat::new(1, 2);
    let b = Rat::new(-3, 4);
    assert_eq!(a.checked_div(b), Some(Rat { num: -2, den: 3 }));
}

#[test]
fn add_overflow_reports_none() {
    let a = Rat::new(i64::MAX, 1);
    assert_eq!(a.checked_add(a), None);
}

#[test]
fn mul_overflow_reports_none() {
    let a = Rat::new(i64::MAX, 1);
    assert_eq!(a.checked_mul(a), None);
}

#[test]
fn neg_flips_the_numerator() {
    let a = Rat::new(5, 8);
    let n = a.neg();
    assert_eq!(n, Rat { num: -5, den: 8 });
}

#[test]
fn recip_swaps_the_parts() {
    let a = Rat::new(64, 135);
    assert_eq!(a.recip(), Rat { num: 135, den: 64 });
}

#[test]
fn round_goes_to_nearest_with_ties_away_from_zero() {
    assert_eq!(Rat::new(7, 2).round(), 4);
    assert_eq!(Rat::new(-7, 2).round(), -4);
    assert_eq!(Rat::new(1, 3).round(), 0);
    assert_eq!(Rat::new(2, 3).round(), 1);
    assert_eq!(Rat::new(-1, 3).round(), 0);
    assert_eq!(Rat::new(-2, 3).round(), -1);
    assert_eq!(Rat::new(5, 1).round(), 5);
}

#[test]
fn zero_and_from_int() {
    assert_eq!(Rat::zero(), Rat { num: 0, den: 1 });
    assert_eq!(Rat::from_int(-9), Rat { num: -9, den: 1 });
}
