use recount::calendar::Date;
use recount::dec::Dec;

#[test]
fn construction_normalizes() {
    // 1.50 and 1.5 are the same number, with one representation.
    assert_eq!(Dec::new(150, 2), Dec::new(15, 1));
    assert_eq!(Dec::new(100, 2), Dec::new(1, 0));
    assert_eq!(Dec::new(0, 7), Dec::new(0, 0));
    assert_eq!(Dec::new(-100, 1), Dec::new(-10, 0));
}

#[test]
fn construction_rejects_out_of_range() {
    // The mantissa bound is 2^96.
    assert!(Dec::new(79228162514264337593543950335, 0).is_some());
    assert!(Dec::new(79228162514264337593543950336, 0).is_none());
    assert!(Dec::new(-79228162514264337593543950335, 0).is_some());
    // The scale bound is 28, but trailing zeros strip away first.
    assert!(Dec::new(1, 28).is_some());
    assert!(Dec::new(1, 29).is_none());
    assert!(Dec::new(10, 29).is_some());
}

#[test]
fn addition_is_exact() {
    let a = Dec::new(1, 1).unwrap(); // 0.1
    let b = Dec::new(2, 1).unwrap(); // 0.2
    assert_eq!(a.checked_add(&b), Dec::new(3, 1)); // exactly 0.3
    let c = Dec::new(645, 2).unwrap(); // 6.45
    let d = Dec::new(-345, 2).unwrap(); // -3.45
    assert_eq!(c.checked_add(&d), Dec::new(3, 0));
    // Different scales align exactly.
    let e = Dec::new(1, 0).unwrap();
    let f = Dec::new(25, 4).unwrap(); // 0.0025
    assert_eq!(e.checked_add(&f), Dec::new(10025, 4));
    // An unrepresentable exact sum is refused, never rounded.
    let big = Dec::new(79228162514264337593543950335, 0).unwrap();
    let tiny = Dec::new(1, 28).unwrap();
    assert_eq!(big.checked_add(&tiny), None);
}

#[test]
fn multiplication_is_exact() {
    let a = Dec::new(-15, 1).unwrap(); // -1.5
    let b = Dec::new(2, 0).unwrap();
    assert_eq!(a.checked_mul(&b), Dec::new(-3, 0));
    let c = Dec::new(125, 2).unwrap(); // 1.25
    let d = Dec::new(8, 0).unwrap();
    assert_eq!(c.checked_mul(&d), Dec::new(10, 0));
    let e = Dec::new(11, 1).unwrap(); // 1.1
    assert_eq!(e.checked_mul(&e), Dec::new(121, 2)); // exactly 1.21
}

#[test]
fn negation_and_zero() {
    let a = Dec::new(42, 1).unwrap();
    assert_eq!(a.neg(), Dec::new(-42, 1).unwrap());
    assert_eq!(a.neg().neg(), a);
    assert_eq!(Dec::zero().neg(), Dec::zero());
    assert_eq!(a.checked_add(&a.neg()), Some(Dec::zero()));
}

#[test]
fn magnitude_comparison() {
    let tolerance = Dec::new(5, 3).unwrap(); // 0.005
    assert!(!Dec::new(5, 3).unwrap().abs_gt(&tolerance));
    assert!(Dec::new(6, 3).unwrap().abs_gt(&tolerance));
    assert!(Dec::new(-6, 3).unwrap().abs_gt(&tolerance));
    assert!(!Dec::new(49, 4).unwrap().abs_gt(&tolerance)); // 0.0049
    assert!(Dec::new(1, 0).unwrap().abs_gt(&tolerance));
    assert!(!Dec::zero().abs_gt(&tolerance));
}

#[test]
fn calendar_dates_validate() {
    assert!(Date::new(2023, 2, 28).is_some());
    assert!(Date::new(2023, 2, 29).is_none());
    assert!(Date::new(2024, 2, 29).is_some()); // leap year
    assert!(Date::new(1900, 2, 29).is_none()); // century, not leap
    assert!(Date::new(2000, 2, 29).is_some()); // four-century, leap
    assert!(Date::new(2023, 13, 1).is_none());
    assert!(Date::new(2023, 0, 1).is_none());
    assert!(Date::new(2023, 4, 31).is_none());
    assert!(Date::new(2023, 4, 30).is_some());

    let a = Date::new(2023, 5, 1).unwrap();
    let b = Date::new(2023, 4, 30).unwrap();
    assert!(b.lt(&a));
    assert!(!a.lt(&b));
    assert!(!a.lt(&a));
}
