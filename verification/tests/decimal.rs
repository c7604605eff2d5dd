use orderbook_aggregator::decimal::Decimal;
use orderbook_aggregator::decimal::SignedDecimal;

#[test]
fn equal_values_compare_equal_across_scales() {
    // 10.0 written with one fractional digit equals 10 written with none.
    assert_eq!(Decimal::new(100, 1), Decimal::new(10, 0));
    assert_eq!(Decimal::new(830, 3), Decimal::new(83, 2));
    assert_ne!(Decimal::new(83, 2), Decimal::new(83, 3));
}

#[test]
fn comparisons_are_exact() {
    let low = Decimal::new(82, 2);
    let high = Decimal::new(83, 2);
    assert!(low.lt(&high));
    assert!(low.le(&high));
    assert!(!high.lt(&low));
    assert!(high.le(&high));
}

#[test]
fn signed_diff_is_exact_subtraction() {
    let ask = Decimal::new(85, 2);
    let bid = Decimal::new(83, 2);
    assert_eq!(ask.signed_diff(&bid), SignedDecimal::new(false, 2, 2));
    assert_eq!(bid.signed_diff(&ask), SignedDecimal::new(true, 2, 2));
}

#[test]
fn zero_has_one_representation() {
    let d = Decimal::new(5, 1);
    assert_eq!(d.signed_diff(&d), SignedDecimal::new(false, 0, 0));
    // A negated zero normalises to plain zero.
    assert_eq!(SignedDecimal::new(true, 0, 7), SignedDecimal::new(false, 0, 0));
}

#[test]
fn zero_constructor_is_zero() {
    assert_eq!(Decimal::zero(), Decimal::new(0, 19));
    assert!(Decimal::zero().le(&Decimal::new(1, 19)));
}
