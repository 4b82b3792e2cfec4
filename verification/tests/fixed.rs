use gymnasium_rl::fixed::{fixed_add, fixed_mul, saturate_wide, ONE};

#[test]
fn one_is_a_billion() {
    assert_eq!(ONE, 1_000_000_000);
}

#[test]
fn sum_is_exact_inside_the_range() {
    assert_eq!(fixed_add(1_500_000_000, -250_000_000), 1_250_000_000);
    assert_eq!(fixed_add(0, -7), -7);
    assert_eq!(fixed_add(i64::MAX, i64::MIN), -1);
}

#[test]
fn sum_stays_at_the_ends_of_the_range() {
    assert_eq!(fixed_add(i64::MAX, 1), i64::MAX);
    assert_eq!(fixed_add(i64::MIN, -1), i64::MIN);
    assert_eq!(fixed_add(i64::MAX, i64::MAX), i64::MAX);
    assert_eq!(fixed_add(i64::MIN, i64::MIN), i64::MIN);
}

#[test]
fn product_is_in_billionths() {
    // 0.9 * -4.51 = -4.059
    assert_eq!(fixed_mul(900_000_000, -4_510_000_000), -4_059_000_000);
    assert_eq!(fixed_mul(ONE, 123_456_789), 123_456_789);
    assert_eq!(fixed_mul(2 * ONE, 3 * ONE), 6 * ONE);
    assert_eq!(fixed_mul(0, i64::MIN), 0);
}

#[test]
fn product_rounds_toward_zero() {
    // 0.000000001 * 0.5 = 0.0000000005
    assert_eq!(fixed_mul(1, 500_000_000), 0);
    assert_eq!(fixed_mul(-1, 500_000_000), 0);
    assert_eq!(fixed_mul(3, 500_000_000), 1);
    assert_eq!(fixed_mul(-3, 500_000_000), -1);
    assert_eq!(fixed_mul(3, -500_000_000), -1);
    assert_eq!(fixed_mul(-3, -500_000_000), 1);
}

#[test]
fn product_stays_at_the_ends_of_the_range() {
    assert_eq!(fixed_mul(i64::MAX, 2 * ONE), i64::MAX);
    assert_eq!(fixed_mul(i64::MAX, -2 * ONE), i64::MIN);
    assert_eq!(fixed_mul(i64::MIN, i64::MIN), i64::MAX);
    assert_eq!(fixed_mul(i64::MIN, i64::MAX), i64::MIN);
}

#[test]
fn wide_values_are_brought_into_the_range() {
    assert_eq!(saturate_wide(5), 5);
    assert_eq!(saturate_wide(i64::MAX as i128), i64::MAX);
    assert_eq!(saturate_wide(i64::MAX as i128 + 1), i64::MAX);
    assert_eq!(saturate_wide(i64::MIN as i128), i64::MIN);
    assert_eq!(saturate_wide(i64::MIN as i128 - 1), i64::MIN);
    assert_eq!(saturate_wide(i128::MAX), i64::MAX);
    assert_eq!(saturate_wide(i128::MIN), i64::MIN);
}
