use rotchess_core::floating_drift::{floating_drift_adjust, round_if_close_to_integer, EPSILON, UNIT};

#[test]
fn values_close_to_integers() {
    let result = floating_drift_adjust(vec![1_000_001, 2_999_999, 3_000_000]);
    assert_eq!(result, vec![1_000_000, 3_000_000, 3_000_000]);
}

#[test]
fn values_not_close_to_integers() {
    let result = floating_drift_adjust(vec![1_500_000, 2_700_000, 3_200_000]);
    assert_eq!(result, vec![1_500_000, 2_700_000, 3_200_000]);
}

#[test]
fn mixed_close_and_not_close() {
    let result = floating_drift_adjust(vec![1_000_001, 2_500_000, 3_999_999]);
    assert_eq!(result, vec![1_000_000, 2_500_000, 4_000_000]);
}

#[test]
fn mixed_integer_and_float_types() {
    let result = floating_drift_adjust(vec![1 * UNIT, 2_000_001, 3_999_999]);
    assert_eq!(result, vec![1_000_000, 2_000_000, 4_000_000]);
}

#[test]
fn single_value_close_to_integer() {
    let result = floating_drift_adjust(vec![4_000_001]);
    assert_eq!(result, vec![4_000_000]);
}

#[test]
fn single_value_not_close_to_integer() {
    let result = floating_drift_adjust(vec![4_500_000]);
    assert_eq!(result, vec![4_500_000]);
}

#[test]
fn many_values_all_close() {
    let result = floating_drift_adjust(vec![1_000_000, 2_000_001, 3_999_999, 4_000_000, 5_000_001]);
    assert_eq!(result, vec![1_000_000, 2_000_000, 4_000_000, 4_000_000, 5_000_000]);
}

#[test]
fn many_values_mixed() {
    let result = floating_drift_adjust(vec![1_000_001, 2_500_000, 3_000_000, 4_700_000, 5_999_999]);
    assert_eq!(result, vec![1_000_000, 2_500_000, 3_000_000, 4_700_000, 6_000_000]);
}

#[test]
fn negative_values() {
    let result = floating_drift_adjust(vec![-1_000_001, -2_999_999]);
    assert_eq!(result, vec![-1_000_000, -3_000_000]);
}

#[test]
fn zero_values() {
    let result = floating_drift_adjust(vec![1, -1]);
    assert_eq!(result, vec![0, 0]);
}

#[test]
fn mixed_negative_and_positive() {
    let result = floating_drift_adjust(vec![-1_000_001, 2_500_000, 3_999_999]);
    assert_eq!(result, vec![-1_000_000, 2_500_000, 4_000_000]);
}

#[test]
fn tolerance_is_strict() {
    assert_eq!(round_if_close_to_integer(UNIT + EPSILON - 1), UNIT);
    assert_eq!(round_if_close_to_integer(UNIT + EPSILON), UNIT + EPSILON);
    assert_eq!(round_if_close_to_integer(UNIT - EPSILON + 1), UNIT);
    assert_eq!(round_if_close_to_integer(UNIT - EPSILON), UNIT - EPSILON);
    assert_eq!(round_if_close_to_integer(-UNIT - EPSILON + 1), -UNIT);
    assert_eq!(round_if_close_to_integer(-UNIT - EPSILON), -UNIT - EPSILON);
}

#[test]
fn adjusting_twice_changes_nothing_more() {
    for v in [-2_000_050i64, -99, 0, 57, 999_950, 1_234_567, 7_999_901] {
        let once = round_if_close_to_integer(v);
        assert_eq!(round_if_close_to_integer(once), once);
        assert!((once - v).abs() < EPSILON);
    }
}

#[test]
fn empty_input_gives_empty_output() {
    assert_eq!(floating_drift_adjust(vec![]), Vec::<i64>::new());
}
