use break_eternity::constants::{
    commas_are_decimal_points, ignore_commas, COMPARE_EPSILON_RECIPROCAL, MAX_ES_IN_A_ROW,
    MAX_POWERS_OF_TEN, NUMBER_EXP_MAX, NUMBER_EXP_MIN,
};

#[test]
fn compare_epsilon_value() {
    assert_eq!(1.0 / COMPARE_EPSILON_RECIPROCAL as f64, 1e-10);
}

#[test]
fn power_table_size_matches_exponent_range() {
    assert_eq!(MAX_POWERS_OF_TEN as i32, NUMBER_EXP_MAX - NUMBER_EXP_MIN + 1);
    assert_eq!(MAX_ES_IN_A_ROW, 5);
}

#[test]
fn comma_settings() {
    assert!(ignore_commas());
    assert!(!commas_are_decimal_points());
}
