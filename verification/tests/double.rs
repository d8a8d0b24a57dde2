//! Tests of the 64-bit statistics, driven through the raw bit patterns
//! the library works on.

use numeric_statistics::double::{
    average, is_nan, max, min, standard_deviation, standard_deviation_with_variance, variance,
    variance_with_average, All,
};

fn bits(xs: &[f64]) -> Vec<u64> {
    xs.iter().map(|x| x.to_bits()).collect()
}

fn assert_eq_f64(a: f64, b: f64) {
    if a == b {
        return;
    }
    let epsilon = f64::EPSILON * 2.0;
    let abs_diff = if a >= b { a - b } else { b - a };
    assert!(
        abs_diff <= epsilon,
        "left: {}, right: {}, abs_diff: {}, epsilon: {}",
        a,
        b,
        abs_diff,
        epsilon
    );
}

#[test]
fn min_test_empty() {
    let x: Vec<u64> = bits(&[]);
    assert!(f64::from_bits(min(&x)).is_nan());
}

#[test]
fn min_test_nan() {
    let x = bits(&[f64::NAN]);
    assert!(f64::from_bits(min(&x)).is_nan());
}

#[test]
fn min_test_value() {
    let x = bits(&[1.0]);
    assert_eq!(min(&x), 1.0f64.to_bits());
}

#[test]
fn min_test_values_ascending() {
    let x = bits(&[1.0, 2.0, 3.0]);
    assert_eq!(min(&x), 1.0f64.to_bits());
}

#[test]
fn min_test_values_ascending_and_nans() {
    let x = bits(&[1.0, f64::NAN, 2.0, f64::NAN, 3.0]);
    assert_eq!(min(&x), 1.0f64.to_bits());
}

#[test]
fn min_test_values_descending() {
    let x = bits(&[3.0, 2.0, 1.0]);
    assert_eq!(min(&x), 1.0f64.to_bits());
}

#[test]
fn min_test_values_descending_and_nans() {
    let x = bits(&[3.0, f64::NAN, 2.0, f64::NAN, 1.0]);
    assert_eq!(min(&x), 1.0f64.to_bits());
}

#[test]
fn max_test_empty() {
    let x: Vec<u64> = bits(&[]);
    assert!(f64::from_bits(max(&x)).is_nan());
}

#[test]
fn max_test_nan() {
    let x = bits(&[f64::NAN]);
    assert!(f64::from_bits(max(&x)).is_nan());
}

#[test]
fn max_test_value() {
    let x = bits(&[1.0]);
    assert_eq!(max(&x), 1.0f64.to_bits());
}

#[test]
fn max_test_values_ascending() {
    let x = bits(&[1.0, 2.0, 3.0]);
    assert_eq!(max(&x), 3.0f64.to_bits());
}

#[test]
fn max_test_values_ascending_and_nans() {
    let x = bits(&[1.0, f64::NAN, 2.0, f64::NAN, 3.0]);
    assert_eq!(max(&x), 3.0f64.to_bits());
}

#[test]
fn max_test_values_descending() {
    let x = bits(&[3.0, 2.0, 1.0]);
    assert_eq!(max(&x), 3.0f64.to_bits());
}

#[test]
fn max_test_values_descending_and_nans() {
    let x = bits(&[3.0, f64::NAN, 2.0, f64::NAN, 1.0]);
    assert_eq!(max(&x), 3.0f64.to_bits());
}

#[test]
fn average_test_empty() {
    let x: Vec<u64> = bits(&[]);
    assert!(f64::from_bits(average(&x)).is_nan());
}

#[test]
fn average_test_nan() {
    let x = bits(&[f64::NAN]);
    assert!(f64::from_bits(average(&x)).is_nan());
}

#[test]
fn average_test_value() {
    let x = bits(&[1.0]);
    assert_eq!(average(&x), 1.0f64.to_bits());
}

#[test]
fn average_test_values_ascending() {
    let x = bits(&[1.0, 2.0, 4.0]);
    assert_eq!(average(&x), 2.3333333333333333f64.to_bits());
}

#[test]
fn average_test_values_ascending_and_nans() {
    let x = bits(&[1.0, f64::NAN, 2.0, f64::NAN, 4.0]);
    assert_eq!(average(&x), 2.3333333333333333f64.to_bits());
}

#[test]
fn average_test_values_descending() {
    let x = bits(&[4.0, 2.0, 1.0]);
    assert_eq!(average(&x), 2.3333333333333333f64.to_bits());
}

#[test]
fn average_test_values_descending_and_nans() {
    let x = bits(&[4.0, f64::NAN, 2.0, f64::NAN, 1.0]);
    assert_eq!(average(&x), 2.3333333333333333f64.to_bits());
}

#[test]
fn variance_test_empty() {
    let x: Vec<u64> = bits(&[]);
    assert!(f64::from_bits(variance(&x)).is_nan());
}

#[test]
fn variance_test_nan() {
    let x = bits(&[f64::NAN]);
    assert!(f64::from_bits(variance(&x)).is_nan());
}

#[test]
fn variance_test_value() {
    let x = bits(&[1.0]);
    assert_eq_f64(f64::from_bits(variance(&x)), 0.0);
}

#[test]
fn variance_test_values_ascending() {
    let x = bits(&[1.0, 2.0, 4.0]);
    assert_eq_f64(f64::from_bits(variance(&x)), 2.3333333333333333);
}

#[test]
fn variance_test_values_ascending_and_nans() {
    let x = bits(&[1.0, f64::NAN, 2.0, f64::NAN, 4.0]);
    assert_eq_f64(f64::from_bits(variance(&x)), 2.3333333333333333);
}

#[test]
fn standard_deviation_test_empty() {
    let x: Vec<u64> = bits(&[]);
    assert!(f64::from_bits(standard_deviation(&x)).is_nan());
}

#[test]
fn standard_deviation_test_nan() {
    let x = bits(&[f64::NAN]);
    assert!(f64::from_bits(standard_deviation(&x)).is_nan());
}

#[test]
fn standard_deviation_test_value() {
    let x = bits(&[1.0]);
    assert_eq_f64(f64::from_bits(standard_deviation(&x)), 0.0);
}

#[test]
fn standard_deviation_test_values_ascending() {
    let x = bits(&[1.0, 2.0, 4.0]);
    assert_eq_f64(f64::from_bits(standard_deviation(&x)), 1.5275252316519465);
}

#[test]
fn standard_deviation_test_values_ascending_and_nans() {
    let x = bits(&[1.0, f64::NAN, 2.0, f64::NAN, 4.0]);
    assert_eq_f64(f64::from_bits(standard_deviation(&x)), 1.5275252316519465);
}

#[test]
fn all_test_new() {
    let x = bits(&[1.0, 2.0, 4.0]);
    let all: All = All::new(&x);
    assert_eq!(all.min, 1.0f64.to_bits());
    assert_eq!(all.max, 4.0f64.to_bits());
    assert_eq_f64(f64::from_bits(all.average), 2.3333333333333335);
    assert_eq_f64(f64::from_bits(all.variance), 2.3333333333333335);
    assert_eq_f64(f64::from_bits(all.standard_deviation), 1.5275252316519465);
}

#[test]
fn is_nan_detects_the_undefined_sentinel() {
    assert!(is_nan(f64::NAN.to_bits()));
    assert!(is_nan(average(&bits(&[]))));
    assert!(!is_nan(1.0f64.to_bits()));
    assert!(!is_nan(f64::INFINITY.to_bits()));
    assert!(!is_nan(0.0f64.to_bits()));
}

#[test]
fn min_does_not_exceed_max() {
    let x = bits(&[3.5, -7.25, 11.0, f64::NAN, 0.5]);
    let lo = f64::from_bits(min(&x));
    let hi = f64::from_bits(max(&x));
    assert!(lo <= hi);
    assert_eq!(lo, -7.25);
    assert_eq!(hi, 11.0);
}

#[test]
fn permutation_leaves_statistics_unchanged() {
    let x = bits(&[1.0, 2.0, 4.0]);
    let y = bits(&[4.0, 2.0, 1.0]);
    assert_eq!(min(&x), min(&y));
    assert_eq!(max(&x), max(&y));
    assert_eq!(average(&x), average(&y));
    assert_eq!(variance(&x), variance(&y));
    assert_eq!(standard_deviation(&x), standard_deviation(&y));
}

#[test]
fn nan_entries_leave_statistics_unchanged() {
    let x = bits(&[1.0, f64::NAN, 2.0, f64::NAN, 4.0]);
    let y = bits(&[1.0, 2.0, 4.0]);
    assert_eq!(min(&x), min(&y));
    assert_eq!(max(&x), max(&y));
    assert_eq!(average(&x), average(&y));
    assert_eq!(variance(&x), variance(&y));
    assert_eq!(standard_deviation(&x), standard_deviation(&y));
}

#[test]
fn single_entry_has_zero_spread() {
    let x = bits(&[5.5]);
    assert_eq!(variance(&x), 0.0f64.to_bits());
    assert_eq!(standard_deviation(&x), 0.0f64.to_bits());
    assert_eq!(min(&x), 5.5f64.to_bits());
    assert_eq!(max(&x), 5.5f64.to_bits());
    assert_eq!(average(&x), 5.5f64.to_bits());
}

#[test]
fn standard_deviation_is_root_of_variance() {
    let x = bits(&[1.0, 2.0, 4.0, 8.5, -3.0]);
    assert_eq!(
        standard_deviation(&x),
        standard_deviation_with_variance(variance(&x))
    );
}

#[test]
fn variance_accepts_precomputed_average() {
    let x = bits(&[1.0, 2.0, 4.0, 8.5, -3.0]);
    assert_eq!(variance_with_average(&x, average(&x)), variance(&x));
}

#[test]
fn aggregate_reuses_intermediate_results() {
    let x = bits(&[1.0, f64::NAN, 2.0, 4.0]);
    let all = All::new(&x);
    assert_eq!(all.min, min(&x));
    assert_eq!(all.max, max(&x));
    assert_eq!(all.average, average(&x));
    assert_eq!(all.variance, variance_with_average(&x, all.average));
    assert_eq!(
        all.standard_deviation,
        standard_deviation_with_variance(all.variance)
    );
}

#[test]
fn aggregate_of_empty_input_is_undefined() {
    let x: Vec<u64> = bits(&[]);
    let all = All::new(&x);
    assert!(f64::from_bits(all.min).is_nan());
    assert!(f64::from_bits(all.max).is_nan());
    assert!(f64::from_bits(all.average).is_nan());
    assert!(f64::from_bits(all.variance).is_nan());
    assert!(f64::from_bits(all.standard_deviation).is_nan());
}

#[test]
fn average_rounds_as_the_hardware_does() {
    let x = bits(&[0.1, 0.2]);
    assert_eq!(f64::from_bits(average(&x)), 0.15000000000000002);
}

#[test]
fn variance_matches_exact_expected_bits() {
    let x = bits(&[1.0, 2.0, 4.0]);
    assert_eq!(f64::from_bits(variance(&x)), 2.333333333333333);
    assert_eq!(
        f64::from_bits(standard_deviation(&x)),
        1.5275252316519465
    );
}

#[test]
fn signed_zeros_tie_deterministically() {
    let x = bits(&[0.0, -0.0]);
    assert_eq!(min(&x), (-0.0f64).to_bits());
    assert_eq!(max(&x), 0.0f64.to_bits());
    let y = bits(&[-0.0, 0.0]);
    assert_eq!(min(&y), (-0.0f64).to_bits());
    assert_eq!(max(&y), 0.0f64.to_bits());
}
