use car_rental::distribution::{Distribution, MassError};
use car_rental::fixed::{abs_diff, floor_units, round, scale, ONE};
use car_rental::graph::Graph;
use car_rental::label::{digit_str, push_decimal, push_plain, push_signed};

#[test]
fn scaling_rounds_to_the_nearest_unit() {
    assert_eq!(scale(ONE, 7), 7);
    assert_eq!(scale(900_000_000, 10 * ONE as i128), 9 * ONE as i128);
    assert_eq!(scale(500_000_000, 3), 2);
    assert_eq!(scale(500_000_000, -3), -1);
    assert_eq!(scale(-500_000_000, 3), -1);
    assert_eq!(scale(-500_000_000, -3), 2);
    assert_eq!(scale(400_000_000, 3), 1);
    assert_eq!(scale(400_000_000, -3), -1);
    assert_eq!(scale(1, 1), 0);
    assert_eq!(scale(-1, 1), 0);
    assert_eq!(scale(499_999_999, 1), 0);
    assert_eq!(scale(500_000_000, 1), 1);
    assert_eq!(scale(-500_000_000, 1), 0);
    assert_eq!(scale(-500_000_001, 1), -1);
    assert_eq!(scale(0, i64::MAX as i128), 0);
    assert_eq!(scale(i64::MAX, ONE as i128), i64::MAX as i128);
    assert_eq!(scale(i64::MIN, ONE as i128), i64::MIN as i128);
    assert_eq!(scale(900_000_000, -16_215_510_691), -14_593_959_622);
}

#[test]
fn scaling_is_off_by_at_most_half_a_unit() {
    for a in [1i64, 3, 900_000_000, 999_999_999, 123_456_789, -7, -900_000_000] {
        for b in [0i128, 1, -1, 5, -5, 1_000_000_007, -16_293_959_622, 2_004_000_000_000_000_000_000_000] {
            let r = scale(a, b);
            let exact = a as i128 * b;
            assert!(2 * (r * ONE as i128 - exact).abs() <= ONE as i128);
        }
    }
}

#[test]
fn floor_of_wide_numbers() {
    assert_eq!(floor_units(0), 0);
    assert_eq!(floor_units(999_999_999), 0);
    assert_eq!(floor_units(1_000_000_000), 1);
    assert_eq!(floor_units(-1), -1);
    assert_eq!(floor_units(-1_000_000_000), -1);
    assert_eq!(floor_units(-1_000_000_001), -2);
}

#[test]
fn rounding_sends_halves_away_from_zero() {
    assert_eq!(round(0), 0);
    assert_eq!(round(499_999_999), 0);
    assert_eq!(round(500_000_000), 1);
    assert_eq!(round(1_500_000_000), 2);
    assert_eq!(round(2_499_999_999), 2);
    assert_eq!(round(-499_999_999), 0);
    assert_eq!(round(-500_000_000), -1);
    assert_eq!(round(-1_500_000_000), -2);
    assert_eq!(round(-1_499_999_999), -1);
    assert_eq!(round(i64::MAX as i128), 9_223_372_037);
    assert_eq!(round(i64::MIN as i128), -9_223_372_037);
}

#[test]
fn distances() {
    assert_eq!(abs_diff(3, 5), 2);
    assert_eq!(abs_diff(5, 3), 2);
    assert_eq!(abs_diff(-4, 4), 8);
    assert_eq!(abs_diff(7, 7), 0);
    assert_eq!(abs_diff(-2_004_000_000_000_000_000_000_000, 2_004_000_000_000_000_000_000_000), 4_008_000_000_000_000_000_000_000);
}

#[test]
fn masses_are_checked() {
    assert!(Distribution::new(vec![]).is_ok());
    assert!(Distribution::new(vec![ONE]).is_ok());
    assert!(Distribution::new(vec![0, 0, ONE]).is_ok());
    assert!(Distribution::new(vec![300_000_000, 300_000_000, 300_000_000]).is_ok());
    assert_eq!(Distribution::new(vec![-1]).err(), Some(MassError::Negative(0)));
    assert_eq!(Distribution::new(vec![5, -1, 2 * ONE]).err(), Some(MassError::Negative(1)));
    assert_eq!(Distribution::new(vec![ONE + 1]).err(), Some(MassError::Excess(0)));
    assert_eq!(Distribution::new(vec![600_000_000, 300_000_000, 100_000_001]).err(), Some(MassError::Excess(2)));
    assert_eq!(Distribution::new(vec![ONE, 1, -1]).err(), Some(MassError::Excess(1)));
    assert_eq!(Distribution::new(vec![i64::MAX, i64::MAX]).err(), Some(MassError::Excess(0)));
}

#[test]
fn point_and_cumulative_mass() {
    let d = Distribution::new(vec![500_000_000, 300_000_000, 200_000_000]).unwrap();
    assert_eq!(d.pmf(0), 500_000_000);
    assert_eq!(d.pmf(2), 200_000_000);
    assert_eq!(d.pmf(3), 0);
    assert_eq!(d.cdf(0), 500_000_000);
    assert_eq!(d.cdf(1), 800_000_000);
    assert_eq!(d.cdf(2), ONE);
    assert_eq!(d.cdf(100), ONE);
    assert!(d.is_valid());
    let empty = Distribution::new(vec![]).unwrap();
    assert_eq!(empty.pmf(0), 0);
    assert_eq!(empty.cdf(5), 0);
    assert!(empty.is_valid());
}

#[test]
fn tables_built_by_hand_are_checked() {
    let good = Distribution { mass: vec![400_000_000, 600_000_000], total: vec![400_000_000, ONE] };
    assert!(good.is_valid());
    let short = Distribution { mass: vec![400_000_000, 600_000_000], total: vec![400_000_000] };
    assert!(!short.is_valid());
    let wrong = Distribution { mass: vec![400_000_000, 600_000_000], total: vec![400_000_000, 900_000_000] };
    assert!(!wrong.is_valid());
    let negative = Distribution { mass: vec![-1], total: vec![-1] };
    assert!(!negative.is_valid());
    let heavy = Distribution { mass: vec![ONE, 1], total: vec![ONE, ONE + 1] };
    assert!(!heavy.is_valid());
}

#[test]
fn expectation_of_a_capped_variable() {
    let d = Distribution::new(vec![500_000_000, 300_000_000, 200_000_000]).unwrap();
    assert_eq!(d.expected_count(0), 0);
    assert_eq!(d.expected_count(1), 500_000_000);
    assert_eq!(d.expected_count(2), 700_000_000);
    assert_eq!(d.expected_count(3), 700_000_000);
    assert_eq!(d.expected_count(50), 700_000_000);
    assert_eq!(Graph::expected_count(2, &d), 700_000_000);
}

#[test]
fn expectation_counts_missing_mass_as_the_cap() {
    let d = Distribution::new(vec![250_000_000, 250_000_000]).unwrap();
    assert_eq!(d.expected_count(0), 0);
    assert_eq!(d.expected_count(1), 250_000_000 + 500_000_000);
    assert_eq!(d.expected_count(2), 250_000_000 + 2 * 500_000_000);
    assert_eq!(d.expected_count(10), 250_000_000 + 10 * 500_000_000);
    let nothing = Distribution::new(vec![]).unwrap();
    assert_eq!(nothing.expected_count(7), 7 * ONE);
}

#[test]
fn expectation_grows_with_the_cap_and_stays_below_it() {
    let mut masses: Vec<i64> = Vec::new();
    let mut p = (-3.0f64).exp();
    for k in 0..=20 {
        masses.push((p * ONE as f64).floor() as i64);
        p = p * 3.0 / (k as f64 + 1.0);
    }
    let d = Distribution::new(masses).unwrap();
    let mut last = 0;
    for v in 0..=40 {
        let e = d.expected_count(v);
        assert!(e >= last);
        assert!(e <= v as i64 * ONE);
        last = e;
    }
    assert!((d.expected_count(20) - 3 * ONE).abs() < 1000);
    assert_eq!(d.expected_count(1), ONE - d.pmf(0));
}

#[test]
fn digits() {
    let expected = ["0", "1", "2", "3", "4", "5", "6", "7", "8", "9"];
    for d in 0..10u32 {
        assert_eq!(digit_str(d), expected[d as usize]);
    }
}

#[test]
fn decimal_numbers() {
    for n in [0u32, 7, 10, 99, 100, 12345, u32::MAX] {
        let mut s = String::from("x");
        push_decimal(&mut s, n);
        assert_eq!(s, format!("x{}", n));
    }
}

#[test]
fn plain_and_signed_numbers() {
    for v in [0i32, 1, -1, 20, -20, 305, i32::MAX, i32::MIN] {
        let mut s = String::new();
        push_plain(&mut s, v);
        assert_eq!(s, format!("{}", v));
        let mut s = String::from("a");
        push_signed(&mut s, v);
        assert_eq!(s, format!("a{:+}", v));
    }
}

#[test]
fn names_of_states_and_actions() {
    assert_eq!(Graph::state_name(0, 0), "0_0");
    assert_eq!(Graph::state_name(3, 12), "3_12");
    assert_eq!(Graph::state_name(20, 7), "20_7");
    assert_eq!(Graph::state_name(-1, 5), "-1_5");
    assert_eq!(Graph::action_name(0), "+0");
    assert_eq!(Graph::action_name(5), "+5");
    assert_eq!(Graph::action_name(-2), "-2");
    assert_eq!(Graph::action_name(-15), "-15");
}
