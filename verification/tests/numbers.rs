use namiashi_sim::decimal::{fixed, plain};
use namiashi_sim::fixed::{
    clamp, div_round, ease, mix, pile, ratio, root, saturate, scaled, sqrt, square_gap, times, ONE,
};

fn text(v: Vec<char>) -> String {
    v.into_iter().collect()
}

#[test]
fn rounds_half_away_from_zero() {
    assert_eq!(div_round(5, 2), 3);
    assert_eq!(div_round(-5, 2), -3);
    assert_eq!(div_round(4, 3), 1);
    assert_eq!(div_round(-4, 3), -1);
    assert_eq!(div_round(0, 7), 0);
}

#[test]
fn multiplies_and_saturates() {
    assert_eq!(times(1_500_000_000, 2_000_000_000), 3_000_000_000);
    assert_eq!(times(-500_000_000, 3), -2);
    assert_eq!(times(i64::MAX, i64::MAX), i64::MAX);
    assert_eq!(times(i64::MIN, i64::MAX), i64::MIN);
    assert_eq!(saturate(i64::MAX as i128 + 1), i64::MAX);
    assert_eq!(scaled(2_000_000_000, -3_000_000_000), -6_000_000_000);
    assert_eq!(ratio(1, 3), 333_333_333);
    assert_eq!(pile(u128::MAX, 1), u128::MAX);
    assert_eq!(clamp(5, 1, 3), 3);
}

#[test]
fn mixes_between_two_ends() {
    assert_eq!(mix(0, 10, 1, 4), 3);
    assert_eq!(mix(10, 0, 1, 4), 7);
    assert_eq!(mix(i64::MIN, i64::MAX, i64::MAX, i64::MAX as i128), i64::MAX);
    assert_eq!(ease(0, 100, 1, 10), 10);
    assert_eq!(ease(0, 100, 50, 10), 100);
    assert_eq!(ease(0, 100, -1, 10), 0);
    assert_eq!(ease(0, 100, 1, 0), 100);
    assert_eq!(ease(0, 100, 0, 0), 0);
    assert_eq!(ease(0, 100, -1, -10), 10);
}

#[test]
fn takes_integer_roots() {
    assert_eq!(sqrt(0), 0);
    assert_eq!(sqrt(15), 3);
    assert_eq!(sqrt(16), 4);
    assert_eq!(sqrt(u128::MAX), u64::MAX);
    assert_eq!(root(u128::MAX), i64::MAX);
    assert_eq!(square_gap(i64::MIN, i64::MAX), (u64::MAX as u128) * (u64::MAX as u128));
}

#[test]
fn writes_numbers_as_short_as_they_can_be() {
    assert_eq!(text(plain(0)), "0");
    assert_eq!(text(plain(9_500_000_000)), "0.95");
    assert_eq!(text(plain(-2_750_000_000)), "-0.275");
    assert_eq!(text(plain(50_000_000_000)), "5");
    assert_eq!(text(plain(1)), "0.0000000001");
    assert_eq!(text(plain(123_456_000_000_000)), "12345.6");
    for v in [0.95_f64, 0.028, 1.5, 2.45, 0.0125, 0.3] {
        assert_eq!(text(plain((v * 1e10).round() as i128)), format!("{v}"));
    }
}

#[test]
fn writes_numbers_with_decimal_places() {
    assert_eq!(text(fixed(1_234_567_890, 3, false)), "1.235");
    assert_eq!(text(fixed(-1_234_567_890, 3, true)), "-1.235");
    assert_eq!(text(fixed(40_000_000, 3, false)), "0.040");
    assert_eq!(text(fixed(0, 2, true)), "+0.00");
    assert_eq!(text(fixed(-1, 2, false)), "-0.00");
    assert_eq!(text(fixed(999_999_999, 2, false)), "1.00");
    assert_eq!(text(fixed(707_106_781, 9, false)), "0.707106781");
    assert_eq!(text(fixed(48_701_413, 0, true)), "+0");
    for v in [1_812_668_797_i64, -391_849_313, 60_123_400_000, 5] {
        let f = v as f64 / ONE as f64;
        assert_eq!(text(fixed(v, 4, true)), format!("{f:+.4}"));
        assert_eq!(text(fixed(v, 6, false)), format!("{f:.6}"));
    }
}

#[test]
fn halves_go_to_the_even_digit() {
    // Numbers that binary holds exactly, so that they are halves there too.
    for v in [125_000_000_i64, 375_000_000, 625_000_000, 875_000_000, -125_000_000, 2_125_000_000] {
        let f = v as f64 / ONE as f64;
        assert_eq!(text(fixed(v, 2, false)), format!("{f:.2}"));
    }
    for v in [500_000_000_i64, 1_500_000_000, 2_500_000_000, -500_000_000, -3_500_000_000] {
        let f = v as f64 / ONE as f64;
        assert_eq!(text(fixed(v, 0, true)), format!("{f:+.0}"));
    }
    assert_eq!(text(fixed(125_000_000, 2, false)), "0.12");
    assert_eq!(text(fixed(375_000_000, 2, false)), "0.38");
    assert_eq!(text(fixed(412_500_000, 3, false)), "0.412");
    assert_eq!(text(fixed(125_000_001, 2, false)), "0.13");
}
