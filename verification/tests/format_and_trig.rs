use docstamp::textfmt::{u64_to_dec_string, two_digit_string, time_string, year_suffix};
use docstamp::trig::{cos_fp, sin_fp, round_fp, milli_to_px, isqrt};

#[test]
fn decimal_strings_are_exact() {
    assert_eq!(u64_to_dec_string(0), "0");
    assert_eq!(u64_to_dec_string(7), "7");
    assert_eq!(u64_to_dec_string(10), "10");
    assert_eq!(u64_to_dec_string(4096), "4096");
    assert_eq!(u64_to_dec_string(262143), "262143");
}

#[test]
fn two_digit_strings_are_zero_padded() {
    assert_eq!(two_digit_string(0), "00");
    assert_eq!(two_digit_string(5), "05");
    assert_eq!(two_digit_string(55), "55");
}

#[test]
fn time_strings_are_zero_padded_hh_mm() {
    assert_eq!(time_string(8, 5), "08:05");
    assert_eq!(time_string(18, 55), "18:55");
}

#[test]
fn year_suffix_takes_last_two_digits() {
    assert_eq!(year_suffix(2026), "26");
    assert_eq!(year_suffix(2000), "00");
    assert_eq!(year_suffix(1999), "99");
}

#[test]
fn trig_is_exact_at_zero() {
    assert_eq!(cos_fp(0), 65536);
    assert_eq!(sin_fp(0), 0);
}

#[test]
fn trig_approximates_known_angles() {
    // cos 60 deg = 0.5: 32768 in fixed point.
    let c60 = cos_fp(60000);
    assert!((c60 - 32768).abs() < 200, "cos 60 = {}", c60);
    // sin 30 deg = 0.5.
    let s30 = sin_fp(30000);
    assert!((s30 - 32768).abs() < 200, "sin 30 = {}", s30);
    // sin is odd, cos is even.
    assert_eq!(sin_fp(-30000), -s30);
    assert_eq!(cos_fp(-60000), c60);
    // cos 45 = sin 45 = 0.7071: 46341.
    let c45 = cos_fp(45000);
    let s45 = sin_fp(45000);
    assert!((c45 - 46341).abs() < 200, "cos 45 = {}", c45);
    assert!((s45 - 46341).abs() < 200, "sin 45 = {}", s45);
}

#[test]
fn rounding_is_half_away_from_zero() {
    assert_eq!(round_fp(0), 0);
    assert_eq!(round_fp(32768), 1); // exactly 0.5 rounds up
    assert_eq!(round_fp(32767), 0);
    assert_eq!(round_fp(-32768), -1); // -0.5 rounds away from zero
    assert_eq!(round_fp(-32767), 0);
    assert_eq!(round_fp(3 * 65536 + 100), 3);
}

#[test]
fn milli_to_px_truncates_toward_zero() {
    assert_eq!(milli_to_px(2999), 2);
    assert_eq!(milli_to_px(-2999), -2);
    assert_eq!(milli_to_px(0), 0);
    assert_eq!(milli_to_px(1000), 1);
}

#[test]
fn integer_sqrt_is_exact_floor() {
    assert_eq!(isqrt(0), 0);
    assert_eq!(isqrt(1), 1);
    assert_eq!(isqrt(3), 1);
    assert_eq!(isqrt(4), 2);
    assert_eq!(isqrt(999999), 999);
    assert_eq!(isqrt(1000000), 1000);
    assert_eq!(isqrt(u64::MAX), 4294967295);
}
