use pi_fan::control::{duty_level, get_speed, target_duty, FAIL_TEMP};
use pi_fan::curve::{Curve, Speed};
use pi_fan::sensor::{get_temp, temp_from_trimmed};

#[test]
fn failed_read_gives_fallback_speed() {
    let curve = Curve::from(vec![(0, 0), (50, 500)]);
    assert_eq!(get_speed(FAIL_TEMP, &curve), Speed { numer: 50, denom: 1 });
    let other = Curve::from(vec![(-200, 5), (0, 7)]);
    assert_eq!(get_speed(FAIL_TEMP, &other), Speed { numer: 50, denom: 1 });
}

#[test]
fn reading_uses_curve() {
    let curve = Curve::from(vec![(0, 0), (50, 500)]);
    assert_eq!(get_speed(25, &curve), Speed { numer: 12500, denom: 50 });
}

#[test]
fn tick_end_to_end() {
    let curve = Curve::from(vec![(0, 0), (50, 500)]);
    assert_eq!(target_duty(25, &curve), 640);
}

#[test]
fn tick_with_failed_read() {
    let curve = Curve::from(vec![(0, 0), (50, 500)]);
    assert_eq!(target_duty(FAIL_TEMP, &curve), 128);
}

#[test]
fn duty_level_rounds_to_nearest() {
    assert_eq!(duty_level(Speed { numer: 100, denom: 1 }), 256);
    assert_eq!(duty_level(Speed { numer: 1, denom: 1 }), 3);
    assert_eq!(duty_level(Speed { numer: -1, denom: 1 }), -3);
    assert_eq!(duty_level(Speed { numer: 0, denom: 7 }), 0);
    assert_eq!(duty_level(Speed { numer: 25, denom: 128 }), 1);
    assert_eq!(duty_level(Speed { numer: -25, denom: 128 }), -1);
    assert_eq!(duty_level(Speed { numer: 1, denom: 3 }), 1);
}

#[test]
fn sensor_text_in_millidegrees() {
    assert_eq!(get_temp("45123\n"), 45);
    assert_eq!(get_temp("  +7000 "), 7);
    assert_eq!(get_temp("-1500"), -1);
    assert_eq!(get_temp("999"), 0);
}

#[test]
fn sensor_text_that_is_no_number() {
    assert_eq!(get_temp(""), FAIL_TEMP);
    assert_eq!(get_temp("abc"), FAIL_TEMP);
    assert_eq!(get_temp("12.5"), FAIL_TEMP);
    assert_eq!(get_temp("-"), FAIL_TEMP);
    assert_eq!(get_temp("99999999999"), FAIL_TEMP);
}

#[test]
fn unicode_white_space_is_trimmed() {
    assert_eq!(get_temp("\u{a0}45000\u{3000}"), 45);
    assert_eq!(get_temp("\t-2000\r\n"), -2);
}

#[test]
fn untrimmed_text_is_no_number() {
    assert_eq!(temp_from_trimmed("45123\n"), FAIL_TEMP);
    assert_eq!(temp_from_trimmed("45123"), 45);
}
