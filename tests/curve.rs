use pi_fan::curve::{Curve, Speed};

fn value(s: Speed) -> f32 {
    s.numer as f32 / s.denom as f32
}

#[test]
fn basic_speed() {
    let curve = vec![(0, 0), (10, 100), (20, 200), (30, 300), (40, 400), (50, 500)];
    let curve = Curve::from(curve);
    assert_eq!(value(curve.get_value_at(0)), 0.0);
    assert_eq!(value(curve.get_value_at(10)), 100.0);
    assert_eq!(value(curve.get_value_at(20)), 200.0);
    assert_eq!(value(curve.get_value_at(30)), 300.0);
    assert_eq!(value(curve.get_value_at(40)), 400.0);
    assert_eq!(value(curve.get_value_at(50)), 500.0);
}

#[test]
fn linear_speed() {
    let curve = vec![(0, 0), (10, 100), (20, 200), (30, 300), (40, 400), (50, 500)];
    let curve = Curve::from(curve);
    assert_eq!(value(curve.get_value_at(5)), 50.0);
    assert_eq!(value(curve.get_value_at(15)), 150.0);
    assert_eq!(value(curve.get_value_at(25)), 250.0);
    assert_eq!(value(curve.get_value_at(35)), 350.0);
    assert_eq!(value(curve.get_value_at(45)), 450.0);
}

#[test]
fn quadratic_speed() {
    let curve = vec![(0, 0), (10, 100), (20, 300), (30, 700)];
    let curve = Curve::from(curve);
    assert_eq!(value(curve.get_value_at(5)), 50.0);
    assert_eq!(value(curve.get_value_at(15)), 200.0);
    assert_eq!(value(curve.get_value_at(25)), 500.0);
}

#[test]
fn exact_fraction_between_points() {
    let curve = Curve::from(vec![(0, 0), (3, 1)]);
    assert_eq!(curve.get_value_at(1), Speed { numer: 1, denom: 3 });
    assert_eq!(curve.get_value_at(2), Speed { numer: 2, denom: 3 });
}

#[test]
fn exact_point_is_whole() {
    let curve = Curve::from(vec![(20, 35), (60, 90), (40, 70)]);
    assert_eq!(curve.get_value_at(40), Speed { numer: 70, denom: 1 });
    assert_eq!(curve.get_value_at(60), Speed { numer: 90, denom: 1 });
}

#[test]
fn unsorted_input_is_sorted() {
    let curve = Curve::from(vec![(30, 700), (0, 0), (20, 300), (10, 100)]);
    assert_eq!(value(curve.get_value_at(15)), 200.0);
    assert_eq!(value(curve.get_value_at(25)), 500.0);
}

#[test]
fn low_clamp() {
    let curve = Curve::from(vec![(10, 20), (50, 100)]);
    assert_eq!(curve.get_value_at(10), Speed { numer: 20, denom: 1 });
    assert_eq!(curve.get_value_at(9), Speed { numer: 20, denom: 1 });
    assert_eq!(curve.get_value_at(-40), Speed { numer: 20, denom: 1 });
}

#[test]
fn high_clamp_gives_lowest_point() {
    let curve = Curve::from(vec![(10, 20), (50, 100)]);
    assert_eq!(curve.get_value_at(51), Speed { numer: 20, denom: 1 });
    assert_eq!(curve.get_value_at(i32::MAX), Speed { numer: 20, denom: 1 });
}

#[test]
fn highest_point_itself_is_exact() {
    let curve = Curve::from(vec![(0, 0), (50, 500)]);
    assert_eq!(curve.get_value_at(50), Speed { numer: 500, denom: 1 });
}

#[test]
fn single_point_curve() {
    let curve = Curve::from(vec![(40, 60)]);
    assert_eq!(curve.get_value_at(40), Speed { numer: 60, denom: 1 });
    assert_eq!(curve.get_value_at(0), Speed { numer: 60, denom: 1 });
    assert_eq!(curve.get_value_at(100), Speed { numer: 60, denom: 1 });
}

#[test]
fn duplicate_temperature_last_wins() {
    let curve = Curve::from(vec![(0, 0), (20, 10), (40, 100), (20, 80)]);
    assert_eq!(curve.get_value_at(20), Speed { numer: 80, denom: 1 });
    assert_eq!(value(curve.get_value_at(10)), 40.0);
    assert_eq!(value(curve.get_value_at(30)), 90.0);
}

#[test]
fn extreme_values_do_not_overflow() {
    let curve = Curve::from(vec![(i32::MIN, i32::MIN), (i32::MAX, i32::MAX)]);
    let s = curve.get_value_at(0);
    assert_eq!(s.denom, u32::MAX as i128);
    assert_eq!(value(s), 0.0);
}
