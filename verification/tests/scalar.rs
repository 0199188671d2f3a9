use delaynet::label::append_decimal;
use delaynet::scalar::{
    ceil_steps, floor_steps, from_whole, is_at_most, is_below, larger_of,
    next_power_of_two, round_steps, STEP_LIMIT,
};

#[test]
fn whole_numbers_convert_exactly() {
    let two: f64 = from_whole(2);
    assert_eq!(two, 2.0);
    assert!(is_below(1.5f64, two));
    assert!(!is_below(two, two));
    assert!(is_at_most(two, two));
    assert_eq!(larger_of(1.5f64, two), 2.0);
    assert_eq!(larger_of(two, 1.5f64), 2.0);
    assert_eq!(larger_of(2.0, f64::NAN), 2.0);
}

#[test]
fn steps_round_down() {
    assert_eq!(floor_steps(0.0f64), Some(0));
    assert_eq!(floor_steps(0.999f64), Some(0));
    assert_eq!(floor_steps(1.0f64), Some(1));
    assert_eq!(floor_steps(996.48f64), Some(996));
    assert_eq!(floor_steps(1280.0f64), Some(1280));
    assert_eq!(floor_steps(2147483646.5f64), Some(2147483646));
}

#[test]
fn steps_round_to_the_nearest() {
    assert_eq!(round_steps(0.0f64), Some(0));
    assert_eq!(round_steps(0.49f64), Some(0));
    assert_eq!(round_steps(0.5f64), Some(1));
    assert_eq!(round_steps(996.48f64), Some(996));
    assert_eq!(round_steps(996.5f64), Some(997));
    assert_eq!(round_steps(15.57f64 / (1.0 / 64.0)), Some(996));
    assert_eq!(round_steps(2147483646.5f64), Some(2147483647));
}

#[test]
fn steps_round_up() {
    assert_eq!(ceil_steps(0.0f64), Some(0));
    assert_eq!(ceil_steps(0.001f64), Some(1));
    assert_eq!(ceil_steps(1.0f64), Some(1));
    assert_eq!(ceil_steps(996.48f64), Some(997));
    assert_eq!(ceil_steps(1280.0f64), Some(1280));
}

#[test]
fn step_counts_agree_with_the_rounding_of_floats() {
    let mut q = 0.0f64;
    while q < 5000.0 {
        assert_eq!(floor_steps(q), Some(q.floor() as usize));
        assert_eq!(round_steps(q), Some(q.round() as usize));
        assert_eq!(ceil_steps(q), Some(q.ceil() as usize));
        q += 0.37;
    }
}

#[test]
fn step_counts_have_a_range() {
    assert_eq!(floor_steps(-0.5f64), None);
    assert_eq!(round_steps(-3.0f64), None);
    assert_eq!(ceil_steps(-1.0e-9f64), None);
    assert_eq!(floor_steps(STEP_LIMIT as f64), None);
    assert_eq!(floor_steps(1.0e12f64), None);
    assert_eq!(round_steps(f64::INFINITY), None);
    assert_eq!(ceil_steps(f64::NAN), None);
}

#[test]
fn powers_of_two() {
    assert_eq!(next_power_of_two(0), Some(1));
    assert_eq!(next_power_of_two(1), Some(1));
    assert_eq!(next_power_of_two(2), Some(2));
    assert_eq!(next_power_of_two(3), Some(4));
    assert_eq!(next_power_of_two(997), Some(1024));
    assert_eq!(next_power_of_two(1024), Some(1024));
    assert_eq!(next_power_of_two(1025), Some(2048));
    assert_eq!(next_power_of_two(usize::MAX / 2 + 1), Some(usize::MAX / 2 + 1));
    assert_eq!(next_power_of_two(usize::MAX / 2 + 2), None);
    assert_eq!(next_power_of_two(usize::MAX), None);
    for n in 0..5000usize {
        assert_eq!(next_power_of_two(n), Some(n.next_power_of_two()));
    }
}

#[test]
fn decimal_numerals() {
    for (value, text) in [
        (0i128, "0"),
        (7, "7"),
        (10, "10"),
        (-1, "-1"),
        (1234567890, "1234567890"),
        (-9876, "-9876"),
        (i64::MAX as i128, "9223372036854775807"),
        (i64::MIN as i128, "-9223372036854775808"),
    ] {
        let mut label = String::from("n = ");
        append_decimal(&mut label, value);
        assert_eq!(label, format!("n = {}", text));
    }
}
