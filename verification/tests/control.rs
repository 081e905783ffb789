use fanctrl::control::{Control, ControlOutput, Function, State, DUTY_SCALE};

// Thresholds of the reference configuration, in millikelvin:
// 30 / 40 / 70 degrees Celsius.
const T0: u32 = 303150;
const T1: u32 = 313150;
const T2: u32 = 343150;

fn reference_function() -> Function {
    Function::new(T0, T1, T2, 500, 900).unwrap()
}

#[test]
fn construction_round_trip() {
    let f = reference_function();
    assert_eq!(f.stop_temperature, T0);
    assert_eq!(f.start_temperature, T1);
    assert_eq!(f.high_temperature, T2);
    assert_eq!(f.min_duty_cycle, 500);
    assert_eq!(f.max_duty_cycle, 900);
    assert_eq!(f.map(T1), 500);
    assert_eq!(f.map(T2), 900);
    // Midpoint of the ramp: 55 degrees Celsius.
    assert_eq!(f.map(328150), 700);
    // Clamped outside the ramp: 20 and 100 degrees Celsius.
    assert_eq!(f.map(293150), 500);
    assert_eq!(f.map(373150), 900);
}

#[test]
fn construction_rejects_reversed_stop_and_start() {
    // T0 = 40 C, T1 = 30 C: the start temperature is the offending field.
    let e = Function::new(T1, T0, T2, 500, 900).unwrap_err();
    assert_eq!(e.field, "start_temperature");
    assert_eq!(e.reason, "lower than stop_temperature");
    assert_eq!(e.value, T0);
}

#[test]
fn construction_rejects_each_later_violation() {
    let e = Function::new(T0, T1, T1, 500, 900).unwrap_err();
    assert_eq!(e.field, "high_temperature");
    assert_eq!(e.value, T1);

    let e = Function::new(T0, T1, T2, 0, 900).unwrap_err();
    assert_eq!(e.field, "min_duty_cycle");
    assert_eq!(e.reason, "not in (0, 1)");

    let e = Function::new(T0, T1, T2, 500, DUTY_SCALE).unwrap_err();
    assert_eq!(e.field, "max_duty_cycle");
    assert_eq!(e.reason, "not in (0, 1)");

    let e = Function::new(T0, T1, T2, 900, 500).unwrap_err();
    assert_eq!(e.field, "max_duty_cycle");
    assert_eq!(e.reason, "lower than min_duty_cycle");
}

#[test]
fn map_is_continuous_at_the_knees() {
    let f = reference_function();
    // One millikelvin on either side of each knee moves the duty cycle by at
    // most the ramp's slope step: no jump at the boundaries.
    assert_eq!(f.map(T1 - 1), 500);
    assert_eq!(f.map(T1), 500);
    assert_eq!(f.map(T1 + 1), 500);
    assert_eq!(f.map(T2 - 1), 899);
    assert_eq!(f.map(T2), 900);
    assert_eq!(f.map(T2 + 1), 900);
}

#[test]
fn off_stays_off_below_start() {
    let mut c = Control::new(reference_function(), 2);
    for t in [0u32, 293150, 303150, 313150] {
        assert_eq!(c.update(t), ControlOutput::Off);
        assert!(matches!(c.state, State::Off));
    }
}

#[test]
fn rising_reacts_immediately_in_every_state() {
    // From Off, above the start threshold.
    let mut c = Control::new(reference_function(), 2);
    assert_eq!(c.update(318150), ControlOutput::Change(566));
    // From Running, still rising.
    assert_eq!(c.update(323150), ControlOutput::Change(633));
    // Enter cooling, then rise again: reacts at once.
    assert_eq!(c.update(322150), ControlOutput::Keep);
    assert_eq!(c.update(328150), ControlOutput::Change(700));
    assert!(matches!(c.state, State::Function { last_duty_cycle: 700 }));
}

#[test]
fn cooling_keeps_for_the_whole_lag() {
    let mut c = Control::new(reference_function(), 3);
    assert_eq!(c.update(323150), ControlOutput::Change(633));
    // Entering the cool-down reports Keep, then the countdown runs.
    assert_eq!(c.update(322150), ControlOutput::Keep);
    match c.state {
        State::Keep { remain_time_cycle, keep_temperature, keep_duty_cycle } => {
            assert_eq!(remain_time_cycle, 3);
            assert_eq!(keep_temperature, 323150);
            assert_eq!(keep_duty_cycle, 633);
        }
        _ => panic!("expected the cool-down state"),
    }
    for expected_rem in [2usize, 1, 0] {
        assert_eq!(c.update(322150), ControlOutput::Keep);
        match c.state {
            State::Keep { remain_time_cycle, keep_temperature, keep_duty_cycle } => {
                assert_eq!(remain_time_cycle, expected_rem);
                assert_eq!(keep_temperature, 323150);
                assert_eq!(keep_duty_cycle, 633);
            }
            _ => panic!("expected the cool-down state"),
        }
    }
}

#[test]
fn elapsed_countdown_stops_at_or_below_stop_temperature() {
    let mut c = Control::new(reference_function(), 0);
    assert_eq!(c.update(323150), ControlOutput::Change(633));
    assert_eq!(c.update(322150), ControlOutput::Keep);
    // Countdown is already 0; a non-rising reading at the stop threshold
    // stops the fan.
    assert_eq!(c.update(303150), ControlOutput::Off);
    assert!(matches!(c.state, State::Off));
}

#[test]
fn elapsed_countdown_reanchors_to_the_average() {
    let mut c = Control::new(reference_function(), 1);
    assert_eq!(c.update(323150), ControlOutput::Change(633));
    assert_eq!(c.update(322150), ControlOutput::Keep);
    assert_eq!(c.update(321150), ControlOutput::Keep);
    // Countdown elapsed, still above the stop threshold: the new anchor is
    // the average of the reading (47 C) and the old anchor (50 C), 48.5 C,
    // strictly between the two, and the output is the ramp there.
    let out = c.update(320150);
    match c.state {
        State::Keep { remain_time_cycle, keep_temperature, keep_duty_cycle } => {
            assert_eq!(remain_time_cycle, 1);
            assert_eq!(keep_temperature, (320150 + 323150) / 2);
            assert!(320150 < keep_temperature && keep_temperature < 323150);
            assert_eq!(keep_duty_cycle, 613);
        }
        _ => panic!("expected the cool-down state"),
    }
    assert_eq!(out, ControlOutput::Change(613));
}

#[test]
fn end_to_end_scenario() {
    // Temperatures 35, 45, 50, 48, 47, 46, 20 degrees Celsius with two lag
    // cycles, starting Off.
    let mut c = Control::new(reference_function(), 2);
    let temps = [308150u32, 318150, 323150, 321150, 320150, 319150, 293150];
    let expected = [
        ControlOutput::Off,
        ControlOutput::Change(566),
        ControlOutput::Change(633),
        ControlOutput::Keep,
        ControlOutput::Keep,
        ControlOutput::Keep,
        ControlOutput::Off,
    ];
    for (t, e) in temps.iter().zip(expected.iter()) {
        assert_eq!(c.update(*t), *e);
    }
    assert!(matches!(c.state, State::Off));
}

#[test]
fn force_launches_at_the_given_duty_cycle() {
    let mut c = Control::new(reference_function(), 2);
    assert_eq!(c.update_force(318150, 500), ControlOutput::Change(500));
    match c.state {
        State::Keep { remain_time_cycle, keep_temperature, keep_duty_cycle } => {
            assert_eq!(remain_time_cycle, 2);
            assert_eq!(keep_temperature, 318150);
            assert_eq!(keep_duty_cycle, 500);
        }
        _ => panic!("expected the cool-down state"),
    }
    assert_eq!(c.last_temperature, 318150);
    // A flat reading afterwards coasts.
    assert_eq!(c.update(318150), ControlOutput::Keep);
}

#[test]
fn getters_report_the_configuration() {
    let c = Control::new(reference_function(), 8);
    assert_eq!(c.stop_temperature(), T0);
    assert_eq!(c.start_temperature(), T1);
    assert_eq!(c.high_temperature(), T2);
    assert_eq!(c.min_duty_cycle(), 500);
    assert_eq!(c.max_duty_cycle(), 900);
    assert_eq!(c.lag_time_cycle(), 8);
}

#[test]
fn flat_reading_is_treated_as_not_rising() {
    let mut c = Control::new(reference_function(), 2);
    assert_eq!(c.update(318150), ControlOutput::Change(566));
    // Exactly the previous reading: enters the cool-down.
    assert_eq!(c.update(318150), ControlOutput::Keep);
    assert!(matches!(c.state, State::Keep { .. }));
}
