use gravsim::controls::{accepts_entry_char, Controls, Integrator};

#[test]
fn defaults() {
    let c = Controls::new();
    assert_eq!(c.trail_length(), 30);
    assert_eq!(c.predict_speed(), 1);
    assert_eq!(c.fast_forward(), 1);
    assert_eq!(c.integrator(), Integrator::Verlet);
    assert!(!c.paused());
    assert_eq!(c.ticks_this_frame(), 1);
}

#[test]
fn trail_length_steps_and_floors_at_zero() {
    let mut c = Controls::new();
    c.lengthen_trail();
    assert_eq!(c.trail_length(), 31);
    c.set_trail_length(1);
    c.shorten_trail();
    assert_eq!(c.trail_length(), 0);
    c.shorten_trail();
    assert_eq!(c.trail_length(), 0);
}

#[test]
fn prediction_speed_floors_at_zero() {
    let mut c = Controls::new();
    c.less_prediction();
    assert_eq!(c.predict_speed(), 0);
    c.less_prediction();
    assert_eq!(c.predict_speed(), 0);
    c.more_prediction();
    c.more_prediction();
    assert_eq!(c.predict_speed(), 2);
    c.set_predict_speed(7);
    assert_eq!(c.predict_speed(), 7);
}

#[test]
fn fast_forward_never_below_one() {
    let mut c = Controls::new();
    c.slower();
    assert_eq!(c.fast_forward(), 1);
    c.faster();
    c.faster();
    assert_eq!(c.fast_forward(), 3);
    c.slower();
    assert_eq!(c.fast_forward(), 2);
    c.set_fast_forward(0);
    assert_eq!(c.fast_forward(), 1);
    c.set_fast_forward(12);
    assert_eq!(c.ticks_this_frame(), 12);
    c.reset_speed();
    assert_eq!(c.fast_forward(), 1);
}

#[test]
fn paused_runs_no_ticks() {
    let mut c = Controls::new();
    c.set_fast_forward(5);
    c.toggle_pause();
    assert!(c.paused());
    assert_eq!(c.ticks_this_frame(), 0);
    c.toggle_pause();
    assert_eq!(c.ticks_this_frame(), 5);
}

#[test]
fn integrator_toggles() {
    let mut c = Controls::new();
    c.toggle_integrator();
    assert_eq!(c.integrator(), Integrator::Euler);
    c.toggle_integrator();
    assert_eq!(c.integrator(), Integrator::Verlet);
    c.set_integrator(Integrator::Euler);
    assert_eq!(c.integrator(), Integrator::Euler);
    assert_eq!(Integrator::Euler.toggled(), Integrator::Verlet);
}

#[test]
fn entry_accepts_digits_and_point_only() {
    for c in '0'..='9' {
        assert!(accepts_entry_char(c));
    }
    assert!(accepts_entry_char('.'));
    assert!(!accepts_entry_char('-'));
    assert!(!accepts_entry_char('a'));
    assert!(!accepts_entry_char(' '));
}
