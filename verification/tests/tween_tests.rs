use platformer::tween::{ConfigError, Tween, TWEEN_PERIOD};

fn running(waveform: Vec<i64>) -> Tween {
    let mut t = Tween::new(waveform).unwrap();
    t.stopped = false;
    t
}

#[test]
fn new_rejects_empty_waveform() {
    let r = Tween::new(Vec::new());
    assert!(matches!(r, Err(ConfigError::EmptyWaveform)));
}

#[test]
fn new_starts_stopped_at_first_sample() {
    let t = Tween::new(vec![7, 9, 11]).unwrap();
    assert!(t.stopped);
    assert_eq!(t.time, 0);
    assert_eq!(t.value, 7);
}

#[test]
fn speed_ramp_scenario() {
    // One update of a full period from a reset yields the second sample;
    // sixteen such updates run the waveform out and stop the sampler.
    let mut t = running(vec![0, 25, 38, 50, 60, 70, 80, 84, 87, 90, 93, 96, 97, 98, 99, 100]);
    t.update(TWEEN_PERIOD);
    assert_eq!(t.value(), 25);
    for _ in 0..15 {
        t.update(TWEEN_PERIOD);
    }
    assert_eq!(t.value(), 100);
    assert!(t.stopped);
}

#[test]
fn value_reaches_last_exactly_at_the_crossing() {
    let mut t = running(vec![7, 9]);
    t.update(2 * TWEEN_PERIOD - 1);
    assert_eq!(t.value(), 9);
    assert!(!t.stopped, "one time unit before the end the sampler still runs");
    t.update(1);
    assert_eq!(t.value(), 9);
    assert!(t.stopped, "at the crossing the sampler stops");
}

#[test]
fn value_is_idempotent_between_updates() {
    let mut t = running(vec![3, 5, 8, 13]);
    t.update(130);
    let first = t.value();
    let time_after_first = t.time;
    let stopped_after_first = t.stopped;
    let second = t.value();
    assert_eq!(first, second);
    assert_eq!(first, 5);
    assert_eq!(t.time, time_after_first);
    assert_eq!(t.stopped, stopped_after_first);
}

#[test]
fn stopped_tween_ignores_updates_and_keeps_its_value() {
    let mut t = Tween::new(vec![4, 6]).unwrap();
    t.update(500);
    assert_eq!(t.time, 0);
    assert_eq!(t.value(), 4);
}

#[test]
fn reset_rewinds_whatever_the_state() {
    let mut t = running(vec![2, 4, 8]);
    t.update(250);
    let _ = t.value();
    t.reset();
    assert_eq!(t.time, 0);
    assert_eq!(t.value(), 2);
    assert!(t.stopped);
}

#[test]
fn is_over_crosses_at_waveform_end() {
    let mut t = running(vec![1, 2, 3]);
    t.update(3 * TWEEN_PERIOD - 1);
    assert!(!t.is_over());
    t.update(1);
    assert!(t.is_over());
}

#[test]
fn set_offset_splices_into_a_later_sample() {
    let mut t = running(vec![10, 20, 30, 40]);
    t.set_offset(2);
    assert_eq!(t.time, 2 * TWEEN_PERIOD);
    assert_eq!(t.value(), 30);
}

#[test]
fn set_offset_resamples_a_stopped_sampler_too() {
    let mut t = Tween::new(vec![10, 20, 30]).unwrap();
    t.set_offset(1);
    assert_eq!(t.time, TWEEN_PERIOD);
    assert_eq!(t.value(), 20, "the splice resamples whether or not the sampler runs");
}

#[test]
fn set_offset_past_the_end_stops_at_the_last_sample() {
    let mut t = running(vec![10, 20, 30]);
    t.set_offset(5);
    assert_eq!(t.time, 5 * TWEEN_PERIOD);
    assert_eq!(t.value(), 30);
    assert!(t.stopped);
}
