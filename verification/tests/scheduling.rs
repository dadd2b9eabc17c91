use orgb::scheduler::{frame_interval_ns, EffectClock, DEFAULT_FRAME_INTERVAL_NS};

fn fps_to_ns(fps: f64) -> u128 {
    std::time::Duration::from_secs_f64(1.0 / fps).as_nanos()
}

#[test]
fn default_frame_interval_targets_twenty_fps() {
    let interval = frame_interval_ns(None, 0);

    assert_eq!(interval, 50_000_000);
    assert_eq!(DEFAULT_FRAME_INTERVAL_NS, 50_000_000);
}

#[test]
fn frame_interval_respects_device_minimum() {
    let interval = frame_interval_ns(Some(fps_to_ns(60.0)), 100_000);

    assert_eq!(interval, 100_000_000);
}

#[test]
fn faster_requested_rate_is_used_above_the_minimum() {
    assert_eq!(frame_interval_ns(Some(16_666_667), 16_000), 16_666_667);
}

#[test]
fn clock_sleeps_until_the_planned_frame_and_does_not_catch_up() {
    let mut clock = EffectClock::new(Some(10), 0, None);
    assert_eq!(clock.interval_ns(), 10);
    assert!(!clock.should_stop(1_000));
    assert_eq!(clock.frame_sent(3), None);
    assert_eq!(clock.frame_sent(5), Some(13));
    assert_eq!(clock.frame_sent(40), None);
    assert_eq!(clock.frame_sent(41), Some(50));
    assert_eq!(clock.frames_sent(), 4);
}

#[test]
fn clock_stops_after_the_duration_but_only_after_a_frame() {
    let mut clock = EffectClock::new(None, 0, Some(0));
    assert!(!clock.should_stop(0));
    clock.frame_sent(0);
    assert!(clock.should_stop(0));

    let mut clock = EffectClock::new(None, 20_000, Some(100));
    assert_eq!(clock.interval_ns(), 50_000_000);
    clock.frame_sent(0);
    assert!(!clock.should_stop(99));
    assert!(clock.should_stop(100));
}
