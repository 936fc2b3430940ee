use std::time::Duration;
use tt_qb_lights::monitoring::poller::{
    channels_moved, health_transition, should_update_leds, sleep_after, HealthNotice, Display, PollController, PollOutcomeKind, PollPolicy, PollResult, ReadSlot,
    WaitEnd,
};
use tt_qb_lights::rgb::RgbColor;

fn secs(s: u64) -> u128 {
    Duration::from_secs(s).as_nanos()
}

fn policy() -> PollPolicy<f32> {
    PollPolicy {
        base_interval: secs(3),
        max_interval: secs(60),
        read_timeout: Duration::from_millis(750).as_nanos(),
        backoff_multiplier: 2.0,
        sentinel_temp_c: 150.0,
        sentinel_power_w: 1000.0,
        fault_dim_after: secs(30),
        fault_brightness: 0.1,
    }
}

fn disp(brightness: f32) -> Display<f32> {
    Display { color: RgbColor::new(10, 20, 30), brightness }
}

/// The controller's interval scaled by the policy's multiplier, as the
/// service computes it.
fn grown(c: &PollController<f32>) -> u128 {
    Duration::from_nanos(c.interval() as u64).mul_f32(policy().backoff_multiplier).as_nanos()
}

fn record(c: &mut PollController<f32>, r: PollResult<f32>, now: u128) -> Option<Display<f32>> {
    let g = grown(c);
    c.record(r, now, g)
}

#[test]
fn good_poll_shows_mapped_display_and_keeps_base_interval() {
    let mut c = PollController::new(policy());
    let out = record(&mut c, PollResult::Good(disp(0.8)), secs(0));
    assert_eq!(out, Some(disp(0.8)));
    assert_eq!(c.interval(), secs(3));
}

#[test]
fn trouble_backs_off_interval_geometrically_and_caps() {
    let mut c = PollController::new(policy());
    record(&mut c, PollResult::Timeout, secs(0));
    assert_eq!(c.interval(), secs(6));
    record(&mut c, PollResult::Timeout, secs(1));
    assert_eq!(c.interval(), secs(12));
    // keep going until we would exceed 60s; assert it caps at 60
    for i in 2..10 {
        record(&mut c, PollResult::Error, secs(i));
    }
    assert_eq!(c.interval(), secs(60));
}

#[test]
fn one_good_poll_resets_backoff() {
    let mut c = PollController::new(policy());
    record(&mut c, PollResult::Timeout, secs(0));
    record(&mut c, PollResult::Timeout, secs(1));
    assert_eq!(c.interval(), secs(12));
    record(&mut c, PollResult::Good(disp(0.5)), secs(2));
    assert_eq!(c.interval(), secs(3));
}

#[test]
fn fault_holds_last_good_then_dims_after_threshold() {
    let mut c = PollController::new(policy());
    // establish last-good bright display at t=0
    record(&mut c, PollResult::Good(disp(0.9)), secs(0));
    // fault begins at t=1: hold last-good (still 0.9)
    let held = record(&mut c, PollResult::Sentinel, secs(1));
    assert_eq!(held, Some(disp(0.9)));
    // still within dim window at t=20 (fault age 19s < 30s): still held
    let still = record(&mut c, PollResult::Timeout, secs(20));
    assert_eq!(still, Some(disp(0.9)));
    // fault age crosses 30s at t=31 (age 30s): dim to fault_brightness, same color
    let dimmed = record(&mut c, PollResult::Timeout, secs(31)).unwrap();
    assert_eq!(dimmed.color, RgbColor::new(10, 20, 30));
    assert_eq!(dimmed.brightness, 0.1);
}

#[test]
fn fault_before_any_good_shows_nothing() {
    let mut c = PollController::new(policy());
    assert_eq!(record(&mut c, PollResult::Error, secs(0)), None);
}

#[test]
fn dimming_persists_and_recovery_restores() {
    let mut c = PollController::new(policy());
    record(&mut c, PollResult::Good(disp(0.9)), secs(0));
    record(&mut c, PollResult::Error, secs(5));
    let dimmed = record(&mut c, PollResult::Error, secs(40)).unwrap();
    assert_eq!(dimmed.brightness, 0.1);
    let later = record(&mut c, PollResult::Sentinel, secs(100)).unwrap();
    assert_eq!(later, dimmed);
    let back = record(&mut c, PollResult::Good(disp(0.7)), secs(101));
    assert_eq!(back, Some(disp(0.7)));
    // a new fault starts its own clock
    assert_eq!(record(&mut c, PollResult::Timeout, secs(102)), Some(disp(0.7)));
}

#[test]
fn time_going_backwards_counts_as_no_age() {
    let mut c = PollController::new(policy());
    record(&mut c, PollResult::Good(disp(0.9)), secs(50));
    record(&mut c, PollResult::Error, secs(50));
    assert_eq!(record(&mut c, PollResult::Error, secs(10)), Some(disp(0.9)));
}

#[test]
fn read_slot_never_piles_up_reads() {
    let mut slot = ReadSlot::new();
    let mut started = 0;
    for _ in 0..5 {
        if slot.begin_poll() {
            started += 1;
        }
        assert_eq!(slot.end_wait(WaitEnd::TimedOut), PollOutcomeKind::Timeout);
    }
    assert_eq!(started, 1);
    assert!(slot.in_flight());
    assert!(!slot.begin_poll());
    assert_eq!(slot.end_wait(WaitEnd::Completed { read_ok: true }), PollOutcomeKind::Good);
    assert!(!slot.in_flight());
    assert!(slot.begin_poll());
    assert_eq!(slot.end_wait(WaitEnd::Completed { read_ok: false }), PollOutcomeKind::Error);
}

#[test]
fn loop_sleep() {
    assert_eq!(sleep_after(secs(3), Duration::from_millis(500).as_nanos()), Duration::from_millis(2500).as_nanos());
    assert_eq!(sleep_after(secs(3), secs(4)), Duration::from_millis(10).as_nanos());
    assert_eq!(sleep_after(Duration::from_millis(15).as_nanos(), Duration::from_millis(8).as_nanos()), Duration::from_millis(10).as_nanos());
}

#[test]
fn small_color_changes_are_ignored() {
    let a = RgbColor::new(100, 100, 100);
    assert!(!channels_moved(a, RgbColor::new(105, 95, 100)));
    assert!(channels_moved(a, RgbColor::new(106, 100, 100)));
    assert!(channels_moved(a, RgbColor::new(100, 100, 94)));
}

#[test]
fn led_update_throttle() {
    assert!(should_update_leds(true, secs(5)));
    assert!(!should_update_leds(true, secs(4)));
    assert!(!should_update_leds(false, secs(60)));
}

#[test]
fn health_notices_on_changes_only() {
    assert_eq!(health_transition(false, true), (true, Some(HealthNotice::Degraded)));
    assert_eq!(health_transition(true, true), (true, None));
    assert_eq!(health_transition(true, false), (false, Some(HealthNotice::Recovered)));
    assert_eq!(health_transition(false, false), (false, None));
}
