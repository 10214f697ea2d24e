//! SPC700 timers and the APU event log.

use zelda_a_link_to_the_past::spc700::events::{ApuEvent, ApuEventLog};
use zelda_a_link_to_the_past::spc700::timers::Timer;

#[test]
fn timer_fires_every_target_ticks() {
    let mut t = Timer::new(3);
    t.enabled = true;
    t.tick();
    t.tick();
    assert_eq!(t.counter, 0);
    assert!(!t.last_fired());
    t.tick();
    assert_eq!(t.counter, 1);
    assert!(t.last_fired());
    assert_eq!(t.fire_count, 1);
    t.tick();
    assert!(!t.last_fired());
}

#[test]
fn timer_disabled_does_not_count() {
    let mut t = Timer::new(1);
    for _ in 0..10 {
        t.tick();
    }
    assert_eq!(t.counter, 0);
    assert_eq!(t.fire_count, 0);
}

#[test]
fn timer_counter_is_four_bits() {
    let mut t = Timer::new(1);
    t.enabled = true;
    for _ in 0..17 {
        t.tick();
    }
    assert_eq!(t.counter, 1, "17 increments wrap past 15");
    assert_eq!(t.fire_count, 17);
}

#[test]
fn timer_target_zero_means_256() {
    let mut t = Timer::new(0);
    t.enabled = true;
    for _ in 0..255 {
        t.tick();
    }
    assert_eq!(t.counter, 0);
    t.tick();
    assert_eq!(t.counter, 1);
}

#[test]
fn timer_read_clears_counter() {
    let mut t = Timer::new(1);
    t.enabled = true;
    t.tick();
    t.tick();
    assert_eq!(t.read_counter(), 2);
    assert_eq!(t.read_counter(), 0);
    assert_eq!(t.read_count, 2);
}

#[test]
fn timer_state_roundtrip() {
    let mut t = Timer::new(0x1234);
    t.enabled = true;
    t.tick();
    t.tick();
    t.counter = 7;
    let blob = t.snapshot_state();
    assert_eq!(blob, [0x34, 0x12, 2, 0, 7, 1]);
    let mut u = Timer::new(5);
    u.restore_state(&blob);
    assert_eq!(u.target, 0x1234);
    assert_eq!(u.divider, 2);
    assert_eq!(u.counter, 7);
    assert!(u.enabled);
    assert_eq!(u.snapshot_state(), blob);
}

#[test]
fn event_log_drains_in_order() {
    let mut log = ApuEventLog::new();
    assert_eq!(log.len(), 0);
    log.push(ApuEvent::VoiceKeyOn { apu_cycle: 1, voice_mask: 3 });
    log.push(ApuEvent::TimerFire { apu_cycle: 2, timer: 0, counter: 1 });
    assert_eq!(log.len(), 2);
    let events = log.drain();
    assert_eq!(log.len(), 0);
    assert_eq!(events.len(), 2);
    assert!(matches!(events[0], ApuEvent::VoiceKeyOn { apu_cycle: 1, voice_mask: 3 }));
    assert!(matches!(events[1], ApuEvent::TimerFire { apu_cycle: 2, timer: 0, counter: 1 }));
    assert!(log.drain().is_empty());
}

#[test]
fn event_log_drain_keeps_capacity() {
    let mut log = ApuEventLog::new();
    log.push(ApuEvent::VoiceKeyOn { apu_cycle: 1, voice_mask: 0x01 });
    let cap = log.events.capacity();
    let events = log.drain();
    assert_eq!(events.len(), 1);
    assert_eq!(log.len(), 0);
    assert_eq!(log.events.capacity(), cap, "the buffer keeps its capacity");
    assert!(cap >= 4096);
}
