//! End-to-end behaviour of the capture pipeline: channel, engine, overlay.

use key_overlay::channel::{EventChannel, CHANNEL_CAP};
use key_overlay::engine::{KeyStateEngine, INTENSITY_MAX};
use key_overlay::key_message::{normalize, KeyAction, KeyIdentity, KeyMessage};
use key_overlay::overlay::snapshot;

fn msg(code: u32, pressed: bool, time_ms: u64) -> KeyMessage {
    normalize(code, if pressed { 1 } else { 0 }, time_ms)
}

#[test]
fn drain_empty_channel_returns_empty() {
    let mut ch = EventChannel::new(16);
    let out = ch.drain_all();
    assert!(out.is_empty());
    assert_eq!(ch.len(), 0);
}

#[test]
fn full_channel_drops_newest() {
    let mut ch = EventChannel::new(2);
    let m1 = msg(65, true, 0);
    let m2 = msg(65, false, 10);
    let m3 = msg(66, true, 20);
    assert!(ch.try_send(m1));
    assert!(ch.try_send(m2));
    // The channel is full: the incoming (newest) message is dropped.
    assert!(!ch.try_send(m3));
    let out = ch.drain_all();
    assert_eq!(out.len(), 2);
    assert_eq!(out[0], m1);
    assert_eq!(out[1], m2);
    // After draining there is room again.
    let mut ch2 = ch;
    assert!(ch2.try_send(m3));
}

#[test]
fn default_capacity_absorbs_bursts() {
    assert!(CHANNEL_CAP >= 10_000);
    let mut ch = EventChannel::new(CHANNEL_CAP);
    for t in 0..1000u64 {
        assert!(ch.try_send(msg(65, true, t)));
    }
    assert_eq!(ch.len(), 1000);
    assert_eq!(ch.drain_all().len(), 1000);
}

#[test]
fn channel_is_fifo() {
    let mut ch = EventChannel::new(100);
    for t in 0..10u64 {
        assert!(ch.try_send(msg(65, t % 2 == 0, t)));
    }
    let out = ch.drain_all();
    assert_eq!(out.len(), 10);
    for (i, m) in out.iter().enumerate() {
        assert_eq!(m.time_ms, i as u64);
    }
    assert_eq!(ch.len(), 0);
}

#[test]
fn press_then_release_scenario() {
    // Key "A" (code 65), pressed at t=0 ms and released at t=100 ms.
    let key_codes = vec![65u32];
    let mut engine = KeyStateEngine::new(&key_codes, 1000, 4);
    let msgs = vec![msg(65, true, 0), msg(65, false, 100)];
    engine.tick(100, &msgs);
    let snap = snapshot(&engine);
    assert_eq!(snap.entries.len(), 1);
    // The key ends up, with exactly one retained timestamp (the press) in
    // its own window, and the aggregate window holds it too.
    assert!(!snap.entries[0].down);
    assert_eq!(snap.entries[0].count, 1);
    assert_eq!(snap.aggregate_count, 1);
    assert_eq!(engine.keys_per_second_milli(65), Some(1000));
}

#[test]
fn five_space_presses_give_five_kps_then_decay_to_zero() {
    // Five presses of "Space" (code 32) within one second, window 1.0 s.
    let key_codes = vec![32u32];
    let mut engine = KeyStateEngine::new(&key_codes, 1000, 4);
    let msgs = vec![
        msg(32, true, 0),
        msg(32, true, 250),
        msg(32, true, 400),
        msg(32, true, 600),
        msg(32, true, 900),
    ];
    engine.tick(900, &msgs);
    // 5 events / 1.0 s == 5.0 keys per second (5000 thousandths).
    assert_eq!(engine.keys_per_second_milli(32), Some(5000));
    assert_eq!(engine.aggregate_keys_per_second_milli(), 5000);
    // After 1.0 s with no further events the window empties and KPS is 0.
    engine.tick(1901, &Vec::new());
    assert_eq!(engine.keys_per_second_milli(32), Some(0));
    assert_eq!(engine.aggregate_keys_per_second_milli(), 0);
}

#[test]
fn kps_without_events_is_zero() {
    let key_codes = vec![65u32, 66u32];
    let mut engine = KeyStateEngine::new(&key_codes, 1000, 4);
    engine.tick(500, &Vec::new());
    assert_eq!(engine.keys_per_second_milli(65), Some(0));
    assert_eq!(engine.keys_per_second_milli(66), Some(0));
    assert_eq!(engine.aggregate_keys_per_second_milli(), 0);
}

#[test]
fn kps_of_untracked_key_is_none() {
    let key_codes = vec![65u32];
    let engine = KeyStateEngine::new(&key_codes, 1000, 4);
    assert_eq!(engine.keys_per_second_milli(66), None);
}

#[test]
fn kps_never_increases_without_events() {
    let key_codes = vec![65u32];
    let mut engine = KeyStateEngine::new(&key_codes, 1000, 4);
    let msgs = vec![msg(65, true, 0), msg(65, true, 300), msg(65, true, 500)];
    engine.tick(500, &msgs);
    let mut last = engine.keys_per_second_milli(65).unwrap();
    // Same instant twice: the value is unchanged.
    assert_eq!(engine.keys_per_second_milli(65).unwrap(), last);
    for now in [700u64, 1100, 1400, 1600, 2000] {
        engine.tick(now, &Vec::new());
        let v = engine.keys_per_second_milli(65).unwrap();
        assert!(v <= last);
        last = v;
    }
    assert_eq!(last, 0);
}

#[test]
fn intensity_maxes_on_press_and_decays_in_range() {
    let key_codes = vec![65u32];
    let mut engine = KeyStateEngine::new(&key_codes, 1000, 4);
    engine.tick(0, &vec![msg(65, true, 0)]);
    let snap = snapshot(&engine);
    // Immediately after a press the displayed intensity is the maximum.
    assert_eq!(snap.entries[0].intensity, INTENSITY_MAX);
    assert!(snap.entries[0].down);
    // 100 ms later, with decay 4 per ms, it has dropped by 400.
    engine.tick(100, &Vec::new());
    let snap = snapshot(&engine);
    assert_eq!(snap.entries[0].intensity, INTENSITY_MAX - 400);
    // Long after, it rests at zero and never leaves [0, INTENSITY_MAX].
    engine.tick(10_000, &Vec::new());
    let snap = snapshot(&engine);
    assert_eq!(snap.entries[0].intensity, 0);
    assert!(snap.entries[0].intensity <= INTENSITY_MAX);
}

#[test]
fn release_without_press_is_absorbed() {
    let key_codes = vec![65u32];
    let mut engine = KeyStateEngine::new(&key_codes, 1000, 4);
    engine.tick(50, &vec![msg(65, false, 50)]);
    let snap = snapshot(&engine);
    assert!(!snap.entries[0].down);
    // No press happened: nothing is counted, nothing underflows.
    assert_eq!(snap.entries[0].count, 0);
    assert_eq!(snap.aggregate_count, 0);
}

#[test]
fn duplicate_press_keeps_down_and_counts_each_event() {
    let key_codes = vec![65u32];
    let mut engine = KeyStateEngine::new(&key_codes, 1000, 4);
    engine.tick(200, &vec![msg(65, true, 0), msg(65, true, 200)]);
    let snap = snapshot(&engine);
    // Auto-repeat: still one held key, but both press events count for KPS.
    assert!(snap.entries[0].down);
    assert_eq!(snap.entries[0].count, 2);
    assert_eq!(engine.keys_per_second_milli(65), Some(2000));
}

#[test]
fn untracked_and_unknown_messages_are_ignored() {
    let key_codes = vec![65u32];
    let mut engine = KeyStateEngine::new(&key_codes, 1000, 4);
    let stray = vec![msg(66, true, 10), normalize(9999, 1, 20)];
    assert_eq!(stray[1].key, KeyIdentity::Unknown);
    engine.tick(20, &stray);
    let snap = snapshot(&engine);
    assert_eq!(snap.entries[0].count, 0);
    assert_eq!(snap.aggregate_count, 0);
}

#[test]
fn normalizer_maps_codes_and_preserves_time() {
    let m = normalize(65, 1, 42);
    assert_eq!(m.key, KeyIdentity::Known(65));
    assert_eq!(m.action, KeyAction::Pressed);
    assert_eq!(m.time_ms, 42);
    let r = normalize(65, 0, 43);
    assert_eq!(r.action, KeyAction::Released);
    // Out-of-range raw codes map to the designated Unknown identity.
    assert_eq!(normalize(0, 1, 0).key, KeyIdentity::Unknown);
    assert_eq!(normalize(255, 1, 0).key, KeyIdentity::Unknown);
    assert_eq!(normalize(254, 1, 0).key, KeyIdentity::Known(254));
}

#[test]
fn snapshot_keeps_configuration_order() {
    let key_codes = vec![90u32, 88u32, 67u32];
    let mut engine = KeyStateEngine::new(&key_codes, 1000, 4);
    engine.tick(10, &vec![msg(88, true, 10)]);
    let snap = snapshot(&engine);
    let codes: Vec<u32> = snap.entries.iter().map(|e| e.code).collect();
    assert_eq!(codes, vec![90, 88, 67]);
    assert_eq!(snap.entries[1].count, 1);
    assert_eq!(snap.entries[0].count, 0);
}
