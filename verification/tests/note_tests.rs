//! The note activation tracker: the active interval, the consecutive
//! counter and the one-shot rising edge.

use midi_timeline::note::Note;

fn fresh(start_tick: i64, duration: i64, key: u8) -> Note {
    Note { start_tick, duration, key, pressed: false, pressed_ticks: 0 }
}

#[test]
fn active_interval_is_half_open() {
    let mut n = fresh(100, 50, 60);
    assert!(!n.tick(99));
    assert!(n.tick(100));
    assert!(n.tick(149));
    assert!(!n.tick(150));
}

#[test]
fn tick_updates_state_fields() {
    let mut n = fresh(0, 10, 60);
    assert!(n.tick(5));
    assert!(n.pressed);
    assert_eq!(n.pressed_ticks, 1);
    assert!(n.tick(6));
    assert_eq!(n.pressed_ticks, 2);
    assert!(!n.tick(10));
    assert!(!n.pressed);
    assert_eq!(n.pressed_ticks, 0);
}

#[test]
fn just_triggered_fires_once_per_activation() {
    let mut n = fresh(10, 5, 42);
    // inactive call: no trigger
    let (active, ticks, just) = n.update(0);
    assert!(!active && !just);
    assert_eq!(ticks, 0);
    // first active call: the rising edge
    let (active, ticks, just) = n.update(10);
    assert!(active && just);
    assert_eq!(ticks, 1);
    // consecutive active calls: never again
    let (active, ticks, just) = n.update(11);
    assert!(active && !just);
    assert_eq!(ticks, 2);
    let (active, _, just) = n.update(12);
    assert!(active && !just);
    // inactive resets, so the next activation triggers again
    let (active, ticks, just) = n.update(99);
    assert!(!active && !just);
    assert_eq!(ticks, 0);
    let (active, ticks, just) = n.update(13);
    assert!(active && just);
    assert_eq!(ticks, 1);
}

#[test]
fn identity_fields_never_change() {
    let mut n = fresh(7, 3, 99);
    n.update(8);
    n.update(20);
    assert_eq!((n.start_tick, n.duration, n.key), (7, 3, 99));
}

#[test]
fn negative_preroll_tick_is_inactive() {
    let mut n = fresh(0, 100, 60);
    let (active, _, just) = n.update(-1);
    assert!(!active && !just);
}
