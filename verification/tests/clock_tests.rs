//! The timeline clock: tick resolution, tempo-boundary continuity and the
//! worked wall-clock scenarios.

use midi_timeline::clock::PlaybackClock;
use midi_timeline::events::{EventKind, TimedEvent};
use midi_timeline::midi::MIDI;

fn on(delta: u32, key: u8, vel: u8) -> TimedEvent {
    TimedEvent { delta, kind: EventKind::NoteOn { key, vel } }
}

fn off(delta: u32, key: u8) -> TimedEvent {
    TimedEvent { delta, kind: EventKind::NoteOff { key, vel: 0 } }
}

fn tempo(delta: u32, mspq: u32) -> TimedEvent {
    TimedEvent { delta, kind: EventKind::TempoChange { mspq } }
}

#[test]
fn resolve_is_a_floor_lookup() {
    let tracks = vec![vec![tempo(0, 1_000_000), tempo(480, 500_000)]];
    let (midi, _) = MIDI::from_events(480, &tracks).unwrap();
    assert_eq!(midi.get_current_tick_and_mspq(0, 0), (0, 1_000_000));
    assert_eq!(midi.get_current_tick_and_mspq(479, 0), (0, 1_000_000));
    assert_eq!(midi.get_current_tick_and_mspq(480, 0), (480, 500_000));
    assert_eq!(midi.get_current_tick_and_mspq(10_000, 0), (480, 500_000));
}

#[test]
fn resolve_clamps_preroll_to_zero() {
    // only the synthetic earliest-tick entry governs tick -5; its start
    // lies below the pre-roll floor, so it is reported as 0
    let tracks: Vec<Vec<TimedEvent>> = vec![vec![]];
    let (midi, _) = MIDI::from_events(480, &tracks).unwrap();
    assert_eq!(midi.get_current_tick_and_mspq(-5, -1000), (0, 500_000));
    assert_eq!(midi.get_current_tick_and_mspq(i64::MIN, -1000), (0, 500_000));
}

#[test]
fn resolve_keeps_starts_at_or_above_the_floor() {
    let tracks = vec![vec![tempo(100, 750_000)]];
    let (midi, _) = MIDI::from_events(480, &tracks).unwrap();
    assert_eq!(midi.get_current_tick_and_mspq(200, -1000), (100, 750_000));
}

#[test]
fn resolve_is_idempotent() {
    let tracks = vec![vec![tempo(0, 1_000_000), tempo(480, 500_000)]];
    let (midi, _) = MIDI::from_events(480, &tracks).unwrap();
    for tick in [0i64, 100, 480, 700, 10_000] {
        let first = midi.get_current_tick_and_mspq(tick, -1000);
        assert_eq!(midi.get_current_tick_and_mspq(first.0, -1000), first);
    }
}

#[test]
fn half_second_at_120bpm_is_480_ticks() {
    // PPQ=480, tempo 500000 at tick 0, note 60 over [0, 480):
    // at 500 ms elapsed and speed 1, the current tick is 480 and the note
    // has just gone inactive
    let tracks = vec![vec![tempo(0, 500_000), on(0, 60, 64), off(480, 60)]];
    let (midi, warn) = MIDI::from_events(480, &tracks).unwrap();
    assert!(!warn);
    let mut note = midi.tracks[0].notes[0];
    assert_eq!((note.start_tick, note.duration, note.key), (0, 480, 60));

    let mut clock = PlaybackClock::new(0, 0);
    let t0 = clock.current_tick(&midi, 0, 1, 1, 0);
    assert_eq!(t0, 0);
    let t1 = clock.current_tick(&midi, 500_000, 1, 1, 0);
    assert_eq!(t1, 480);
    let (active, _, _) = note.update(t1);
    assert!(!active);
    let (active, ticks_active, just) = note.update(479);
    assert!(active && just);
    assert_eq!(ticks_active, 1);
}

#[test]
fn wall_time_integrates_across_tempo_boundary() {
    // tempo 1,000,000 at tick 0 and 500,000 at tick 480, PPQ 480:
    // tick 480 is reached after 1.0 s, tick 960 after 1.5 s in all
    let tracks = vec![vec![tempo(0, 1_000_000), tempo(480, 500_000)]];
    let (midi, _) = MIDI::from_events(480, &tracks).unwrap();
    let mut clock = PlaybackClock::new(0, 0);
    assert_eq!(clock.current_tick(&midi, 0, 1, 1, 0), 0);
    assert_eq!(clock.current_tick(&midi, 1_000_000, 1, 1, 0), 480);
    // the frame that crosses the boundary re-anchors: same instant, same tick
    assert_eq!(clock.current_tick(&midi, 1_000_000, 1, 1, 0), 480);
    assert_eq!(clock.current_tick(&midi, 1_500_000, 1, 1, 0), 960);
}

#[test]
fn no_jump_exactly_at_the_boundary() {
    // even when the estimate overshoots the boundary, the re-anchoring
    // frame reports exactly the boundary tick
    let tracks = vec![vec![tempo(0, 1_000_000), tempo(480, 500_000)]];
    let (midi, _) = MIDI::from_events(480, &tracks).unwrap();
    let mut clock = PlaybackClock::new(0, 0);
    assert_eq!(clock.current_tick(&midi, 0, 1, 1, 0), 0);
    // 1.2 s into the first segment the estimate is 576, past the boundary
    assert_eq!(clock.current_tick(&midi, 1_200_000, 1, 1, 0), 576);
    assert_eq!(clock.current_tick(&midi, 1_200_000, 1, 1, 0), 480);
}

#[test]
fn preroll_start_attributes_time_to_the_first_segment() {
    // a clock started in the pre-roll region resolves the synthetic
    // earliest-tick entry, clamped to segment start 0, so pre-roll time
    // counts into the first real segment
    let tracks = vec![vec![tempo(0, 500_000)]];
    let (midi, _) = MIDI::from_events(480, &tracks).unwrap();
    let mut clock = PlaybackClock::new(-1000, 0);
    assert_eq!(clock.current_tick(&midi, 0, 1, 1, -1000), 0);
    assert_eq!(clock.current_tick(&midi, 250_000, 1, 1, -1000), 240);
}

#[test]
fn zero_speed_freezes_the_clock() {
    let tracks = vec![vec![tempo(0, 500_000)]];
    let (midi, _) = MIDI::from_events(480, &tracks).unwrap();
    let mut clock = PlaybackClock::new(0, 0);
    assert_eq!(clock.current_tick(&midi, 0, 1, 1, 0), 0);
    assert_eq!(clock.current_tick(&midi, 10_000_000, 0, 1, 0), 0);
}

#[test]
fn fractional_speed_scales_elapsed_time() {
    // speed 1/2: one second of wall time advances half a second of music
    let tracks = vec![vec![tempo(0, 500_000)]];
    let (midi, _) = MIDI::from_events(480, &tracks).unwrap();
    let mut clock = PlaybackClock::new(0, 0);
    assert_eq!(clock.current_tick(&midi, 0, 1, 2, 0), 0);
    assert_eq!(clock.current_tick(&midi, 1_000_000, 1, 2, 0), 480);
}

#[test]
fn tick_division_truncates_toward_zero() {
    let tracks = vec![vec![tempo(0, 500_000)]];
    let (midi, _) = MIDI::from_events(480, &tracks).unwrap();
    let mut clock = PlaybackClock::new(0, 0);
    // 499 ms * 480 / 500000 µs = 479.04 → 479
    assert_eq!(clock.current_tick(&midi, 499_000, 1, 1, 0), 479);
}

#[test]
fn overlong_elapsed_time_saturates() {
    let tracks = vec![vec![tempo(0, 1)]];
    let (midi, _) = MIDI::from_events(32_767, &tracks).unwrap();
    let mut clock = PlaybackClock::new(0, 0);
    let t = clock.current_tick(&midi, i64::MAX, u32::MAX, 1, 0);
    assert_eq!(t, i64::MAX);
}

#[test]
fn is_finished_compares_against_length() {
    let tracks = vec![vec![TimedEvent { delta: 960, kind: EventKind::EndOfTrack }]];
    let (midi, _) = MIDI::from_events(480, &tracks).unwrap();
    assert!(!midi.is_finished(959));
    assert!(midi.is_finished(960));
    assert!(midi.is_finished(961));
}
