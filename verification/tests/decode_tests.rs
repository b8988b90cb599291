//! The decoder boundary: ingesting parsed standard MIDI files through the
//! real decoder crate.

use midi_timeline::events::FormatError;
use midi_timeline::midi::MIDI;

use midly::num::{u15, u24, u28, u4, u7};
use midly::{Format, Header, MetaMessage, MidiMessage, Smf, Timing, TrackEvent, TrackEventKind};

fn note_on(delta: u32, key: u8, vel: u8) -> TrackEvent<'static> {
    TrackEvent {
        delta: u28::new(delta),
        kind: TrackEventKind::Midi {
            channel: u4::new(0),
            message: MidiMessage::NoteOn { key: u7::new(key), vel: u7::new(vel) },
        },
    }
}

fn note_off(delta: u32, key: u8) -> TrackEvent<'static> {
    TrackEvent {
        delta: u28::new(delta),
        kind: TrackEventKind::Midi {
            channel: u4::new(0),
            message: MidiMessage::NoteOff { key: u7::new(key), vel: u7::new(0) },
        },
    }
}

fn tempo(delta: u32, mspq: u32) -> TrackEvent<'static> {
    TrackEvent {
        delta: u28::new(delta),
        kind: TrackEventKind::Meta(MetaMessage::Tempo(u24::new(mspq))),
    }
}

fn end_of_track(delta: u32) -> TrackEvent<'static> {
    TrackEvent { delta: u28::new(delta), kind: TrackEventKind::Meta(MetaMessage::EndOfTrack) }
}

#[test]
fn from_midi_ingests_a_parsed_file() {
    let smf = Smf {
        header: Header::new(Format::SingleTrack, Timing::Metrical(u15::new(480))),
        tracks: vec![vec![
            tempo(0, 600_000),
            note_on(0, 60, 64),
            note_off(480, 60),
            end_of_track(20),
        ]],
    };
    let (midi, warn) = MIDI::from_midi(&smf).unwrap();
    assert!(!warn);
    assert_eq!(midi.ppq, 480);
    assert_eq!(midi.length, 500);
    assert_eq!(midi.mspq.entries, vec![(i64::MIN, 500_000), (0, 600_000)]);
    let notes = &midi.tracks[0].notes;
    assert_eq!(notes.len(), 1);
    assert_eq!((notes[0].start_tick, notes[0].duration, notes[0].key), (0, 480, 60));
}

#[test]
fn from_midi_treats_velocity_zero_as_off() {
    let smf = Smf {
        header: Header::new(Format::SingleTrack, Timing::Metrical(u15::new(96))),
        tracks: vec![vec![note_on(0, 40, 64), note_on(100, 40, 0)]],
    };
    let (midi, warn) = MIDI::from_midi(&smf).unwrap();
    assert!(warn);
    let notes = &midi.tracks[0].notes;
    assert_eq!((notes[0].start_tick, notes[0].duration, notes[0].key), (0, 100, 40));
}

#[test]
fn from_midi_rejects_timecode_timing() {
    let smf = Smf {
        header: Header::new(
            Format::SingleTrack,
            Timing::Timecode(midly::Fps::Fps24, 4),
        ),
        tracks: vec![vec![end_of_track(0)]],
    };
    assert!(matches!(MIDI::from_midi(&smf), Err(FormatError::UnsupportedTiming)));
}

#[test]
fn from_midi_rejects_zero_ppq() {
    let smf = Smf {
        header: Header::new(Format::SingleTrack, Timing::Metrical(u15::new(0))),
        tracks: vec![],
    };
    assert!(matches!(MIDI::from_midi(&smf), Err(FormatError::UnsupportedTiming)));
}

#[test]
fn from_midi_rejects_zero_tempo() {
    let smf = Smf {
        header: Header::new(Format::SingleTrack, Timing::Metrical(u15::new(480))),
        tracks: vec![vec![tempo(0, 0)]],
    };
    assert!(matches!(MIDI::from_midi(&smf), Err(FormatError::InvalidTempo)));
}

#[test]
fn from_midi_on_parsed_bytes() {
    // a minimal two-event file, parsed by the real decoder:
    // header: MThd, format 0, one track, division 96;
    // track: MTrk with NoteOn(60,64)@0, NoteOff(60,0)@+96, EndOfTrack
    let bytes: Vec<u8> = vec![
        0x4D, 0x54, 0x68, 0x64, // MThd
        0x00, 0x00, 0x00, 0x06, // header length 6
        0x00, 0x00, // format 0
        0x00, 0x01, // one track
        0x00, 0x60, // division: 96 ppq
        0x4D, 0x54, 0x72, 0x6B, // MTrk
        0x00, 0x00, 0x00, 0x0C, // track length 12
        0x00, 0x90, 0x3C, 0x40, // delta 0, NoteOn ch0 key 60 vel 64
        0x60, 0x80, 0x3C, 0x00, // delta 96, NoteOff ch0 key 60 vel 0
        0x00, 0xFF, 0x2F, 0x00, // delta 0, EndOfTrack
    ];
    let smf = Smf::parse(&bytes).unwrap();
    let (midi, warn) = MIDI::from_midi(&smf).unwrap();
    assert!(warn);
    assert_eq!(midi.ppq, 96);
    assert_eq!(midi.length, 96);
    let notes = &midi.tracks[0].notes;
    assert_eq!(notes.len(), 1);
    assert_eq!((notes[0].start_tick, notes[0].duration, notes[0].key), (0, 96, 60));
}
