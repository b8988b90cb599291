//! The decoded event stream that ingest consumes: plain (delta, kind) pairs,
//! one ordered sequence per stream, sharing one absolute tick coordinate
//! space once each stream's deltas are accumulated.

use vstd::prelude::*;

verus! {

/// One event kind of the stream. Anything the timeline does not care about
/// is `Other` and is ignored by ingest.
#[derive(Debug, Clone, Copy, PartialEq, Eq, Structural)]
pub enum EventKind {
    /// Press of `key` with velocity `vel`; a velocity of 0 is a semantic
    /// note-off.
    NoteOn { key: u8, vel: u8 },
    /// Release of `key`.
    NoteOff { key: u8, vel: u8 },
    /// From this event's tick on, `mspq` microseconds per quarter note.
    TempoChange { mspq: u32 },
    /// Marks the end offset of the stream that carries it.
    EndOfTrack,
    /// Any other event; ignored.
    Other,
}

/// One event of a stream: its kind, and how many ticks after the previous
/// event of the same stream it fires.
#[derive(Debug, Clone, Copy, PartialEq, Eq, Structural)]
pub struct TimedEvent {
    pub delta: u32,
    pub kind: EventKind,
}

impl TimedEvent {
    /// The ranges the decoder guarantees: keys and velocities are 7-bit,
    /// tempo values 24-bit.
    pub open spec fn valid(self) -> bool {
        match self.kind {
            EventKind::NoteOn { key, vel } => key <= 127 && vel <= 127,
            EventKind::NoteOff { key, vel } => key <= 127 && vel <= 127,
            EventKind::TempoChange { mspq } => mspq <= 0xFF_FFFF,
            EventKind::EndOfTrack => true,
            EventKind::Other => true,
        }
    }
}

/// Validity of one stream.
pub open spec fn stream_valid(events: Seq<TimedEvent>) -> bool {
    forall|i: int| 0 <= i < events.len() ==> #[trigger] events[i].valid()
}

/// Validity of a whole set of streams.
pub open spec fn streams_valid(tracks: Seq<Seq<TimedEvent>>) -> bool {
    forall|i: int| 0 <= i < tracks.len() ==> #[trigger] stream_valid(tracks[i])
}

/// The mathematical content of a set of streams held in vectors.
pub open spec fn views(tracks: Seq<Vec<TimedEvent>>) -> Seq<Seq<TimedEvent>> {
    Seq::new(tracks.len(), |i: int| tracks[i]@)
}

/// The fatal ingest errors: playback never starts after one of these.
#[derive(Debug, Clone, Copy, PartialEq, Eq, Structural)]
pub enum FormatError {
    /// The timing division is not expressed in pulses per quarter note in
    /// the supported range `1..=32767`.
    UnsupportedTiming,
    /// A tempo event declared 0 microseconds per quarter note, which no
    /// clock could divide by.
    InvalidTempo,
    /// An accumulated stream offset left the representable tick range.
    TickOverflow,
}

} // verus!
