//! Boundary to the external binary event-stream decoder (the `midly`
//! crate). A parsed standard MIDI file is opaque to verification; the
//! trusted accessors below hand its timing division and its decoded
//! events over as plain values, and `from_midi` feeds them to the fully
//! verified ingest.

use vstd::prelude::*;

use crate::events::{stream_valid, streams_valid, views, EventKind, FormatError, TimedEvent};
use crate::ingest::ingest_post;
use crate::midi::MIDI;

verus! {

#[verifier::external_type_specification]
#[verifier::external_body]
pub struct ExSmf<'a>(midly::Smf<'a>);

/// The decoded event streams of a parsed file, one sequence per track, as
/// the plain events ingest consumes.
pub uninterp spec fn smf_tracks(smf: midly::Smf) -> Seq<Seq<TimedEvent>>;

/// The file's timing division: the pulses-per-quarter-note value when it
/// is metrical, `None` otherwise.
pub uninterp spec fn smf_timing(smf: midly::Smf) -> Option<u16>;

/// Relies on midly::Header::timing: `Timing::Metrical(ppq)` holds a `u15`,
/// so a metrical division is at most 32767.
#[verifier::external_body]
fn timing_ppq(smf: &midly::Smf) -> (r: Option<u16>)
    ensures
        r == smf_timing(*smf),
        r matches Some(p) ==> p <= 32767,
{
    match smf.header.timing {
        midly::Timing::Metrical(ppq) => Some(u16::from(ppq)),
        _ => None,
    }
}

/// Relies on midly::Smf::tracks: the list of decoded tracks.
#[verifier::external_body]
fn track_count(smf: &midly::Smf) -> (r: usize)
    ensures
        r == smf_tracks(*smf).len(),
{
    smf.tracks.len()
}

/// Relies on midly::Smf::tracks: each track is a vector of its events.
#[verifier::external_body]
fn track_event_count(smf: &midly::Smf, i: usize) -> (r: usize)
    requires
        i < smf_tracks(*smf).len(),
    ensures
        r == smf_tracks(*smf)[i as int].len(),
{
    smf.tracks[i].len()
}

/// Relies on midly's event model: a track event is a `u28` delta and a
/// kind, with `u7` keys and velocities (at most 127) and `u24` tempo
/// values (at most 0xFF_FFFF) — midly's restricted integers are masked on
/// construction, so the values read out are always in range.
#[verifier::external_body]
fn event_at(smf: &midly::Smf, i: usize, j: usize) -> (r: TimedEvent)
    requires
        i < smf_tracks(*smf).len(),
        j < smf_tracks(*smf)[i as int].len(),
    ensures
        r == smf_tracks(*smf)[i as int][j as int],
        r.valid(),
{
    let ev = &smf.tracks[i][j];
    let kind = match ev.kind {
        midly::TrackEventKind::Midi { message: midly::MidiMessage::NoteOn { key, vel }, .. } => {
            EventKind::NoteOn { key: u8::from(key), vel: u8::from(vel) }
        },
        midly::TrackEventKind::Midi { message: midly::MidiMessage::NoteOff { key, vel }, .. } => {
            EventKind::NoteOff { key: u8::from(key), vel: u8::from(vel) }
        },
        midly::TrackEventKind::Meta(midly::MetaMessage::Tempo(t)) => {
            EventKind::TempoChange { mspq: u32::from(t) }
        },
        midly::TrackEventKind::Meta(midly::MetaMessage::EndOfTrack) => EventKind::EndOfTrack,
        _ => EventKind::Other,
    };
    TimedEvent { delta: u32::from(ev.delta), kind }
}

impl MIDI {
    /// Ingest a parsed standard MIDI file: reject a non-metrical timing
    /// division, then run the verified ingest over the decoded event
    /// streams. Returns the piece and the no-tempo diagnostic flag, or the
    /// first fatal format error.
    #[verifier::loop_isolation(false)]
    pub fn from_midi(smf: &midly::Smf) -> (r: Result<(MIDI, bool), FormatError>)
        ensures
            match smf_timing(*smf) {
                None => r == Err::<(MIDI, bool), FormatError>(FormatError::UnsupportedTiming),
                Some(ppq) => ingest_post(ppq, smf_tracks(*smf), r),
            },
    {
        let ppq = match timing_ppq(smf) {
            Some(p) => p,
            None => {
                return Err(FormatError::UnsupportedTiming);
            },
        };
        let n = track_count(smf);
        let mut evtracks: Vec<Vec<TimedEvent>> = Vec::new();
        let mut i: usize = 0;
        while i < n
            invariant
                i <= n,
                evtracks@.len() == i,
                forall|a: int| 0 <= a < i ==> (#[trigger] evtracks@[a])@ == smf_tracks(*smf)[a],
                forall|a: int| 0 <= a < i ==> stream_valid((#[trigger] evtracks@[a])@),
            decreases n - i,
        {
            let m = track_event_count(smf, i);
            let mut evs: Vec<TimedEvent> = Vec::new();
            let mut j: usize = 0;
            while j < m
                invariant
                    j <= m,
                    evs@.len() == j,
                    forall|b: int| 0 <= b < j ==> #[trigger] evs@[b] == smf_tracks(*smf)[i as int][b],
                    forall|b: int| 0 <= b < j ==> (#[trigger] evs@[b]).valid(),
                decreases m - j,
            {
                let e = event_at(smf, i, j);
                evs.push(e);
                j = j + 1;
            }
            proof {
                assert(evs@ =~= smf_tracks(*smf)[i as int]);
            }
            evtracks.push(evs);
            i = i + 1;
        }
        proof {
            assert(views(evtracks@) =~= smf_tracks(*smf));
            assert(streams_valid(views(evtracks@)));
        }
        MIDI::from_events(ppq, &evtracks)
    }
}

} // verus!
