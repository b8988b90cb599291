//! Event ingest: one scan over every stream turns (delta, event) pairs
//! into completed notes, the global tempo map and the timeline length.
//!
//! The scan is specified as a fold (`scan_step` per event, `scan_events`
//! per stream, `ingest_all` over all streams); the executable
//! [`crate::midi::MIDI::from_events`] is proved to compute exactly that
//! fold.

use vstd::prelude::*;

use crate::events::{views, EventKind, FormatError, TimedEvent};
use crate::events::{stream_valid, streams_valid};
use crate::midi::{Track, MIDI};
use crate::note::Note;
use crate::tempo::DEFAULT_MSPQ;

verus! {

/// The scan state while ingesting one stream: the running tick offset,
/// the pressed keys with their press ticks, the notes completed so far on
/// this stream, and the piece-global tempo map, length, diagnostics and
/// first error.
pub ghost struct ScanState {
    /// Running tick offset of this stream.
    pub offset: int,
    /// key → tick at which it was pressed.
    pub pressed: Map<int, int>,
    /// Completed notes of this stream, in completion order.
    pub notes: Seq<Note>,
    /// The global tempo map: tick → microseconds per quarter note.
    pub tempo: Map<int, int>,
    /// Timeline length; `i64::MAX` as the unbounded sentinel.
    pub length: int,
    /// Whether any tempo event has been seen anywhere.
    pub saw_tempo: bool,
    /// Whether some note was closed on the very tick of its press, so a
    /// zero-duration note was emitted.
    pub zero_close: bool,
    /// The first fatal error, if any; once set, the scan changes nothing.
    pub error: Option<FormatError>,
}

/// The note a close at `off` completes for a press of `key` at `start`.
pub open spec fn completed_note(start: int, off: int, key: u8) -> Note {
    Note {
        start_tick: start as i64,
        duration: (off - start) as i64,
        key,
        pressed: false,
        pressed_ticks: 0,
    }
}

/// A note-off (or velocity-0 note-on) for `key` at offset `off`: emit the
/// completed note if the key is pressed, else ignore the stray off.
pub open spec fn close_key(s: ScanState, off: int, key: u8) -> ScanState {
    if s.pressed.dom().contains(key as int) {
        let start = s.pressed[key as int];
        ScanState {
            offset: off,
            pressed: s.pressed.remove(key as int),
            notes: s.notes.push(completed_note(start, off, key)),
            zero_close: s.zero_close || start == off,
            ..s
        }
    } else {
        ScanState { offset: off, ..s }
    }
}

/// One event of the scan. The delta always advances the offset first; an
/// offset beyond the representable tick range is the fatal
/// `TickOverflow`. A velocity-0 note-on is treated exactly as a note-off.
/// A note-on for an already pressed key (retrigger) closes the earlier
/// note before recording the new press. A tempo of 0 is the fatal
/// `InvalidTempo`; any other tempo event is inserted into the global map,
/// last write winning. An end-of-track records the stream's end offset as
/// the timeline length, later streams overwriting earlier ones.
pub open spec fn scan_step(s: ScanState, e: TimedEvent) -> ScanState {
    if s.error is Some {
        s
    } else {
        let off = s.offset + e.delta;
        if off > i64::MAX {
            ScanState { error: Some(FormatError::TickOverflow), ..s }
        } else {
            match e.kind {
                EventKind::NoteOn { key, vel } => {
                    if vel > 0 {
                        if s.pressed.dom().contains(key as int) {
                            let start = s.pressed[key as int];
                            ScanState {
                                offset: off,
                                pressed: s.pressed.insert(key as int, off),
                                notes: s.notes.push(completed_note(start, off, key)),
                                zero_close: s.zero_close || start == off,
                                ..s
                            }
                        } else {
                            ScanState {
                                offset: off,
                                pressed: s.pressed.insert(key as int, off),
                                ..s
                            }
                        }
                    } else {
                        close_key(s, off, key)
                    }
                },
                EventKind::NoteOff { key, vel: _ } => close_key(s, off, key),
                EventKind::TempoChange { mspq } => {
                    if mspq == 0 {
                        ScanState { error: Some(FormatError::InvalidTempo), ..s }
                    } else {
                        ScanState {
                            offset: off,
                            tempo: s.tempo.insert(off, mspq as int),
                            saw_tempo: true,
                            ..s
                        }
                    }
                },
                EventKind::EndOfTrack => ScanState { offset: off, length: off, ..s },
                EventKind::Other => ScanState { offset: off, ..s },
            }
        }
    }
}

/// The scan of one stream: `scan_step` folded over its events in order.
pub open spec fn scan_events(events: Seq<TimedEvent>, init: ScanState) -> ScanState
    decreases events.len(),
{
    if events.len() == 0 {
        init
    } else {
        scan_step(scan_events(events.drop_last(), init), events.last())
    }
}

/// The piece-global state between streams.
pub ghost struct IngestState {
    pub tempo: Map<int, int>,
    pub length: int,
    /// One completed-note sequence per stream, in stream order.
    pub notes: Seq<Seq<Note>>,
    pub saw_tempo: bool,
    pub zero_close: bool,
    pub error: Option<FormatError>,
}

/// Before any stream: the synthetic default tempo entry, the unbounded
/// length sentinel, no notes.
pub open spec fn ingest_init() -> IngestState {
    IngestState {
        tempo: Map::<int, int>::empty().insert(i64::MIN as int, DEFAULT_MSPQ as int),
        length: i64::MAX as int,
        notes: Seq::empty(),
        saw_tempo: false,
        zero_close: false,
        error: None,
    }
}

/// The scan state a fresh stream starts from: offset 0, nothing pressed,
/// the global fields carried over.
pub open spec fn track_start(g: IngestState) -> ScanState {
    ScanState {
        offset: 0,
        pressed: Map::empty(),
        notes: Seq::empty(),
        tempo: g.tempo,
        length: g.length,
        saw_tempo: g.saw_tempo,
        zero_close: g.zero_close,
        error: g.error,
    }
}

/// Ingest one stream: scan it, append its notes, and carry the global
/// fields on. Presses still pending when the stream ends are dropped.
pub open spec fn ingest_track(g: IngestState, events: Seq<TimedEvent>) -> IngestState {
    let s = scan_events(events, track_start(g));
    IngestState {
        tempo: s.tempo,
        length: s.length,
        notes: g.notes.push(s.notes),
        saw_tempo: s.saw_tempo,
        zero_close: s.zero_close,
        error: s.error,
    }
}

/// Ingest from a given global state, stream by stream.
pub open spec fn ingest_from(tracks: Seq<Seq<TimedEvent>>, g: IngestState) -> IngestState
    decreases tracks.len(),
{
    if tracks.len() == 0 {
        g
    } else {
        ingest_track(ingest_from(tracks.drop_last(), g), tracks.last())
    }
}

/// The whole ingest of a set of streams.
pub open spec fn ingest_all(tracks: Seq<Seq<TimedEvent>>) -> IngestState {
    ingest_from(tracks, ingest_init())
}

/// An errored scan state is frozen: no later event changes it.
pub proof fn lemma_scan_keeps_error(events: Seq<TimedEvent>, init: ScanState)
    requires
        init.error is Some,
    ensures
        scan_events(events, init) == init,
    decreases events.len(),
{
    if events.len() > 0 {
        lemma_scan_keeps_error(events.drop_last(), init);
    }
}

/// Scanning a concatenation scans the parts in order.
pub proof fn lemma_scan_append(a: Seq<TimedEvent>, b: Seq<TimedEvent>, init: ScanState)
    ensures
        scan_events(a + b, init) == scan_events(b, scan_events(a, init)),
    decreases b.len(),
{
    if b.len() == 0 {
        assert(a + b =~= a);
    } else {
        assert((a + b).drop_last() =~= a + b.drop_last());
        assert((a + b).last() == b.last());
        lemma_scan_append(a, b.drop_last(), init);
    }
}

/// An errored global state keeps its error through any further streams.
pub proof fn lemma_ingest_keeps_error(tracks: Seq<Seq<TimedEvent>>, g: IngestState)
    requires
        g.error is Some,
    ensures
        ingest_from(tracks, g).error == g.error,
        ingest_from(tracks, g).tempo == g.tempo,
        ingest_from(tracks, g).saw_tempo == g.saw_tempo,
    decreases tracks.len(),
{
    if tracks.len() > 0 {
        lemma_ingest_keeps_error(tracks.drop_last(), g);
        let g2 = ingest_from(tracks.drop_last(), g);
        lemma_scan_keeps_error(tracks.last(), track_start(g2));
    }
}

/// Ingesting a concatenation ingests the parts in order.
pub proof fn lemma_ingest_append(a: Seq<Seq<TimedEvent>>, b: Seq<Seq<TimedEvent>>, g: IngestState)
    ensures
        ingest_from(a + b, g) == ingest_from(b, ingest_from(a, g)),
    decreases b.len(),
{
    if b.len() == 0 {
        assert(a + b =~= a);
    } else {
        assert((a + b).drop_last() =~= a + b.drop_last());
        assert((a + b).last() == b.last());
        lemma_ingest_append(a, b.drop_last(), g);
    }
}

/// The scan invariant behind the note laws: the offset never runs
/// backwards or out of range, presses lie between 0 and the offset, every
/// completed note is well-formed, and durations are positive unless a
/// same-tick close happened.
pub open spec fn scan_wf(s: ScanState) -> bool {
    &&& 0 <= s.offset <= i64::MAX
    &&& forall|k: int| s.pressed.dom().contains(k) ==> 0 <= #[trigger] s.pressed[k] <= s.offset
    &&& forall|i: int| 0 <= i < s.notes.len() ==> (#[trigger] s.notes[i]).wf()
    &&& !s.zero_close ==> forall|i: int|
        0 <= i < s.notes.len() ==> (#[trigger] s.notes[i]).duration > 0
}

/// One step preserves the scan invariant, and never clears `zero_close`.
pub proof fn lemma_scan_step_wf(s: ScanState, e: TimedEvent)
    requires
        scan_wf(s),
        e.valid(),
    ensures
        scan_wf(scan_step(s, e)),
        s.zero_close ==> scan_step(s, e).zero_close,
{
}

/// A whole stream's scan preserves the scan invariant.
pub proof fn lemma_scan_wf(events: Seq<TimedEvent>, init: ScanState)
    requires
        scan_wf(init),
        stream_valid(events),
    ensures
        scan_wf(scan_events(events, init)),
        init.zero_close ==> scan_events(events, init).zero_close,
    decreases events.len(),
{
    if events.len() > 0 {
        assert(stream_valid(events.drop_last())) by {
            assert(forall|i: int|
                0 <= i < events.drop_last().len() ==> events.drop_last()[i] == events[i]);
        }
        lemma_scan_wf(events.drop_last(), init);
        assert(events.last().valid()) by {
            assert(events[events.len() - 1].valid());
        }
        lemma_scan_step_wf(scan_events(events.drop_last(), init), events.last());
    }
}

/// The global counterpart of the scan invariant.
pub open spec fn ingest_wf(g: IngestState) -> bool {
    &&& forall|i: int, j: int|
        0 <= i < g.notes.len() && 0 <= j < g.notes[i].len() ==> (#[trigger] g.notes[i][j]).wf()
    &&& !g.zero_close ==> forall|i: int, j: int|
        0 <= i < g.notes.len() && 0 <= j < g.notes[i].len() ==> (#[trigger] g.notes[i][j]).duration
            > 0
}

/// Law: every note ingest emits is well-formed — its start tick is
/// non-negative, its duration non-negative, its key at most 127, and its
/// end `start + duration` a representable tick. Moreover every duration is
/// strictly positive, unless the input closed some note on the very tick
/// of its press (`zero_close`): a stream that presses and releases a key
/// on one tick yields that one note with duration 0.
pub proof fn lemma_ingested_notes_wf(tracks: Seq<Seq<TimedEvent>>)
    requires
        streams_valid(tracks),
    ensures
        ingest_wf(ingest_all(tracks)),
    decreases tracks.len(),
{
    if tracks.len() > 0 {
        assert(streams_valid(tracks.drop_last())) by {
            assert(forall|i: int|
                0 <= i < tracks.drop_last().len() ==> tracks.drop_last()[i] == tracks[i]);
        }
        lemma_ingested_notes_wf(tracks.drop_last());
        let g = ingest_from(tracks.drop_last(), ingest_init());
        let events = tracks.last();
        assert(stream_valid(events)) by {
            assert(stream_valid(tracks[tracks.len() - 1]));
        }
        assert(scan_wf(track_start(g)));
        lemma_scan_wf(events, track_start(g));
        let s = scan_events(events, track_start(g));
        let g2 = ingest_track(g, events);
        assert forall|i: int, j: int|
            0 <= i < g2.notes.len() && 0 <= j < g2.notes[i].len() implies (#[trigger] (g2.notes[i][j])).wf() by {
            if i < g.notes.len() {
                assert(g2.notes[i] == g.notes[i]);
                assert(g.notes[i][j].wf());
            } else {
                assert(g2.notes[i] == s.notes);
            }
        }
        if !g2.zero_close {
            assert(!g.zero_close);
            assert forall|i: int, j: int|
                0 <= i < g2.notes.len() && 0 <= j < g2.notes[i].len() implies (#[trigger] (g2.notes[i][j])).duration > 0 by {
                if i < g.notes.len() {
                    assert(g2.notes[i] == g.notes[i]);
                    assert(g.notes[i][j].duration > 0);
                } else {
                    assert(g2.notes[i] == s.notes);
                }
            }
        }
    }
}

/// Law: retrigger. A note-on with positive velocity for a key already
/// pressed at tick T1, arriving at tick T2 with no intervening off,
/// completes the earlier note as `Note { start: T1, duration: T2 - T1,
/// key }` and records the new press at T2. The earlier note is closed, not
/// lost.
pub proof fn lemma_retrigger(s: ScanState, e: TimedEvent, key: u8, vel: u8)
    requires
        s.error is None,
        e.kind == (EventKind::NoteOn { key, vel }),
        vel > 0,
        s.pressed.dom().contains(key as int),
        s.offset + e.delta <= i64::MAX,
    ensures
        scan_step(s, e).notes == s.notes.push(
            completed_note(s.pressed[key as int], s.offset + e.delta, key),
        ),
        scan_step(s, e).pressed == s.pressed.insert(key as int, s.offset + e.delta),
        scan_step(s, e).offset == s.offset + e.delta,
{
}

/// The 128-slot press table as a map: slot `k` holds the press tick of key
/// `k`, or `-1` while the key is not pressed.
pub open spec fn pressed_view(v: Seq<i64>) -> Map<int, int> {
    Map::new(|k: int| 0 <= k < v.len() && v[k] >= 0, |k: int| v[k] as int)
}

/// What `from_events` returns, for every input: a timing division outside
/// `1..=32767` is rejected; the first scan error is reported; otherwise the
/// result is exactly the ingest fold — the notes of each stream in
/// completion order, the folded tempo map and length, and the no-tempo
/// diagnostic flag.
pub open spec fn ingest_post(
    ppq: u16,
    tracks: Seq<Seq<TimedEvent>>,
    r: Result<(MIDI, bool), FormatError>,
) -> bool {
    if ppq == 0 || ppq > 32767 {
        r == Err::<(MIDI, bool), FormatError>(FormatError::UnsupportedTiming)
    } else {
        let g = ingest_all(tracks);
        match g.error {
            Some(e) => r == Err::<(MIDI, bool), FormatError>(e),
            None => {
                &&& r is Ok
                &&& r matches Ok(p) ==> {
                    &&& p.0.wf()
                    &&& p.0.ppq == ppq
                    &&& p.0.length == g.length
                    &&& p.0.mspq.to_map() == g.tempo
                    &&& p.0.tracks@.len() == tracks.len()
                    &&& forall|i: int|
                        0 <= i < tracks.len() ==> (#[trigger] p.0.tracks@[i]).notes@ == g.notes[i]
                    &&& p.1 == !g.saw_tempo
                }
            },
        }
    }
}

impl MIDI {
    /// Ingest a decoded event-stream set under timing division `ppq`.
    /// Returns the piece and the no-tempo diagnostic flag (true when no
    /// tempo event was found anywhere and the 120 BPM default applies), or
    /// the first fatal format error.
    #[verifier::loop_isolation(false)]
    pub fn from_events(ppq: u16, tracks: &Vec<Vec<TimedEvent>>) -> (r: Result<
        (MIDI, bool),
        FormatError,
    >)
        requires
            streams_valid(views(tracks@)),
        ensures
            ingest_post(ppq, views(tracks@), r),
    {
        let ghost vs = views(tracks@);
        if ppq == 0 || ppq > 32767 {
            return Err(FormatError::UnsupportedTiming);
        }
        let mut midi = MIDI::new(ppq);
        let mut saw_tempo: bool = false;
        let n = tracks.len();
        proof {
            assert(vs.take(0) =~= Seq::<Seq<TimedEvent>>::empty());
        }
        let mut ti: usize = 0;
        while ti < n
            invariant
                ti <= n,
                ({
                    let g = ingest_all(vs.take(ti as int));
                    &&& g.error is None
                    &&& g.notes.len() == ti
                    &&& midi.wf()
                    &&& midi.ppq == ppq
                    &&& midi.length == g.length
                    &&& midi.mspq.to_map() == g.tempo
                    &&& midi.tracks@.len() == ti
                    &&& forall|i: int|
                        0 <= i < ti ==> (#[trigger] midi.tracks@[i]).notes@ == g.notes[i]
                    &&& saw_tempo == g.saw_tempo
                }),
            decreases n - ti,
        {
            let ghost g0 = ingest_all(vs.take(ti as int));
            let tr: &Vec<TimedEvent> = &tracks[ti];
            proof {
                assert(vs[ti as int] == tr@);
                assert(stream_valid(tr@));
            }
            let ghost tracks_before = midi.tracks@;
            let scanned = ingest_stream(&mut midi, &mut saw_tempo, tr, Ghost(g0));
            let ghost g1 = ingest_track(g0, tr@);
            proof {
                assert(vs.take(ti as int + 1).drop_last() =~= vs.take(ti as int));
                assert(vs.take(ti as int + 1).last() == vs[ti as int]);
                assert(ingest_all(vs.take(ti as int + 1)) == g1);
            }
            match scanned {
                Ok(t) => {
                    midi.tracks.push(t);
                    proof {
                        assert forall|i: int| 0 <= i < ti + 1 implies (#[trigger] (midi.tracks@[i])).notes@ == g1.notes[i] by {
                            if i < ti {
                                assert(midi.tracks@[i] == tracks_before[i]);
                                assert(g1.notes[i] == g0.notes[i]);
                            }
                        }
                    }
                },
                Err(e) => {
                    proof {
                        assert(g1.error == Some(e));
                        assert(vs =~= vs.take(ti as int + 1) + vs.skip(ti as int + 1));
                        lemma_ingest_append(
                            vs.take(ti as int + 1),
                            vs.skip(ti as int + 1),
                            ingest_init(),
                        );
                        lemma_ingest_keeps_error(vs.skip(ti as int + 1), g1);
                    }
                    return Err(e);
                },
            }
            ti = ti + 1;
        }
        proof {
            assert(vs.take(n as int) =~= vs);
        }
        Ok((midi, !saw_tempo))
    }
}

/// Scan one stream, updating the piece-global tempo map, length and
/// no-tempo flag in place; the completed notes come back as a track, or
/// the stream's first fatal error.
#[verifier::loop_isolation(false)]
fn ingest_stream(
    midi: &mut MIDI,
    saw_tempo: &mut bool,
    tr: &Vec<TimedEvent>,
    Ghost(g0): Ghost<IngestState>,
) -> (r: Result<Track, FormatError>)
    requires
        stream_valid(tr@),
        g0.error is None,
        old(midi).wf(),
        old(midi).length == g0.length,
        old(midi).mspq.to_map() == g0.tempo,
        *old(saw_tempo) == g0.saw_tempo,
    ensures
        final(midi).wf(),
        final(midi).ppq == old(midi).ppq,
        final(midi).tracks@ == old(midi).tracks@,
        ({
            let s = scan_events(tr@, track_start(g0));
            match r {
                Ok(t) => {
                    &&& s.error is None
                    &&& t.notes@ == s.notes
                    &&& t.wf()
                    &&& final(midi).length == s.length
                    &&& final(midi).mspq.to_map() == s.tempo
                    &&& *final(saw_tempo) == s.saw_tempo
                },
                Err(e) => s.error == Some(e),
            }
        }),
{
    let ghost st0 = track_start(g0);
    proof {
        assert(tr@.take(0) =~= Seq::<TimedEvent>::empty());
    }
    let mut offset: i64 = 0;
    let mut pressed: Vec<i64> = Vec::new();
    let mut kk: usize = 0;
    while kk < 128
        invariant
            kk <= 128,
            pressed@.len() == kk,
            forall|k: int| 0 <= k < kk ==> #[trigger] pressed@[k] == -1,
        decreases 128 - kk,
    {
        pressed.push(-1);
        kk = kk + 1;
    }
    let mut tnotes: Vec<Note> = Vec::new();
    proof {
        assert(pressed_view(pressed@) =~= Map::<int, int>::empty());
    }
    let mut ei: usize = 0;
    while ei < tr.len()
        invariant
            ei <= tr@.len(),
            ({
                let s = scan_events(tr@.take(ei as int), st0);
                &&& s.error is None
                &&& s.offset == offset
                &&& 0 <= offset
                &&& pressed@.len() == 128
                &&& forall|k: int| 0 <= k < 128 ==> -1 <= #[trigger] pressed@[k] <= offset
                &&& pressed_view(pressed@) == s.pressed
                &&& tnotes@ == s.notes
                &&& forall|i: int| 0 <= i < tnotes@.len() ==> (#[trigger] tnotes@[i]).wf()
                &&& midi.wf()
                &&& midi.ppq == old(midi).ppq
                &&& midi.tracks@ == old(midi).tracks@
                &&& midi.length == s.length
                &&& midi.mspq.to_map() == s.tempo
                &&& *saw_tempo == s.saw_tempo
            }),
        decreases tr@.len() - ei,
    {
        let e = tr[ei];
        let ghost s_prev = scan_events(tr@.take(ei as int), st0);
        let ghost s_next = scan_events(tr@.take(ei as int + 1), st0);
        proof {
            assert(tr@.take(ei as int + 1).drop_last() =~= tr@.take(ei as int));
            assert(tr@.take(ei as int + 1).last() == tr@[ei as int]);
            assert(s_next == scan_step(s_prev, e));
            assert(tr@[ei as int].valid());
        }
        if offset > i64::MAX - (e.delta as i64) {
            proof {
                lemma_scan_error_latches(tr@, ei as int, st0, FormatError::TickOverflow);
            }
            return Err(FormatError::TickOverflow);
        }
        offset = offset + (e.delta as i64);
        match e.kind {
            EventKind::NoteOn { key, vel } => {
                let k = key as usize;
                proof {
                    assert(s_prev.pressed.dom().contains(k as int) <==> pressed@[k as int] >= 0);
                }
                if vel > 0 {
                    if pressed[k] >= 0 {
                        let start = pressed[k];
                        tnotes.push(Note::new(start, offset - start, key));
                        pressed.set(k, offset);
                        proof {
                            assert(pressed_view(pressed@) =~= s_next.pressed);
                        }
                    } else {
                        pressed.set(k, offset);
                        proof {
                            assert(pressed_view(pressed@) =~= s_next.pressed);
                        }
                    }
                } else {
                    if pressed[k] >= 0 {
                        let start = pressed[k];
                        tnotes.push(Note::new(start, offset - start, key));
                        pressed.set(k, -1);
                        proof {
                            assert(pressed_view(pressed@) =~= s_next.pressed);
                        }
                    }
                }
            },
            EventKind::NoteOff { key, vel: _ } => {
                let k = key as usize;
                proof {
                    assert(s_prev.pressed.dom().contains(k as int) <==> pressed@[k as int] >= 0);
                }
                if pressed[k] >= 0 {
                    let start = pressed[k];
                    tnotes.push(Note::new(start, offset - start, key));
                    pressed.set(k, -1);
                    proof {
                        assert(pressed_view(pressed@) =~= s_next.pressed);
                    }
                }
            },
            EventKind::TempoChange { mspq } => {
                if mspq == 0 {
                    proof {
                        lemma_scan_error_latches(tr@, ei as int, st0, FormatError::InvalidTempo);
                    }
                    return Err(FormatError::InvalidTempo);
                }
                midi.mspq.insert(offset, mspq);
                *saw_tempo = true;
            },
            EventKind::EndOfTrack => {
                midi.length = offset;
            },
            EventKind::Other => {},
        }
        ei = ei + 1;
    }
    proof {
        assert(tr@.take(tr@.len() as int) =~= tr@);
    }
    Ok(Track { notes: tnotes })
}

/// An error raised at event `ei` of a stream is the error of the whole
/// stream's scan: later events keep it.
proof fn lemma_scan_error_latches(tr: Seq<TimedEvent>, ei: int, st0: ScanState, e: FormatError)
    requires
        0 <= ei < tr.len(),
        scan_events(tr.take(ei + 1), st0).error == Some(e),
    ensures
        scan_events(tr, st0).error == Some(e),
{
    let s_err = scan_events(tr.take(ei + 1), st0);
    assert(tr =~= tr.take(ei + 1) + tr.skip(ei + 1));
    lemma_scan_append(tr.take(ei + 1), tr.skip(ei + 1), st0);
    lemma_scan_keeps_error(tr.skip(ei + 1), s_err);
}

/// No stream declares a tempo.
pub open spec fn has_tempo_event(tracks: Seq<Seq<TimedEvent>>) -> bool {
    exists|i: int, j: int|
        0 <= i < tracks.len() && 0 <= j < tracks[i].len() && (#[trigger] tracks[i][j]).kind matches
            EventKind::TempoChange { .. }
}

/// A stream's scan without tempo events leaves the tempo map alone.
proof fn lemma_scan_no_tempo(events: Seq<TimedEvent>, init: ScanState)
    requires
        forall|j: int|
            0 <= j < events.len() ==> !((#[trigger] events[j]).kind matches EventKind::TempoChange {
                ..
            }),
    ensures
        scan_events(events, init).tempo == init.tempo,
        scan_events(events, init).saw_tempo == init.saw_tempo,
    decreases events.len(),
{
    if events.len() > 0 {
        assert(forall|j: int|
            0 <= j < events.drop_last().len() ==> events.drop_last()[j] == events[j]);
        lemma_scan_no_tempo(events.drop_last(), init);
        assert(!(events[events.len() - 1].kind matches EventKind::TempoChange { .. }));
    }
}

/// Law: a set of streams with zero tempo events produces exactly the
/// synthetic default tempo map — one entry, effective from the earliest
/// tick, of 500,000 µs per quarter note — and the no-tempo diagnostic.
pub proof fn lemma_default_tempo(tracks: Seq<Seq<TimedEvent>>)
    requires
        !has_tempo_event(tracks),
    ensures
        ingest_all(tracks).tempo == Map::<int, int>::empty().insert(
            i64::MIN as int,
            DEFAULT_MSPQ as int,
        ),
        !ingest_all(tracks).saw_tempo,
    decreases tracks.len(),
{
    if tracks.len() > 0 {
        assert(!has_tempo_event(tracks.drop_last())) by {
            assert(forall|i: int|
                0 <= i < tracks.drop_last().len() ==> tracks.drop_last()[i] == tracks[i]);
        }
        lemma_default_tempo(tracks.drop_last());
        let g = ingest_from(tracks.drop_last(), ingest_init());
        assert(forall|j: int|
            0 <= j < tracks.last().len() ==> !((#[trigger] tracks.last()[j]).kind matches
                EventKind::TempoChange { .. })) by {
            assert(forall|j: int|
                0 <= j < tracks[tracks.len() - 1].len() ==> tracks[tracks.len() - 1][j]
                    == tracks.last()[j]);
        }
        lemma_scan_no_tempo(tracks.last(), track_start(g));
    }
}

} // verus!
