//! The ingested piece: per-stream note lists, the global tempo map, the
//! timing division and the total timeline length, together with the tempo
//! lookup the playback clock queries once per frame.

use vstd::prelude::*;

use crate::note::Note;
use crate::tempo::{floor_idx, lemma_floor_idx, resolve_spec, TempoMap};

verus! {

/// One stream's completed notes, in completion order (not sorted by start
/// tick).
pub struct Track {
    pub notes: Vec<Note>,
}

impl Track {
    /// Every note of the track is well-formed.
    pub open spec fn wf(self) -> bool {
        forall|i: int| 0 <= i < self.notes@.len() ==> (#[trigger] self.notes@[i]).wf()
    }
}

/// The whole ingested piece. Written once by ingest, read-only thereafter.
pub struct MIDI {
    /// The global tempo map.
    pub mspq: TempoMap,
    /// Pulses per quarter note, `1..=32767`, fixed for the whole piece.
    pub ppq: u16,
    /// Total tick length from the last end-of-track marker seen;
    /// `i64::MAX` as the unbounded sentinel if none was.
    pub length: i64,
    /// One entry per ingested stream.
    pub tracks: Vec<Track>,
}

impl MIDI {
    /// Well-formedness, established by ingest and relied on by the clock:
    /// a well-formed non-empty tempo map, a timing division in range, and
    /// well-formed notes throughout.
    pub open spec fn wf(self) -> bool {
        &&& self.mspq.wf()
        &&& 1 <= self.ppq <= 32767
        &&& forall|i: int| 0 <= i < self.tracks@.len() ==> (#[trigger] self.tracks@[i]).wf()
    }

    /// An empty piece: default tempo entry only, unbounded length, no
    /// streams yet.
    pub(crate) fn new(ppq: u16) -> (m: MIDI)
        requires
            1 <= ppq <= 32767,
        ensures
            m.wf(),
            m.ppq == ppq,
            m.length == i64::MAX,
            m.tracks@ == Seq::<Track>::empty(),
            m.mspq.wf(),
            m.mspq.entries@ == seq![(i64::MIN, crate::tempo::DEFAULT_MSPQ)],
            m.mspq.to_map() == Map::<int, int>::empty().insert(
                i64::MIN as int,
                crate::tempo::DEFAULT_MSPQ as int,
            ),
    {
        MIDI { mspq: TempoMap::new(), ppq, length: i64::MAX, tracks: Vec::new() }
    }

    /// `resolve(tick)`: the entry of the tempo map with the greatest key at
    /// most `curr_tick` — it always exists — with its start tick clamped to
    /// 0 when it lies below `preroll_floor`, the earliest displayable tick,
    /// so pre-roll time is attributed to the first real tempo segment.
    pub fn get_current_tick_and_mspq(&self, curr_tick: i64, preroll_floor: i64) -> (r: (i64, u32))
        requires
            self.wf(),
        ensures
            r == resolve_spec(self.mspq.entries@, curr_tick as int, preroll_floor as int),
    {
        let ghost s = self.mspq.entries@;
        proof {
            lemma_floor_idx(s, curr_tick as int);
            assert(s.take(s.len() as int) =~= s);
        }
        let n = self.mspq.entries.len();
        let mut i: usize = n;
        while i > 0
            invariant
                1 <= i <= n,
                n == self.mspq.entries@.len(),
                self.wf(),
                s == self.mspq.entries@,
                floor_idx(s, curr_tick as int) == floor_idx(s.take(i as int), curr_tick as int),
            decreases i,
        {
            let entry = self.mspq.entries[i - 1];
            if entry.0 <= curr_tick {
                proof {
                    let t = s.take(i as int);
                    assert(t.last() == s[i - 1]);
                    assert(floor_idx(t, curr_tick as int) == i - 1);
                    lemma_floor_idx(s, curr_tick as int);
                }
                let seg = if entry.0 < preroll_floor {
                    0
                } else {
                    entry.0
                };
                return (seg, entry.1);
            }
            proof {
                let t = s.take(i as int);
                assert(t.last() == s[i - 1]);
                assert(t.drop_last() =~= s.take(i - 1));
                // the front entry's key is the minimum tick, so the scan
                // cannot pass it
                assert(i >= 2) by {
                    assert(s[0].0 == i64::MIN);
                }
            }
            i = i - 1;
        }
        proof {
            assert(false);
        }
        (0, 0)
    }

    /// Playback is finished once the current tick has reached the total
    /// length.
    pub fn is_finished(&self, curr_tick: i64) -> (b: bool)
        ensures
            b == (curr_tick >= self.length),
    {
        curr_tick >= self.length
    }
}

} // verus!
