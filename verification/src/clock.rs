//! The timeline clock: resolves wall-clock elapsed time into the current
//! playback tick, integrating across tempo-map boundaries without
//! discontinuities.
//!
//! The clock caches the start tick of the tempo segment it last resolved
//! and the wall-clock instant at which that segment was entered. Whenever
//! the resolved segment changes, it re-anchors — stores the new segment
//! start and records the current instant — before measuring elapsed time,
//! so the very frame that crosses a tempo boundary already reports the new
//! segment with zero elapsed time.

use vstd::arithmetic::div_mod::{lemma_div_is_ordered, lemma_div_nonincreasing, lemma_div_pos_is_pos};
use vstd::arithmetic::mul::{lemma_mul_inequality, lemma_mul_upper_bound};
use vstd::prelude::*;

use crate::midi::MIDI;
use crate::tempo::{lemma_floor_idx, resolve_spec};

verus! {

/// Ephemeral per-playback clock state; not persisted.
pub struct PlaybackClock {
    /// The tick resolved by the most recent frame; the next frame's tempo
    /// lookup uses it as the query estimate.
    pub curr_tick: i64,
    /// Start tick of the tempo segment last resolved.
    pub anchor_tick: i64,
    /// Wall-clock instant, in microseconds, at which that segment was
    /// entered.
    pub anchor_instant: i64,
}

/// One clock frame as a mathematical function of the old state: resolve
/// the segment for the current tick estimate, re-anchor if it changed,
/// scale elapsed microseconds by the playback speed `speed_num/speed_den`
/// (integer division, truncating), convert to ticks by `* ppq / mspq`
/// (truncating again), and add to the segment start, saturating at
/// `i64::MAX`.
pub open spec fn clock_step(
    c: PlaybackClock,
    entries: Seq<(i64, u32)>,
    ppq: int,
    now_us: int,
    speed_num: int,
    speed_den: int,
    preroll_floor: int,
) -> PlaybackClock {
    let r = resolve_spec(entries, c.curr_tick as int, preroll_floor);
    let seg = r.0;
    let mspq = r.1;
    let anchor_instant = if seg != c.anchor_tick {
        now_us
    } else {
        c.anchor_instant as int
    };
    let elapsed = now_us - anchor_instant;
    let scaled = elapsed * speed_num / speed_den;
    let ticks = scaled * ppq / (mspq as int);
    let tick = if seg + ticks > i64::MAX {
        i64::MAX as int
    } else {
        seg + ticks
    };
    PlaybackClock {
        curr_tick: tick as i64,
        anchor_tick: seg,
        anchor_instant: anchor_instant as i64,
    }
}

impl PlaybackClock {
    /// A clock about to play from `start_tick`, created at instant
    /// `now_us`. The anchor starts at tick 0, so the first frame re-anchors
    /// unless the first resolved segment starts at 0.
    pub fn new(start_tick: i64, now_us: i64) -> (c: PlaybackClock)
        ensures
            c == (PlaybackClock { curr_tick: start_tick, anchor_tick: 0i64, anchor_instant: now_us }),
    {
        PlaybackClock { curr_tick: start_tick, anchor_tick: 0, anchor_instant: now_us }
    }

    /// One frame: `current_tick(now, playback_speed)`. The playback speed
    /// is the rational `speed_num / speed_den`; a numerator of 0 freezes
    /// elapsed-time accumulation (pause). Wall time must not run backwards
    /// past the anchor instant.
    pub fn current_tick(
        &mut self,
        midi: &MIDI,
        now_us: i64,
        speed_num: u32,
        speed_den: u32,
        preroll_floor: i64,
    ) -> (tick: i64)
        requires
            midi.wf(),
            speed_den >= 1,
            now_us >= old(self).anchor_instant,
        ensures
            *final(self) == clock_step(
                *old(self),
                midi.mspq.entries@,
                midi.ppq as int,
                now_us as int,
                speed_num as int,
                speed_den as int,
                preroll_floor as int,
            ),
            tick == final(self).curr_tick,
    {
        let (seg, mspq) = midi.get_current_tick_and_mspq(self.curr_tick, preroll_floor);
        proof {
            // the resolved tempo is an entry value, so it is nonzero
            lemma_floor_idx(midi.mspq.entries@, self.curr_tick as int);
            assert(mspq >= 1);
        }
        if seg != self.anchor_tick {
            self.anchor_tick = seg;
            self.anchor_instant = now_us;
        }
        let elapsed_i: i128 = now_us as i128 - self.anchor_instant as i128;
        let elapsed: u128 = elapsed_i as u128;
        proof {
            assert(elapsed <= 0xFFFF_FFFF_FFFF_FFFF_u128 + i64::MAX);
            assert(elapsed * speed_num <= 0x2_0000_0000_0000_0000 * 0x1_0000_0000) by {
                lemma_mul_upper_bound(
                    elapsed as int,
                    0x2_0000_0000_0000_0000,
                    speed_num as int,
                    0x1_0000_0000,
                );
            }
        }
        let scaled: u128 = elapsed * (speed_num as u128) / (speed_den as u128);
        proof {
            lemma_div_nonincreasing((elapsed * speed_num) as int, speed_den as int);
            assert(scaled * midi.ppq <= (0x2_0000_0000_0000_0000 * 0x1_0000_0000 * 0x8000) as int) by {
                lemma_mul_inequality(
                    scaled as int,
                    (0x2_0000_0000_0000_0000 * 0x1_0000_0000) as int,
                    midi.ppq as int,
                );
            }
        }
        let ticks: u128 = scaled * (midi.ppq as u128) / (mspq as u128);
        proof {
            lemma_div_nonincreasing((scaled * midi.ppq) as int, mspq as int);
        }
        let sum: i128 = seg as i128 + ticks as i128;
        let tick: i64 = if sum > i64::MAX as i128 {
            i64::MAX
        } else {
            sum as i64
        };
        self.curr_tick = tick;
        tick
    }
}

/// Law: tempo continuity at a segment boundary. On the frame whose tempo
/// lookup resolves a segment other than the anchored one, the clock
/// re-anchors before measuring elapsed time, so the reported tick is
/// exactly the new segment's start: the tick function neither jumps past
/// the boundary nor falls back before it.
pub proof fn lemma_no_jump_at_boundary(
    c: PlaybackClock,
    entries: Seq<(i64, u32)>,
    ppq: int,
    now_us: int,
    speed_num: int,
    speed_den: int,
    preroll_floor: int,
)
    requires
        speed_den >= 1,
        resolve_spec(entries, c.curr_tick as int, preroll_floor).1 >= 1,
        resolve_spec(entries, c.curr_tick as int, preroll_floor).0 != c.anchor_tick,
    ensures
        clock_step(c, entries, ppq, now_us, speed_num, speed_den, preroll_floor).curr_tick
            == resolve_spec(entries, c.curr_tick as int, preroll_floor).0,
        clock_step(c, entries, ppq, now_us, speed_num, speed_den, preroll_floor).anchor_instant
            == now_us as i64,
{
    let r = resolve_spec(entries, c.curr_tick as int, preroll_floor);
    let mspq = r.1 as int;
    assert(0 * speed_num == 0) by (nonlinear_arith);
    assert(0int / speed_den == 0) by {
        lemma_div_pos_is_pos(0, speed_den);
        lemma_div_nonincreasing(0, speed_den);
    }
    assert(0 * ppq == 0) by (nonlinear_arith);
    assert(0int / mspq == 0) by {
        lemma_div_pos_is_pos(0, mspq);
        lemma_div_nonincreasing(0, mspq);
    }
}

/// Law: within one tempo segment the clock is monotone — while the
/// resolved segment stays the anchored one, a later wall-clock instant
/// never yields a smaller tick. Together with the boundary law this makes
/// the tick, as a function of elapsed wall time, free of jumps and skips.
pub proof fn lemma_clock_monotone_in_segment(
    c: PlaybackClock,
    entries: Seq<(i64, u32)>,
    ppq: int,
    now1: int,
    now2: int,
    speed_num: int,
    speed_den: int,
    preroll_floor: int,
)
    requires
        speed_den >= 1,
        speed_num >= 0,
        ppq >= 0,
        resolve_spec(entries, c.curr_tick as int, preroll_floor).0 == c.anchor_tick,
        resolve_spec(entries, c.curr_tick as int, preroll_floor).1 >= 1,
        c.anchor_instant <= now1 <= now2,
    ensures
        clock_step(c, entries, ppq, now1, speed_num, speed_den, preroll_floor).curr_tick
            <= clock_step(c, entries, ppq, now2, speed_num, speed_den, preroll_floor).curr_tick,
{
    let r = resolve_spec(entries, c.curr_tick as int, preroll_floor);
    let seg = r.0 as int;
    let mspq = r.1 as int;
    let e1 = now1 - c.anchor_instant;
    let e2 = now2 - c.anchor_instant;
    assert(e1 * speed_num <= e2 * speed_num) by {
        lemma_mul_inequality(e1, e2, speed_num);
    }
    let s1 = e1 * speed_num / speed_den;
    let s2 = e2 * speed_num / speed_den;
    assert(s1 <= s2) by {
        lemma_div_is_ordered(e1 * speed_num, e2 * speed_num, speed_den);
    }
    assert(s1 * ppq <= s2 * ppq) by {
        lemma_mul_inequality(s1, s2, ppq);
    }
    assert(s1 * ppq / mspq <= s2 * ppq / mspq) by {
        lemma_div_is_ordered(s1 * ppq, s2 * ppq, mspq);
    }
}

} // verus!
