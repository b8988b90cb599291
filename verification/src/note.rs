//! A completed musical note and its per-frame activation tracking.
//!
//! A note is active exactly on the ticks of the half-open interval
//! `[start_tick, start_tick + duration)`. The tracker keeps a consecutive
//! active-call counter and reports the single call on which a note
//! transitions from inactive to active (the rising edge), so that one-shot
//! effects fire exactly once per activation period.

use vstd::prelude::*;

verus! {

/// A note of the piece. The identity fields `start_tick`, `duration` and
/// `key` are fixed when ingest completes the note; `pressed` and
/// `pressed_ticks` are playback state, mutated once per frame by
/// [`Note::tick`] or [`Note::update`].
#[derive(Debug, Clone, Copy)]
pub struct Note {
    /// Tick on which the note starts; never negative.
    pub start_tick: i64,
    /// Length of the note in ticks.
    pub duration: i64,
    /// Pitch, `0..=127`.
    pub key: u8,
    /// Whether the note was active on the most recent update.
    pub pressed: bool,
    /// Number of consecutive updates (including the current one) on which
    /// the note has been active; `0` while inactive.
    pub pressed_ticks: i32,
}

impl Note {
    /// Well-formedness: identity fields in the ranges ingest establishes,
    /// and a non-negative activity counter. `start_tick + duration` fits in
    /// an `i64` because both are ticks of one timeline.
    pub open spec fn wf(self) -> bool {
        &&& 0 <= self.start_tick
        &&& 0 <= self.duration
        &&& self.start_tick + self.duration <= i64::MAX
        &&& self.key <= 127
        &&& 0 <= self.pressed_ticks
    }

    /// A note is active on `tick` iff `start_tick <= tick < start_tick + duration`.
    pub open spec fn is_active_at(self, tick: int) -> bool {
        self.start_tick <= tick < self.start_tick + self.duration
    }

    /// The state of the note after one tracker update at `tick`: an active
    /// call sets `pressed` and increments the counter (saturating at
    /// `i32::MAX`); an inactive call clears both.
    pub open spec fn after_update(self, tick: int) -> Note {
        if self.is_active_at(tick) {
            Note {
                pressed: true,
                pressed_ticks: if self.pressed_ticks < i32::MAX {
                    (self.pressed_ticks + 1) as i32
                } else {
                    i32::MAX
                },
                ..self
            }
        } else {
            Note { pressed: false, pressed_ticks: 0, ..self }
        }
    }

    /// The rising edge: an update at `tick` is the first active call after
    /// an inactive period iff the note is active at `tick` and the counter
    /// is still zero.
    pub open spec fn triggers_at(self, tick: int) -> bool {
        self.is_active_at(tick) && self.pressed_ticks == 0
    }

    /// A freshly completed note: not pressed, counter zero.
    pub(crate) fn new(start_tick: i64, duration: i64, key: u8) -> (n: Note)
        ensures
            n == (Note { start_tick, duration, key, pressed: false, pressed_ticks: 0 }),
    {
        Note { start_tick, duration, key, pressed: false, pressed_ticks: 0 }
    }

    /// One per-frame update. Returns whether the note is active on
    /// `curr_tick`, and moves the playback-state fields to their next state.
    pub fn tick(&mut self, curr_tick: i64) -> (pressed: bool)
        requires
            old(self).wf(),
        ensures
            pressed == old(self).is_active_at(curr_tick as int),
            *final(self) == old(self).after_update(curr_tick as int),
            final(self).wf(),
    {
        let pressed: bool =
            self.start_tick <= curr_tick && curr_tick < self.start_tick + self.duration;
        if pressed {
            self.pressed = true;
            if self.pressed_ticks < i32::MAX {
                self.pressed_ticks = self.pressed_ticks + 1;
            }
            true
        } else {
            self.pressed = false;
            self.pressed_ticks = 0;
            false
        }
    }

    /// One per-frame update, reporting `(is_active, ticks_active, just_triggered)`.
    /// `just_triggered` is true exactly on the call where `ticks_active`
    /// becomes 1, i.e. on the rising edge of the activation state.
    pub fn update(&mut self, curr_tick: i64) -> (r: (bool, i32, bool))
        requires
            old(self).wf(),
        ensures
            *final(self) == old(self).after_update(curr_tick as int),
            final(self).wf(),
            r.0 == old(self).is_active_at(curr_tick as int),
            r.1 == final(self).pressed_ticks,
            r.2 == old(self).triggers_at(curr_tick as int),
    {
        let was: i32 = self.pressed_ticks;
        let active = self.tick(curr_tick);
        (active, self.pressed_ticks, active && was == 0)
    }
}

/// Law: the rising edge fires exactly once per activation period.
///
/// After an active update, the counter is positive, so no later update can
/// report a trigger until an inactive update has reset it; and after an
/// inactive update, the very next active update does report a trigger.
pub proof fn lemma_trigger_rising_edge(n: Note, t1: int, t2: int)
    requires
        n.wf(),
    ensures
        n.is_active_at(t1) ==> !n.after_update(t1).triggers_at(t2),
        !n.is_active_at(t1) && n.after_update(t1).is_active_at(t2)
            ==> n.after_update(t1).triggers_at(t2),
{
}

} // verus!
