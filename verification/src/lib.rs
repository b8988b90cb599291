//! Playback timeline core for a musical event stream: the tempo-map builder,
//! the tick/wall-clock timeline clock, and the per-note activation tracker.

use vstd::prelude::*;

pub mod clock;
pub mod decode;
pub mod events;
pub mod ingest;
pub mod midi;
pub mod myconfig;
pub mod note;
pub mod tempo;

verus! {

} // verus!
