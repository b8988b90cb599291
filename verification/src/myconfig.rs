//! Explicit display configuration. The timeline core itself needs none of
//! it; rendering collaborators receive one configuration value, constructed
//! once, instead of process-wide shared state.

use vstd::prelude::*;

verus! {

/// The window dimensions a rendering collaborator works with.
pub struct ScreenConfig {
    pub width: u32,
    pub height: u32,
}

/// The current screen size as a `(width, height)` pair.
pub fn screen_size(cfg: &ScreenConfig) -> (r: (u32, u32))
    ensures
        r == (cfg.width, cfg.height),
{
    (cfg.width, cfg.height)
}

/// Record a new screen size, e.g. after a window resize.
pub fn screen_size_w(cfg: &mut ScreenConfig, w: u32, h: u32)
    ensures
        *final(cfg) == (ScreenConfig { width: w, height: h }),
{
    cfg.width = w;
    cfg.height = h;
}

} // verus!
