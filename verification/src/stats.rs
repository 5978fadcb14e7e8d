//! Render-pass bookkeeping.
//!
//! Tracks how many pixels a pass has finished, so a progress reporter
//! can display completion.  Wall-clock timing belongs to the caller.

use vstd::prelude::*;

verus! {

/// Progress counter for one render pass.
pub struct Statistics {
    /// Pixels fully rendered so far.
    pub pixels_done: usize,
}

impl Statistics {
    /// A fresh pass: nothing rendered yet.
    pub fn new() -> (r: Statistics)
        ensures
            r.pixels_done == 0,
    {
        Statistics { pixels_done: 0 }
    }

    /// Records `count` more finished pixels.
    pub fn record_pixels(&mut self, count: usize)
        requires
            old(self).pixels_done + count <= usize::MAX,
        ensures
            final(self).pixels_done == old(self).pixels_done + count,
    {
        self.pixels_done = self.pixels_done + count;
    }
}

} // verus!
