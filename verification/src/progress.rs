//! Progress accounting for long encode and decode runs.
//!
//! The bar only counts: how its state is drawn on a terminal is left to the
//! caller.

use vstd::prelude::*;

verus! {

/// A counter toward a known maximum, with a title for display.
pub struct ProgressBar {
    pub progress: usize,
    pub max: usize,
    pub title: String,
}

impl ProgressBar {
    /// A fresh bar at zero.
    pub fn new(max: usize, title: &str) -> (r: Self)
        ensures
            r.progress == 0,
            r.max == max,
            r.title@ == title@,
    {
        Self { progress: 0, max, title: title.to_owned() }
    }

    /// Advances the count by one step.
    pub fn increment(&mut self)
        requires
            old(self).progress < usize::MAX,
        ensures
            final(self).progress == old(self).progress + 1,
            final(self).max == old(self).max,
            final(self).title@ == old(self).title@,
    {
        self.progress = self.progress + 1;
    }
}

} // verus!
