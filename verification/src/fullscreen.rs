//! The window that covers a whole output.

use crate::windows;
use vstd::prelude::*;

verus! {

/// The fullscreen window of an output, if there is one.
#[derive(Debug, Clone, Copy, PartialEq, Eq, Structural)]
pub struct FullscreenSurface {
    pub window: Option<u64>,
}

impl Default for FullscreenSurface {
    fn default() -> (f: FullscreenSurface)
        ensures
            f.window is None,
    {
        FullscreenSurface { window: None }
    }
}

impl FullscreenSurface {
    /// The fullscreen window, unless it is gone.
    pub open spec fn current(self, alive: Seq<u64>) -> Option<u64> {
        match self.window {
            Some(w) => if alive.contains(w) {
                Some(w)
            } else {
                None
            },
            None => None,
        }
    }

    /// Makes a window the fullscreen one.
    pub fn set(&mut self, window: u64)
        ensures
            final(self).window == Some(window),
    {
        self.window = Some(window);
    }

    /// The fullscreen window. One that is gone is forgotten.
    pub fn get(&mut self, alive: &[u64]) -> (r: Option<u64>)
        ensures
            r == old(self).current(alive@),
            final(self).window == r,
    {
        if let Some(w) = self.window {
            if !windows::contains(alive, w) {
                self.window = None;
            }
        }
        self.window
    }

    /// Ends the fullscreen state and says which window had it.
    pub fn clear(&mut self) -> (r: Option<u64>)
        ensures
            r == old(self).window,
            final(self).window is None,
    {
        let was: Option<u64> = self.window;
        self.window = None;
        was
    }
}

} // verus!
