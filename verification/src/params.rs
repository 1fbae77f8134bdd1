//! Layout modes and the parameters that steer them.

use crate::binary64::Binary64;
use vstd::prelude::*;

verus! {

/// How the windows of a workspace are arranged.
#[derive(Clone, Copy, Debug, PartialEq, Eq, Structural, Hash)]
pub enum LayoutMode {
    /// Master column on the left, the other windows stacked on the right.
    Tile,
    /// Geometry is left to the windows themselves.
    Floating,
    /// Recursive spiral split.
    Fibonacci,
    /// Every window covers the whole area.
    Monocle,
}

impl LayoutMode {
    /// The mode that follows in the cycle.
    pub open spec fn spec_next(self) -> LayoutMode {
        match self {
            LayoutMode::Tile => LayoutMode::Fibonacci,
            LayoutMode::Fibonacci => LayoutMode::Monocle,
            LayoutMode::Monocle => LayoutMode::Floating,
            LayoutMode::Floating => LayoutMode::Tile,
        }
    }

    /// The mode that follows in the cycle.
    pub fn cycle_next(self) -> (next: LayoutMode)
        ensures
            next == self.spec_next(),
    {
        match self {
            LayoutMode::Tile => LayoutMode::Fibonacci,
            LayoutMode::Fibonacci => LayoutMode::Monocle,
            LayoutMode::Monocle => LayoutMode::Floating,
            LayoutMode::Floating => LayoutMode::Tile,
        }
    }
}

/// From any mode, cycling reaches every mode within four steps and is back
/// where it started after exactly four.
pub proof fn cycle_visits_every_mode(start: LayoutMode, wanted: LayoutMode)
    ensures
        start.spec_next().spec_next().spec_next().spec_next() == start,
        start.spec_next() != start,
        start.spec_next().spec_next() != start,
        start.spec_next().spec_next().spec_next() != start,
        wanted == start || wanted == start.spec_next() || wanted == start.spec_next().spec_next()
            || wanted == start.spec_next().spec_next().spec_next(),
{
}

/// Spacing between windows, and between windows and the edge of the output,
/// in logical pixels.
#[derive(Clone, Copy, Debug, PartialEq, Eq, Structural)]
pub struct Gaps {
    pub inner: i32,
    pub outer: i32,
}

impl Default for Gaps {
    fn default() -> (g: Gaps)
        ensures
            g == (Gaps { inner: 6, outer: 10 }),
    {
        Gaps { inner: 6, outer: 10 }
    }
}

/// Bit pattern of 0.05, the smallest share of the master column.
pub const MFACT_MIN: u64 = 0x3fa9_9999_9999_999a;

/// Bit pattern of 0.95, the largest share of the master column.
pub const MFACT_MAX: u64 = 0x3fee_6666_6666_6666;

/// Bit pattern of 0.55, the share of the master column to start with.
pub const MFACT_DEFAULT: u64 = 0x3fe1_9999_9999_999a;

/// Layout parameters of one workspace.
#[derive(Clone, Copy, Debug, PartialEq, Eq, Structural)]
pub struct LayoutParams {
    pub mode: LayoutMode,
    /// Number of windows in the master column.
    pub nmaster: usize,
    /// Share of the width that the master column takes.
    pub mfact: Binary64,
    pub gaps: Gaps,
}

impl LayoutParams {
    /// The parameters that a workspace starts with, under the given gaps.
    pub open spec fn fresh(gaps: Gaps) -> LayoutParams {
        LayoutParams {
            mode: LayoutMode::Tile,
            nmaster: 1,
            mfact: Binary64 { bits: MFACT_DEFAULT },
            gaps,
        }
    }
}

impl Default for LayoutParams {
    fn default() -> (p: LayoutParams)
        ensures
            p == LayoutParams::fresh(Gaps { inner: 6, outer: 10 }),
    {
        LayoutParams {
            mode: LayoutMode::Tile,
            nmaster: 1,
            mfact: Binary64 { bits: MFACT_DEFAULT },
            gaps: Gaps { inner: 6, outer: 10 },
        }
    }
}

/// `share` brought between the two bounds of the master column; not-a-number
/// stays as it is.
pub open spec fn clamp_mfact(share: Binary64) -> Binary64 {
    let min = Binary64 { bits: MFACT_MIN };
    let max = Binary64 { bits: MFACT_MAX };
    if share.spec_lt(min) {
        min
    } else if max.spec_lt(share) {
        max
    } else {
        share
    }
}

/// The clamped share is never below the lower bound nor above the upper one,
/// and clamping it again changes nothing.
pub proof fn clamp_mfact_is_within_bounds(share: Binary64)
    ensures
        !clamp_mfact(share).spec_lt(Binary64 { bits: MFACT_MIN }),
        !(Binary64 { bits: MFACT_MAX }).spec_lt(clamp_mfact(share)),
        clamp_mfact(clamp_mfact(share)) == clamp_mfact(share),
{
}

impl LayoutParams {
    /// Selects a layout mode.
    pub fn set_mode(&mut self, mode: LayoutMode)
        ensures
            *final(self) == (LayoutParams { mode, ..*old(self) }),
    {
        self.mode = mode;
    }

    /// Moves on to the next layout mode.
    pub fn cycle_mode(&mut self)
        ensures
            *final(self) == (LayoutParams { mode: old(self).mode.spec_next(), ..*old(self) }),
    {
        self.mode = self.mode.cycle_next();
    }

    /// Changes the number of master windows by `delta`, never below zero.
    pub fn inc_nmaster(&mut self, delta: i32)
        requires
            old(self).nmaster + delta <= usize::MAX,
            old(self).nmaster <= i64::MAX - i32::MAX,
        ensures
            final(self).nmaster == (if old(self).nmaster + delta < 0 {
                0
            } else {
                old(self).nmaster + delta
            }),
            *final(self) == (LayoutParams { nmaster: final(self).nmaster, ..*old(self) }),
    {
        let n: i64 = self.nmaster as i64 + delta as i64;
        self.nmaster = if n > 0 { n as usize } else { 0 };
    }

    /// Moves the share of the master column to `moved`, kept within its bounds.
    ///
    /// `moved` is the current share plus the change that was asked for, as the
    /// binary64 sum of the two.
    pub fn inc_mfact(&mut self, moved: Binary64)
        ensures
            *final(self) == (LayoutParams { mfact: clamp_mfact(moved), ..*old(self) }),
    {
        let min = Binary64 { bits: MFACT_MIN };
        let max = Binary64 { bits: MFACT_MAX };
        self.mfact = if moved.less_than(min) {
            min
        } else if max.less_than(moved) {
            max
        } else {
            moved
        };
    }
}

/// A share within its bounds stays as it is; one below them becomes the lower
/// bound, one above them the upper. Of two shares, the larger one stays the
/// larger one or becomes equal.
pub proof fn clamping_changes_only_what_is_out_of_bounds(share: Binary64, other: Binary64)
    requires
        !share.spec_is_nan(),
        !other.spec_is_nan(),
    ensures
        ({
            let low = Binary64 { bits: MFACT_MIN };
            let high = Binary64 { bits: MFACT_MAX };
            &&& low.spec_lt(high)
            &&& !share.spec_lt(low) && !high.spec_lt(share) ==> clamp_mfact(share) == share
            &&& share.spec_lt(low) ==> clamp_mfact(share) == low
            &&& high.spec_lt(share) ==> clamp_mfact(share) == high
            &&& !other.spec_lt(share) ==> !clamp_mfact(other).spec_lt(clamp_mfact(share))
        }),
{
}

/// A workspace starts tiled with one master window, a share within the bounds,
/// and the gaps that it is given.
pub proof fn workspaces_start_tiled(gaps: Gaps)
    ensures
        ({
            let p = LayoutParams::fresh(gaps);
            &&& p.mode is Tile
            &&& p.nmaster == 1
            &&& clamp_mfact(p.mfact) == p.mfact
            &&& p.gaps == gaps
        }),
{
}

/// The modes follow each other from tiled windows over the spiral and the single
/// window to floating ones.
pub proof fn modes_follow_each_other(mode: LayoutMode)
    ensures
        mode is Tile <==> mode.spec_next() is Fibonacci,
        mode is Fibonacci <==> mode.spec_next() is Monocle,
        mode is Monocle <==> mode.spec_next() is Floating,
        mode is Floating <==> mode.spec_next() is Tile,
{
}

} // verus!
