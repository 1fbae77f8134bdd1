//! What the compositor is to do with its windows as the outcome of a decision.

use crate::geometry::{Point, Rect, Size};
use vstd::math::max;
use vstd::prelude::*;

verus! {

/// One step for the compositor to carry out.
#[derive(Debug, Clone, Copy, PartialEq, Eq, Structural)]
pub enum Action {
    /// Map a window at a place, on top of the others.
    Show { window: u64, at: Point },
    /// Take a window off the screen.
    Unmap { window: u64 },
    /// Bring a window to the front, for X11 clients as well.
    Raise { window: u64 },
    /// Bring the floating windows to the front.
    RaiseFloating,
    /// Give a window the keyboard focus.
    Focus { window: u64 },
    /// Ask a window to take a size.
    Resize { window: u64, size: Size },
    /// Ask a window to close.
    Close { window: u64 },
    /// Run the command that came with the request.
    Spawn,
    /// Lay out the active workspace again.
    Arrange,
    /// Tell clients about the workspaces.
    SyncWorkspaces,
}

/// What has the keyboard focus.
#[derive(Debug, Clone, Copy, PartialEq, Eq, Structural)]
pub enum Focus {
    Nothing,
    Window(u64),
    /// A layer surface, a popup, the lock screen.
    Other,
}

/// Steps that take the given windows off the screen.
pub open spec fn unmap_all(windows: Seq<u64>) -> Seq<Action> {
    Seq::new(windows.len(), |i: int| Action::Unmap { window: windows[i] })
}

/// Appends the steps that take the given windows off the screen.
pub fn push_unmaps(actions: &mut Vec<Action>, windows: &[u64])
    ensures
        final(actions)@ == old(actions)@ + unmap_all(windows@),
{
    let mut i: usize = 0;
    assert(actions@ =~= old(actions)@ + unmap_all(windows@.take(0)));
    while i < windows.len()
        invariant
            i <= windows@.len(),
            actions@ == old(actions)@ + unmap_all(windows@.take(i as int)),
        decreases windows@.len() - i,
    {
        actions.push(Action::Unmap { window: windows[i] });
        i = i + 1;
        assert(actions@ =~= old(actions)@ + unmap_all(windows@.take(i as int)));
    }
    assert(windows@.take(i as int) =~= windows@);
}

/// Where a window of the given size is centered in an area; a window that is
/// larger than the area starts at its corner.
pub open spec fn centered_at(area: Rect, size: Size) -> Point {
    Point {
        x: (area.x + max(area.w - size.w, 0) / 2) as i32,
        y: (area.y + max(area.h - size.h, 0) / 2) as i32,
    }
}

/// Centering stays within `i32`.
pub open spec fn can_center(area: Rect, size: Size) -> bool {
    &&& i32::MIN <= area.w - size.w <= i32::MAX
    &&& i32::MIN <= area.h - size.h <= i32::MAX
    &&& area.x + max(area.w - size.w, 0) / 2 <= i32::MAX
    &&& area.y + max(area.h - size.h, 0) / 2 <= i32::MAX
}

/// The place where a window of the given size is centered in an area.
pub fn center_in(area: Rect, size: Size) -> (at: Point)
    requires
        can_center(area, size),
    ensures
        at == centered_at(area, size),
{
    let dx: i32 = if area.w > size.w { area.w - size.w } else { 0 };
    let dy: i32 = if area.h > size.h { area.h - size.h } else { 0 };
    Point {
        x: area.x + (dx as u32 / 2) as i32,
        y: area.y + (dy as u32 / 2) as i32,
    }
}

/// A window that fits into the area stays inside it when centered, with equal
/// margins on both sides up to one pixel.
pub proof fn centered_window_stays_inside(area: Rect, size: Size)
    requires
        can_center(area, size),
        0 <= size.w <= area.w,
        0 <= size.h <= area.h,
    ensures
        area.contains_rect(
            Rect {
                x: centered_at(area, size).x,
                y: centered_at(area, size).y,
                w: size.w,
                h: size.h,
            },
        ),
        ({
            let left = centered_at(area, size).x - area.x;
            let right = area.w - size.w - left;
            left == right || left + 1 == right
        }),
{
}

/// Whether a window of the given size that starts at `at` is in the middle of
/// an area: the margins on opposite sides differ by at most one pixel, the
/// larger one being on the right or below; along a side on which the window is
/// larger than the area, both start together.
pub open spec fn in_the_middle(area: Rect, size: Size, at: Point) -> bool {
    let left = at.x - area.x;
    let right = (area.x + area.w) - (at.x + size.w);
    let above = at.y - area.y;
    let below = (area.y + area.h) - (at.y + size.h);
    &&& size.w <= area.w ==> (left == right || left + 1 == right)
    &&& size.h <= area.h ==> (above == below || above + 1 == below)
    &&& size.w > area.w ==> left == 0
    &&& size.h > area.h ==> above == 0
}

/// A centered window has equal margins on opposite sides, up to one pixel.
pub proof fn centered_window_is_in_the_middle(area: Rect, size: Size)
    requires
        can_center(area, size),
    ensures
        in_the_middle(area, size, centered_at(area, size)),
{
}

/// Every window of the list is taken off the screen, in the order of the list,
/// and nothing else happens.
pub proof fn every_listed_window_is_unmapped(windows: Seq<u64>, i: int)
    requires
        0 <= i < windows.len(),
    ensures
        unmap_all(windows).len() == windows.len(),
        unmap_all(windows)[i] is Unmap,
        unmap_all(windows)[i]->Unmap_window == windows[i],
{
}

} // verus!
