//! The blurred backdrop behind translucent windows: which part of the screen
//! is blurred for which window, and how.

use crate::geometry::{Rect, Size};
use crate::windows;
use vstd::math::max;
use vstd::prelude::*;

verus! {

/// A window that a backdrop is wanted for.
#[derive(Debug, Clone, Copy, PartialEq, Eq, Structural)]
pub struct BlurTarget {
    pub window: u64,
    pub alive: bool,
    /// Where the window is on the output, in pixels, if it is on the screen.
    pub rect: Option<Rect>,
}

/// A part of the screen that is blurred for a window.
#[derive(Debug, Clone, Copy, PartialEq, Eq, Structural)]
pub struct BlurBackdrop {
    pub window: u64,
    pub area: Rect,
}

/// The part of a window that is on a screen of the given size.
pub open spec fn clipped(target: BlurTarget, bounds: Size) -> Option<Rect> {
    if !target.alive || target.rect is None {
        None
    } else {
        match target.rect->0.spec_intersection(Rect { x: 0, y: 0, w: bounds.w, h: bounds.h }) {
            Some(area) => if area.w > 0 && area.h > 0 {
                Some(area)
            } else {
                None
            },
            None => None,
        }
    }
}

/// The jobs for the first `n` windows.
pub open spec fn jobs(targets: Seq<BlurTarget>, bounds: Size, n: int) -> Seq<BlurBackdrop>
    decreases n,
{
    if n <= 0 {
        Seq::empty()
    } else {
        let before = jobs(targets, bounds, n - 1);
        match clipped(targets[n - 1], bounds) {
            Some(area) => before.push(BlurBackdrop { window: targets[n - 1].window, area }),
            None => before,
        }
    }
}

/// What has to be blurred: the part of every window that is on the screen. With
/// no radius nothing is blurred.
pub fn blur_backdrops(targets: &[BlurTarget], bounds: Size, radius: i32) -> (r: Vec<BlurBackdrop>)
    ensures
        r@ == (if radius <= 0 {
            Seq::<BlurBackdrop>::empty()
        } else {
            jobs(targets@, bounds, targets@.len() as int)
        }),
{
    let mut r: Vec<BlurBackdrop> = Vec::new();
    if radius <= 0 {
        return r;
    }
    let screen = Rect { x: 0, y: 0, w: bounds.w, h: bounds.h };
    let mut i: usize = 0;
    while i < targets.len()
        invariant
            i <= targets@.len(),
            screen == (Rect { x: 0, y: 0, w: bounds.w, h: bounds.h }),
            r@ == jobs(targets@, bounds, i as int),
        decreases targets@.len() - i,
    {
        let target: BlurTarget = targets[i];
        if target.alive {
            if let Some(rect) = target.rect {
                if let Some(area) = rect.intersection(screen) {
                    if area.w > 0 && area.h > 0 {
                        r.push(BlurBackdrop { window: target.window, area });
                    }
                }
            }
        }
        i = i + 1;
    }
    r
}

/// Every part that is blurred lies on the screen and is not empty.
pub proof fn blurred_areas_stay_on_the_screen(
    targets: Seq<BlurTarget>,
    bounds: Size,
    n: int,
    i: int,
)
    requires
        0 <= n <= targets.len(),
        0 <= i < jobs(targets, bounds, n).len(),
        0 <= bounds.w,
        0 <= bounds.h,
    ensures
        ({
            let area = jobs(targets, bounds, n)[i].area;
            &&& (Rect { x: 0, y: 0, w: bounds.w, h: bounds.h }).contains_rect(area)
            &&& area.w > 0
            &&& area.h > 0
        }),
    decreases n,
{
    let before = jobs(targets, bounds, n - 1);
    if i < before.len() {
        blurred_areas_stay_on_the_screen(targets, bounds, n - 1, i);
    }
}

/// One direction of the blur: pixels of `source` are drawn to a texture of size
/// `size`. A step between samples is a seventh of the radius, divided by
/// `span`, the extent of the sampled texture in that direction.
#[derive(Debug, Clone, Copy, PartialEq, Eq, Structural)]
pub struct BlurPass {
    pub horizontal: bool,
    pub source: Rect,
    pub size: Size,
    pub span: i32,
}

/// The two directions of the blur of a part of the screen. The first one
/// samples the whole screen, so that what is next to the window shows through
/// at its edges; the second one samples what the first one has drawn.
pub fn blur_one(area: Rect, bounds: Size) -> (passes: (BlurPass, BlurPass))
    ensures
        passes.0 == (BlurPass {
            horizontal: true,
            source: area,
            size: Size { w: area.w, h: area.h },
            span: max(bounds.w as int, 1) as i32,
        }),
        passes.1 == (BlurPass {
            horizontal: false,
            source: Rect { x: 0, y: 0, w: area.w, h: area.h },
            size: Size { w: area.w, h: area.h },
            span: max(area.h as int, 1) as i32,
        }),
{
    let size = Size { w: area.w, h: area.h };
    (
        BlurPass {
            horizontal: true,
            source: area,
            size,
            span: if bounds.w > 1 { bounds.w } else { 1 },
        },
        BlurPass {
            horizontal: false,
            source: Rect { x: 0, y: 0, w: area.w, h: area.h },
            size,
            span: if area.h > 1 { area.h } else { 1 },
        },
    )
}

/// For every window of an output whether a blurred backdrop takes the place of
/// its plain one. Windows that are no longer blurred get their plain one back.
pub fn sync_blur_flags(windows: &[u64], blurred: &[u64]) -> (flags: Vec<bool>)
    ensures
        flags@.len() == windows@.len(),
        forall|i: int|
            0 <= i < flags@.len() ==> #[trigger] flags@[i] == blurred@.contains(windows@[i]),
{
    let mut flags: Vec<bool> = Vec::new();
    let mut i: usize = 0;
    while i < windows.len()
        invariant
            i <= windows@.len(),
            flags@.len() == i,
            forall|k: int|
                0 <= k < i ==> #[trigger] flags@[k] == blurred@.contains(windows@[k]),
        decreases windows@.len() - i,
    {
        flags.push(windows::contains(blurred, windows[i]));
        i = i + 1;
    }
    flags
}

/// A pixel is blurred for a window if and only if it lies both on the screen and
/// in the window; a window that is gone, or not on the screen, has no blurred
/// part.
pub proof fn blurred_part_is_what_is_on_the_screen(target: BlurTarget, bounds: Size, x: int, y: int)
    requires
        bounds.w >= 0,
        bounds.h >= 0,
        target.rect matches Some(r) ==> r.corner_fits(),
    ensures
        (clipped(target, bounds) matches Some(area) && area.x <= x < area.x + area.w && area.y <= y
            < area.y + area.h) <==> {
            &&& target.alive
            &&& target.rect matches Some(r)
            &&& r.x <= x < r.x + r.w
            &&& r.y <= y < r.y + r.h
            &&& 0 <= x < bounds.w
            &&& 0 <= y < bounds.h
        },
{
}

/// There is a job for a window if and only if some of it is on the screen, and
/// the job is about just that part.
pub proof fn every_visible_window_is_blurred(
    targets: Seq<BlurTarget>,
    bounds: Size,
    n: int,
    job: BlurBackdrop,
)
    requires
        0 <= n <= targets.len(),
    ensures
        jobs(targets, bounds, n).contains(job) <==> exists|i: int|
            0 <= i < n && (#[trigger] targets[i]).window == job.window && clipped(
                targets[i],
                bounds,
            ) == Some(job.area),
    decreases n,
{
    if n > 0 {
        every_visible_window_is_blurred(targets, bounds, n - 1, job);
        let before = jobs(targets, bounds, n - 1);
        let all = jobs(targets, bounds, n);
        if all.contains(job) {
            let k = choose|k: int| 0 <= k < all.len() && all[k] == job;
            if k < before.len() {
                assert(before[k] == job);
            } else {
                assert(targets[n - 1].window == job.window);
            }
        }
        if before.contains(job) {
            let k = choose|k: int| 0 <= k < before.len() && before[k] == job;
            assert(all[k] == job);
        }
        if clipped(targets[n - 1], bounds) is Some {
            assert(all[all.len() - 1] == (BlurBackdrop {
                window: targets[n - 1].window,
                area: clipped(targets[n - 1], bounds)->0,
            }));
        }
    }
}

} // verus!
