//! Monocle layout: every window covers the whole area.

use crate::geometry::Rect;
use vstd::prelude::*;

verus! {

/// Rectangles of `n` windows that all cover `area`, inset by the outer gap.
pub open spec fn monocle_rects(n: nat, area: Rect, gap_outer: i32) -> Seq<Rect> {
    Seq::new(n, |i: int| area.spec_shrink(gap_outer))
}

/// Places `n` windows on top of each other.
pub fn arrange(n: usize, area: Rect, gap_outer: i32) -> (rects: Vec<Rect>)
    requires
        n > 0 ==> area.can_shrink(gap_outer),
    ensures
        rects@ == monocle_rects(n as nat, area, gap_outer),
        rects@.len() == n,
{
    let mut rects: Vec<Rect> = Vec::new();
    if n == 0 {
        assert(rects@ =~= monocle_rects(0, area, gap_outer));
        return rects;
    }
    let inset: Rect = area.shrink(gap_outer);
    let mut i: usize = 0;
    while i < n
        invariant
            i <= n,
            inset == area.spec_shrink(gap_outer),
            rects@ =~= monocle_rects(i as nat, area, gap_outer),
        decreases n - i,
    {
        rects.push(inset);
        i = i + 1;
    }
    rects
}

/// Every window covers the same rectangle: the area inside the outer gap.
pub proof fn monocle_windows_cover_the_whole_area(n: nat, area: Rect, gap_outer: i32, i: int)
    requires
        area.can_shrink(gap_outer),
        0 <= i < n,
    ensures
        ({
            let r = monocle_rects(n, area, gap_outer)[i];
            let margin = if gap_outer > 0 {
                gap_outer as int
            } else {
                0
            };
            &&& monocle_rects(n, area, gap_outer).len() == n
            &&& r.x == area.x + margin
            &&& r.y == area.y + margin
            &&& area.w >= 2 * margin ==> r.x + r.w == area.x + area.w - margin
            &&& area.h >= 2 * margin ==> r.y + r.h == area.y + area.h - margin
        }),
{
}

} // verus!
