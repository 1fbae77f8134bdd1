//! Spiral layout: every window takes half of what is left, alternating between
//! a left half and a top half, and the last window takes the rest.

use crate::geometry;
use crate::geometry::{floor_div, Rect};
use vstd::math::max;
use vstd::prelude::*;

verus! {

/// Half of `length` once `gap` is set aside, rounded down and never negative.
pub open spec fn half(length: int, gap: int) -> int {
    max((length - gap) / 2, 0)
}

/// What window `i` takes from the space that is left.
pub open spec fn piece(left: Rect, gap: int, i: int) -> Rect {
    if i % 2 == 0 {
        Rect { w: half(left.w as int, gap) as i32, ..left }
    } else {
        Rect { h: half(left.h as int, gap) as i32, ..left }
    }
}

/// What remains once window `i` has taken its piece.
pub open spec fn rest(left: Rect, gap: int, i: int) -> Rect {
    if i % 2 == 0 {
        let w = half(left.w as int, gap);
        Rect { x: (left.x + w + gap) as i32, w: max(left.w - w - gap, 0) as i32, ..left }
    } else {
        let h = half(left.h as int, gap);
        Rect { y: (left.y + h + gap) as i32, h: max(left.h - h - gap, 0) as i32, ..left }
    }
}

/// Taking a piece stays within `i32`.
pub open spec fn can_take(left: Rect, gap: int, i: int) -> bool {
    if i % 2 == 0 {
        let w = half(left.w as int, gap);
        geometry::fits_i32(left.w - gap) && geometry::fits_i32(left.x + w + gap)
    } else {
        let h = half(left.h as int, gap);
        geometry::fits_i32(left.h - gap) && geometry::fits_i32(left.y + h + gap)
    }
}

/// What is left of `area` once the first `i` windows have taken their pieces.
pub open spec fn left_after(area: Rect, gap: int, i: nat) -> Rect
    decreases i,
{
    if i == 0 {
        area
    } else {
        rest(left_after(area, gap, (i - 1) as nat), gap, i - 1)
    }
}

/// Rectangle of window `i` out of `n` in `area`.
pub open spec fn spiral_rect(area: Rect, gap: int, n: nat, i: int) -> Rect {
    let left = left_after(area, gap, i as nat);
    if i + 1 == n {
        left
    } else {
        piece(left, gap, i)
    }
}

/// Rectangles of `n` windows in a spiral.
pub open spec fn spiral_rects(n: nat, area: Rect, gap_outer: i32, gap_inner: i32) -> Seq<Rect> {
    Seq::new(
        n,
        |i: int| spiral_rect(area.spec_shrink(gap_outer), max(gap_inner as int, 0), n, i),
    )
}

/// The whole spiral stays within `i32`.
pub open spec fn can_spiral(n: nat, area: Rect, gap_outer: i32, gap_inner: i32) -> bool {
    let inset = area.spec_shrink(gap_outer);
    let gap = max(gap_inner as int, 0);
    n > 0 ==> area.can_shrink(gap_outer) && forall|i: nat|
        i + 1 < n ==> can_take(#[trigger] left_after(inset, gap, i), gap, i as int)
}

/// Places `n` windows in a spiral.
pub fn arrange(n: usize, area: Rect, gap_outer: i32, gap_inner: i32) -> (rects: Vec<Rect>)
    requires
        can_spiral(n as nat, area, gap_outer, gap_inner),
    ensures
        rects@ == spiral_rects(n as nat, area, gap_outer, gap_inner),
        rects@.len() == n,
{
    let mut rects: Vec<Rect> = Vec::new();
    if n == 0 {
        assert(rects@ =~= spiral_rects(0, area, gap_outer, gap_inner));
        return rects;
    }
    let gap: i32 = if gap_inner > 0 { gap_inner } else { 0 };
    let ghost inset = area.spec_shrink(gap_outer);
    assert(gap as int == max(gap_inner as int, 0));
    let mut left: Rect = area.shrink(gap_outer);
    let mut i: usize = 0;
    while i + 1 < n
        invariant
            0 <= i < n,
            gap >= 0,
            left == left_after(inset, gap as int, i as nat),
            left.w >= 0,
            left.h >= 0,
            forall|k: nat|
                k + 1 < n ==> can_take(#[trigger] left_after(inset, gap as int, k), gap as int, k as int),
            rects@.len() == i,
            forall|k: int| 0 <= k < i ==> rects@[k] == spiral_rect(inset, gap as int, n as nat, k),
        decreases n - i,
    {
        assert(can_take(left, gap as int, i as int));
        assert(left_after(inset, gap as int, (i + 1) as nat) == rest(left, gap as int, i as int));
        if i % 2 == 0 {
            let w: i32 = floor_div((left.w - gap) as i64, 2) as i32;
            let w: i32 = if w > 0 { w } else { 0 };
            rects.push(Rect::new(left.x, left.y, w, left.h));
            let more: i32 = left.w - w - gap;
            left = Rect::new(left.x + w + gap, left.y, if more > 0 { more } else { 0 }, left.h);
        } else {
            let h: i32 = floor_div((left.h - gap) as i64, 2) as i32;
            let h: i32 = if h > 0 { h } else { 0 };
            rects.push(Rect::new(left.x, left.y, left.w, h));
            let more: i32 = left.h - h - gap;
            left = Rect::new(left.x, left.y + h + gap, left.w, if more > 0 { more } else { 0 });
        }
        i = i + 1;
    }
    rects.push(left);
    assert(rects@ =~= spiral_rects(n as nat, area, gap_outer, gap_inner));
    rects
}

/// Whether every split of the spiral finds at least the gap to cut out.
pub open spec fn spiral_has_room(n: nat, area: Rect, gap_outer: i32, gap_inner: i32) -> bool {
    let inset = area.spec_shrink(gap_outer);
    let gap = max(gap_inner as int, 0);
    forall|i: nat|
        i + 1 < n ==> {
            let left = #[trigger] left_after(inset, gap, i);
            if i % 2 == 0 {
                gap <= left.w
            } else {
                gap <= left.h
            }
        }
}

/// What is left later lies inside what was left before.
proof fn lemma_left_shrinks(area: Rect, gap: int, i: nat, j: nat, n: nat)
    requires
        0 <= gap <= i32::MAX,
        area.w >= 0,
        area.h >= 0,
        i <= j < n,
        forall|k: nat|
            k + 1 < n ==> {
                let left = #[trigger] left_after(area, gap, k);
                &&& can_take(left, gap, k as int)
                &&& if k % 2 == 0 {
                    gap <= left.w
                } else {
                    gap <= left.h
                }
            },
    ensures
        left_after(area, gap, i).contains_rect(left_after(area, gap, j)),
        left_after(area, gap, j).w >= 0,
        left_after(area, gap, j).h >= 0,
    decreases j,
{
    if j > 0 {
        let before = left_after(area, gap, (j - 1) as nat);
        if i < j {
            lemma_left_shrinks(area, gap, i, (j - 1) as nat, n);
        } else {
            lemma_left_shrinks(area, gap, (j - 1) as nat, (j - 1) as nat, n);
        }
        assert(can_take(before, gap, j - 1));
        assert(left_after(area, gap, j) == rest(before, gap, j - 1));
    }
}

/// Windows in a spiral with room for its gaps stay inside the area inset by
/// the outer gap, and no two of them overlap.
pub proof fn spiral_windows_stay_inside_and_apart(
    n: nat,
    area: Rect,
    gap_outer: i32,
    gap_inner: i32,
    i: int,
    j: int,
)
    requires
        can_spiral(n, area, gap_outer, gap_inner),
        spiral_has_room(n, area, gap_outer, gap_inner),
        0 <= i < j < n,
    ensures
        area.spec_shrink(gap_outer).contains_rect(spiral_rects(n, area, gap_outer, gap_inner)[i]),
        area.spec_shrink(gap_outer).contains_rect(spiral_rects(n, area, gap_outer, gap_inner)[j]),
        spiral_rects(n, area, gap_outer, gap_inner)[i].apart_from(
            spiral_rects(n, area, gap_outer, gap_inner)[j],
        ),
{
    let inset = area.spec_shrink(gap_outer);
    let gap = max(gap_inner as int, 0);
    assert forall|k: nat| k + 1 < n implies {
        let left = #[trigger] left_after(inset, gap, k);
        &&& can_take(left, gap, k as int)
        &&& if k % 2 == 0 {
            gap <= left.w
        } else {
            gap <= left.h
        }
    } by {
        let left = left_after(inset, gap, k);
        assert(can_take(left, gap, k as int));
    }
    lemma_left_shrinks(inset, gap, 0, i as nat, n);
    lemma_left_shrinks(inset, gap, (i + 1) as nat, j as nat, n);
    lemma_left_shrinks(inset, gap, 0, j as nat, n);
    let at_i = left_after(inset, gap, i as nat);
    assert(can_take(at_i, gap, i));
    assert(left_after(inset, gap, (i + 1) as nat) == rest(at_i, gap, i));
    assert(left_after(inset, gap, 0) == inset);
}

/// Two windows that follow each other in the spiral never get the same
/// rectangle, unless nothing was left to split and there is no gap.
pub proof fn consecutive_spiral_windows_differ(
    n: nat,
    area: Rect,
    gap_outer: i32,
    gap_inner: i32,
    i: int,
)
    requires
        can_spiral(n, area, gap_outer, gap_inner),
        0 <= i,
        i + 1 < n,
        ({
            let left = left_after(area.spec_shrink(gap_outer), max(gap_inner as int, 0), i as nat);
            gap_inner > 0 || (if i % 2 == 0 { left.w } else { left.h }) > 0
        }),
    ensures
        spiral_rects(n, area, gap_outer, gap_inner)[i] != spiral_rects(
            n,
            area,
            gap_outer,
            gap_inner,
        )[i + 1],
{
    let inset = area.spec_shrink(gap_outer);
    let gap = max(gap_inner as int, 0);
    let left = left_after(inset, gap, i as nat);
    assert(can_take(left, gap, i));
    assert(left_after(inset, gap, (i + 1) as nat) == rest(left, gap, i));
}

/// Every window of a spiral but the last takes half of the side that is cut,
/// once the gap is set aside, and what is left for the windows after it is as
/// long, up to one pixel. The first cut is across the width of the area inside
/// the outer gap; after that, the side that is cut is the one that the window
/// before had whole. Where not even the gap fits, nothing is left to take.
pub proof fn every_spiral_window_takes_half_of_what_is_left(
    n: nat,
    area: Rect,
    gap_outer: i32,
    gap_inner: i32,
    i: int,
)
    requires
        can_spiral(n, area, gap_outer, gap_inner),
        0 <= i,
        i + 1 < n,
    ensures
        ({
            let rects = spiral_rects(n, area, gap_outer, gap_inner);
            let gap = max(gap_inner as int, 0);
            let across = i % 2 == 0;
            let length = if i == 0 {
                max(area.w - 2 * max(gap_outer as int, 0), 0)
            } else if across {
                rects[i - 1].w as int
            } else {
                rects[i - 1].h as int
            };
            let side = if across {
                rects[i].w
            } else {
                rects[i].h
            };
            let later = if across {
                rects[i + 1].w
            } else {
                rects[i + 1].h
            };
            &&& length >= gap ==> 2 * side + gap == length || 2 * side + gap + 1 == length
            &&& length >= gap ==> side + gap + later == length
            &&& length < gap ==> side == 0 && later == 0
        }),
{
    let inset = area.spec_shrink(gap_outer);
    let gap = max(gap_inner as int, 0);
    lemma_left_not_negative(inset, gap, i as nat, n);
    assert(can_take(left_after(inset, gap, i as nat), gap, i));
    assert(left_after(inset, gap, (i + 1) as nat) == rest(
        left_after(inset, gap, i as nat),
        gap,
        i,
    ));
    if i > 0 {
        lemma_left_not_negative(inset, gap, (i - 1) as nat, n);
        assert(can_take(left_after(inset, gap, (i - 1) as nat), gap, i - 1));
        assert(left_after(inset, gap, i as nat) == rest(
            left_after(inset, gap, (i - 1) as nat),
            gap,
            i - 1,
        ));
    }
}

/// The first window of a spiral starts in the corner of the area inside the
/// outer gap, with its whole height, and with its whole width when it is alone.
/// A window at an even place has the next one to its right, a gap away and at
/// the same height; one at an odd place has it below, a gap away and in the
/// same column. The last window has what was left.
pub proof fn spiral_windows_follow_each_other(
    n: nat,
    area: Rect,
    gap_outer: i32,
    gap_inner: i32,
    i: int,
)
    requires
        can_spiral(n, area, gap_outer, gap_inner),
        0 <= i < n,
    ensures
        ({
            let rects = spiral_rects(n, area, gap_outer, gap_inner);
            let gap = max(gap_inner as int, 0);
            let margin = max(gap_outer as int, 0);
            &&& rects.len() == n
            &&& rects[0].x == area.x + margin
            &&& rects[0].y == area.y + margin
            &&& rects[0].h == max(area.h - 2 * margin, 0)
            &&& n == 1 ==> rects[0].w == max(area.w - 2 * margin, 0)
            &&& i + 1 < n && i % 2 == 0 ==> {
                &&& rects[i + 1].x == rects[i].x + rects[i].w + gap
                &&& rects[i + 1].y == rects[i].y
                &&& i + 2 == n ==> rects[i + 1].h == rects[i].h
            }
            &&& i + 1 < n && i % 2 == 1 ==> {
                &&& rects[i + 1].y == rects[i].y + rects[i].h + gap
                &&& rects[i + 1].x == rects[i].x
                &&& i + 2 == n ==> rects[i + 1].w == rects[i].w
            }
        }),
{
    let inset = area.spec_shrink(gap_outer);
    let gap = max(gap_inner as int, 0);
    assert(left_after(inset, gap, 0) == inset);
    if i + 1 < n {
        lemma_left_not_negative(inset, gap, i as nat, n);
        assert(can_take(left_after(inset, gap, i as nat), gap, i));
        assert(left_after(inset, gap, (i + 1) as nat) == rest(
            left_after(inset, gap, i as nat),
            gap,
            i,
        ));
    }
}

proof fn lemma_left_not_negative(area: Rect, gap: int, i: nat, n: nat)
    requires
        0 <= gap,
        area.w >= 0,
        area.h >= 0,
        i < n,
        forall|k: nat| k + 1 < n ==> can_take(#[trigger] left_after(area, gap, k), gap, k as int),
    ensures
        left_after(area, gap, i).w >= 0,
        left_after(area, gap, i).h >= 0,
    decreases i,
{
    if i > 0 {
        let before = left_after(area, gap, (i - 1) as nat);
        lemma_left_not_negative(area, gap, (i - 1) as nat, n);
        assert(can_take(before, gap, i - 1));
        assert(left_after(area, gap, i) == rest(before, gap, i - 1));
    }
}

} // verus!
