//! The layout engine: from a list of windows and an area to placements.

use crate::fibonacci;
use crate::geometry::Rect;
use crate::monocle;
use crate::params::{LayoutMode, LayoutParams};
use crate::tile;
use vstd::math::max;
use vstd::prelude::*;

verus! {

/// Rectangles of `n` windows under `params`, or nothing where windows keep
/// their own geometry.
pub open spec fn layout_rects(n: nat, area: Rect, params: LayoutParams) -> Option<Seq<Rect>> {
    match params.mode {
        LayoutMode::Floating => None,
        LayoutMode::Tile => Some(
            tile::tile_rects(
                n,
                area,
                params.nmaster as nat,
                params.mfact,
                params.gaps.outer,
                params.gaps.inner,
            ),
        ),
        LayoutMode::Fibonacci => Some(
            fibonacci::spiral_rects(n, area, params.gaps.outer, params.gaps.inner),
        ),
        LayoutMode::Monocle => Some(monocle::monocle_rects(n, area, params.gaps.outer)),
    }
}

/// Arranging `n` windows under `params` stays within `i32`.
pub open spec fn can_arrange(n: nat, area: Rect, params: LayoutParams) -> bool {
    match params.mode {
        LayoutMode::Floating => true,
        LayoutMode::Tile => tile::can_tile(
            n,
            area,
            params.nmaster as nat,
            params.mfact,
            params.gaps.outer,
            params.gaps.inner,
        ),
        LayoutMode::Fibonacci => fibonacci::can_spiral(
            n,
            area,
            params.gaps.outer,
            params.gaps.inner,
        ),
        LayoutMode::Monocle => n > 0 ==> area.can_shrink(params.gaps.outer),
    }
}

/// Position and size of every window for the mode in `params`, in the order of
/// `windows`. In floating mode the geometry is not touched.
pub fn arrange<W: Clone>(windows: &[W], area: Rect, params: &LayoutParams) -> (placed: Option<
    Vec<(W, Rect)>,
>)
    requires
        can_arrange(windows@.len(), area, *params),
    ensures
        placed is None <==> params.mode == LayoutMode::Floating,
        placed is Some ==> placed->0@.len() == windows@.len(),
        placed is Some ==> forall|i: int|
            0 <= i < windows@.len() ==> vstd::pervasive::cloned(
                windows@[i],
                (#[trigger] placed->0@[i]).0,
            ) && placed->0@[i].1 == layout_rects(windows@.len(), area, *params)->0[i],
{
    let n: usize = windows.len();
    let rects: Vec<Rect> = match params.mode {
        LayoutMode::Floating => return None,
        LayoutMode::Tile => tile::arrange(
            n,
            area,
            params.nmaster,
            params.mfact,
            params.gaps.outer,
            params.gaps.inner,
        ),
        LayoutMode::Fibonacci => fibonacci::arrange(
            n,
            area,
            params.gaps.outer,
            params.gaps.inner,
        ),
        LayoutMode::Monocle => monocle::arrange(n, area, params.gaps.outer),
    };
    let ghost wanted = layout_rects(windows@.len(), area, *params)->0;
    assert(rects@ == wanted);
    let mut placed: Vec<(W, Rect)> = Vec::new();
    let mut i: usize = 0;
    while i < n
        invariant
            i <= n,
            n == windows@.len(),
            rects@.len() == n,
            rects@ == wanted,
            placed@.len() == i,
            forall|k: int|
                0 <= k < i ==> vstd::pervasive::cloned(windows@[k], (#[trigger] placed@[k]).0)
                    && placed@[k].1 == wanted[k],
        decreases n - i,
    {
        placed.push((windows[i].clone(), rects[i]));
        i = i + 1;
    }
    Some(placed)
}

/// Each mode lays out in its own way, with the outer gap around the windows and
/// the inner gap between them: tiled windows stand in a left and a right column,
/// a spiral gives its first window half of the width, in monocle all windows are
/// in the same place, and floating windows are left alone.
pub proof fn modes_lay_out_differently(n: nat, area: Rect, params: LayoutParams)
    requires
        can_arrange(n, area, params),
        n >= 2,
        params.gaps.outer >= 0,
        params.gaps.inner >= 0,
        area.w >= 2 * params.gaps.outer + params.gaps.inner,
        area.h >= 2 * params.gaps.outer,
    ensures
        params.mode == LayoutMode::Floating <==> layout_rects(n, area, params) is None,
        layout_rects(n, area, params) matches Some(rects) ==> {
            let outer = params.gaps.outer;
            let inner = params.gaps.inner;
            let width = area.w - 2 * outer;
            let height = area.h - 2 * outer;
            &&& rects.len() == n
            &&& rects[0].x == area.x + outer
            &&& rects[0].y == area.y + outer
            &&& params.mode == LayoutMode::Monocle ==> {
                &&& rects[0].w == width
                &&& rects[0].h == height
                &&& forall|i: int| 0 <= i < n ==> #[trigger] rects[i] == rects[0]
            }
            &&& params.mode == LayoutMode::Fibonacci ==> {
                &&& 2 * rects[0].w + inner == width || 2 * rects[0].w + inner + 1 == width
                &&& rects[0].h == height
                &&& rects[1].x == rects[0].x + rects[0].w + inner
                &&& rects[1].x + rects[1].w == area.x + area.w - outer
            }
            &&& params.mode == LayoutMode::Tile && params.nmaster == 1 ==> {
                &&& rects[0].h == height
                &&& rects[n - 1].x == rects[0].x + rects[0].w + inner
                &&& rects[n - 1].x + rects[n - 1].w == area.x + area.w - outer
            }
            &&& params.mode == LayoutMode::Tile && params.nmaster == 0 && inner * (n - 1) <= height
                ==> {
                &&& rects[0].w == width
                &&& rects[1].x == rects[0].x
                &&& rects[1].y == rects[0].y + rects[0].h + inner
                &&& rects[n - 1].y + rects[n - 1].h == area.y + area.h - outer
            }
        },
{
    let outer = params.gaps.outer;
    let inner = params.gaps.inner;
    match params.mode {
        LayoutMode::Floating => {},
        LayoutMode::Monocle => {
            monocle::monocle_windows_cover_the_whole_area(n, area, outer, 0);
        },
        LayoutMode::Fibonacci => {
            fibonacci::every_spiral_window_takes_half_of_what_is_left(n, area, outer, inner, 0);
            fibonacci::spiral_windows_follow_each_other(n, area, outer, inner, 0);
        },
        LayoutMode::Tile => {
            let nmaster = params.nmaster as nat;
            let inset = area.spec_shrink(outer);
            let rects = tile::tile_rects(n, area, nmaster, params.mfact, outer, inner);
            if tile::single_column(n, nmaster) {
                assert(tile::row_top(inset, n as int, inner as int, 0) == inset.y) by {
                    assert(0 * (tile::row_height(inset.h as int, n as int, inner as int) + inner)
                        == 0);
                }
                if inner * (n - 1) <= inset.h {
                    tile::rows_share_a_column_evenly(inset, n, inner, 0);
                    tile::rows_share_a_column_evenly(inset, n, inner, n - 1);
                }
            } else {
                let left = tile::master_area(inset, inner as int, params.mfact);
                let right = tile::stack_area(inset, inner as int, params.mfact);
                tile::master_and_stack_fill_the_width(
                    n,
                    area,
                    nmaster,
                    params.mfact,
                    outer,
                    inner,
                    0,
                    n - 1,
                );
                assert(rects[0] == tile::column(left, nmaster, inner)[0]);
                assert(0 * (tile::row_height(left.h as int, nmaster as int, inner as int) + inner)
                    == 0);
                if nmaster == 1 {
                    assert(max(inner as int, 0) * (1nat - 1) == 0) by (nonlinear_arith);
                    tile::rows_share_a_column_evenly(left, 1, inner, 0);
                }
            }
        },
    }
}

} // verus!
