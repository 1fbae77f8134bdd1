//! Master-stack tiling.
//!
//! The first windows share a column on the left, whose width is a share of the
//! area; the rest are stacked in a column on the right.

use crate::binary64::Binary64;
use crate::geometry;
use crate::geometry::{floor_div, Rect};
use vstd::arithmetic::div_mod::lemma_fundamental_div_mod;
use vstd::math::{max, min};
use vstd::prelude::*;

verus! {

/// Height of the rows when `count` of them share `height` with `gap` between
/// neighbours; negative when the gaps alone do not fit.
pub open spec fn row_height(height: int, count: int, gap: int) -> int {
    (height - gap * (count - 1)) / count
}

/// Top of row `i` of a column.
pub open spec fn row_top(area: Rect, count: int, gap: int, i: int) -> int {
    area.y + i * (row_height(area.h as int, count, gap) + gap)
}

/// Height of row `i` before it is kept from being negative. The last row takes
/// what is left of the column.
pub open spec fn raw_row_height(area: Rect, count: int, gap: int, i: int) -> int {
    if i + 1 == count {
        area.y + area.h - row_top(area, count, gap, i)
    } else {
        row_height(area.h as int, count, gap)
    }
}

/// Row `i` of `count` rows in `area`.
pub open spec fn row(area: Rect, count: int, gap: int, i: int) -> Rect {
    Rect {
        x: area.x,
        y: row_top(area, count, gap, i) as i32,
        w: area.w,
        h: max(raw_row_height(area, count, gap, i), 0) as i32,
    }
}

/// The rows of a column.
pub open spec fn column(area: Rect, count: nat, gap: i32) -> Seq<Rect> {
    Seq::new(count, |i: int| row(area, count as int, max(gap as int, 0), i))
}

/// Laying out the column stays within `i32` at every step.
pub open spec fn can_split(area: Rect, count: nat, gap: i32) -> bool {
    let n = count as int;
    let g = max(gap as int, 0);
    let total = g * (n - 1);
    let bottom = area.y + area.h;
    let last = row_top(area, n, g, n - 1);
    count > 0 ==> {
        &&& n <= i32::MAX
        &&& geometry::fits_i32(total)
        &&& geometry::fits_i32(area.h - total)
        &&& geometry::fits_i32(bottom)
        &&& geometry::fits_i32(bottom + g)
        &&& geometry::fits_i32(last)
        &&& geometry::fits_i32(bottom - last)
        &&& geometry::fits_i32(bottom - last + g)
    }
}

/// The distance from one row to the next is the column plus one gap, divided
/// evenly.
pub proof fn lemma_row_pitch(height: int, count: int, gap: int)
    requires
        count > 0,
    ensures
        row_height(height, count, gap) + gap == (height + gap) / count,
        count * (row_height(height, count, gap) + gap) <= height + gap,
        height + gap < count * (row_height(height, count, gap) + gap) + count,
{
    let total = height - gap * (count - 1);
    let h = row_height(height, count, gap);
    lemma_fundamental_div_mod(total, count);
    let rest = total % count;
    assert(height + gap == count * (h + gap) + rest) by (nonlinear_arith)
        requires
            total == height - gap * (count - 1),
            total == count * h + rest,
    ;
    vstd::arithmetic::div_mod::lemma_fundamental_div_mod_converse(height + gap, count, h + gap, rest);
}

/// Splits `area` into `count` rows of equal height with `gap` between them.
/// The last row takes the remainder of the division, so that no hole is left
/// at the bottom.
pub fn split_column(area: Rect, count: usize, gap: i32) -> (rects: Vec<Rect>)
    requires
        can_split(area, count as nat, gap),
    ensures
        rects@ == column(area, count as nat, gap),
{
    let mut rects: Vec<Rect> = Vec::new();
    if count == 0 {
        assert(rects@ =~= column(area, 0, gap));
        return rects;
    }
    let gap: i32 = if gap > 0 { gap } else { 0 };
    let ghost g = gap as int;
    let ghost n = count as int;
    let ghost pitch = row_height(area.h as int, n, g) + g;
    proof {
        lemma_row_pitch(area.h as int, n, g);
        lemma_fundamental_div_mod(area.h - g * (n - 1), n);
        let total = area.h - g * (n - 1);
        let h = row_height(area.h as int, n, g);
        assert(g * (n - 1) == (n - 1) * g) by (nonlinear_arith);
        assert(i32::MIN <= h <= i32::MAX) by (nonlinear_arith)
            requires
                n * h <= total,
                total < n * h + n,
                i32::MIN <= total <= i32::MAX,
                n >= 1,
        ;
        if n > 1 {
            assert(pitch <= i32::MAX) by (nonlinear_arith)
                requires
                    n * pitch <= area.h + g,
                    n >= 2,
                    area.h <= i32::MAX,
                    g <= i32::MAX,
            ;
        }
    }
    let total_gap: i32 = gap * (count as i32 - 1);
    let h: i32 = floor_div((area.h - total_gap) as i64, count as i64) as i32;
    let mut y: i32 = area.y;
    let mut i: usize = 0;
    while i < count
        invariant
            0 <= i <= count,
            count == n,
            n <= i32::MAX,
            gap == g,
            g >= 0,
            h == row_height(area.h as int, n, g),
            pitch == h + g,
            n > 1 ==> geometry::fits_i32(pitch),
            geometry::fits_i32(area.y + area.h),
            geometry::fits_i32(area.y + area.h + g),
            geometry::fits_i32(row_top(area, n, g, n - 1)),
            geometry::fits_i32(area.y + area.h - row_top(area, n, g, n - 1)),
            geometry::fits_i32(area.y + area.h - row_top(area, n, g, n - 1) + g),
            i < count ==> y == row_top(area, n, g, i as int),
            rects@.len() == i,
            forall|k: int| 0 <= k < i ==> rects@[k] == row(area, n, g, k),
        decreases count - i,
    {
        let this_h: i32 = if i + 1 == count { (area.y + area.h) - y } else { h };
        proof {
            if i + 1 < count {
                assert((i + 1) * pitch == i * pitch + pitch) by (nonlinear_arith);
                let low = area.y as int;
                let high = row_top(area, n, g, n - 1);
                let next = row_top(area, n, g, i + 1);
                assert((low <= next <= high) || (high <= next <= low)) by (nonlinear_arith)
                    requires
                        next == low + (i + 1) * pitch,
                        high == low + (n - 1) * pitch,
                        0 <= i + 1 <= n - 1,
                ;
            }
        }
        rects.push(Rect::new(area.x, y, area.w, if this_h > 0 { this_h } else { 0 }));
        y = y + (this_h + gap);
        i = i + 1;
    }
    assert(rects@ =~= column(area, count as nat, gap));
    rects
}

/// Width of the master column: `mfact` of what the gap leaves, kept between
/// nothing and everything.
pub open spec fn master_width(width: int, gap: int, mfact: Binary64) -> int {
    max(0, min(mfact.spec_scale_i32((width - gap) as i32) as int, width - gap))
}

/// The master column of an area.
pub open spec fn master_area(area: Rect, gap: int, mfact: Binary64) -> Rect {
    Rect { x: area.x, y: area.y, w: master_width(area.w as int, gap, mfact) as i32, h: area.h }
}

/// The stack column of an area.
pub open spec fn stack_area(area: Rect, gap: int, mfact: Binary64) -> Rect {
    let master = master_width(area.w as int, gap, mfact);
    Rect {
        x: (area.x + master + gap) as i32,
        y: area.y,
        w: (area.w - gap - master) as i32,
        h: area.h,
    }
}

/// Whether all of `n` windows share a single column.
pub open spec fn single_column(n: nat, nmaster: nat) -> bool {
    nmaster == 0 || nmaster >= n
}

/// Rectangles of `n` tiled windows.
pub open spec fn tile_rects(
    n: nat,
    area: Rect,
    nmaster: nat,
    mfact: Binary64,
    gap_outer: i32,
    gap_inner: i32,
) -> Seq<Rect> {
    let inset = area.spec_shrink(gap_outer);
    let gap = max(gap_inner as int, 0);
    if n == 0 {
        Seq::empty()
    } else if single_column(n, nmaster) {
        column(inset, n, gap_inner)
    } else {
        column(master_area(inset, gap, mfact), nmaster, gap_inner) + column(
            stack_area(inset, gap, mfact),
            (n - nmaster) as nat,
            gap_inner,
        )
    }
}

/// Tiling stays within `i32`, and with two columns the gap between them fits
/// into the width.
pub open spec fn can_tile(
    n: nat,
    area: Rect,
    nmaster: nat,
    mfact: Binary64,
    gap_outer: i32,
    gap_inner: i32,
) -> bool {
    let inset = area.spec_shrink(gap_outer);
    let gap = max(gap_inner as int, 0);
    n > 0 ==> {
        &&& area.can_shrink(gap_outer)
        &&& if single_column(n, nmaster) {
            can_split(inset, n, gap_inner)
        } else {
            &&& gap <= inset.w
            &&& geometry::fits_i32(inset.x + master_width(inset.w as int, gap, mfact) + gap)
            &&& can_split(master_area(inset, gap, mfact), nmaster, gap_inner)
            &&& can_split(stack_area(inset, gap, mfact), (n - nmaster) as nat, gap_inner)
        }
    }
}

/// Places `n` windows: the first `nmaster` in the master column, the others in
/// the stack. With no master window, or with nothing but master windows, there
/// is one column of full width.
pub fn arrange(
    n: usize,
    area: Rect,
    nmaster: usize,
    mfact: Binary64,
    gap_outer: i32,
    gap_inner: i32,
) -> (rects: Vec<Rect>)
    requires
        can_tile(n as nat, area, nmaster as nat, mfact, gap_outer, gap_inner),
    ensures
        rects@ == tile_rects(n as nat, area, nmaster as nat, mfact, gap_outer, gap_inner),
        rects@.len() == n,
{
    if n == 0 {
        return Vec::new();
    }
    let area = area.shrink(gap_outer);
    let nmaster: usize = if nmaster < n { nmaster } else { n };
    if nmaster == 0 || nmaster == n {
        return split_column(area, n, gap_inner);
    }
    let gap: i32 = if gap_inner > 0 { gap_inner } else { 0 };
    let available: i32 = area.w - gap;
    let wanted: i32 = mfact.scale_i32(available);
    let at_most: i32 = if wanted < available { wanted } else { available };
    let master_w: i32 = if at_most > 0 { at_most } else { 0 };
    let stack_w: i32 = area.w - gap - master_w;
    let master = Rect::new(area.x, area.y, master_w, area.h);
    let stack = Rect::new(area.x + master_w + gap, area.y, stack_w, area.h);
    let mut rects: Vec<Rect> = split_column(master, nmaster, gap_inner);
    let mut rest: Vec<Rect> = split_column(stack, n - nmaster, gap_inner);
    rects.append(&mut rest);
    rects
}

/// In a column whose rows fit, every row lies inside the column, each row
/// starts one gap below the one before it, no row reaches into a later one,
/// and the last row ends exactly at the bottom of the column.
///
/// The rows fit when the last one is not squeezed below nothing.
pub proof fn column_rows_tile_the_height(area: Rect, count: nat, gap: i32, i: int, j: int)
    requires
        can_split(area, count, gap),
        area.h >= 0,
        raw_row_height(area, count as int, max(gap as int, 0), count - 1) >= 0,
        0 <= i < j < count,
    ensures
        area.contains_rect(column(area, count, gap)[i]),
        area.contains_rect(column(area, count, gap)[j]),
        column(area, count, gap)[i].y + column(area, count, gap)[i].h <= column(area, count, gap)[j].y,
        row_height(area.h as int, count as int, max(gap as int, 0)) >= 0 ==> (i + 1 == j
            ==> column(area, count, gap)[i].y + column(area, count, gap)[i].h + max(gap as int, 0)
            == column(area, count, gap)[j].y),
        column(area, count, gap)[count - 1].y + column(area, count, gap)[count - 1].h == area.y
            + area.h,
{
    let n = count as int;
    let g = max(gap as int, 0);
    lemma_row_inside(area, n, g, i);
    lemma_row_inside(area, n, g, j);
    lemma_row_inside(area, n, g, n - 1);
    let h = row_height(area.h as int, n, g);
    let pitch = h + g;
    lemma_row_pitch(area.h as int, n, g);
    assert(pitch >= 0) by (nonlinear_arith)
        requires
            area.h + g < n * pitch + n,
            area.h + g >= 0,
            n > 0,
    ;
    assert(j * pitch >= i * pitch + pitch) by (nonlinear_arith)
        requires
            j >= i + 1,
            pitch >= 0,
    ;
    if i + 1 == j {
        assert(j * pitch == i * pitch + pitch) by (nonlinear_arith)
            requires
                j == i + 1,
        ;
    }
}

/// A row of a column whose rows fit lies inside the column.
proof fn lemma_row_inside(area: Rect, n: int, g: int, i: int)
    requires
        n > 0,
        g >= 0,
        area.h >= 0,
        geometry::fits_i32(area.y + area.h),
        raw_row_height(area, n, g, n - 1) >= 0,
        0 <= i < n,
    ensures
        area.contains_rect(row(area, n, g, i)),
        row(area, n, g, i).y == row_top(area, n, g, i),
        row(area, n, g, i).h == max(raw_row_height(area, n, g, i), 0),
        i + 1 == n ==> row_top(area, n, g, i) + row(area, n, g, i).h == area.y + area.h,
{
    let h = row_height(area.h as int, n, g);
    let pitch = h + g;
    lemma_row_pitch(area.h as int, n, g);
    assert(pitch >= 0) by (nonlinear_arith)
        requires
            area.h + g < n * pitch + n,
            area.h + g >= 0,
            n > 0,
    ;
    assert(0 <= i * pitch <= (n - 1) * pitch) by (nonlinear_arith)
        requires
            0 <= i <= n - 1,
            pitch >= 0,
    ;
    if i + 1 < n {
        assert(i * pitch + pitch <= (n - 1) * pitch) by (nonlinear_arith)
            requires
                i + 1 <= n - 1,
                pitch >= 0,
        ;
    }
}

/// Whether the rows of every column that tiling uses fit into its height.
pub open spec fn tile_has_room(
    n: nat,
    area: Rect,
    nmaster: nat,
    gap_outer: i32,
    gap_inner: i32,
) -> bool {
    let inset = area.spec_shrink(gap_outer);
    let gap = max(gap_inner as int, 0);
    if single_column(n, nmaster) {
        raw_row_height(inset, n as int, gap, n - 1) >= 0
    } else {
        &&& raw_row_height(inset, nmaster as int, gap, nmaster - 1) >= 0
        &&& raw_row_height(inset, n - nmaster, gap, n - nmaster - 1) >= 0
    }
}

/// Tiled windows stay inside the area inset by the outer gap, and no two of
/// them overlap.
pub proof fn tiled_windows_stay_inside_and_apart(
    n: nat,
    area: Rect,
    nmaster: nat,
    mfact: Binary64,
    gap_outer: i32,
    gap_inner: i32,
    i: int,
    j: int,
)
    requires
        can_tile(n, area, nmaster, mfact, gap_outer, gap_inner),
        tile_has_room(n, area, nmaster, gap_outer, gap_inner),
        0 <= i < j < n,
    ensures
        area.spec_shrink(gap_outer).contains_rect(
            tile_rects(n, area, nmaster, mfact, gap_outer, gap_inner)[i],
        ),
        area.spec_shrink(gap_outer).contains_rect(
            tile_rects(n, area, nmaster, mfact, gap_outer, gap_inner)[j],
        ),
        tile_rects(n, area, nmaster, mfact, gap_outer, gap_inner)[i].apart_from(
            tile_rects(n, area, nmaster, mfact, gap_outer, gap_inner)[j],
        ),
{
    let inset = area.spec_shrink(gap_outer);
    let gap = max(gap_inner as int, 0);
    if single_column(n, nmaster) {
        column_rows_tile_the_height(inset, n, gap_inner, i, j);
    } else {
        let master = master_area(inset, gap, mfact);
        let stack = stack_area(inset, gap, mfact);
        let rest = (n - nmaster) as nat;
        let m = nmaster as int;
        assert(raw_row_height(master, m, gap, m - 1) == raw_row_height(inset, m, gap, m - 1));
        assert(raw_row_height(stack, rest as int, gap, rest - 1) == raw_row_height(
            inset,
            rest as int,
            gap,
            rest - 1,
        ));
        if i < m {
            lemma_row_inside(master, m, gap, i);
        } else {
            lemma_row_inside(stack, rest as int, gap, i - m);
        }
        if j < m {
            lemma_row_inside(master, m, gap, j);
            column_rows_tile_the_height(master, nmaster, gap_inner, i, j);
        } else {
            lemma_row_inside(stack, rest as int, gap, j - m);
            if i >= m {
                column_rows_tile_the_height(stack, rest, gap_inner, i - m, j - m);
            }
        }
    }
}

/// A single tiled window fills the inset area.
pub proof fn lone_tiled_window_fills_the_area(
    area: Rect,
    nmaster: nat,
    mfact: Binary64,
    gap_outer: i32,
    gap_inner: i32,
)
    requires
        can_tile(1, area, nmaster, mfact, gap_outer, gap_inner),
    ensures
        tile_rects(1, area, nmaster, mfact, gap_outer, gap_inner) == seq![area.spec_shrink(gap_outer)],
{
    let inset = area.spec_shrink(gap_outer);
    let gap = max(gap_inner as int, 0);
    assert(row_top(inset, 1, gap, 0) == inset.y) by (nonlinear_arith)
        requires
            row_top(inset, 1, gap, 0) == inset.y + 0 * (row_height(inset.h as int, 1, gap) + gap),
    ;
    assert(tile_rects(1, area, nmaster, mfact, gap_outer, gap_inner) =~= seq![inset]);
}

/// A larger share never narrows the master column and never widens the stack.
pub proof fn larger_share_never_narrows_the_master(
    n: nat,
    area: Rect,
    nmaster: nat,
    share: Binary64,
    larger: Binary64,
    gap_outer: i32,
    gap_inner: i32,
)
    requires
        0 < nmaster < n,
        !share.spec_is_nan(),
        !larger.spec_is_nan(),
        !larger.spec_lt(share),
        can_tile(n, area, nmaster, share, gap_outer, gap_inner),
        can_tile(n, area, nmaster, larger, gap_outer, gap_inner),
    ensures
        ({
            let before = tile_rects(n, area, nmaster, share, gap_outer, gap_inner);
            let after = tile_rects(n, area, nmaster, larger, gap_outer, gap_inner);
            &&& forall|i: int| 0 <= i < nmaster ==> (#[trigger] before[i]).w <= after[i].w
            &&& forall|i: int| nmaster <= i < n ==> (#[trigger] before[i]).w >= after[i].w
        }),
{
    let inset = area.spec_shrink(gap_outer);
    let gap = max(gap_inner as int, 0);
    crate::binary64::scaling_keeps_the_order(share, larger, (inset.w - gap) as i32);
    let before = tile_rects(n, area, nmaster, share, gap_outer, gap_inner);
    let after = tile_rects(n, area, nmaster, larger, gap_outer, gap_inner);
    let first = column(master_area(inset, gap, share), nmaster, gap_inner);
    let wider = column(master_area(inset, gap, larger), nmaster, gap_inner);
    let second = column(stack_area(inset, gap, share), (n - nmaster) as nat, gap_inner);
    let narrower = column(stack_area(inset, gap, larger), (n - nmaster) as nat, gap_inner);
    assert forall|i: int| 0 <= i < nmaster implies (#[trigger] before[i]).w <= after[i].w by {
        assert(before[i] == first[i]);
        assert(after[i] == wider[i]);
    }
    assert forall|i: int| nmaster <= i < n implies (#[trigger] before[i]).w >= after[i].w by {
        assert(before[i] == second[i - nmaster]);
        assert(after[i] == narrower[i - nmaster]);
    }
}

/// The rows of a column with room for its gaps have the column's width. The
/// first starts at its top, each one starts a gap below the one before it, and
/// the last ends at its bottom. All are of the same height but the last, which
/// is higher by what an even division leaves over: less than a pixel for each
/// row.
pub proof fn rows_share_a_column_evenly(area: Rect, count: nat, gap: i32, i: int)
    requires
        can_split(area, count, gap),
        max(gap as int, 0) * (count - 1) <= area.h,
        0 <= i < count,
    ensures
        ({
            let rows = column(area, count, gap);
            let last = count - 1;
            &&& rows.len() == count
            &&& rows[i].x == area.x
            &&& rows[i].w == area.w
            &&& rows[0].y == area.y
            &&& i < last ==> rows[i + 1].y == rows[i].y + rows[i].h + max(gap as int, 0)
            &&& i < last ==> rows[i].h == rows[0].h
            &&& rows[last].y + rows[last].h == area.y + area.h
            &&& count > 1 ==> 0 <= rows[0].h <= rows[last].h < rows[0].h + count
        }),
{
    let n = count as int;
    let g = max(gap as int, 0);
    let h = row_height(area.h as int, n, g);
    let pitch = h + g;
    let spare = area.h - g * (n - 1);
    lemma_fundamental_div_mod(spare, n);
    assert(h >= 0) by (nonlinear_arith)
        requires
            spare == n * h + spare % n,
            spare % n < n,
            spare >= 0,
            n > 0,
    ;
    assert((n - 1) * pitch == n * h - h + g * (n - 1)) by (nonlinear_arith)
        requires
            pitch == h + g,
    ;
    assert(0 * pitch == 0);
    assert((i + 1) * pitch == i * pitch + pitch) by (nonlinear_arith);
    assert(0 <= i * pitch <= (n - 1) * pitch) by (nonlinear_arith)
        requires
            0 <= i <= n - 1,
            pitch >= 0,
    ;
    if i < n - 1 {
        assert((i + 1) * pitch <= (n - 1) * pitch) by (nonlinear_arith)
            requires
                i + 1 <= n - 1,
                pitch >= 0,
        ;
    }
    let top = row_top(area, n, g, n - 1);
    assert(area.y + area.h - top == h + spare % n);
}

/// With fewer master windows than windows, and at least one, there are two
/// columns of full height beside each other: the master windows have the left
/// one, the others the right one, with the inner gap between them, and together
/// they fill the width inside the outer gap. The master column has its share of
/// what the gap leaves.
pub proof fn master_and_stack_fill_the_width(
    n: nat,
    area: Rect,
    nmaster: nat,
    mfact: Binary64,
    gap_outer: i32,
    gap_inner: i32,
    i: int,
    j: int,
)
    requires
        can_tile(n, area, nmaster, mfact, gap_outer, gap_inner),
        0 <= i < nmaster <= j < n,
        area.w >= 2 * max(gap_outer as int, 0),
    ensures
        ({
            let rects = tile_rects(n, area, nmaster, mfact, gap_outer, gap_inner);
            let margin = max(gap_outer as int, 0);
            let gap = max(gap_inner as int, 0);
            let width = area.w - 2 * margin - gap;
            &&& rects.len() == n
            &&& rects[i].x == area.x + margin
            &&& rects[j].x == rects[i].x + rects[i].w + gap
            &&& rects[j].x + rects[j].w == area.x + area.w - margin
            &&& rects[i].w >= 0
            &&& rects[j].w >= 0
            &&& !mfact.negative() && !mfact.spec_is_nan() && !(Binary64 {
                bits: crate::binary64::ONE,
            }).spec_lt(mfact) ==> crate::binary64::is_share(mfact, width, rects[i].w as int)
        }),
{
    let inset = area.spec_shrink(gap_outer);
    let gap = max(gap_inner as int, 0);
    let rects = tile_rects(n, area, nmaster, mfact, gap_outer, gap_inner);
    let left = column(master_area(inset, gap, mfact), nmaster, gap_inner);
    let right = column(stack_area(inset, gap, mfact), (n - nmaster) as nat, gap_inner);
    assert(rects == left + right);
    assert(rects[i] == left[i]);
    assert(rects[j] == right[j - nmaster]);
    let width = (inset.w - gap) as i32;
    if !mfact.negative() && !mfact.spec_is_nan() && !(Binary64 {
        bits: crate::binary64::ONE,
    }).spec_lt(mfact) {
        crate::binary64::scaling_by_at_most_one_never_grows(mfact, width);
        if mfact.bits < crate::binary64::SIGN_BIT && mfact.exponent()
            < crate::binary64::EXPONENT_SPECIAL && mfact.scale() < 0 {
            crate::binary64::scaling_gives_the_nearest_integer(mfact, width);
        }
    }
}

/// The windows of each column share its height evenly: with one column all of
/// them do, with two the master windows do and the others do.
pub proof fn tiled_windows_share_their_column(
    n: nat,
    area: Rect,
    nmaster: nat,
    mfact: Binary64,
    gap_outer: i32,
    gap_inner: i32,
    i: int,
)
    requires
        can_tile(n, area, nmaster, mfact, gap_outer, gap_inner),
        0 <= i < n,
        area.h >= 2 * max(gap_outer as int, 0),
        max(gap_inner as int, 0) * (n - 1) <= area.h - 2 * max(gap_outer as int, 0),
    ensures
        ({
            let rects = tile_rects(n, area, nmaster, mfact, gap_outer, gap_inner);
            let margin = max(gap_outer as int, 0);
            let gap = max(gap_inner as int, 0);
            let two = 0 < nmaster < n;
            let first = if two && i >= nmaster {
                nmaster as int
            } else {
                0
            };
            let last = if two && i < nmaster {
                nmaster - 1
            } else {
                n - 1
            };
            let count = last - first + 1;
            &&& rects.len() == n
            &&& rects[first].y == area.y + margin
            &&& rects[last].y + rects[last].h == area.y + area.h - margin
            &&& i < last ==> rects[i + 1].y == rects[i].y + rects[i].h + gap
            &&& i < last ==> rects[i].h == rects[first].h
            &&& i < last ==> rects[i + 1].x == rects[i].x && rects[i + 1].w == rects[i].w
            &&& first < last ==> 0 <= rects[first].h <= rects[last].h < rects[first].h + count
            &&& !two && area.w >= 2 * margin ==> rects[i].x == area.x + margin && rects[i].w
                == area.w - 2 * margin
        }),
{
    let inset = area.spec_shrink(gap_outer);
    let gap = max(gap_inner as int, 0);
    let rects = tile_rects(n, area, nmaster, mfact, gap_outer, gap_inner);
    if single_column(n, nmaster) {
        rows_share_a_column_evenly(inset, n, gap_inner, i);
    } else {
        let left = column(master_area(inset, gap, mfact), nmaster, gap_inner);
        let rest = (n - nmaster) as nat;
        let right = column(stack_area(inset, gap, mfact), rest, gap_inner);
        assert(rects == left + right);
        assert(gap * (nmaster - 1) <= gap * (n - 1)) by (nonlinear_arith)
            requires
                nmaster <= n,
                gap >= 0,
        ;
        assert(gap * (rest - 1) <= gap * (n - 1)) by (nonlinear_arith)
            requires
                rest <= n,
                gap >= 0,
        ;
        if i < nmaster {
            rows_share_a_column_evenly(master_area(inset, gap, mfact), nmaster, gap_inner, i);
            assert forall|k: int| 0 <= k < nmaster implies #[trigger] rects[k] == left[k] by {}
        } else {
            rows_share_a_column_evenly(stack_area(inset, gap, mfact), rest, gap_inner, i - nmaster);
            assert forall|k: int| nmaster <= k < n implies #[trigger] rects[k] == right[k - nmaster] by {}
            if i + 1 < n {
                assert(rects[i + 1] == right[i + 1 - nmaster]);
            }
        }
    }
}

} // verus!
