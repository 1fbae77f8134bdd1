//! Integer rectangles shared by the layout algorithms and the renderer.

use vstd::arithmetic::div_mod::{lemma_fundamental_div_mod, lemma_fundamental_div_mod_converse};
use vstd::math::{max, min};
use vstd::prelude::*;

verus! {

/// Whether a mathematical integer is a value of `i32`.
pub open spec fn fits_i32(v: int) -> bool {
    i32::MIN <= v <= i32::MAX
}

/// A point.
#[derive(Clone, Copy, Debug, PartialEq, Eq, Structural)]
pub struct Point {
    pub x: i32,
    pub y: i32,
}

/// A size.
#[derive(Clone, Copy, Debug, PartialEq, Eq, Structural)]
pub struct Size {
    pub w: i32,
    pub h: i32,
}

/// An axis-aligned rectangle: top-left corner and size.
#[derive(Clone, Copy, Debug, PartialEq, Eq, Structural)]
pub struct Rect {
    pub x: i32,
    pub y: i32,
    pub w: i32,
    pub h: i32,
}

impl Default for Rect {
    fn default() -> (r: Rect)
        ensures
            r == (Rect { x: 0, y: 0, w: 0, h: 0 }),
    {
        Rect { x: 0, y: 0, w: 0, h: 0 }
    }
}

impl Rect {
    /// A rectangle from its corner and size.
    pub fn new(x: i32, y: i32, w: i32, h: i32) -> (r: Rect)
        ensures
            r == (Rect { x, y, w, h }),
    {
        Rect { x, y, w, h }
    }

    /// The margin that shrinking really applies: never negative.
    pub open spec fn effective_margin(margin: i32) -> int {
        max(margin as int, 0)
    }

    /// The rectangle left after removing `margin` from every side; a side that
    /// would become negative is empty instead.
    pub open spec fn spec_shrink(self, margin: i32) -> Rect {
        let m = Rect::effective_margin(margin);
        Rect {
            x: (self.x + m) as i32,
            y: (self.y + m) as i32,
            w: max(self.w - 2 * m, 0) as i32,
            h: max(self.h - 2 * m, 0) as i32,
        }
    }

    /// Shrinking by `margin` stays within `i32` at every step.
    pub open spec fn can_shrink(self, margin: i32) -> bool {
        let m = Rect::effective_margin(margin);
        &&& fits_i32(2 * m)
        &&& fits_i32(self.x + m)
        &&& fits_i32(self.y + m)
        &&& fits_i32(self.w - 2 * m)
        &&& fits_i32(self.h - 2 * m)
    }

    /// Whether `inner` lies within this rectangle, edges included.
    pub open spec fn contains_rect(self, inner: Rect) -> bool {
        &&& self.x <= inner.x
        &&& self.y <= inner.y
        &&& inner.x + inner.w <= self.x + self.w
        &&& inner.y + inner.h <= self.y + self.h
    }

    /// Whether the two rectangles share no point of their interiors.
    pub open spec fn apart_from(self, other: Rect) -> bool {
        ||| self.x + self.w <= other.x
        ||| other.x + other.w <= self.x
        ||| self.y + self.h <= other.y
        ||| other.y + other.h <= self.y
    }

    /// Removes `margin` from every side. A negative margin counts as zero, and
    /// a side never becomes negative.
    pub fn shrink(self, margin: i32) -> (r: Rect)
        requires
            self.can_shrink(margin),
        ensures
            r == self.spec_shrink(margin),
    {
        let m: i32 = if margin > 0 { margin } else { 0 };
        let w: i32 = self.w - m * 2;
        let h: i32 = self.h - m * 2;
        Rect {
            x: self.x + m,
            y: self.y + m,
            w: if w > 0 { w } else { 0 },
            h: if h > 0 { h } else { 0 },
        }
    }
}

/// `a + b` kept within `i32`.
pub open spec fn spec_sat_add(a: int, b: int) -> int {
    if a + b > i32::MAX {
        i32::MAX as int
    } else if a + b < i32::MIN {
        i32::MIN as int
    } else {
        a + b
    }
}

fn sat_add(a: i32, b: i32) -> (r: i32)
    ensures
        r == spec_sat_add(a as int, b as int),
{
    let sum: i64 = a as i64 + b as i64;
    if sum > i32::MAX as i64 {
        i32::MAX
    } else if sum < i32::MIN as i64 {
        i32::MIN
    } else {
        sum as i32
    }
}

impl Rect {
    /// Right edge, kept within `i32`.
    pub open spec fn right(self) -> int {
        spec_sat_add(self.x as int, self.w as int)
    }

    /// Bottom edge, kept within `i32`.
    pub open spec fn bottom(self) -> int {
        spec_sat_add(self.y as int, self.h as int)
    }

    /// Whether a point lies in the rectangle: the left and top edges belong to
    /// it, the right and bottom ones do not.
    pub open spec fn holds(self, x: int, y: int) -> bool {
        self.x <= x < self.right() && self.y <= y < self.bottom()
    }

    /// Whether the two rectangles share more than an edge.
    pub open spec fn spec_overlaps(self, other: Rect) -> bool {
        &&& self.x < other.right()
        &&& other.x < self.right()
        &&& self.y < other.bottom()
        &&& other.y < self.bottom()
    }

    /// What the two rectangles have in common.
    pub open spec fn spec_intersection(self, other: Rect) -> Option<Rect> {
        if self.spec_overlaps(other) {
            let left = max(self.x as int, other.x as int);
            let top = max(self.y as int, other.y as int);
            Some(
                Rect {
                    x: left as i32,
                    y: top as i32,
                    w: (min(self.right(), other.right()) - left) as i32,
                    h: (min(self.bottom(), other.bottom()) - top) as i32,
                },
            )
        } else {
            None
        }
    }

    /// The smallest rectangle around both.
    pub open spec fn spec_merge(self, other: Rect) -> Rect {
        let left = min(min(self.x as int, self.x + self.w), min(other.x as int, other.x + other.w));
        let top = min(min(self.y as int, self.y + self.h), min(other.y as int, other.y + other.h));
        let right = max(max(self.x as int, self.x + self.w), max(other.x as int, other.x + other.w));
        let bottom = max(max(self.y as int, self.y + self.h), max(other.y as int, other.y + other.h));
        Rect { x: left as i32, y: top as i32, w: (right - left) as i32, h: (bottom - top) as i32 }
    }

    /// The far corner stays within `i32`.
    pub open spec fn corner_fits(self) -> bool {
        fits_i32(self.x + self.w) && fits_i32(self.y + self.h)
    }

    /// Merging stays within `i32`.
    pub open spec fn can_merge(self, other: Rect) -> bool {
        let left = min(min(self.x as int, self.x + self.w), min(other.x as int, other.x + other.w));
        let top = min(min(self.y as int, self.y + self.h), min(other.y as int, other.y + other.h));
        let right = max(max(self.x as int, self.x + self.w), max(other.x as int, other.x + other.w));
        let bottom = max(max(self.y as int, self.y + self.h), max(other.y as int, other.y + other.h));
        &&& self.corner_fits()
        &&& other.corner_fits()
        &&& fits_i32(right - left)
        &&& fits_i32(bottom - top)
    }

    /// Whether a point lies in the rectangle.
    pub fn contains(self, p: Point) -> (r: bool)
        ensures
            r == self.holds(p.x as int, p.y as int),
    {
        p.x >= self.x && p.x < sat_add(self.x, self.w) && p.y >= self.y && p.y < sat_add(
            self.y,
            self.h,
        )
    }

    /// What the two rectangles have in common.
    pub fn intersection(self, other: Rect) -> (r: Option<Rect>)
        ensures
            r == self.spec_intersection(other),
    {
        let right: i32 = sat_add(self.x, self.w);
        let bottom: i32 = sat_add(self.y, self.h);
        let other_right: i32 = sat_add(other.x, other.w);
        let other_bottom: i32 = sat_add(other.y, other.h);
        if self.x < other_right && other.x < right && self.y < other_bottom && other.y < bottom {
            let left: i32 = if self.x >= other.x { self.x } else { other.x };
            let top: i32 = if self.y >= other.y { self.y } else { other.y };
            let r: i32 = if right <= other_right { right } else { other_right };
            let b: i32 = if bottom <= other_bottom { bottom } else { other_bottom };
            Some(Rect { x: left, y: top, w: r - left, h: b - top })
        } else {
            None
        }
    }

    /// The smallest rectangle around both.
    pub fn merge(self, other: Rect) -> (r: Rect)
        requires
            self.can_merge(other),
        ensures
            r == self.spec_merge(other),
    {
        let (l1, r1): (i32, i32) = ordered(self.x, self.x + self.w);
        let (l2, r2): (i32, i32) = ordered(other.x, other.x + other.w);
        let (t1, b1): (i32, i32) = ordered(self.y, self.y + self.h);
        let (t2, b2): (i32, i32) = ordered(other.y, other.y + other.h);
        let left: i32 = if l1 <= l2 { l1 } else { l2 };
        let top: i32 = if t1 <= t2 { t1 } else { t2 };
        let right: i32 = if r1 >= r2 { r1 } else { r2 };
        let bottom: i32 = if b1 >= b2 { b1 } else { b2 };
        Rect { x: left, y: top, w: right - left, h: bottom - top }
    }
}

fn ordered(a: i32, b: i32) -> (r: (i32, i32))
    ensures
        r.0 == min(a as int, b as int),
        r.1 == max(a as int, b as int),
{
    if a <= b {
        (a, b)
    } else {
        (b, a)
    }
}

/// The common part of two rectangles lies in both, and holds every point that
/// lies in both.
pub proof fn intersection_is_the_common_part(a: Rect, b: Rect, x: int, y: int)
    ensures
        (a.holds(x, y) && b.holds(x, y)) == (a.spec_intersection(b) is Some
            && a.spec_intersection(b)->0.holds(x, y)),
{
}

/// `a` divided by `n`, rounded towards negative infinity.
pub fn floor_div(a: i64, n: i64) -> (q: i64)
    requires
        n > 0,
        i64::MIN + n <= a,
    ensures
        q == a as int / n as int,
{
    if a >= 0 {
        (a as u64 / n as u64) as i64
    } else {
        let size: u64 = (-a) as u64;
        let up: u64 = (size + (n - 1) as u64) / n as u64;
        proof {
            let d = n as int;
            lemma_fundamental_div_mod(size + d - 1, d);
            let rest = (size + d - 1) % d;
            assert(-(d * up) == d * (-(up as int))) by (nonlinear_arith);
            lemma_fundamental_div_mod_converse(a as int, d, -(up as int), d - 1 - rest);
            assert(up <= size + d - 1) by (nonlinear_arith)
                requires
                    d * up <= size + d - 1,
                    d >= 1,
                    up >= 0,
            ;
        }
        -(up as i64)
    }
}

/// Shrinking takes the margin off all four sides alike, as far as there is room;
/// a side that has no room for both margins ends up empty, and a negative margin
/// takes nothing.
pub proof fn shrinking_leaves_the_margin_on_every_side(area: Rect, margin: i32)
    requires
        area.can_shrink(margin),
    ensures
        ({
            let inner = area.spec_shrink(margin);
            &&& margin <= 0 && area.w >= 0 && area.h >= 0 ==> inner == area
            &&& margin >= 0 ==> inner.x - area.x == margin && inner.y - area.y == margin
            &&& margin >= 0 && area.w >= 2 * margin ==> (area.x + area.w) - (inner.x + inner.w)
                == margin
            &&& margin >= 0 && area.h >= 2 * margin ==> (area.y + area.h) - (inner.y + inner.h)
                == margin
            &&& margin >= 0 && area.w < 2 * margin ==> inner.w == 0
            &&& margin >= 0 && area.h < 2 * margin ==> inner.h == 0
        }),
{
}

/// The merger of two rectangles contains both and is contained in every
/// rectangle that contains both.
pub proof fn merger_is_the_smallest_around_both(a: Rect, b: Rect, around: Rect)
    requires
        a.can_merge(b),
        a.w >= 0 && a.h >= 0,
        b.w >= 0 && b.h >= 0,
    ensures
        a.spec_merge(b).contains_rect(a),
        a.spec_merge(b).contains_rect(b),
        around.contains_rect(a) && around.contains_rect(b) ==> around.contains_rect(
            a.spec_merge(b),
        ),
{
}

/// A rectangle whose far corner is in range holds the points from its left edge
/// up to, but not on, its right one, and likewise from top to bottom: as many as
/// its width times its height.
pub proof fn rectangle_holds_its_pixels(r: Rect, dx: int, dy: int)
    requires
        r.corner_fits(),
    ensures
        r.holds(r.x + dx, r.y + dy) <==> 0 <= dx < r.w && 0 <= dy < r.h,
{
}

/// The common part of two rectangles lies inside both, and touches the edges of
/// one or the other on every side.
pub proof fn intersection_lies_inside_both(a: Rect, b: Rect)
    requires
        a.corner_fits(),
        b.corner_fits(),
        a.spec_intersection(b) is Some,
    ensures
        ({
            let c = a.spec_intersection(b)->0;
            &&& a.contains_rect(c)
            &&& b.contains_rect(c)
            &&& c.w > 0 || a.w <= 0 || b.w <= 0
            &&& c.h > 0 || a.h <= 0 || b.h <= 0
        }),
{
}

/// Rectangles are apart if and only if no pixel lies in both of them.
pub proof fn rectangles_apart_share_no_pixel(a: Rect, b: Rect, x: int, y: int)
    requires
        a.w > 0 && a.h > 0 && b.w > 0 && b.h > 0,
    ensures
        a.apart_from(b) ==> !(a.x <= x < a.x + a.w && a.y <= y < a.y + a.h && b.x <= x < b.x + b.w
            && b.y <= y < b.y + b.h),
        !a.apart_from(b) ==> {
            let px = if a.x >= b.x {
                a.x
            } else {
                b.x
            };
            let py = if a.y >= b.y {
                a.y
            } else {
                b.y
            };
            &&& a.x <= px < a.x + a.w && a.y <= py < a.y + a.h
            &&& b.x <= px < b.x + b.w && b.y <= py < b.y + b.h
        },
{
}

} // verus!
