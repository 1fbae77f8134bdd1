//! Window borders: rings of solid strips, with masks over rounded corners.

use crate::action::Focus;
use crate::color::Rgb;
use crate::geometry;
use crate::geometry::{Point, Rect};
use vstd::math::{max, min};
use vstd::prelude::*;

verus! {

/// A window that gets a border.
#[derive(Debug, Clone, Copy, PartialEq, Eq, Structural)]
pub struct BorderRect {
    pub window: u64,
    pub geometry: Rect,
    pub focused: bool,
}

/// A corner of a window.
#[derive(Debug, Clone, Copy, PartialEq, Eq, Structural)]
pub enum Corner {
    TopLeft,
    TopRight,
    BottomLeft,
    BottomRight,
}

impl Corner {
    /// Whether the mask of this corner is that of the top left one mirrored
    /// sideways, and mirrored upside down.
    pub fn flips(self) -> (r: (bool, bool))
        ensures
            r.0 == (self == Corner::TopRight || self == Corner::BottomRight),
            r.1 == (self == Corner::BottomLeft || self == Corner::BottomRight),
    {
        match self {
            Corner::TopLeft => (false, false),
            Corner::TopRight => (true, false),
            Corner::BottomLeft => (false, true),
            Corner::BottomRight => (true, true),
        }
    }
}

/// A piece of a border.
#[derive(Debug, Clone, Copy, PartialEq, Eq, Structural)]
pub enum BorderPiece {
    /// The mask of a corner.
    Mask { corner: Corner, at: Point, focused: bool },
    /// A solid strip.
    Strip { rect: Rect, focused: bool },
}

/// Largest radius that a window of this size can have.
pub open spec fn radius_limit(g: Rect) -> int {
    max(min(g.w as int, g.h as int), 0) / 2
}

/// The smallest of the limits of the first `n` windows; zero without windows.
pub open spec fn common_limit(borders: Seq<BorderRect>, n: int) -> int
    decreases n,
{
    if n <= 0 {
        0
    } else if n == 1 {
        radius_limit(borders[0].geometry)
    } else {
        min(common_limit(borders, n - 1), radius_limit(borders[n - 1].geometry))
    }
}

/// The radius that is drawn: the configured one, but never so large that a
/// window has no straight edge left.
pub open spec fn drawn_radius(borders: Seq<BorderRect>, radius: int) -> int {
    max(0, min(radius, common_limit(borders, borders.len() as int)))
}

/// A rectangle with mathematical coordinates.
pub open spec fn strip(x: int, y: int, w: int, h: int) -> Rect {
    Rect { x: x as i32, y: y as i32, w: w as i32, h: h as i32 }
}

/// The strips around a window: top, bottom, left, right.
pub open spec fn strips(g: Rect, width: int, radius: int) -> Seq<Rect> {
    seq![
        strip(g.x - width + radius, g.y - width, g.w + width * 2 - radius * 2, width),
        strip(g.x - width + radius, g.y + g.h, g.w + width * 2 - radius * 2, width),
        strip(g.x - width, g.y + radius, width, g.h - radius * 2),
        strip(g.x + g.w, g.y + radius, width, g.h - radius * 2),
    ]
}

/// A strip as a piece, if there is anything of it.
pub open spec fn strip_piece(rect: Rect, focused: bool) -> Seq<BorderPiece> {
    if rect.w > 0 && rect.h > 0 {
        seq![BorderPiece::Strip { rect, focused }]
    } else {
        Seq::empty()
    }
}

/// The strips of a window as pieces.
pub open spec fn strip_pieces(b: BorderRect, width: int, radius: int) -> Seq<BorderPiece> {
    let s = strips(b.geometry, width, radius);
    strip_piece(s[0], b.focused) + strip_piece(s[1], b.focused) + strip_piece(s[2], b.focused)
        + strip_piece(s[3], b.focused)
}

/// The corner masks of a window as pieces.
pub open spec fn mask_pieces(b: BorderRect, width: int, radius: int) -> Seq<BorderPiece> {
    let g = b.geometry;
    let left = (g.x - width) as i32;
    let right = (g.x + g.w - radius) as i32;
    let top = (g.y - width) as i32;
    let bottom = (g.y + g.h - radius) as i32;
    if radius > 0 {
        seq![
            BorderPiece::Mask {
                corner: Corner::TopLeft,
                at: Point { x: left, y: top },
                focused: b.focused,
            },
            BorderPiece::Mask {
                corner: Corner::TopRight,
                at: Point { x: right, y: top },
                focused: b.focused,
            },
            BorderPiece::Mask {
                corner: Corner::BottomLeft,
                at: Point { x: left, y: bottom },
                focused: b.focused,
            },
            BorderPiece::Mask {
                corner: Corner::BottomRight,
                at: Point { x: right, y: bottom },
                focused: b.focused,
            },
        ]
    } else {
        Seq::empty()
    }
}

/// All corner masks of the first `n` windows.
pub open spec fn all_masks(borders: Seq<BorderRect>, width: int, radius: int, n: int) -> Seq<
    BorderPiece,
>
    decreases n,
{
    if n <= 0 {
        Seq::empty()
    } else {
        all_masks(borders, width, radius, n - 1) + mask_pieces(borders[n - 1], width, radius)
    }
}

/// All strips of the first `n` windows.
pub open spec fn all_strips(borders: Seq<BorderRect>, width: int, radius: int, n: int) -> Seq<
    BorderPiece,
>
    decreases n,
{
    if n <= 0 {
        Seq::empty()
    } else {
        all_strips(borders, width, radius, n - 1) + strip_pieces(borders[n - 1], width, radius)
    }
}

/// The pieces of the borders, front to back: masks before strips. Without a
/// width there are none.
pub open spec fn border_pieces(borders: Seq<BorderRect>, width: int, radius: int) -> Seq<BorderPiece> {
    let r = drawn_radius(borders, radius);
    let n = borders.len() as int;
    if width <= 0 {
        Seq::empty()
    } else {
        all_masks(borders, width, r, n) + all_strips(borders, width, r, n)
    }
}

/// Drawing a border stays within `i32`.
pub open spec fn can_border(g: Rect, width: int) -> bool {
    &&& width * 2 <= i32::MAX
    &&& geometry::fits_i32(g.x - width)
    &&& geometry::fits_i32(g.y - width)
    &&& geometry::fits_i32(g.x + g.w)
    &&& geometry::fits_i32(g.y + g.h)
    &&& geometry::fits_i32(g.w + width * 2)
    &&& geometry::fits_i32(g.h as int)
}

fn limit_of(g: Rect) -> (r: i32)
    ensures
        r == radius_limit(g),
{
    let small: i32 = if g.w <= g.h { g.w } else { g.h };
    if small > 0 {
        (small as u32 / 2) as i32
    } else {
        0
    }
}

/// The radius that is drawn.
pub fn effective_radius(borders: &[BorderRect], radius: i32) -> (r: i32)
    ensures
        r == drawn_radius(borders@, radius as int),
        r >= 0,
        forall|i: int|
            0 <= i < borders@.len() ==> r <= radius_limit((#[trigger] borders@[i]).geometry),
{
    let mut limit: i32 = 0;
    let mut i: usize = 0;
    while i < borders.len()
        invariant
            i <= borders@.len(),
            limit == common_limit(borders@, i as int),
            limit >= 0,
            forall|k: int|
                0 <= k < i ==> limit <= radius_limit((#[trigger] borders@[k]).geometry),
        decreases borders@.len() - i,
    {
        let own: i32 = limit_of(borders[i].geometry);
        if i == 0 || own < limit {
            limit = own;
        }
        i = i + 1;
    }
    let r: i32 = if radius < limit { radius } else { limit };
    if r > 0 {
        r
    } else {
        0
    }
}

fn push_strip(pieces: &mut Vec<BorderPiece>, rect: Rect, focused: bool)
    ensures
        final(pieces)@ == old(pieces)@ + strip_piece(rect, focused),
{
    if rect.w > 0 && rect.h > 0 {
        pieces.push(BorderPiece::Strip { rect, focused });
    }
    assert(pieces@ =~= old(pieces)@ + strip_piece(rect, focused));
}

fn push_strips(pieces: &mut Vec<BorderPiece>, b: BorderRect, width: i32, radius: i32)
    requires
        width > 0,
        can_border(b.geometry, width as int),
        0 <= radius <= radius_limit(b.geometry),
    ensures
        final(pieces)@ == old(pieces)@ + strip_pieces(b, width as int, radius as int),
{
    let g: Rect = b.geometry;
    let across: i32 = g.w + width * 2 - radius * 2;
    let along: i32 = g.h - radius * 2;
    push_strip(
        pieces,
        Rect { x: g.x - width + radius, y: g.y - width, w: across, h: width },
        b.focused,
    );
    push_strip(
        pieces,
        Rect { x: g.x - width + radius, y: g.y + g.h, w: across, h: width },
        b.focused,
    );
    push_strip(
        pieces,
        Rect { x: g.x - width, y: g.y + radius, w: width, h: along },
        b.focused,
    );
    push_strip(
        pieces,
        Rect { x: g.x + g.w, y: g.y + radius, w: width, h: along },
        b.focused,
    );
    assert(pieces@ =~= old(pieces)@ + strip_pieces(b, width as int, radius as int));
}

fn push_masks(pieces: &mut Vec<BorderPiece>, b: BorderRect, width: i32, radius: i32)
    requires
        width > 0,
        can_border(b.geometry, width as int),
        0 <= radius <= radius_limit(b.geometry),
    ensures
        final(pieces)@ == old(pieces)@ + mask_pieces(b, width as int, radius as int),
{
    if radius > 0 {
        let g: Rect = b.geometry;
        let left: i32 = g.x - width;
        let right: i32 = g.x + g.w - radius;
        let top: i32 = g.y - width;
        let bottom: i32 = g.y + g.h - radius;
        pieces.push(
            BorderPiece::Mask {
                corner: Corner::TopLeft,
                at: Point { x: left, y: top },
                focused: b.focused,
            },
        );
        pieces.push(
            BorderPiece::Mask {
                corner: Corner::TopRight,
                at: Point { x: right, y: top },
                focused: b.focused,
            },
        );
        pieces.push(
            BorderPiece::Mask {
                corner: Corner::BottomLeft,
                at: Point { x: left, y: bottom },
                focused: b.focused,
            },
        );
        pieces.push(
            BorderPiece::Mask {
                corner: Corner::BottomRight,
                at: Point { x: right, y: bottom },
                focused: b.focused,
            },
        );
    }
    assert(pieces@ =~= old(pieces)@ + mask_pieces(b, width as int, radius as int));
}

/// The pieces of the borders, front to back.
pub fn border_elements(borders: &[BorderRect], width: i32, radius: i32) -> (pieces: Vec<BorderPiece>)
    requires
        width > 0 ==> forall|i: int|
            0 <= i < borders@.len() ==> can_border((#[trigger] borders@[i]).geometry, width as int),
    ensures
        pieces@ == border_pieces(borders@, width as int, radius as int),
{
    let mut pieces: Vec<BorderPiece> = Vec::new();
    if width <= 0 {
        return pieces;
    }
    let r: i32 = effective_radius(borders, radius);
    let ghost w = width as int;
    let ghost rr = r as int;
    let n: usize = borders.len();
    let mut i: usize = 0;
    while i < n
        invariant
            i <= n,
            n == borders@.len(),
            width > 0,
            w == width,
            rr == r,
            r >= 0,
            forall|k: int|
                0 <= k < n ==> can_border((#[trigger] borders@[k]).geometry, width as int) && r
                    <= radius_limit(borders@[k].geometry),
            pieces@ == all_masks(borders@, w, rr, i as int),
        decreases n - i,
    {
        assert(can_border(borders@[i as int].geometry, width as int));
        push_masks(&mut pieces, borders[i], width, r);
        i = i + 1;
    }
    let ghost masks = pieces@;
    let mut j: usize = 0;
    assert(pieces@ =~= masks + all_strips(borders@, w, rr, 0));
    while j < n
        invariant
            j <= n,
            n == borders@.len(),
            width > 0,
            w == width,
            rr == r,
            r >= 0,
            forall|k: int|
                0 <= k < n ==> can_border((#[trigger] borders@[k]).geometry, width as int) && r
                    <= radius_limit(borders@[k].geometry),
            pieces@ == masks + all_strips(borders@, w, rr, j as int),
        decreases n - j,
    {
        assert(can_border(borders@[j as int].geometry, width as int));
        push_strips(&mut pieces, borders[j], width, r);
        j = j + 1;
        assert(pieces@ =~= masks + all_strips(borders@, w, rr, j as int));
    }
    pieces
}

/// No strip of a border covers any of its window, and without rounded corners
/// the strips together enclose it: the top and bottom ones reach from the outer
/// edge of the left one to that of the right one.
pub proof fn strips_stay_outside_the_window(g: Rect, width: int, radius: int, i: int)
    requires
        width > 0,
        can_border(g, width),
        g.w >= 0,
        g.h >= 0,
        0 <= radius <= radius_limit(g),
        0 <= i < 4,
    ensures
        strips(g, width, radius)[i].apart_from(g),
        radius == 0 ==> strips(g, width, radius)[0].x == strips(g, width, radius)[2].x && strips(
            g,
            width,
            radius,
        )[0].x + strips(g, width, radius)[0].w == strips(g, width, radius)[3].x + strips(
            g,
            width,
            radius,
        )[3].w,
{
}

/// Colors and measures that the corner masks were made for.
#[derive(Debug, Clone, Copy, PartialEq, Eq, Structural)]
pub struct MaskKey {
    pub radius: i32,
    pub width: i32,
    pub active: Rgb,
    pub inactive: Rgb,
}

/// The corner masks: made again only when something about them changes.
#[derive(Debug, Clone, Copy, PartialEq, Eq, Structural)]
pub struct CornerMaskCache {
    pub key: Option<MaskKey>,
}

impl Default for CornerMaskCache {
    fn default() -> (c: CornerMaskCache)
        ensures
            c.key is None,
    {
        CornerMaskCache { key: None }
    }
}

impl CornerMaskCache {
    /// Notes what masks are needed, and says whether they have to be made.
    pub fn ensure(&mut self, key: MaskKey) -> (rebuild: bool)
        ensures
            rebuild == (old(self).key != Some(key)),
            final(self).key == Some(key),
    {
        let same: bool = match self.key {
            Some(old_key) => old_key == key,
            None => false,
        };
        self.key = Some(key);
        !same
    }
}

/// Size of the square that a corner mask takes.
pub fn corner_tile(radius: i32, width: i32) -> (tile: i32)
    requires
        geometry::fits_i32(radius + width),
    ensures
        tile == max(radius + width, 1),
{
    let sum: i32 = radius + width;
    if sum > 1 {
        sum
    } else {
        1
    }
}

/// A window and where it is on the screen.
#[derive(Debug, Clone, Copy, PartialEq, Eq, Structural)]
pub struct MappedWindow {
    pub id: u64,
    pub geometry: Rect,
}

/// Where a window is, if it is on the screen.
pub open spec fn geometry_of(mapped: Seq<MappedWindow>, window: u64) -> Option<Rect>
    decreases mapped.len(),
{
    if mapped.len() == 0 {
        None
    } else if mapped[0].id == window {
        Some(mapped[0].geometry)
    } else {
        geometry_of(mapped.drop_first(), window)
    }
}

/// Borders of the first `n` windows of a tiling order that are on the screen.
pub open spec fn borders_of(order: Seq<u64>, mapped: Seq<MappedWindow>, focus: Focus, n: int) -> Seq<
    BorderRect,
>
    decreases n,
{
    if n <= 0 {
        Seq::empty()
    } else {
        let before = borders_of(order, mapped, focus, n - 1);
        match geometry_of(mapped, order[n - 1]) {
            Some(geometry) => before.push(
                BorderRect {
                    window: order[n - 1],
                    geometry,
                    focused: focus == Focus::Window(order[n - 1]),
                },
            ),
            None => before,
        }
    }
}

/// Where a window is, if it is on the screen.
pub fn find_geometry(mapped: &[MappedWindow], window: u64) -> (r: Option<Rect>)
    ensures
        r == geometry_of(mapped@, window),
{
    let mut i: usize = 0;
    assert(mapped@.skip(0) =~= mapped@);
    while i < mapped.len()
        invariant
            i <= mapped@.len(),
            geometry_of(mapped@, window) == geometry_of(mapped@.skip(i as int), window),
        decreases mapped@.len() - i,
    {
        if mapped[i].id == window {
            return Some(mapped[i].geometry);
        }
        assert(mapped@.skip(i as int).drop_first() =~= mapped@.skip(i + 1));
        i = i + 1;
    }
    None
}

/// The borders of the windows of a tiling order that are on the screen; the
/// focused one is marked.
pub fn border_rects(order: &[u64], mapped: &[MappedWindow], focus: Focus) -> (borders: Vec<BorderRect>)
    ensures
        borders@ == borders_of(order@, mapped@, focus, order@.len() as int),
{
    let mut borders: Vec<BorderRect> = Vec::new();
    let mut i: usize = 0;
    while i < order.len()
        invariant
            i <= order@.len(),
            borders@ == borders_of(order@, mapped@, focus, i as int),
        decreases order@.len() - i,
    {
        let window: u64 = order[i];
        if let Some(geometry) = find_geometry(mapped, window) {
            let focused: bool = match focus {
                Focus::Window(w) => w == window,
                _ => false,
            };
            borders.push(BorderRect { window, geometry, focused });
        }
        i = i + 1;
    }
    borders
}

/// The radius that is drawn is the configured one, unless some window is too
/// small for it: then it is half of the shorter side of the smallest window. It
/// is never negative, and two radii fit along every side.
pub proof fn radius_fits_every_window(borders: Seq<BorderRect>, radius: int, i: int)
    requires
        0 <= i < borders.len(),
    ensures
        ({
            let r = drawn_radius(borders, radius);
            let g = borders[i].geometry;
            &&& r >= 0
            &&& r <= max(radius, 0)
            &&& g.w >= 0 && g.h >= 0 ==> 2 * r <= g.w && 2 * r <= g.h
            &&& r < radius ==> exists|k: int|
                {
                    let small = (#[trigger] borders[k]).geometry;
                    &&& 0 <= k < borders.len()
                    &&& small.w < 2 * r + 2 || small.h < 2 * r + 2
                }
        }),
{
    let n = borders.len() as int;
    lemma_common_limit(borders, n, i);
    let k = choose|k: int|
        0 <= k < n && common_limit(borders, n) == radius_limit((#[trigger] borders[k]).geometry);
    assert(common_limit(borders, n) == radius_limit(borders[k].geometry));
}

proof fn lemma_common_limit(borders: Seq<BorderRect>, n: int, i: int)
    requires
        0 <= i < n <= borders.len(),
    ensures
        common_limit(borders, n) <= radius_limit(borders[i].geometry),
        exists|k: int|
            0 <= k < n && common_limit(borders, n) == radius_limit(
                (#[trigger] borders[k]).geometry,
            ),
    decreases n,
{
    if n == 1 {
        assert(common_limit(borders, n) == radius_limit(borders[0].geometry));
    } else {
        lemma_common_limit(borders, n - 1, if i < n - 1 { i } else { 0 });
        let k = choose|k: int|
            0 <= k < n - 1 && common_limit(borders, n - 1) == radius_limit(
                (#[trigger] borders[k]).geometry,
            );
        if common_limit(borders, n) == radius_limit(borders[n - 1].geometry) {
            assert(borders[n - 1] == borders[n - 1]);
        } else {
            assert(common_limit(borders, n) == radius_limit(borders[k].geometry));
        }
    }
}

/// Whether a rectangle covers a pixel.
pub open spec fn covers(rect: Rect, x: int, y: int) -> bool {
    rect.x <= x < rect.x + rect.w && rect.y <= y < rect.y + rect.h
}

/// Without rounded corners, the strips cover exactly the pixels within the
/// border's width around the window.
pub proof fn strips_form_a_ring(g: Rect, width: int, x: int, y: int)
    requires
        width > 0,
        can_border(g, width),
        g.w >= 0,
        g.h >= 0,
    ensures
        (exists|i: int| 0 <= i < 4 && covers(#[trigger] strips(g, width, 0)[i], x, y)) <==> {
            &&& g.x - width <= x < g.x + g.w + width
            &&& g.y - width <= y < g.y + g.h + width
            &&& !covers(g, x, y)
        },
{
    let s = strips(g, width, 0);
    assert(covers(s[0], x, y) || covers(s[1], x, y) || covers(s[2], x, y) || covers(s[3], x, y)
        ==> exists|i: int| 0 <= i < 4 && covers(#[trigger] s[i], x, y));
    if exists|i: int| 0 <= i < 4 && covers(#[trigger] s[i], x, y) {
        let i = choose|i: int| 0 <= i < 4 && covers(#[trigger] s[i], x, y);
        assert(i == 0 || i == 1 || i == 2 || i == 3);
    }
}

/// With rounded corners, the strips and the squares of the corner masks, each a
/// radius and a width wide, cover the ring around the window, and reach nowhere
/// beyond it. Each square sits in its corner of the ring.
pub proof fn strips_and_corners_form_a_ring(b: BorderRect, width: int, radius: int, x: int, y: int)
    requires
        width > 0,
        can_border(b.geometry, width),
        b.geometry.w >= 0,
        b.geometry.h >= 0,
        0 < radius <= radius_limit(b.geometry),
        geometry::fits_i32(radius + width),
    ensures
        ({
            let g = b.geometry;
            let s = strips(g, width, radius);
            let tile = radius + width;
            let masks = mask_pieces(b, width, radius);
            let within = g.x - width <= x < g.x + g.w + width && g.y - width <= y < g.y + g.h + width;
            let in_square = |k: int|
                masks[k]->at.x <= x < masks[k]->at.x + tile && masks[k]->at.y <= y
                    < masks[k]->at.y + tile;
            let on_strip = covers(s[0], x, y) || covers(s[1], x, y) || covers(s[2], x, y) || covers(
                s[3],
                x,
                y,
            );
            let on_corner = in_square(0) || in_square(1) || in_square(2) || in_square(3);
            &&& masks.len() == 4
            &&& within && !covers(g, x, y) ==> on_strip || on_corner
            &&& on_strip || on_corner ==> within
            &&& on_strip ==> !covers(g, x, y)
            &&& masks[0] is Mask && masks[0]->corner == Corner::TopLeft
            &&& masks[0]->at.x == g.x - width && masks[0]->at.y == g.y - width
            &&& masks[1] is Mask && masks[1]->corner == Corner::TopRight
            &&& masks[1]->at.x + tile == g.x + g.w + width && masks[1]->at.y == g.y - width
            &&& masks[2] is Mask && masks[2]->corner == Corner::BottomLeft
            &&& masks[2]->at.x == g.x - width && masks[2]->at.y + tile == g.y + g.h + width
            &&& masks[3] is Mask && masks[3]->corner == Corner::BottomRight
            &&& masks[3]->at.x + tile == g.x + g.w + width && masks[3]->at.y + tile == g.y + g.h
                + width
        }),
{
}

/// Whether a piece is drawn in the color of the focused window.
pub open spec fn in_focus_color(piece: BorderPiece) -> bool {
    match piece {
        BorderPiece::Mask { focused, .. } => focused,
        BorderPiece::Strip { focused, .. } => focused,
    }
}

/// Every piece belongs to the border of some window and has that window's color;
/// strips are never empty. All masks come before all strips.
pub proof fn pieces_have_the_color_of_their_window(
    borders: Seq<BorderRect>,
    width: int,
    radius: int,
    p: int,
)
    requires
        0 <= p < border_pieces(borders, width, radius).len(),
    ensures
        ({
            let pieces = border_pieces(borders, width, radius);
            let r = drawn_radius(borders, radius);
            &&& width > 0
            &&& exists|i: int|
                {
                    &&& 0 <= i < borders.len()
                    &&& mask_pieces(#[trigger] borders[i], width, r).contains(pieces[p])
                        || strip_pieces(borders[i], width, r).contains(pieces[p])
                    &&& in_focus_color(pieces[p]) == borders[i].focused
                }
            &&& pieces[p] matches BorderPiece::Strip { rect, .. } ==> rect.w > 0 && rect.h > 0
            &&& pieces[p] is Strip ==> forall|q: int|
                p < q < pieces.len() ==> #[trigger] pieces[q] is Strip
        }),
{
    let r = drawn_radius(borders, radius);
    let n = borders.len() as int;
    let masks = all_masks(borders, width, r, n);
    let rest = all_strips(borders, width, r, n);
    let pieces = border_pieces(borders, width, radius);
    assert(pieces == masks + rest);
    assert forall|q: int| 0 <= q < masks.len() implies #[trigger] masks[q] is Mask by {
        lemma_mask_of_some(borders, width, r, n, q);
    }
    assert forall|q: int| 0 <= q < rest.len() implies #[trigger] rest[q] is Strip by {
        lemma_strip_of_some(borders, width, r, n, q);
    }
    if p < masks.len() {
        lemma_mask_of_some(borders, width, r, n, p);
        assert(pieces[p] == masks[p]);
        let i = choose|i: int|
            {
                &&& 0 <= i < n
                &&& mask_pieces(#[trigger] borders[i], width, r).contains(masks[p])
                &&& in_focus_color(masks[p]) == borders[i].focused
            };
        assert(mask_pieces(borders[i], width, r).contains(pieces[p]));
    } else {
        let k = p - masks.len();
        lemma_strip_of_some(borders, width, r, n, k);
        assert(pieces[p] == rest[k]);
        let i = choose|i: int|
            {
                &&& 0 <= i < n
                &&& strip_pieces(#[trigger] borders[i], width, r).contains(rest[k])
                &&& in_focus_color(rest[k]) == borders[i].focused
            };
        assert(strip_pieces(borders[i], width, r).contains(pieces[p]));
        assert forall|q: int| p < q < pieces.len() implies #[trigger] pieces[q] is Strip by {
            assert(pieces[q] == rest[q - masks.len()]);
        }
    }
}

proof fn lemma_mask_of_some(borders: Seq<BorderRect>, width: int, r: int, n: int, p: int)
    requires
        0 <= n <= borders.len(),
        0 <= p < all_masks(borders, width, r, n).len(),
    ensures
        all_masks(borders, width, r, n)[p] is Mask,
        exists|i: int|
            {
                &&& 0 <= i < n
                &&& mask_pieces(#[trigger] borders[i], width, r).contains(
                    all_masks(borders, width, r, n)[p],
                )
                &&& in_focus_color(all_masks(borders, width, r, n)[p]) == borders[i].focused
            },
    decreases n,
{
    let before = all_masks(borders, width, r, n - 1);
    let own = mask_pieces(borders[n - 1], width, r);
    let all = all_masks(borders, width, r, n);
    assert(all == before + own);
    if p < before.len() {
        lemma_mask_of_some(borders, width, r, n - 1, p);
        assert(all[p] == before[p]);
    } else {
        assert(all[p] == own[p - before.len()]);
        assert(own.contains(all[p]));
        assert(borders[n - 1] == borders[n - 1]);
    }
}

proof fn lemma_strip_of_some(borders: Seq<BorderRect>, width: int, r: int, n: int, p: int)
    requires
        0 <= n <= borders.len(),
        0 <= p < all_strips(borders, width, r, n).len(),
    ensures
        all_strips(borders, width, r, n)[p] is Strip,
        all_strips(borders, width, r, n)[p]->rect.w > 0,
        all_strips(borders, width, r, n)[p]->rect.h > 0,
        exists|i: int|
            {
                &&& 0 <= i < n
                &&& strip_pieces(#[trigger] borders[i], width, r).contains(
                    all_strips(borders, width, r, n)[p],
                )
                &&& in_focus_color(all_strips(borders, width, r, n)[p]) == borders[i].focused
            },
    decreases n,
{
    let before = all_strips(borders, width, r, n - 1);
    let own = strip_pieces(borders[n - 1], width, r);
    let all = all_strips(borders, width, r, n);
    assert(all == before + own);
    if p < before.len() {
        lemma_strip_of_some(borders, width, r, n - 1, p);
        assert(all[p] == before[p]);
    } else {
        assert(all[p] == own[p - before.len()]);
        assert(own.contains(all[p]));
        assert(borders[n - 1] == borders[n - 1]);
    }
}

/// The strips and masks of every window are among the pieces.
pub proof fn no_border_is_left_out(borders: Seq<BorderRect>, width: int, radius: int, i: int)
    requires
        width > 0,
        0 <= i < borders.len(),
    ensures
        ({
            let pieces = border_pieces(borders, width, radius);
            let r = drawn_radius(borders, radius);
            &&& forall|p: BorderPiece| #[trigger]
                mask_pieces(borders[i], width, r).contains(p) ==> pieces.contains(p)
            &&& forall|k: int|
                0 <= k < 4 ==> {
                    let rect = #[trigger] strips(borders[i].geometry, width, r)[k];
                    rect.w > 0 && rect.h > 0 ==> pieces.contains(
                        BorderPiece::Strip { rect, focused: borders[i].focused },
                    )
                }
        }),
{
    let r = drawn_radius(borders, radius);
    let n = borders.len() as int;
    let pieces = border_pieces(borders, width, radius);
    let masks = all_masks(borders, width, r, n);
    let rest = all_strips(borders, width, r, n);
    assert(pieces == masks + rest);
    assert forall|p: BorderPiece| #[trigger] mask_pieces(borders[i], width, r).contains(
        p,
    ) implies pieces.contains(p) by {
        lemma_masks_kept(borders, width, r, n, i, p);
        let k = choose|k: int| 0 <= k < masks.len() && masks[k] == p;
        assert(pieces[k] == p);
    }
    assert forall|k: int| 0 <= k < 4 implies {
        let rect = #[trigger] strips(borders[i].geometry, width, r)[k];
        rect.w > 0 && rect.h > 0 ==> pieces.contains(
            BorderPiece::Strip { rect, focused: borders[i].focused },
        )
    } by {
        let b = borders[i];
        let s = strips(b.geometry, width, r);
        let rect = s[k];
        if rect.w > 0 && rect.h > 0 {
            let p = BorderPiece::Strip { rect, focused: b.focused };
            let p0 = strip_piece(s[0], b.focused);
            let p1 = strip_piece(s[1], b.focused);
            let p2 = strip_piece(s[2], b.focused);
            let p3 = strip_piece(s[3], b.focused);
            let own = strip_pieces(b, width, r);
            assert(own == p0 + p1 + p2 + p3);
            let at = if k == 0 {
                0nat
            } else if k == 1 {
                p0.len()
            } else if k == 2 {
                p0.len() + p1.len()
            } else {
                p0.len() + p1.len() + p2.len()
            };
            assert(strip_piece(rect, b.focused)[0] == p);
            assert(own[at as int] == p);
            lemma_strips_kept(borders, width, r, n, i, p);
            let j = choose|j: int| 0 <= j < rest.len() && rest[j] == p;
            assert(pieces[masks.len() + j] == p);
        }
    }
}

proof fn lemma_masks_kept(
    borders: Seq<BorderRect>,
    width: int,
    r: int,
    n: int,
    i: int,
    p: BorderPiece,
)
    requires
        0 <= i < n <= borders.len(),
        mask_pieces(borders[i], width, r).contains(p),
    ensures
        all_masks(borders, width, r, n).contains(p),
    decreases n,
{
    let before = all_masks(borders, width, r, n - 1);
    let own = mask_pieces(borders[n - 1], width, r);
    let all = all_masks(borders, width, r, n);
    assert(all == before + own);
    if i < n - 1 {
        lemma_masks_kept(borders, width, r, n - 1, i, p);
        let k = choose|k: int| 0 <= k < before.len() && before[k] == p;
        assert(all[k] == p);
    } else {
        let k = choose|k: int| 0 <= k < own.len() && own[k] == p;
        assert(all[before.len() + k] == p);
    }
}

proof fn lemma_strips_kept(
    borders: Seq<BorderRect>,
    width: int,
    r: int,
    n: int,
    i: int,
    p: BorderPiece,
)
    requires
        0 <= i < n <= borders.len(),
        strip_pieces(borders[i], width, r).contains(p),
    ensures
        all_strips(borders, width, r, n).contains(p),
    decreases n,
{
    let before = all_strips(borders, width, r, n - 1);
    let own = strip_pieces(borders[n - 1], width, r);
    let all = all_strips(borders, width, r, n);
    assert(all == before + own);
    if i < n - 1 {
        lemma_strips_kept(borders, width, r, n - 1, i, p);
        let k = choose|k: int| 0 <= k < before.len() && before[k] == p;
        assert(all[k] == p);
    } else {
        let k = choose|k: int| 0 <= k < own.len() && own[k] == p;
        assert(all[before.len() + k] == p);
    }
}

/// A window has a border if and only if it is in the tiling order and on the
/// screen; the border goes around where the window is, and is that of the
/// focused window if and only if the window has the focus.
pub proof fn bordered_windows_are_those_on_the_screen(
    order: Seq<u64>,
    mapped: Seq<MappedWindow>,
    focus: Focus,
    n: int,
    b: BorderRect,
)
    requires
        0 <= n <= order.len(),
    ensures
        borders_of(order, mapped, focus, n).contains(b) <==> {
            &&& order.take(n).contains(b.window)
            &&& geometry_of(mapped, b.window) == Some(b.geometry)
            &&& b.focused == (focus == Focus::Window(b.window))
        },
    decreases n,
{
    if n > 0 {
        bordered_windows_are_those_on_the_screen(order, mapped, focus, n - 1, b);
        let before = borders_of(order, mapped, focus, n - 1);
        let all = borders_of(order, mapped, focus, n);
        let w = order[n - 1];
        assert(order.take(n).contains(b.window) <==> order.take(n - 1).contains(b.window) || b.window
            == w) by {
            if order.take(n).contains(b.window) {
                let k = choose|k: int| 0 <= k < n && #[trigger] order.take(n)[k] == b.window;
                if k < n - 1 {
                    assert(order.take(n - 1)[k] == b.window);
                }
            }
            if order.take(n - 1).contains(b.window) {
                let k = choose|k: int| 0 <= k < n - 1 && #[trigger] order.take(n - 1)[k] == b.window;
                assert(order.take(n)[k] == b.window);
            }
            assert(order.take(n)[n - 1] == w);
        }
        if geometry_of(mapped, w) is Some {
            assert(all == before.push(all.last()));
            if all.contains(b) {
                let k = choose|k: int| 0 <= k < all.len() && all[k] == b;
                if k < before.len() {
                    assert(before[k] == b);
                }
            }
            if before.contains(b) {
                let k = choose|k: int| 0 <= k < before.len() && before[k] == b;
                assert(all[k] == b);
            }
            assert(all[all.len() - 1] == all.last());
        }
    } else {
        assert(order.take(0).len() == 0);
    }
}

/// A window is where its first entry says, and nowhere without an entry.
pub proof fn geometry_is_that_of_the_first_entry(mapped: Seq<MappedWindow>, window: u64)
    ensures
        match geometry_of(mapped, window) {
            Some(g) => exists|i: int|
                {
                    &&& 0 <= i < mapped.len()
                    &&& #[trigger] mapped[i] == (MappedWindow { id: window, geometry: g })
                    &&& forall|j: int| 0 <= j < i ==> (#[trigger] mapped[j]).id != window
                },
            None => forall|j: int| 0 <= j < mapped.len() ==> (#[trigger] mapped[j]).id != window,
        },
    decreases mapped.len(),
{
    if mapped.len() > 0 {
        if mapped[0].id == window {
            assert(mapped[0] == (MappedWindow { id: window, geometry: mapped[0].geometry }));
        } else {
            let rest = mapped.drop_first();
            geometry_is_that_of_the_first_entry(rest, window);
            match geometry_of(rest, window) {
                Some(g) => {
                    let i = choose|i: int|
                        {
                            &&& 0 <= i < rest.len()
                            &&& #[trigger] rest[i] == (MappedWindow { id: window, geometry: g })
                            &&& forall|j: int| 0 <= j < i ==> (#[trigger] rest[j]).id != window
                        };
                    assert(mapped[i + 1] == rest[i]);
                    assert forall|j: int| 0 <= j < i + 1 implies (#[trigger] mapped[j]).id
                        != window by {
                        if j > 0 {
                            assert(mapped[j] == rest[j - 1]);
                        }
                    }
                },
                None => {
                    assert forall|j: int| 0 <= j < mapped.len() implies (#[trigger] mapped[j]).id
                        != window by {
                        if j > 0 {
                            assert(mapped[j] == rest[j - 1]);
                        }
                    }
                },
            }
        }
    }
}

} // verus!
