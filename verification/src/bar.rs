//! The built-in status bar: what it shows and where its rectangles are.

use crate::config::BarConfig;
use crate::geometry::Rect;
use crate::glyph;
use crate::params::LayoutMode;
use crate::text;
use crate::workspace::WorkspaceSet;
use vstd::math::max;
use vstd::prelude::*;

verus! {

/// A workspace as the bar shows it.
#[derive(Debug, Clone, Copy, PartialEq, Eq, Structural)]
pub struct BarWorkspaceItem {
    /// Number of the workspace, counted from one.
    pub number: usize,
    pub active: bool,
}

/// What the left part of the bar shows.
#[derive(Debug)]
pub struct BarData {
    pub workspaces: Vec<BarWorkspaceItem>,
    pub mode: LayoutMode,
}

/// What the bar shows for the given workspaces: one item each, in order, and
/// the layout mode of the active one.
pub fn bar_data(set: &WorkspaceSet) -> (data: BarData)
    requires
        set.wf(),
    ensures
        data.mode == set.workspaces@[set.active as int].tiling.params.mode,
        data.workspaces@.len() == set.workspaces@.len(),
        forall|i: int|
            0 <= i < set.workspaces@.len() ==> #[trigger] data.workspaces@[i] == (BarWorkspaceItem {
                number: (i + 1) as usize,
                active: i == set.active,
            }),
{
    let mut workspaces: Vec<BarWorkspaceItem> = Vec::new();
    let n: usize = set.len();
    let mut i: usize = 0;
    while i < n
        invariant
            i <= n,
            n == set.workspaces@.len(),
            workspaces@.len() == i,
            forall|k: int|
                0 <= k < i ==> #[trigger] workspaces@[k] == (BarWorkspaceItem {
                    number: (k + 1) as usize,
                    active: k == set.active,
                }),
        decreases n - i,
    {
        workspaces.push(BarWorkspaceItem { number: i + 1, active: i == set.active });
        i = i + 1;
    }
    BarData { workspaces, mode: set.active().tiling.params.mode }
}

/// A rectangle as it is drawn: not at all when it is empty.
pub open spec fn drawn(r: Rect) -> Seq<Rect> {
    if r.w > 0 && r.h > 0 {
        seq![r]
    } else {
        Seq::empty()
    }
}

/// Thickness of the lines of an icon.
pub open spec fn icon_line(size: int) -> int {
    max(size / 8, 1)
}

/// A rectangle with mathematical coordinates.
pub open spec fn rect_at(x: int, y: int, w: int, h: int) -> Rect {
    Rect { x: x as i32, y: y as i32, w: w as i32, h: h as i32 }
}

/// The rectangles of the icon for a layout mode.
pub open spec fn icon_rects(mode: LayoutMode, x: int, y: int, size: int) -> Seq<Rect> {
    let t = icon_line(size);
    match mode {
        LayoutMode::Tile => {
            let master = (size * 3) / 5;
            let stack_w = max(size - master - t, 1);
            let stack_h = max((size - t) / 2, 1);
            drawn(rect_at(x, y, master, size)) + drawn(
                rect_at(x + master + t, y, stack_w, stack_h),
            ) + drawn(rect_at(x + master + t, y + stack_h + t, stack_w, stack_h))
        },
        LayoutMode::Monocle => drawn(rect_at(x, y, size, size)),
        LayoutMode::Floating => drawn(rect_at(x, y, size, t)) + drawn(
            rect_at(x, y + size - t, size, t),
        ) + drawn(rect_at(x, y, t, size)) + drawn(rect_at(x + size - t, y, t, size)),
        LayoutMode::Fibonacci => {
            let s1 = size - size / 2;
            let s2 = s1 - s1 / 2;
            let x1 = size / 2;
            let x2 = x1 + s1 / 2;
            nested_box(x, y, size, t) + nested_box(x + x1, y + x1, s1, t) + nested_box(
                x + x2,
                y + x2,
                s2,
                t,
            )
        },
    }
}

/// Top and left edge of a box.
pub open spec fn nested_box(x: int, y: int, size: int, t: int) -> Seq<Rect> {
    drawn(rect_at(x, y, max(size, t), t)) + drawn(rect_at(x, y, t, max(size, t)))
}

/// Drawing an icon stays within `i32`.
pub open spec fn can_draw_icon(x: int, y: int, size: int) -> bool {
    &&& 1 <= size
    &&& size * 3 <= i32::MAX
    &&& i32::MIN <= x
    &&& x + size + 1 <= i32::MAX
    &&& i32::MIN <= y
    &&& y + size + 1 <= i32::MAX
}

/// Adds a rectangle, unless it is empty.
pub fn push_rect(rects: &mut Vec<Rect>, r: Rect)
    ensures
        final(rects)@ == old(rects)@ + drawn(r),
{
    if r.w > 0 && r.h > 0 {
        rects.push(r);
    }
    assert(rects@ =~= old(rects)@ + drawn(r));
}

fn half_of(v: i32) -> (r: i32)
    requires
        v >= 0,
    ensures
        r == v as int / 2,
{
    (v as u32 / 2) as i32
}

fn push_box(rects: &mut Vec<Rect>, x: i32, y: i32, size: i32, t: i32)
    ensures
        final(rects)@ == old(rects)@ + nested_box(x as int, y as int, size as int, t as int),
{
    let long: i32 = if size >= t { size } else { t };
    push_rect(rects, Rect { x, y, w: long, h: t });
    push_rect(rects, Rect { x, y, w: t, h: long });
    assert(rects@ =~= old(rects)@ + nested_box(x as int, y as int, size as int, t as int));
}

/// Draws the icon for a layout mode: a master column with two windows beside
/// it, one full square, a hollow square, or three nested boxes.
pub fn draw_layout_icon(rects: &mut Vec<Rect>, mode: LayoutMode, x: i32, y: i32, size: i32)
    requires
        can_draw_icon(x as int, y as int, size as int),
    ensures
        final(rects)@ == old(rects)@ + icon_rects(mode, x as int, y as int, size as int),
{
    let eighth: i32 = (size as u32 / 8) as i32;
    let t: i32 = if eighth > 1 { eighth } else { 1 };
    match mode {
        LayoutMode::Tile => {
            let master: i32 = ((size * 3) as u32 / 5) as i32;
            let rest: i32 = size - master - t;
            let stack_w: i32 = if rest > 1 { rest } else { 1 };
            let half: i32 = half_of(size - t);
            let stack_h: i32 = if half > 1 { half } else { 1 };
            push_rect(rects, Rect { x, y, w: master, h: size });
            push_rect(rects, Rect { x: x + master + t, y, w: stack_w, h: stack_h });
            push_rect(
                rects,
                Rect { x: x + master + t, y: y + stack_h + t, w: stack_w, h: stack_h },
            );
        },
        LayoutMode::Monocle => {
            push_rect(rects, Rect { x, y, w: size, h: size });
        },
        LayoutMode::Floating => {
            push_rect(rects, Rect { x, y, w: size, h: t });
            push_rect(rects, Rect { x, y: y + size - t, w: size, h: t });
            push_rect(rects, Rect { x, y, w: t, h: size });
            push_rect(rects, Rect { x: x + size - t, y, w: t, h: size });
        },
        LayoutMode::Fibonacci => {
            push_box(rects, x, y, size, t);
            let h1: i32 = half_of(size);
            let s1: i32 = size - h1;
            push_box(rects, x + h1, y + h1, s1, t);
            let h2: i32 = half_of(s1);
            push_box(rects, x + (h1 + h2), y + (h1 + h2), s1 - h2, t);
        },
    }
    assert(rects@ =~= old(rects)@ + icon_rects(mode, x as int, y as int, size as int));
}

/// Measures of the bar that follow from its height.
pub open spec fn bar_pad(height: int) -> int {
    max(height / 4, 1)
}

/// Height of the glyphs.
pub open spec fn bar_glyph_height(height: int) -> int {
    max(height - bar_pad(height) * 2, 1)
}

/// Gap between glyphs.
pub open spec fn bar_gap(height: int) -> int {
    max(bar_glyph_height(height) / 6, 1)
}

/// Where the pen is after the first items of the left part.
pub open spec fn items_pen(items: Seq<BarWorkspaceItem>, x: int, height: int) -> int
    decreases items.len(),
{
    if items.len() == 0 {
        x
    } else {
        glyph::pen(
            text::decimal(items.last().number as nat),
            items_pen(items.drop_last(), x, height),
            bar_glyph_height(height),
            bar_gap(height),
        ) + bar_pad(height)
    }
}

/// Rectangles of the items that are active, or of those that are not.
pub open spec fn items_rects(
    items: Seq<BarWorkspaceItem>,
    x: int,
    y: int,
    height: int,
    active: bool,
) -> Seq<Rect>
    decreases items.len(),
{
    if items.len() == 0 {
        Seq::empty()
    } else {
        let before = items_rects(items.drop_last(), x, y, height, active);
        if items.last().active == active {
            before + glyph::text_rects(
                text::decimal(items.last().number as nat),
                items_pen(items.drop_last(), x, height),
                y,
                bar_glyph_height(height),
                bar_gap(height),
            )
        } else {
            before
        }
    }
}

/// Where everything is on the bar.
#[derive(Debug)]
pub struct BarLayout {
    /// Rectangles in the foreground color.
    pub fg: Vec<Rect>,
    /// Rectangles in the color of the active workspace.
    pub fg_active: Vec<Rect>,
    /// The strip behind them, drawn last.
    pub background: Option<Rect>,
}

/// Where the status text starts: at the right end of the bar, but never over
/// the left part.
pub open spec fn status_x(outer: int, width: int, height: int, left: int, status: Seq<char>) -> int {
    max(
        outer + width - bar_pad(height) - glyph::text_width(
            status,
            bar_glyph_height(height),
            bar_gap(height),
        ),
        left,
    )
}

/// Width of the bar.
pub open spec fn bar_width(output_width: int, outer: int) -> int {
    max(output_width - outer * 2, 0)
}

/// Drawing the number of the workspace at `k` stays within `i32`.
pub open spec fn item_fits(items: Seq<BarWorkspaceItem>, k: int, start: int, height: int) -> bool {
    &&& glyph::can_draw(
        text::decimal(items[k].number as nat),
        items_pen(items.take(k), start, height),
        start,
        bar_glyph_height(height),
        bar_gap(height),
    )
    &&& i32::MIN <= items_pen(items.take(k + 1), start, height) <= i32::MAX
}

/// Laying out the bar stays within `i32`.
pub open spec fn can_lay_out(
    height: int,
    output_width: int,
    outer: int,
    data: BarData,
    status: Seq<char>,
) -> bool {
    let pad = bar_pad(height);
    let gh = bar_glyph_height(height);
    let gap = bar_gap(height);
    let start = outer + pad;
    let items = data.workspaces@;
    let left = items_pen(items, start, height);
    let width = bar_width(output_width, outer);
    &&& outer * 2 <= i32::MAX
    &&& i32::MIN <= output_width - outer * 2
    &&& start <= i32::MAX
    &&& forall|k: int| 0 <= k < items.len() ==> #[trigger] item_fits(items, k, start, height)
    &&& can_draw_icon(left, start, gh)
    &&& glyph::can_measure(status, gh, gap)
    &&& outer + width <= i32::MAX
    &&& i32::MIN <= outer + width - pad - glyph::text_width(status, gh, gap) <= i32::MAX
    &&& glyph::can_draw(status, status_x(outer, width, height, left, status), start, gh, gap)
}

/// Lays out the bar: workspace numbers and the layout icon on the left, the
/// status text on the right, and a strip behind them that keeps the outer gap
/// from the edges of the output. A bar that is off or has no height is empty.
pub fn bar_elements(
    config: &BarConfig,
    output_width: i32,
    outer_gap: i32,
    data: &BarData,
    status: &str,
) -> (layout: BarLayout)
    requires
        config.enabled && config.height > 0 ==> can_lay_out(
            config.height as int,
            output_width as int,
            max(outer_gap as int, 0),
            *data,
            status@,
        ),
    ensures
        !(config.enabled && config.height > 0) ==> layout.fg@.len() == 0 && layout.fg_active@.len()
            == 0 && layout.background is None,
        config.enabled && config.height > 0 ==> ({
            let height = config.height as int;
            let outer = max(outer_gap as int, 0);
            let start = outer + bar_pad(height);
            let width = bar_width(output_width as int, outer);
            let items = data.workspaces@;
            let left = items_pen(items, start, height);
            &&& layout.fg_active@ == items_rects(items, start, start, height, true)
            &&& layout.fg@ == items_rects(items, start, start, height, false) + icon_rects(
                data.mode,
                left,
                start,
                bar_glyph_height(height),
            ) + glyph::text_rects(
                status@,
                status_x(outer, width, height, left, status@),
                start,
                bar_glyph_height(height),
                bar_gap(height),
            )
            &&& layout.background == (if width > 0 {
                Some(rect_at(outer, outer, width, height))
            } else {
                None
            })
        }),
{
    let mut fg: Vec<Rect> = Vec::new();
    let mut fg_active: Vec<Rect> = Vec::new();
    if !config.enabled || config.height <= 0 {
        return BarLayout { fg, fg_active, background: None };
    }
    let height: i32 = config.height;
    let outer: i32 = if outer_gap > 0 { outer_gap } else { 0 };
    let inner_width: i32 = output_width - outer * 2;
    let width: i32 = if inner_width > 0 { inner_width } else { 0 };
    let quarter: i32 = (height as u32 / 4) as i32;
    let pad: i32 = if quarter > 1 { quarter } else { 1 };
    let rest: i32 = height - pad * 2;
    let gh: i32 = if rest > 1 { rest } else { 1 };
    let sixth: i32 = (gh as u32 / 6) as i32;
    let gap: i32 = if sixth > 1 { sixth } else { 1 };
    let start: i32 = outer + pad;
    let ghost items = data.workspaces@;
    let ghost h = height as int;
    let ghost s = start as int;
    let mut x: i32 = start;
    let mut i: usize = 0;
    assert(items.take(0) =~= Seq::<BarWorkspaceItem>::empty());
    while i < data.workspaces.len()
        invariant
            i <= items.len(),
            items == data.workspaces@,
            h == height,
            s == start,
            pad == bar_pad(h),
            gh == bar_glyph_height(h),
            gap == bar_gap(h),
            x == items_pen(items.take(i as int), s, h),
            fg@ == items_rects(items.take(i as int), s, s, h, false),
            fg_active@ == items_rects(items.take(i as int), s, s, h, true),
            forall|k: int| 0 <= k < items.len() ==> #[trigger] item_fits(items, k, s, h),
        decreases items.len() - i,
    {
        let item: BarWorkspaceItem = data.workspaces[i];
        let number: String = text::to_decimal(item.number as u64);
        let ghost next = items.take(i + 1);
        assert(next.drop_last() =~= items.take(i as int));
        assert(next.last() == item);
        assert(item_fits(items, i as int, s, h));
        if item.active {
            x = glyph::draw_text(&mut fg_active, number.as_str(), x, start, gh, gap);
        } else {
            x = glyph::draw_text(&mut fg, number.as_str(), x, start, gh, gap);
        }
        x = x + pad;
        i = i + 1;
    }
    assert(items.take(i as int) =~= items);
    draw_layout_icon(&mut fg, data.mode, x, start, gh);
    let text_w: i32 = glyph::measure_text(status, gh, gap);
    let right: i32 = ((outer as i64 + width as i64) - pad as i64 - text_w as i64) as i32;
    let status_start: i32 = if right >= x { right } else { x };
    glyph::draw_text(&mut fg, status, status_start, start, gh, gap);
    let background: Option<Rect> = if width > 0 {
        Some(Rect { x: outer, y: outer, w: width, h: height })
    } else {
        None
    };
    BarLayout { fg, fg_active, background }
}

/// The padding is a quarter of the bar's height, the glyphs have what two
/// paddings leave of it, and the gap between glyphs is a sixth of that, all
/// rounded down and never nothing.
pub proof fn measures_follow_the_height(height: int)
    requires
        height >= 4,
    ensures
        4 * bar_pad(height) <= height < 4 * bar_pad(height) + 4,
        bar_pad(height) + bar_glyph_height(height) + bar_pad(height) == height,
        bar_gap(height) >= 1,
        bar_glyph_height(height) >= 6 ==> 6 * bar_gap(height) <= bar_glyph_height(height) < 6
            * bar_gap(height) + 6,
{
}

/// The strip of the bar keeps the outer gap from both ends of the output.
pub proof fn bar_keeps_the_outer_gap(output_width: int, outer: int)
    ensures
        outer * 2 <= output_width ==> outer + bar_width(output_width, outer) + outer
            == output_width,
        outer * 2 > output_width ==> bar_width(output_width, outer) == 0,
{
}

/// The status text ends a padding before the right end of the bar, when it fits
/// between there and the end of the left part; otherwise it starts right behind
/// the left part. It never starts over the left part, and nothing of a text that
/// fits is drawn beyond the padding.
pub proof fn status_text_is_aligned_to_the_right(
    outer: int,
    width: int,
    height: int,
    left: int,
    y: int,
    status: Seq<char>,
    i: int,
)
    requires
        height > 0,
        glyph::can_draw(
            status,
            status_x(outer, width, height, left, status),
            y,
            bar_glyph_height(height),
            bar_gap(height),
        ),
    ensures
        ({
            let size = bar_glyph_height(height);
            let gap = bar_gap(height);
            let start = status_x(outer, width, height, left, status);
            let length = glyph::text_width(status, size, gap);
            let end = outer + width - bar_pad(height);
            let rects = glyph::text_rects(status, start, y, size, gap);
            &&& left + length <= end ==> start + length == end
            &&& left + length > end ==> start == left
            &&& start >= left
            &&& status.len() > 0 && left + length <= end ==> glyph::pen(status, start, size, gap)
                == end + gap
            &&& 0 <= i < rects.len() ==> {
                &&& left <= rects[i].x
                &&& left + length <= end ==> rects[i].x + rects[i].w <= end
            }
        }),
{
    let size = bar_glyph_height(height);
    let gap = bar_gap(height);
    let start = status_x(outer, width, height, left, status);
    glyph::pen_stops_behind_the_text(status, start, size, gap);
    if 0 <= i < glyph::text_rects(status, start, y, size, gap).len() {
        glyph::text_stays_in_its_box(status, start, y, size, gap, i);
    }
}

/// The numbers of the workspaces stand from left to right in their order: each
/// starts a gap and a padding behind the end of the one before it, and the left
/// part goes on a gap and a padding behind the last.
pub proof fn numbers_stand_in_order(items: Seq<BarWorkspaceItem>, x: int, height: int, k: int)
    requires
        height > 0,
        0 <= k < items.len(),
    ensures
        items_pen(items.take(0), x, height) == x,
        items_pen(items.take(k + 1), x, height) == items_pen(items.take(k), x, height)
            + glyph::text_width(
            text::decimal(items[k].number as nat),
            bar_glyph_height(height),
            bar_gap(height),
        ) + bar_gap(height) + bar_pad(height),
        items_pen(items.take(k + 1), x, height) > items_pen(items.take(k), x, height),
{
    assert(items.take(k + 1).drop_last() =~= items.take(k));
    assert(items.take(k + 1).last() == items[k]);
    text::decimal_reads_back(items[k].number as nat);
    glyph::pen_stops_behind_the_text(
        text::decimal(items[k].number as nat),
        items_pen(items.take(k), x, height),
        bar_glyph_height(height),
        bar_gap(height),
    );
}

/// The number of every workspace is drawn at its place once: in the color of
/// the active workspace if it is active, and in the other color if it is not.
pub proof fn every_number_is_drawn_in_its_color(
    items: Seq<BarWorkspaceItem>,
    x: int,
    y: int,
    height: int,
    k: int,
)
    requires
        0 <= k < items.len(),
    ensures
        ({
            let own = glyph::text_rects(
                text::decimal(items[k].number as nat),
                items_pen(items.take(k), x, height),
                y,
                bar_glyph_height(height),
                bar_gap(height),
            );
            let color = items[k].active;
            &&& items_rects(items.take(k + 1), x, y, height, color) == items_rects(
                items.take(k),
                x,
                y,
                height,
                color,
            ) + own
            &&& items_rects(items.take(k + 1), x, y, height, !color) == items_rects(
                items.take(k),
                x,
                y,
                height,
                !color,
            )
            &&& items_rects(items.take(0), x, y, height, color).len() == 0
        }),
{
    assert(items.take(k + 1).drop_last() =~= items.take(k));
    assert(items.take(k + 1).last() == items[k]);
}

/// Nothing of an icon is outside its square, for icons of eight pixels and
/// more.
pub proof fn icons_stay_in_their_square(mode: LayoutMode, x: int, y: int, size: int, i: int)
    requires
        can_draw_icon(x, y, size),
        size >= 8,
        0 <= i < icon_rects(mode, x, y, size).len(),
    ensures
        ({
            let r = icon_rects(mode, x, y, size)[i];
            &&& x <= r.x
            &&& y <= r.y
            &&& r.w > 0
            &&& r.h > 0
            &&& r.x + r.w <= x + size
            &&& r.y + r.h <= y + size
        }),
{
}

/// Whether some rectangle of a list covers a pixel.
pub open spec fn covered(rects: Seq<Rect>, px: int, py: int) -> bool {
    exists|i: int| 0 <= i < rects.len() && glyph::covers(#[trigger] rects[i], px, py)
}

proof fn lemma_covered_parts(a: Seq<Rect>, b: Seq<Rect>, px: int, py: int)
    ensures
        covered(a + b, px, py) <==> covered(a, px, py) || covered(b, px, py),
{
    let all = a + b;
    if covered(a, px, py) {
        let i = choose|i: int| 0 <= i < a.len() && glyph::covers(#[trigger] a[i], px, py);
        assert(all[i] == a[i]);
    }
    if covered(b, px, py) {
        let i = choose|i: int| 0 <= i < b.len() && glyph::covers(#[trigger] b[i], px, py);
        assert(all[a.len() + i] == b[i]);
    }
    if covered(all, px, py) {
        let i = choose|i: int| 0 <= i < all.len() && glyph::covers(#[trigger] all[i], px, py);
        if i < a.len() {
            assert(all[i] == a[i]);
        } else {
            assert(all[i] == b[i - a.len()]);
        }
    }
}

proof fn lemma_covered_one(r: Rect, px: int, py: int)
    ensures
        covered(drawn(r), px, py) <==> glyph::covers(r, px, py),
{
    if glyph::covers(r, px, py) {
        assert(drawn(r)[0] == r);
    }
}

/// What an icon shows, pixel by pixel, for icons of eight pixels and more, with
/// lines of an eighth of its size. In monocle mode the whole square is filled;
/// in floating mode only its four edges are. In tile mode a column of three
/// fifths of the square stands on the left, and beside it, a line apart, two
/// boxes of equal height above each other, a line apart too. In spiral mode the
/// top and the left edge of the square are drawn, and nothing else but in its
/// lower right quarter, where the same begins again.
pub proof fn icons_picture_their_layout(x: int, y: int, size: int, dx: int, dy: int)
    requires
        can_draw_icon(x, y, size),
        size >= 8,
        0 <= dx < size,
        0 <= dy < size,
    ensures
        ({
            let line = icon_line(size);
            let shows = |mode: LayoutMode| covered(icon_rects(mode, x, y, size), x + dx, y + dy);
            let master = (3 * size) / 5;
            let box_height = (size - line) / 2;
            let half = size / 2;
            &&& 8 * line <= size < 8 * line + 8
            &&& shows(LayoutMode::Monocle)
            &&& shows(LayoutMode::Floating) <==> dx < line || dy < line || dx >= size - line || dy
                >= size - line
            &&& dx < master ==> shows(LayoutMode::Tile)
            &&& master <= dx < master + line ==> !shows(LayoutMode::Tile)
            &&& dx >= master + line ==> (shows(LayoutMode::Tile) <==> dy < box_height || (
            box_height + line <= dy < 2 * box_height + line))
            &&& dx < line || dy < line ==> shows(LayoutMode::Fibonacci)
            &&& dx >= line && dy >= line && (dx < half || dy < half) ==> !shows(
                LayoutMode::Fibonacci,
            )
            &&& dx >= half && dy >= half && (dx < half + line || dy < half + line) ==> shows(
                LayoutMode::Fibonacci,
            )
        }),
{
    let px = x + dx;
    let py = y + dy;
    let t = icon_line(size);
    lemma_covered_one(rect_at(x, y, size, size), px, py);

    let top = drawn(rect_at(x, y, size, t));
    let bottom = drawn(rect_at(x, y + size - t, size, t));
    let left = drawn(rect_at(x, y, t, size));
    let right = drawn(rect_at(x + size - t, y, t, size));
    lemma_covered_one(rect_at(x, y, size, t), px, py);
    lemma_covered_one(rect_at(x, y + size - t, size, t), px, py);
    lemma_covered_one(rect_at(x, y, t, size), px, py);
    lemma_covered_one(rect_at(x + size - t, y, t, size), px, py);
    lemma_covered_parts(top, bottom, px, py);
    lemma_covered_parts(top + bottom, left, px, py);
    lemma_covered_parts(top + bottom + left, right, px, py);

    let master = (size * 3) / 5;
    let stack_w = max(size - master - t, 1);
    let stack_h = max((size - t) / 2, 1);
    let first = rect_at(x, y, master, size);
    let second = rect_at(x + master + t, y, stack_w, stack_h);
    let third = rect_at(x + master + t, y + stack_h + t, stack_w, stack_h);
    lemma_covered_one(first, px, py);
    lemma_covered_one(second, px, py);
    lemma_covered_one(third, px, py);
    lemma_covered_parts(drawn(first), drawn(second), px, py);
    lemma_covered_parts(drawn(first) + drawn(second), drawn(third), px, py);

    let s1 = size - size / 2;
    let s2 = s1 - s1 / 2;
    let x1 = size / 2;
    let x2 = x1 + s1 / 2;
    lemma_covered_box(x, y, size, t, px, py);
    lemma_covered_box(x + x1, y + x1, s1, t, px, py);
    lemma_covered_box(x + x2, y + x2, s2, t, px, py);
    let outer = nested_box(x, y, size, t);
    let middle = nested_box(x + x1, y + x1, s1, t);
    let inner = nested_box(x + x2, y + x2, s2, t);
    lemma_covered_parts(outer, middle, px, py);
    lemma_covered_parts(outer + middle, inner, px, py);
}

proof fn lemma_covered_box(x: int, y: int, size: int, t: int, px: int, py: int)
    ensures
        covered(nested_box(x, y, size, t), px, py) <==> glyph::covers(
            rect_at(x, y, max(size, t), t),
            px,
            py,
        ) || glyph::covers(rect_at(x, y, t, max(size, t)), px, py),
{
    let across = rect_at(x, y, max(size, t), t);
    let down = rect_at(x, y, t, max(size, t));
    lemma_covered_one(across, px, py);
    lemma_covered_one(down, px, py);
    lemma_covered_parts(drawn(across), drawn(down), px, py);
}

/// A rectangle is drawn if and only if it has a pixel.
pub proof fn empty_rectangles_are_not_drawn(r: Rect)
    ensures
        drawn(r).len() == 0 <==> r.w <= 0 || r.h <= 0,
        drawn(r).len() > 0 ==> drawn(r) == seq![r],
{
}

} // verus!
