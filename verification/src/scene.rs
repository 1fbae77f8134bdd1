//! What an output shows, front to back.

use crate::geometry;
use crate::geometry::{Point, Rect, Size};
use crate::rule;
use crate::rule::{RuleEntry, WindowRule};
use crate::text;
use crate::tiling::WindowFacts;
use crate::windows;
use vstd::prelude::*;

verus! {

/// A window on an output.
#[derive(Debug, Clone, Copy, PartialEq, Eq, Structural)]
pub struct SceneWindow {
    pub id: u64,
    /// Where the window is mapped, if it is.
    pub location: Option<Point>,
    /// Where the window's content starts within its surface.
    pub content: Point,
}

/// What fills the places where nothing is drawn.
#[derive(Debug, Clone, Copy, PartialEq, Eq, Structural)]
pub enum Backdrop {
    Locked,
    Fullscreen,
    Desktop,
}

/// Something that is drawn.
#[derive(Debug, Clone, Copy, PartialEq, Eq, Structural)]
pub enum SceneItem {
    /// The cursor, a dragged icon, the bar.
    Custom,
    /// The lock surface.
    Lock,
    /// A window that fills the output.
    Fullscreen { window: u64 },
    /// Small images of all windows.
    Previews,
    /// Windows and layer surfaces together, as they are stacked.
    Stacked,
    /// Layer surfaces above the windows.
    UpperLayers,
    /// Layer surfaces below the windows.
    LowerLayers,
    /// The border of a window.
    Border { window: u64 },
    /// A window where its animation has it.
    Animated { window: u64 },
    /// A window at a place of the output.
    Window { window: u64, at: Point },
    /// What is behind a window, blurred.
    Blur { window: u64 },
}

/// What an output has to show.
#[derive(Debug)]
pub struct SceneState {
    pub locked: bool,
    pub fullscreen: Option<u64>,
    pub show_previews: bool,
    /// Where the output is.
    pub origin: Point,
    /// Windows of the output, lowest first.
    pub windows: Vec<SceneWindow>,
    /// Windows that have a border.
    pub bordered: Vec<u64>,
    pub border_width: i32,
    /// Windows that an animation moves.
    pub animated: Vec<u64>,
    /// Windows that are left out.
    pub hidden: Vec<u64>,
    /// Windows whose background is blurred.
    pub blurred: Vec<u64>,
}

/// Where a window is drawn on an output, if it is mapped.
pub open spec fn drawn_at(w: SceneWindow, origin: Point) -> Option<Point> {
    match w.location {
        Some(at) => Some(
            Point {
                x: (at.x - w.content.x - origin.x) as i32,
                y: (at.y - w.content.y - origin.y) as i32,
            },
        ),
        None => None,
    }
}

/// Finding the place stays within `i32`.
pub open spec fn can_place(w: SceneWindow, origin: Point) -> bool {
    w.location is Some ==> {
        let at = w.location->0;
        &&& geometry::fits_i32(at.x - w.content.x)
        &&& geometry::fits_i32(at.x - w.content.x - origin.x)
        &&& geometry::fits_i32(at.y - w.content.y)
        &&& geometry::fits_i32(at.y - w.content.y - origin.y)
    }
}

/// Whether a window is drawn in its place, and not where an animation has it.
pub open spec fn in_place(state: SceneState, w: SceneWindow) -> bool {
    !state.hidden@.contains(w.id) && !state.animated@.contains(w.id)
}

/// What is drawn for one window: its border, itself, and the blurred
/// background behind it. A hidden window has none of these.
pub open spec fn window_items(state: SceneState, w: SceneWindow) -> Seq<SceneItem> {
    if state.hidden@.contains(w.id) {
        Seq::empty()
    } else {
        (if state.border_width > 0 && state.bordered@.contains(w.id) {
            seq![SceneItem::Border { window: w.id }]
        } else {
            Seq::<SceneItem>::empty()
        }) + (if state.animated@.contains(w.id) {
            seq![SceneItem::Animated { window: w.id }]
        } else {
            match drawn_at(w, state.origin) {
                Some(at) => seq![SceneItem::Window { window: w.id, at }],
                None => Seq::<SceneItem>::empty(),
            }
        }) + (if state.blurred@.contains(w.id) {
            seq![SceneItem::Blur { window: w.id }]
        } else {
            Seq::<SceneItem>::empty()
        })
    }
}

/// What is drawn for the highest `n` windows, the highest first.
pub open spec fn top_windows(state: SceneState, n: int) -> Seq<SceneItem>
    decreases n,
{
    if n <= 0 {
        Seq::empty()
    } else {
        top_windows(state, n - 1) + window_items(
            state,
            state.windows@[state.windows@.len() - n],
        )
    }
}

/// Whether windows are drawn one by one: something has to go between them, or
/// some are left out.
pub open spec fn one_by_one(state: SceneState) -> bool {
    state.border_width > 0 || state.animated@.len() > 0 || state.hidden@.len() > 0
        || state.blurred@.len() > 0
}

/// What is drawn, front to back. The lock surface hides everything but the
/// cursor; a fullscreen window hides everything else.
pub open spec fn scene_items(state: SceneState) -> Seq<SceneItem> {
    if state.locked {
        seq![SceneItem::Custom, SceneItem::Lock]
    } else if state.fullscreen is Some {
        seq![SceneItem::Custom] + (if state.hidden@.contains(state.fullscreen->0) {
            Seq::<SceneItem>::empty()
        } else {
            seq![SceneItem::Fullscreen { window: state.fullscreen->0 }]
        })
    } else {
        seq![SceneItem::Custom] + (if state.show_previews && state.windows@.len() > 0 {
            seq![SceneItem::Previews]
        } else {
            Seq::<SceneItem>::empty()
        }) + (if one_by_one(state) {
            seq![SceneItem::UpperLayers] + top_windows(state, state.windows@.len() as int) + seq![
                SceneItem::LowerLayers,
            ]
        } else {
            seq![SceneItem::Stacked]
        })
    }
}

/// What is behind everything.
pub open spec fn scene_backdrop(state: SceneState) -> Backdrop {
    if state.locked {
        Backdrop::Locked
    } else if state.fullscreen is Some {
        Backdrop::Fullscreen
    } else {
        Backdrop::Desktop
    }
}

fn push_window(items: &mut Vec<SceneItem>, state: &SceneState, w: SceneWindow)
    requires
        in_place(*state, w) ==> can_place(w, state.origin),
    ensures
        final(items)@ == old(items)@ + window_items(*state, w),
{
    if windows::contains(state.hidden.as_slice(), w.id) {
        assert(items@ =~= old(items)@ + window_items(*state, w));
        return;
    }
    if state.border_width > 0 && windows::contains(state.bordered.as_slice(), w.id) {
        items.push(SceneItem::Border { window: w.id });
    }
    if windows::contains(state.animated.as_slice(), w.id) {
        items.push(SceneItem::Animated { window: w.id });
    } else if let Some(at) = w.location {
        let x: i32 = at.x - w.content.x - state.origin.x;
        let y: i32 = at.y - w.content.y - state.origin.y;
        items.push(SceneItem::Window { window: w.id, at: Point { x, y } });
    }
    if windows::contains(state.blurred.as_slice(), w.id) {
        items.push(SceneItem::Blur { window: w.id });
    }
    assert(items@ =~= old(items)@ + window_items(*state, w));
}

/// What an output shows, front to back, and what is behind it.
pub fn output_elements(state: &SceneState) -> (r: (Vec<SceneItem>, Backdrop))
    requires
        !state.locked && state.fullscreen is None && one_by_one(*state) ==> forall|i: int|
            0 <= i < state.windows@.len() && in_place(*state, #[trigger] state.windows@[i])
                ==> can_place(state.windows@[i], state.origin),
    ensures
        r.0@ == scene_items(*state),
        r.1 == scene_backdrop(*state),
{
    let mut items: Vec<SceneItem> = Vec::new();
    items.push(SceneItem::Custom);
    if state.locked {
        items.push(SceneItem::Lock);
        assert(items@ =~= scene_items(*state));
        return (items, Backdrop::Locked);
    }
    if let Some(window) = state.fullscreen {
        if !windows::contains(state.hidden.as_slice(), window) {
            items.push(SceneItem::Fullscreen { window });
        }
        assert(items@ =~= scene_items(*state));
        return (items, Backdrop::Fullscreen);
    }
    if state.show_previews && state.windows.len() > 0 {
        items.push(SceneItem::Previews);
    }
    let ghost head = items@;
    if state.border_width > 0 || state.animated.len() > 0 || state.hidden.len() > 0
        || state.blurred.len() > 0 {
        items.push(SceneItem::UpperLayers);
        let n: usize = state.windows.len();
        let mut i: usize = 0;
        let ghost upper = head.push(SceneItem::UpperLayers);
        assert(items@ =~= upper + top_windows(*state, 0));
        while i < n
            invariant
                i <= n,
                n == state.windows@.len(),
                forall|k: int|
                    0 <= k < state.windows@.len() && in_place(*state, #[trigger] state.windows@[k])
                        ==> can_place(state.windows@[k], state.origin),
                items@ == upper + top_windows(*state, i as int),
            decreases n - i,
        {
            let w: SceneWindow = state.windows[n - 1 - i];
            let ghost before = items@;
            push_window(&mut items, state, w);
            i = i + 1;
            assert(items@ =~= upper + top_windows(*state, i as int));
        }
        items.push(SceneItem::LowerLayers);
    } else {
        items.push(SceneItem::Stacked);
    }
    assert(items@ =~= scene_items(*state));
    (items, Backdrop::Desktop)
}

/// While the session is locked, nothing of the desktop is drawn: only the lock
/// surface and what goes over it, whatever is on the desktop.
pub proof fn locked_scene_shows_only_the_lock(state: SceneState, other: SceneState, i: int)
    requires
        state.locked,
        other.locked,
        0 <= i < scene_items(state).len(),
    ensures
        scene_items(state)[i] == SceneItem::Custom || scene_items(state)[i] == SceneItem::Lock,
        scene_backdrop(state) == Backdrop::Locked,
        scene_items(other) == scene_items(state),
{
}

/// Whether something that is drawn belongs to a window.
pub open spec fn is_of(item: SceneItem, window: u64) -> bool {
    match item {
        SceneItem::Border { window: w } => w == window,
        SceneItem::Animated { window: w } => w == window,
        SceneItem::Window { window: w, at } => w == window,
        SceneItem::Blur { window: w } => w == window,
        SceneItem::Fullscreen { window: w } => w == window,
        _ => false,
    }
}

proof fn lemma_hidden_among_windows(state: SceneState, window: u64, n: int, i: int)
    requires
        state.hidden@.contains(window),
        0 <= n <= state.windows@.len(),
        0 <= i < top_windows(state, n).len(),
    ensures
        !is_of(top_windows(state, n)[i], window),
        top_windows(state, n)[i] != SceneItem::Stacked,
    decreases n,
{
    if n > 0 {
        let before = top_windows(state, n - 1);
        let w = state.windows@[state.windows@.len() - n];
        if i < before.len() {
            lemma_hidden_among_windows(state, window, n - 1, i);
            assert(top_windows(state, n)[i] == before[i]);
        } else {
            assert(top_windows(state, n)[i] == window_items(state, w)[i - before.len()]);
        }
    }
}

/// A hidden window is nowhere in what is drawn: neither it, nor its border, nor
/// its background, not even when it is fullscreen. Nor are all windows drawn
/// together.
pub proof fn hidden_windows_are_not_drawn(state: SceneState, window: u64, i: int)
    requires
        state.hidden@.contains(window),
        0 <= i < scene_items(state).len(),
    ensures
        !is_of(scene_items(state)[i], window),
        scene_items(state)[i] != SceneItem::Stacked,
{
    if !state.locked && state.fullscreen is None {
        let n = state.windows@.len() as int;
        let top = top_windows(state, n);
        let all = scene_items(state);
        let start = all.len() - 1 - top.len();
        assert(one_by_one(state)) by {
            let k = choose|k: int| 0 <= k < state.hidden@.len() && state.hidden@[k] == window;
            assert(0 <= k < state.hidden@.len());
        }
        if start <= i < all.len() - 1 {
            assert(all[i] == top[i - start]);
            lemma_hidden_among_windows(state, window, n, i - start);
        }
    }
}

/// Upper layers are drawn in front of every window and lower layers behind
/// every window, when windows are drawn one by one.
pub proof fn layers_enclose_the_windows(state: SceneState)
    requires
        !state.locked,
        state.fullscreen is None,
        one_by_one(state),
    ensures
        scene_items(state).last() == SceneItem::LowerLayers,
        exists|at: int|
            0 < at <= 2 && scene_items(state)[at] == SceneItem::UpperLayers && scene_items(
                state,
            ).skip(at + 1).drop_last() == top_windows(state, state.windows@.len() as int),
{
    let at: int = if state.show_previews && state.windows@.len() > 0 {
        2
    } else {
        1
    };
    let all = scene_items(state);
    assert(all[at] == SceneItem::UpperLayers);
    assert(all.skip(at + 1).drop_last() =~= top_windows(state, state.windows@.len() as int));
}

/// Ids of the first `n` windows that the rules hide from captures.
pub open spec fn captured_without(live: Seq<WindowFacts>, rules: Seq<WindowRule>, n: int) -> Seq<u64>
    decreases n,
{
    if n <= 0 {
        Seq::empty()
    } else {
        let before = captured_without(live, rules, n - 1);
        if rule::rule_hides(rules, text::text_view(live[n - 1].app_id)) {
            before.push(live[n - 1].id)
        } else {
            before
        }
    }
}

/// The windows that the rules hide from captures.
pub fn hidden_windows(live: &[WindowFacts], rules: &[WindowRule]) -> (r: Vec<u64>)
    ensures
        r@ == captured_without(live@, rules@, live@.len() as int),
{
    let mut r: Vec<u64> = Vec::new();
    let mut i: usize = 0;
    while i < live.len()
        invariant
            i <= live@.len(),
            r@ == captured_without(live@, rules@, i as int),
        decreases live@.len() - i,
    {
        if rule::hidden_from_capture(live[i].app_id_str(), rules) {
            r.push(live[i].id);
        }
        i = i + 1;
    }
    r
}

/// What a picture of an output is made for.
#[derive(Debug, Clone, Copy, PartialEq, Eq, Structural)]
pub enum Purpose {
    /// It goes to the screen.
    Screen,
    /// A client captures the output.
    Capture { paint_cursor: bool },
    /// It is blurred and shown behind windows.
    Backdrop,
}

/// Something that goes over the windows.
#[derive(Debug, Clone, Copy, PartialEq, Eq, Structural)]
pub enum Overlay {
    /// The cursor and the icon that is dragged with it.
    Cursor,
    Bar,
}

/// What goes over the windows, front to back. The bar is on the screen alone,
/// and not while the session is locked.
pub open spec fn overlays_for(purpose: Purpose, locked: bool) -> Seq<Overlay> {
    match purpose {
        Purpose::Screen => if locked {
            seq![Overlay::Cursor]
        } else {
            seq![Overlay::Cursor, Overlay::Bar]
        },
        Purpose::Capture { paint_cursor } => if paint_cursor {
            seq![Overlay::Cursor]
        } else {
            Seq::empty()
        },
        Purpose::Backdrop => Seq::empty(),
    }
}

/// What goes over the windows in a picture of an output, front to back.
pub fn overlays(purpose: Purpose, locked: bool) -> (r: Vec<Overlay>)
    ensures
        r@ == overlays_for(purpose, locked),
{
    let mut r: Vec<Overlay> = Vec::new();
    match purpose {
        Purpose::Screen => {
            r.push(Overlay::Cursor);
            if !locked {
                r.push(Overlay::Bar);
            }
        },
        Purpose::Capture { paint_cursor } => {
            if paint_cursor {
                r.push(Overlay::Cursor);
            }
        },
        Purpose::Backdrop => {},
    }
    assert(r@ =~= overlays_for(purpose, locked));
    r
}

impl SceneState {
    /// What a capture of the output shows: windows where they belong, without
    /// those that the rules hide, and without previews and blurred backgrounds.
    pub fn captured(self, live: &[WindowFacts], rules: &[WindowRule]) -> (s: SceneState)
        ensures
            s.locked == self.locked,
            s.fullscreen == self.fullscreen,
            !s.show_previews,
            s.origin == self.origin,
            s.windows == self.windows,
            s.bordered == self.bordered,
            s.border_width == self.border_width,
            s.animated@.len() == 0,
            s.hidden@ == captured_without(live@, rules@, live@.len() as int),
            s.blurred@.len() == 0,
    {
        SceneState {
            locked: self.locked,
            fullscreen: self.fullscreen,
            show_previews: false,
            origin: self.origin,
            windows: self.windows,
            bordered: self.bordered,
            border_width: self.border_width,
            animated: Vec::new(),
            hidden: hidden_windows(live, rules),
            blurred: Vec::new(),
        }
    }

    /// What is behind the windows whose background is blurred: everything but
    /// these windows.
    pub fn behind_blurred(self) -> (s: SceneState)
        ensures
            s.locked == self.locked,
            s.fullscreen == self.fullscreen,
            !s.show_previews,
            s.origin == self.origin,
            s.windows == self.windows,
            s.bordered == self.bordered,
            s.border_width == self.border_width,
            s.animated == self.animated,
            s.hidden == self.blurred,
            s.blurred@.len() == 0,
    {
        SceneState {
            locked: self.locked,
            fullscreen: self.fullscreen,
            show_previews: false,
            origin: self.origin,
            windows: self.windows,
            bordered: self.bordered,
            border_width: self.border_width,
            animated: self.animated,
            hidden: self.blurred,
            blurred: Vec::new(),
        }
    }
}

/// A window that the rules hide from captures is not drawn in a capture. The
/// `i`th item of the scene that `captured` makes is neither the window nor its
/// border.
pub proof fn captures_leave_out_ruled_windows(
    state: SceneState,
    live: Seq<WindowFacts>,
    rules: Seq<WindowRule>,
    k: int,
    i: int,
)
    requires
        state.hidden@ == captured_without(live, rules, live.len() as int),
        0 <= k < live.len(),
        rule::rule_hides(rules, text::text_view(live[k].app_id)),
        0 <= i < scene_items(state).len(),
    ensures
        !is_of(scene_items(state)[i], live[k].id),
        !(scene_items(state)[i] is Stacked),
{
    lemma_ruled_is_hidden(live, rules, k, live.len() as int);
    let h = choose|h: int| 0 <= h < state.hidden@.len() && state.hidden@[h] == live[k].id;
    assert(state.hidden@[h] == live[k].id);
    hidden_windows_are_not_drawn(state, live[k].id, i);
}

proof fn lemma_ruled_is_hidden(live: Seq<WindowFacts>, rules: Seq<WindowRule>, k: int, n: int)
    requires
        0 <= k < n <= live.len(),
        rule::rule_hides(rules, text::text_view(live[k].app_id)),
    ensures
        captured_without(live, rules, n).contains(live[k].id),
    decreases n,
{
    let all = captured_without(live, rules, n);
    let before = captured_without(live, rules, n - 1);
    if k < n - 1 {
        lemma_ruled_is_hidden(live, rules, k, n - 1);
        let h = choose|h: int| 0 <= h < before.len() && before[h] == live[k].id;
        assert(all[h] == live[k].id);
    } else {
        assert(all.last() == live[k].id);
    }
}

/// Ids of the first `n` windows whose background is blurred by rule.
pub open spec fn blurred_of(live: Seq<WindowFacts>, entries: Seq<RuleEntry>, n: int) -> Seq<u64>
    decreases n,
{
    if n <= 0 {
        Seq::empty()
    } else {
        let before = blurred_of(live, entries, n - 1);
        if rule::entry_blurs(entries, text::text_view(live[n - 1].app_id)) {
            before.push(live[n - 1].id)
        } else {
            before
        }
    }
}

/// The windows of an output whose background is blurred by rule; none while a
/// window fills the output.
pub fn blur_windows_for_output(
    live: &[WindowFacts],
    entries: &[RuleEntry],
    fullscreen: bool,
) -> (r: Vec<u64>)
    ensures
        r@ == (if fullscreen {
            Seq::<u64>::empty()
        } else {
            blurred_of(live@, entries@, live@.len() as int)
        }),
{
    let mut r: Vec<u64> = Vec::new();
    if fullscreen {
        return r;
    }
    let mut i: usize = 0;
    while i < live.len()
        invariant
            i <= live@.len(),
            r@ == blurred_of(live@, entries@, i as int),
        decreases live@.len() - i,
    {
        if rule::blurred_by_rule(live[i].app_id_str(), entries) {
            r.push(live[i].id);
        }
        i = i + 1;
    }
    r
}

/// Space around a preview.
pub const PREVIEW_PADDING: i32 = 10;

/// Most previews in a row.
pub const PREVIEWS_PER_ROW: usize = 4;

/// Number of previews in a row, and number of rows.
pub open spec fn preview_grid(count: nat) -> (nat, nat) {
    let per_row: nat = if count < 4 {
        count
    } else {
        4
    };
    (per_row, (count + per_row - 1) as nat / per_row)
}

/// Number of previews in a row, and number of rows, for that many windows.
pub fn grid_for(count: usize) -> (r: (usize, usize))
    requires
        count > 0,
    ensures
        r.0 as nat == preview_grid(count as nat).0,
        r.1 as nat == preview_grid(count as nat).1,
        r.0 > 0,
{
    let per_row: usize = if count < PREVIEWS_PER_ROW { count } else { PREVIEWS_PER_ROW };
    let full: usize = count / per_row;
    let rows: usize = if count % per_row == 0 { full } else { full + 1 };
    proof {
        let c = count as int;
        let p = per_row as int;
        vstd::arithmetic::div_mod::lemma_fundamental_div_mod(c, p);
        let q = c / p;
        let m = c % p;
        if m == 0 {
            assert(c + p - 1 == p * q + (p - 1));
            vstd::arithmetic::div_mod::lemma_fundamental_div_mod_converse(c + p - 1, p, q, p - 1);
        } else {
            assert(p * (q + 1) == p * q + p) by (nonlinear_arith);
            vstd::arithmetic::div_mod::lemma_fundamental_div_mod_converse(
                c + p - 1,
                p,
                q + 1,
                m - 1,
            );
        }
    }
    (per_row, rows)
}

/// Place of the preview at `index` in a grid.
pub open spec fn preview_place(index: int, per_row: int, size: Size) -> Rect {
    Rect {
        x: (PREVIEW_PADDING + (PREVIEW_PADDING + size.w) * (index % per_row)) as i32,
        y: (PREVIEW_PADDING + (PREVIEW_PADDING + size.h) * (index / per_row)) as i32,
        w: size.w,
        h: size.h,
    }
}

/// Placing a preview stays within `i32`.
pub open spec fn can_preview(index: int, per_row: int, size: Size) -> bool {
    &&& per_row > 0
    &&& geometry::fits_i32(index % per_row)
    &&& geometry::fits_i32(index / per_row)
    &&& geometry::fits_i32(PREVIEW_PADDING + size.w)
    &&& geometry::fits_i32(PREVIEW_PADDING + size.h)
    &&& geometry::fits_i32((PREVIEW_PADDING + size.w) * (index % per_row))
    &&& geometry::fits_i32((PREVIEW_PADDING + size.h) * (index / per_row))
    &&& geometry::fits_i32(PREVIEW_PADDING + (PREVIEW_PADDING + size.w) * (index % per_row))
    &&& geometry::fits_i32(PREVIEW_PADDING + (PREVIEW_PADDING + size.h) * (index / per_row))
}

/// Place of the preview at `index` in a grid with previews of the given size.
pub fn preview_cell(index: usize, per_row: usize, size: Size) -> (r: Rect)
    requires
        can_preview(index as int, per_row as int, size),
    ensures
        r == preview_place(index as int, per_row as int, size),
{
    let column: i32 = (index % per_row) as i32;
    let row: i32 = (index / per_row) as i32;
    Rect {
        x: PREVIEW_PADDING + (PREVIEW_PADDING + size.w) * column,
        y: PREVIEW_PADDING + (PREVIEW_PADDING + size.h) * row,
        w: size.w,
        h: size.h,
    }
}

/// Places of the previews of all windows, in a grid with previews of the given
/// size.
pub fn space_preview_elements(count: usize, size: Size) -> (cells: Vec<Rect>)
    requires
        forall|i: int|
            0 <= i < count ==> #[trigger] can_preview(
                i,
                preview_grid(count as nat).0 as int,
                size,
            ),
    ensures
        cells@.len() == count,
        forall|i: int|
            0 <= i < count ==> #[trigger] cells@[i] == preview_place(
                i,
                preview_grid(count as nat).0 as int,
                size,
            ),
{
    let mut cells: Vec<Rect> = Vec::new();
    if count == 0 {
        return cells;
    }
    let (per_row, _rows) = grid_for(count);
    let mut i: usize = 0;
    while i < count
        invariant
            i <= count,
            cells@.len() == i,
            per_row as nat == preview_grid(count as nat).0,
            forall|k: int|
                0 <= k < count ==> #[trigger] can_preview(
                    k,
                    preview_grid(count as nat).0 as int,
                    size,
                ),
            forall|k: int|
                0 <= k < i ==> #[trigger] cells@[k] == preview_place(
                    k,
                    preview_grid(count as nat).0 as int,
                    size,
                ),
        decreases count - i,
    {
        assert(can_preview(i as int, per_row as int, size));
        cells.push(preview_cell(i, per_row, size));
        i = i + 1;
    }
    cells
}

/// A window is drawn at its own place unless it is animated or not mapped: where
/// it is mapped, less the corner of its content and the corner of the output.
/// Its border, if it has one, is in front of it, and its blurred background, if
/// it has one, behind it. A hidden window has none of these.
pub proof fn window_is_drawn_between_its_border_and_background(state: SceneState, w: SceneWindow)
    ensures
        ({
            let items = window_items(state, w);
            let seen = !state.hidden@.contains(w.id);
            let bordered = seen && state.border_width > 0 && state.bordered@.contains(w.id);
            let animated = seen && state.animated@.contains(w.id);
            let still = seen && !state.animated@.contains(w.id) && w.location is Some;
            let blurred = seen && state.blurred@.contains(w.id);
            &&& items.contains(SceneItem::Border { window: w.id }) <==> bordered
            &&& items.contains(SceneItem::Animated { window: w.id }) <==> animated
            &&& items.contains(SceneItem::Blur { window: w.id }) <==> blurred
            &&& bordered ==> items[0] == (SceneItem::Border { window: w.id })
            &&& blurred ==> items.last() == (SceneItem::Blur { window: w.id })
            &&& still && can_place(w, state.origin) ==> exists|i: int|
                {
                    &&& 0 <= i < items.len()
                    &&& (#[trigger] items[i]) matches SceneItem::Window { window, at } && window
                        == w.id && at.x + w.content.x + state.origin.x == w.location->0.x && at.y
                        + w.content.y + state.origin.y == w.location->0.y
                }
            &&& !still ==> forall|i: int| 0 <= i < items.len() ==> !(#[trigger] items[i] is Window)
            &&& forall|i: int| 0 <= i < items.len() ==> is_of(#[trigger] items[i], w.id)
        }),
{
    let items = window_items(state, w);
    let border = SceneItem::Border { window: w.id };
    let moving = SceneItem::Animated { window: w.id };
    let behind = SceneItem::Blur { window: w.id };
    if !state.hidden@.contains(w.id) {
        let first = if state.border_width > 0 && state.bordered@.contains(w.id) {
            1int
        } else {
            0int
        };
        if first == 1 {
            assert(items[0] == border);
        }
        if state.animated@.contains(w.id) {
            assert(items[first] == moving);
        } else if w.location is Some {
            assert(items[first] is Window);
        }
        if state.blurred@.contains(w.id) {
            assert(items[items.len() - 1] == behind);
        }
        if items.contains(border) {
            let k = choose|k: int| 0 <= k < items.len() && items[k] == border;
        }
        if items.contains(moving) {
            let k = choose|k: int| 0 <= k < items.len() && items[k] == moving;
        }
        if items.contains(behind) {
            let k = choose|k: int| 0 <= k < items.len() && items[k] == behind;
        }
    }
}

proof fn lemma_block_of(state: SceneState, n: int, p: int)
    requires
        0 <= n <= state.windows@.len(),
        0 <= p < top_windows(state, n).len(),
    ensures
        exists|k: int|
            state.windows@.len() - n <= k < state.windows@.len() && is_of(
                top_windows(state, n)[p],
                (#[trigger] state.windows@[k]).id,
            ),
    decreases n,
{
    let before = top_windows(state, n - 1);
    let at = state.windows@.len() - n;
    let own = window_items(state, state.windows@[at]);
    assert(top_windows(state, n) == before + own);
    if p < before.len() {
        lemma_block_of(state, n - 1, p);
        assert(top_windows(state, n)[p] == before[p]);
    } else {
        window_is_drawn_between_its_border_and_background(state, state.windows@[at]);
        assert(top_windows(state, n)[p] == own[p - before.len()]);
    }
}

/// A window that is higher in the stack is drawn in front of every lower one,
/// with its border and its background.
pub proof fn higher_windows_are_drawn_in_front(
    state: SceneState,
    n: int,
    low: int,
    high: int,
    p: int,
    q: int,
)
    requires
        0 <= n <= state.windows@.len(),
        forall|i: int, j: int|
            0 <= i < j < state.windows@.len() ==> (#[trigger] state.windows@[i]).id != (
            #[trigger] state.windows@[j]).id,
        0 <= low < high < state.windows@.len(),
        0 <= p < top_windows(state, n).len(),
        0 <= q < top_windows(state, n).len(),
        is_of(top_windows(state, n)[p], state.windows@[high].id),
        is_of(top_windows(state, n)[q], state.windows@[low].id),
    ensures
        p < q,
    decreases n,
{
    let len = state.windows@.len() as int;
    let before = top_windows(state, n - 1);
    let at = len - n;
    let own = window_items(state, state.windows@[at]);
    let all = top_windows(state, n);
    assert(all == before + own);
    window_is_drawn_between_its_border_and_background(state, state.windows@[at]);
    if q < before.len() {
        lemma_block_of(state, n - 1, q);
        assert(all[q] == before[q]);
        if p < before.len() {
            assert(all[p] == before[p]);
            higher_windows_are_drawn_in_front(state, n - 1, low, high, p, q);
        } else {
            assert(all[p] == own[p - before.len()]);
            assert(is_of(own[p - before.len()], state.windows@[at].id));
            assert(at == high);
            let k = choose|k: int|
                len - (n - 1) <= k < len && is_of(before[q], (#[trigger] state.windows@[k]).id);
            assert(k == low);
        }
    } else {
        assert(all[q] == own[q - before.len()]);
        assert(is_of(own[q - before.len()], state.windows@[at].id));
        assert(at == low);
        if p >= before.len() {
            assert(all[p] == own[p - before.len()]);
            assert(is_of(own[p - before.len()], state.windows@[at].id));
        }
    }
}

/// Everything of every window is drawn when windows are drawn one by one.
pub proof fn no_window_is_left_out(state: SceneState, n: int, k: int, item: SceneItem)
    requires
        0 <= n <= state.windows@.len(),
        state.windows@.len() - n <= k < state.windows@.len(),
        window_items(state, state.windows@[k]).contains(item),
    ensures
        top_windows(state, n).contains(item),
    decreases n,
{
    let before = top_windows(state, n - 1);
    let at = state.windows@.len() - n;
    let own = window_items(state, state.windows@[at]);
    let all = top_windows(state, n);
    assert(all == before + own);
    if k == at {
        let i = choose|i: int| 0 <= i < own.len() && own[i] == item;
        assert(all[before.len() + i] == item);
    } else {
        no_window_is_left_out(state, n - 1, k, item);
        let i = choose|i: int| 0 <= i < before.len() && before[i] == item;
        assert(all[i] == item);
    }
}

/// The cursor is in front of everything. Over a fullscreen window there is
/// nothing else, and behind it nothing at all; previews are in front of all
/// windows and layers, and only there when they were asked for.
pub proof fn overlays_come_first(state: SceneState)
    ensures
        scene_items(state)[0] == SceneItem::Custom,
        !state.locked && state.fullscreen is Some && !state.hidden@.contains(state.fullscreen->0)
            ==> scene_items(state).len() == 2 && scene_items(state)[1] == (SceneItem::Fullscreen {
            window: state.fullscreen->0,
        }) && scene_backdrop(state) == Backdrop::Fullscreen,
        !state.locked && state.fullscreen is None ==> {
            &&& scene_backdrop(state) == Backdrop::Desktop
            &&& scene_items(state)[1] == SceneItem::Previews <==> state.show_previews
                && state.windows@.len() > 0
            &&& !one_by_one(state) ==> scene_items(state).last() == SceneItem::Stacked
        },
{
}

/// The bar is shown on the screen alone, and not while the session is locked.
/// The cursor is in front of it, always on the screen and in a capture that asks
/// for it. Nothing goes over what is blurred.
pub proof fn bar_is_on_the_unlocked_screen_alone(purpose: Purpose, locked: bool)
    ensures
        ({
            let over = overlays_for(purpose, locked);
            &&& over.contains(Overlay::Bar) <==> purpose == Purpose::Screen && !locked
            &&& over.contains(Overlay::Cursor) <==> purpose == Purpose::Screen || purpose == (
            Purpose::Capture { paint_cursor: true })
            &&& over.contains(Overlay::Bar) ==> over.len() == 2 && over[0] == Overlay::Cursor
            &&& !over.contains(Overlay::Bar) ==> over.len() <= 1
        }),
{
    let over = overlays_for(purpose, locked);
    if purpose == Purpose::Screen {
        assert(over[0] == Overlay::Cursor);
        if !locked {
            assert(over[1] == Overlay::Bar);
        }
    }
    if let Purpose::Capture { paint_cursor } = purpose {
        if paint_cursor {
            assert(over[0] == Overlay::Cursor);
        }
    }
}

/// A window is left out of captures if and only if the rules hide it.
pub proof fn captures_leave_out_nothing_else(
    live: Seq<WindowFacts>,
    rules: Seq<WindowRule>,
    n: int,
    id: u64,
)
    requires
        0 <= n <= live.len(),
    ensures
        captured_without(live, rules, n).contains(id) <==> exists|i: int|
            0 <= i < n && (#[trigger] live[i]).id == id && rule::rule_hides(
                rules,
                text::text_view(live[i].app_id),
            ),
    decreases n,
{
    if n > 0 {
        captures_leave_out_nothing_else(live, rules, n - 1, id);
        let before = captured_without(live, rules, n - 1);
        let all = captured_without(live, rules, n);
        if all.contains(id) {
            let k = choose|k: int| 0 <= k < all.len() && all[k] == id;
            if k < before.len() {
                assert(before[k] == id);
            } else {
                assert(live[n - 1].id == id);
            }
        }
        if before.contains(id) {
            let k = choose|k: int| 0 <= k < before.len() && before[k] == id;
            assert(all[k] == id);
        }
        if rule::rule_hides(rules, text::text_view(live[n - 1].app_id)) {
            assert(all[all.len() - 1] == live[n - 1].id);
        }
    }
}

/// The background of a window is blurred if and only if a rule says so.
pub proof fn windows_are_blurred_by_rule(
    live: Seq<WindowFacts>,
    entries: Seq<RuleEntry>,
    n: int,
    id: u64,
)
    requires
        0 <= n <= live.len(),
    ensures
        blurred_of(live, entries, n).contains(id) <==> exists|i: int|
            0 <= i < n && (#[trigger] live[i]).id == id && rule::entry_blurs(
                entries,
                text::text_view(live[i].app_id),
            ),
    decreases n,
{
    if n > 0 {
        windows_are_blurred_by_rule(live, entries, n - 1, id);
        let before = blurred_of(live, entries, n - 1);
        let all = blurred_of(live, entries, n);
        if all.contains(id) {
            let k = choose|k: int| 0 <= k < all.len() && all[k] == id;
            if k < before.len() {
                assert(before[k] == id);
            } else {
                assert(live[n - 1].id == id);
            }
        }
        if before.contains(id) {
            let k = choose|k: int| 0 <= k < before.len() && before[k] == id;
            assert(all[k] == id);
        }
        if rule::entry_blurs(entries, text::text_view(live[n - 1].app_id)) {
            assert(all[all.len() - 1] == live[n - 1].id);
        }
    }
}

/// There are at most four previews in a row, no row is empty, and no row but the
/// last has room left.
pub proof fn preview_grid_is_filled_row_by_row(count: nat)
    requires
        count > 0,
    ensures
        ({
            let (per_row, rows) = preview_grid(count);
            &&& 1 <= per_row <= 4
            &&& per_row <= count
            &&& count >= 4 ==> per_row == 4
            &&& count <= 4 ==> rows == 1
            &&& per_row * (rows - 1) < count <= per_row * rows
        }),
{
    let (per_row, rows) = preview_grid(count);
    vstd::arithmetic::div_mod::lemma_fundamental_div_mod(
        (count + per_row - 1) as int,
        per_row as int,
    );
    assert(per_row * (rows - 1) == per_row * rows - per_row) by (nonlinear_arith);
    if count < 4 {
        assert((count + count - 1) as nat / count == 1) by {
            vstd::arithmetic::div_mod::lemma_fundamental_div_mod_converse(
                (count + count - 1) as int,
                count as int,
                1,
                count - 1,
            );
        }
    }
}

/// Previews stand from left to right and then from top to bottom, each a padding
/// away from its neighbours, the first one a padding away from the corner. All
/// have the same size.
pub proof fn previews_stand_in_rows(index: int, per_row: int, size: Size)
    requires
        index >= 0,
        can_preview(index, per_row, size),
        can_preview(index + 1, per_row, size),
    ensures
        ({
            let here = preview_place(index, per_row, size);
            let next = preview_place(index + 1, per_row, size);
            let first = preview_place(0, per_row, size);
            &&& first.x == PREVIEW_PADDING
            &&& first.y == PREVIEW_PADDING
            &&& here.w == size.w
            &&& here.h == size.h
            &&& (index + 1) % per_row != 0 ==> next.y == here.y && next.x == here.x + here.w
                + PREVIEW_PADDING
            &&& (index + 1) % per_row == 0 ==> next.x == PREVIEW_PADDING && next.y == here.y
                + here.h + PREVIEW_PADDING
        }),
{
    let q = index / per_row;
    let m = index % per_row;
    let w = PREVIEW_PADDING + size.w;
    let h = PREVIEW_PADDING + size.h;
    vstd::arithmetic::div_mod::lemma_fundamental_div_mod(index, per_row);
    vstd::arithmetic::div_mod::lemma_small_mod(0, per_row as nat);
    vstd::arithmetic::div_mod::lemma_basic_div(0, per_row);
    assert(w * 0 == 0);
    assert(h * 0 == 0);
    assert(w * (m + 1) == w * m + w) by (nonlinear_arith);
    assert(h * (q + 1) == h * q + h) by (nonlinear_arith);
    if m + 1 < per_row {
        vstd::arithmetic::div_mod::lemma_fundamental_div_mod_converse(index + 1, per_row, q, m + 1);
    } else {
        assert(per_row * (q + 1) == per_row * q + per_row) by (nonlinear_arith);
        vstd::arithmetic::div_mod::lemma_fundamental_div_mod_converse(index + 1, per_row, q + 1, 0);
    }
}

} // verus!
