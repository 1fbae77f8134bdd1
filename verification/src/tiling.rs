//! The tiling order of one workspace and its placement on an output.

use crate::geometry::{Point, Rect};
use crate::layout;
use crate::params::{Gaps, LayoutParams};
use crate::rule;
use crate::rule::WindowRule;
use crate::text;
use crate::windows;
use vstd::math::max;
use vstd::prelude::*;

verus! {

/// Height of the header bar of a window that the compositor decorates.
pub const HEADER_BAR_HEIGHT: i32 = 11;

/// What tiling needs to know of a window that is alive.
#[derive(Debug, Clone)]
pub struct WindowFacts {
    pub id: u64,
    /// Application id; absent until the client has set one.
    pub app_id: Option<String>,
    /// The compositor draws a header bar above the window's content.
    pub decorated: bool,
    /// Where the window is mapped, if it is.
    pub location: Option<Point>,
    /// The window was a scratchpad window once and floats for good.
    pub force_floating: bool,
}

/// A window's place in the layout.
#[derive(Debug, Clone, Copy, PartialEq, Eq, Structural)]
pub struct Placement {
    pub window: u64,
    pub x: i32,
    pub y: i32,
    /// Size that the window's content is asked to take.
    pub w: i32,
    pub h: i32,
    /// The window is not mapped at that place yet.
    pub moved: bool,
}

/// Identities of the windows that are described.
pub open spec fn ids(live: Seq<WindowFacts>) -> Seq<u64> {
    Seq::new(live.len(), |i: int| live[i].id)
}

/// The first description of a window.
pub open spec fn facts_of(live: Seq<WindowFacts>, window: u64) -> Option<WindowFacts> {
    match windows::position(ids(live), window) {
        Some(i) => Some(live[i]),
        None => None,
    }
}

/// Whether an application id is one of those waited for.
pub open spec fn awaited(pending: Seq<String>, app_id: Option<Seq<char>>) -> bool {
    exists|i: int| 0 <= i < pending.len() && app_id == Some((#[trigger] pending[i])@)
}

/// Whether a window stays out of the layout: for good, because a scratchpad
/// waits for its application, or by rule.
pub open spec fn floats(facts: WindowFacts, rules: Seq<WindowRule>, pending: Seq<String>) -> bool {
    let app_id = text::text_view(facts.app_id);
    facts.force_floating || awaited(pending, app_id) || rule::rule_floats(rules, app_id)
}

/// The predicate "is alive and takes part in the layout".
pub open spec fn takes_slot(
    live: Seq<WindowFacts>,
    rules: Seq<WindowRule>,
    pending: Seq<String>,
) -> spec_fn(u64) -> bool {
    |w: u64| facts_of(live, w) matches Some(facts) && !floats(facts, rules, pending)
}

/// The windows of `order` that the layout places.
pub open spec fn tiled(
    order: Seq<u64>,
    live: Seq<WindowFacts>,
    rules: Seq<WindowRule>,
    pending: Seq<String>,
) -> Seq<u64> {
    order.filter(takes_slot(live, rules, pending))
}

/// The place of a window in its slot. A decorated window's content is shorter
/// than the slot by the header bar, and no side is ever below one.
pub open spec fn placement(facts: WindowFacts, slot: Rect) -> Placement {
    let header = if facts.decorated {
        HEADER_BAR_HEIGHT as int
    } else {
        0
    };
    Placement {
        window: facts.id,
        x: slot.x,
        y: slot.y,
        w: max(slot.w as int, 1) as i32,
        h: max(slot.h - header, 1) as i32,
        moved: facts.location != Some(Point { x: slot.x, y: slot.y }),
    }
}

/// Places of the tiled windows `slots`, in order.
pub open spec fn placements(slots: Seq<u64>, live: Seq<WindowFacts>, rects: Seq<Rect>) -> Seq<
    Placement,
> {
    Seq::new(slots.len(), |i: int| placement(facts_of(live, slots[i])->0, rects[i]))
}

/// Identities of the described windows.
pub fn live_ids(live: &[WindowFacts]) -> (r: Vec<u64>)
    ensures
        r@ == ids(live@),
{
    let mut r: Vec<u64> = Vec::new();
    let mut i: usize = 0;
    while i < live.len()
        invariant
            i <= live@.len(),
            r@ =~= ids(live@.take(i as int)),
        decreases live@.len() - i,
    {
        r.push(live[i].id);
        i = i + 1;
    }
    assert(live@.take(i as int) =~= live@);
    r
}

/// Whether an application id is waited for.
pub fn is_awaited(pending: &[String], app_id: Option<&str>) -> (r: bool)
    ensures
        r == awaited(pending@, text::str_view(app_id)),
{
    let mut i: usize = 0;
    let ghost id = text::str_view(app_id);
    while i < pending.len()
        invariant
            i <= pending@.len(),
            id == text::str_view(app_id),
            forall|k: int| 0 <= k < i ==> id != Some((#[trigger] pending@[k])@),
        decreases pending@.len() - i,
    {
        if let Some(actual) = app_id {
            if text::same_str(pending[i].as_str(), actual) {
                assert(id == Some(pending@[i as int]@));
                return true;
            }
        }
        i = i + 1;
    }
    false
}

impl WindowFacts {
    /// The application id as a string slice.
    pub fn app_id_str(&self) -> (r: Option<&str>)
        ensures
            text::str_view(r) == text::text_view(self.app_id),
    {
        match &self.app_id {
            Some(id) => Some(id.as_str()),
            None => None,
        }
    }
}

/// Whether a window stays out of the layout.
pub fn stays_floating(facts: &WindowFacts, rules: &[WindowRule], pending: &[String]) -> (r: bool)
    ensures
        r == floats(*facts, rules@, pending@),
{
    facts.force_floating || is_awaited(pending, facts.app_id_str()) || rule::matches_floating_rule(
        facts.app_id_str(),
        rules,
    )
}

/// The predicate "is alive and stays out of the layout".
pub open spec fn is_floating(
    live: Seq<WindowFacts>,
    rules: Seq<WindowRule>,
    pending: Seq<String>,
) -> spec_fn(u64) -> bool {
    |w: u64| facts_of(live, w) matches Some(facts) && floats(facts, rules, pending)
}

/// The live windows of a tiling order that stay out of the layout, in order.
/// They are kept in front of the tiled ones.
pub fn floating_windows(
    order: &[u64],
    live: &[WindowFacts],
    rules: &[WindowRule],
    pending: &[String],
) -> (r: Vec<u64>)
    ensures
        r@ == order@.filter(is_floating(live@, rules@, pending@)),
{
    let known: Vec<u64> = live_ids(live);
    let ghost keep = is_floating(live@, rules@, pending@);
    let mut r: Vec<u64> = Vec::new();
    let mut i: usize = 0;
    proof {
        reveal(Seq::filter);
        assert(order@.take(0).filter(keep) =~= Seq::<u64>::empty());
    }
    while i < order.len()
        invariant
            i <= order@.len(),
            known@ == ids(live@),
            keep == is_floating(live@, rules@, pending@),
            r@ == order@.take(i as int).filter(keep),
        decreases order@.len() - i,
    {
        let w: u64 = order[i];
        let ghost next = order@.take(i + 1);
        proof {
            reveal(Seq::filter);
            assert(next.drop_last() =~= order@.take(i as int));
            assert(next.last() == w);
        }
        if let Some(k) = windows::find(known.as_slice(), w) {
            if stays_floating(&live[k], rules, pending) {
                r.push(w);
            }
        }
        i = i + 1;
    }
    assert(order@.take(i as int) =~= order@);
    r
}

/// No window is both tiled and floating.
pub proof fn tiled_windows_do_not_float(
    order: Seq<u64>,
    live: Seq<WindowFacts>,
    rules: Seq<WindowRule>,
    pending: Seq<String>,
    window: u64,
)
    ensures
        !(tiled(order, live, rules, pending).contains(window) && order.filter(
            is_floating(live, rules, pending),
        ).contains(window)),
{
    let slots = tiled(order, live, rules, pending);
    let floating = order.filter(is_floating(live, rules, pending));
    if slots.contains(window) && floating.contains(window) {
        let i = choose|i: int| 0 <= i < slots.len() && slots[i] == window;
        let j = choose|j: int| 0 <= j < floating.len() && floating[j] == window;
        order.lemma_filter_pred(takes_slot(live, rules, pending), i);
        order.lemma_filter_pred(is_floating(live, rules, pending), j);
    }
}

/// Tiling order and layout parameters of a workspace.
#[derive(Debug)]
pub struct TilingLayout {
    pub params: LayoutParams,
    /// The windows, first to last.
    pub order: Vec<u64>,
}

impl Default for TilingLayout {
    fn default() -> (t: TilingLayout)
        ensures
            t.order@ == Seq::<u64>::empty(),
            t.params == LayoutParams::fresh(Gaps { inner: 6, outer: 10 }),
    {
        TilingLayout { params: LayoutParams::default(), order: Vec::new() }
    }
}

/// The order after `window` changed places with its neighbour, around the end
/// of the list if need be.
pub open spec fn swapped(order: Seq<u64>, window: u64, forward: bool) -> Seq<u64> {
    match windows::position(order, window) {
        Some(i) => {
            let j = neighbour(order.len() as int, i, forward);
            order.update(i, order[j]).update(j, window)
        },
        None => order,
    }
}

/// The place after or before `i` in a ring of `n`.
pub open spec fn neighbour(n: int, i: int, forward: bool) -> int {
    if forward {
        if i + 1 < n {
            i + 1
        } else {
            0
        }
    } else if i > 0 {
        i - 1
    } else {
        n - 1
    }
}

impl TilingLayout {
    /// No window is listed twice.
    pub open spec fn wf(self) -> bool {
        self.order@.no_duplicates()
    }

    /// Adds a window at the end, once. Windows that are gone leave the order.
    pub fn push(&mut self, window: u64, alive: &[u64])
        ensures
            final(self).order@ == windows::with_at_end(
                windows::only_alive(old(self).order@, alive@),
                window,
            ),
            final(self).params == old(self).params,
            old(self).wf() ==> final(self).wf(),
    {
        let mut order: Vec<u64> = windows::keep_alive(self.order.as_slice(), alive);
        proof {
            windows::lemma_filter(self.order@, windows::one_of(alive@));
        }
        if !windows::contains(order.as_slice(), window) {
            order.push(window);
        }
        self.order = order;
    }

    /// Takes a window out of the order.
    pub fn remove(&mut self, window: u64)
        ensures
            final(self).order@ == windows::without(old(self).order@, window),
            final(self).params == old(self).params,
            old(self).wf() ==> final(self).wf(),
            !final(self).order@.contains(window),
    {
        proof {
            windows::lemma_filter(self.order@, windows::other_than(window));
        }
        self.order = windows::drop_window(self.order.as_slice(), window);
    }

    /// The windows in tiling order.
    pub fn windows(&self) -> (r: &[u64])
        ensures
            r@ == self.order@,
    {
        self.order.as_slice()
    }

    /// Lets a window change places with the one after it, or the one before
    /// it; the ends of the order are neighbours. A window that is not in the
    /// order changes nothing.
    pub fn swap_window(&mut self, window: u64, forward: bool)
        ensures
            final(self).order@ == swapped(old(self).order@, window, forward),
            final(self).params == old(self).params,
            old(self).wf() ==> final(self).wf(),
    {
        let n: usize = self.order.len();
        if let Some(i) = windows::find(self.order.as_slice(), window) {
            let j: usize = if forward {
                if i + 1 < n {
                    i + 1
                } else {
                    0
                }
            } else if i > 0 {
                i - 1
            } else {
                n - 1
            };
            let other: u64 = self.order[j];
            self.order.set(i, other);
            self.order.set(j, window);
        }
    }

    /// Drops windows that are gone and gives every tiled window its place in
    /// `area`. Without an area, in floating mode, or with nothing to tile, no
    /// window is placed.
    pub fn arrange(
        &mut self,
        live: &[WindowFacts],
        rules: &[WindowRule],
        pending: &[String],
        area: Option<Rect>,
    ) -> (placed: Vec<Placement>)
        requires
            area is Some ==> layout::can_arrange(
                tiled(
                    windows::only_alive(old(self).order@, ids(live@)),
                    live@,
                    rules@,
                    pending@,
                ).len(),
                area->0,
                old(self).params,
            ),
        ensures
            final(self).params == old(self).params,
            final(self).order@ == windows::only_alive(old(self).order@, ids(live@)),
            old(self).wf() ==> final(self).wf(),
            ({
                let slots = tiled(final(self).order@, live@, rules@, pending@);
                let rects = layout::layout_rects(slots.len(), area->0, old(self).params);
                placed@ == (if area is Some && rects is Some {
                    placements(slots, live@, rects->0)
                } else {
                    Seq::<Placement>::empty()
                })
            }),
    {
        let known: Vec<u64> = live_ids(live);
        proof {
            windows::lemma_filter(self.order@, windows::one_of(known@));
        }
        self.order = windows::keep_alive(self.order.as_slice(), known.as_slice());
        let ghost order = self.order@;
        let ghost keep = takes_slot(live@, rules@, pending@);
        let mut slots: Vec<u64> = Vec::new();
        let mut found: Vec<usize> = Vec::new();
        let mut i: usize = 0;
        proof {
            reveal(Seq::filter);
            assert(order.take(0).filter(keep) =~= Seq::<u64>::empty());
        }
        while i < self.order.len()
            invariant
                i <= order.len(),
                self.order@ == order,
                known@ == ids(live@),
                keep == takes_slot(live@, rules@, pending@),
                slots@ == order.take(i as int).filter(keep),
                found@.len() == slots@.len(),
                forall|k: int|
                    0 <= k < found@.len() ==> (#[trigger] found@[k]) < live@.len() && facts_of(
                        live@,
                        slots@[k],
                    ) == Some(live@[found@[k] as int]),
            decreases order.len() - i,
        {
            let w: u64 = self.order[i];
            let ghost next = order.take(i + 1);
            proof {
                reveal(Seq::filter);
                assert(next.drop_last() =~= order.take(i as int));
                assert(next.last() == w);
            }
            if let Some(k) = windows::find(known.as_slice(), w) {
                if !stays_floating(&live[k], rules, pending) {
                    slots.push(w);
                    found.push(k);
                }
            }
            i = i + 1;
        }
        assert(order.take(i as int) =~= order);
        let mut placed: Vec<Placement> = Vec::new();
        let area: Rect = match area {
            Some(area) => area,
            None => return placed,
        };
        let rects: Vec<(u64, Rect)> = match layout::arrange(slots.as_slice(), area, &self.params) {
            Some(rects) => rects,
            None => return placed,
        };
        let ghost wanted = layout::layout_rects(slots@.len(), area, self.params)->0;
        let mut j: usize = 0;
        while j < slots.len()
            invariant
                j <= slots@.len(),
                rects@.len() == slots@.len(),
                found@.len() == slots@.len(),
                forall|k: int| 0 <= k < rects@.len() ==> (#[trigger] rects@[k]).1 == wanted[k],
                forall|k: int|
                    0 <= k < found@.len() ==> (#[trigger] found@[k]) < live@.len() && facts_of(
                        live@,
                        slots@[k],
                    ) == Some(live@[found@[k] as int]),
                placed@.len() == j,
                forall|k: int|
                    0 <= k < j ==> placed@[k] == placement(facts_of(live@, slots@[k])->0, wanted[k]),
            decreases slots@.len() - j,
        {
            let facts: &WindowFacts = &live[found[j]];
            let slot: Rect = rects[j].1;
            assert(facts_of(live@, slots@[j as int]) == Some(live@[found@[j as int] as int]));
            let header: i32 = if facts.decorated { HEADER_BAR_HEIGHT } else { 0 };
            let moved: bool = match facts.location {
                Some(at) => at.x != slot.x || at.y != slot.y,
                None => true,
            };
            placed.push(
                Placement {
                    window: facts.id,
                    x: slot.x,
                    y: slot.y,
                    w: if slot.w > 1 { slot.w } else { 1 },
                    h: if slot.h > header + 1 { slot.h - header } else { 1 },
                    moved,
                },
            );
            j = j + 1;
        }
        assert(placed@ =~= placements(slots@, live@, wanted));
        placed
    }
}

/// Swapping a window one way and then the other restores the order.
pub proof fn swap_there_and_back(order: Seq<u64>, window: u64, forward: bool)
    requires
        order.no_duplicates(),
    ensures
        swapped(swapped(order, window, forward), window, !forward) == order,
{
    if order.contains(window) {
        windows::lemma_position_exists(order, window);
        let i = windows::position(order, window)->0;
        let n = order.len() as int;
        let j = neighbour(n, i, forward);
        let mid = swapped(order, window, forward);
        assert(windows::is_first_at(mid, window, j));
        windows::lemma_position(mid, window, j);
        assert(mid.contains(window)) by {
            assert(mid[j] == window);
        }
        assert(neighbour(n, j, !forward) == i);
        assert(swapped(mid, window, !forward) =~= order);
    }
}

/// Removing a window and adding it again puts it at the end and leaves the
/// others in their order; adding it twice adds it once.
pub proof fn push_is_idempotent(order: Seq<u64>, window: u64)
    ensures
        windows::with_at_end(windows::with_at_end(order, window), window) == windows::with_at_end(
            order,
            window,
        ),
        windows::with_at_end(windows::without(order, window), window) == windows::without(
            order,
            window,
        ).push(window),
{
    windows::lemma_filter(order, windows::other_than(window));
    let once = windows::with_at_end(order, window);
    if !order.contains(window) {
        assert(once[once.len() - 1] == window);
    }
}

/// A step forward goes to the next place of the ring, a step back to the one
/// before; the last place and the first are next to each other.
pub proof fn neighbours_are_one_place_apart(n: int, i: int)
    requires
        0 <= i < n,
    ensures
        neighbour(n, i, true) == (i + 1) % n,
        neighbour(n, i, false) == (i + n - 1) % n,
{
    if i + 1 == n {
        vstd::arithmetic::div_mod::lemma_mod_self_0(n);
    } else {
        vstd::arithmetic::div_mod::lemma_small_mod((i + 1) as nat, n as nat);
    }
    if i == 0 {
        vstd::arithmetic::div_mod::lemma_small_mod((n - 1) as nat, n as nat);
    } else {
        vstd::arithmetic::div_mod::lemma_small_mod((i - 1) as nat, n as nat);
        vstd::arithmetic::div_mod::lemma_mod_add_multiples_vanish(i - 1, n);
    }
}

/// Swapping a window forward exchanges it with the one after it, swapping it
/// back with the one before it, around the ends; every other window keeps its
/// place. A window that is not in the order changes nothing.
pub proof fn swapping_exchanges_two_neighbours(order: Seq<u64>, i: int, k: int, stranger: u64)
    requires
        order.no_duplicates(),
        0 <= i < order.len(),
        0 <= k < order.len(),
        !order.contains(stranger),
    ensures
        ({
            let n = order.len() as int;
            let ahead = swapped(order, order[i], true);
            let back = swapped(order, order[i], false);
            let next = (i + 1) % n;
            let previous = (i + n - 1) % n;
            &&& ahead.len() == n
            &&& back.len() == n
            &&& ahead[next] == order[i]
            &&& ahead[i] == order[next]
            &&& back[previous] == order[i]
            &&& back[i] == order[previous]
            &&& k != i && k != next ==> ahead[k] == order[k]
            &&& k != i && k != previous ==> back[k] == order[k]
        }),
        forall|forward: bool| #[trigger] swapped(order, stranger, forward) == order,
{
    neighbours_are_one_place_apart(order.len() as int, i);
    assert(windows::is_first_at(order, order[i], i));
    windows::lemma_position(order, order[i], i);
}

/// A window is placed in the corner of its slot. Its content has the slot's
/// width, and the slot's height without the header bar, if the compositor draws
/// one; no side is below one pixel. It counts as moved unless it is mapped there
/// already.
pub proof fn content_and_header_fill_the_slot(facts: WindowFacts, slot: Rect)
    requires
        slot.w >= 0,
        slot.h >= 0,
    ensures
        ({
            let placed = placement(facts, slot);
            &&& placed.window == facts.id
            &&& placed.x == slot.x
            &&& placed.y == slot.y
            &&& slot.w >= 1 ==> placed.w == slot.w
            &&& slot.w < 1 ==> placed.w == 1
            &&& !facts.decorated && slot.h >= 1 ==> placed.h == slot.h
            &&& facts.decorated && slot.h > HEADER_BAR_HEIGHT ==> placed.h + HEADER_BAR_HEIGHT
                == slot.h
            &&& facts.decorated && slot.h <= HEADER_BAR_HEIGHT ==> placed.h == 1
            &&& facts.location == Some(Point { x: slot.x, y: slot.y }) <==> !placed.moved
        }),
{
}

/// The tiled windows are placed one each, in the tiling order, each in the slot
/// of its place; windows that float, or are gone, are left out and leave no
/// slot empty.
pub proof fn every_tiled_window_gets_its_slot(
    order: Seq<u64>,
    live: Seq<WindowFacts>,
    rules: Seq<WindowRule>,
    pending: Seq<String>,
    rects: Seq<Rect>,
    i: int,
)
    requires
        0 <= i < tiled(order, live, rules, pending).len(),
    ensures
        ({
            let slots = tiled(order, live, rules, pending);
            let placed = placements(slots, live, rects);
            &&& placed.len() == slots.len()
            &&& placed[i].window == slots[i]
            &&& placed[i].x == rects[i].x
            &&& placed[i].y == rects[i].y
            &&& order.contains(slots[i])
            &&& ids(live).contains(slots[i])
        }),
        forall|w: u64|
            order.contains(w) && ids(live).contains(w) && !floats(
                facts_of(live, w)->0,
                rules,
                pending,
            ) <==> #[trigger] tiled(order, live, rules, pending).contains(w),
{
    let slots = tiled(order, live, rules, pending);
    let keep = takes_slot(live, rules, pending);
    windows::lemma_filter(order, keep);
    assert(slots.contains(slots[i]));
    assert(keep(slots[i]));
    windows::lemma_position_exists(ids(live), slots[i]);
    assert forall|w: u64|
        order.contains(w) && ids(live).contains(w) && !floats(
            facts_of(live, w)->0,
            rules,
            pending,
        ) <==> #[trigger] tiled(order, live, rules, pending).contains(w) by {
        if slots.contains(w) {
            assert(keep(w));
        }
        if order.contains(w) && ids(live).contains(w) && !floats(
            facts_of(live, w)->0,
            rules,
            pending,
        ) {
            assert(keep(w));
        }
    }
}

/// A window stays out of the layout for one of three reasons alone: it is kept
/// out for good, a scratchpad waits for its application, or a rule says so.
pub proof fn windows_float_for_a_reason(
    facts: WindowFacts,
    rules: Seq<WindowRule>,
    pending: Seq<String>,
)
    ensures
        ({
            let app_id = text::text_view(facts.app_id);
            let waited_for = facts.app_id is Some && exists|i: int|
                0 <= i < pending.len() && (#[trigger] pending[i])@ == facts.app_id->0@;
            &&& facts.force_floating ==> floats(facts, rules, pending)
            &&& waited_for ==> floats(facts, rules, pending)
            &&& rule::rule_floats(rules, app_id) ==> floats(facts, rules, pending)
            &&& floats(facts, rules, pending) ==> facts.force_floating || waited_for
                || rule::rule_floats(rules, app_id)
        }),
{
    if facts.app_id is Some && exists|i: int|
        0 <= i < pending.len() && (#[trigger] pending[i])@ == facts.app_id->0@ {
        let i = choose|i: int|
            0 <= i < pending.len() && (#[trigger] pending[i])@ == facts.app_id->0@;
        assert(text::text_view(facts.app_id) == Some(pending[i]@));
    }
    if awaited(pending, text::text_view(facts.app_id)) {
        let i = choose|i: int|
            0 <= i < pending.len() && text::text_view(facts.app_id) == Some(
                (#[trigger] pending[i])@,
            );
        assert(pending[i]@ == facts.app_id->0@);
    }
}

/// A window of the order that is alive is either tiled or floating, and one that
/// is not is neither.
pub proof fn live_windows_are_tiled_or_floating(
    order: Seq<u64>,
    live: Seq<WindowFacts>,
    rules: Seq<WindowRule>,
    pending: Seq<String>,
    window: u64,
)
    ensures
        ({
            let slots = tiled(order, live, rules, pending);
            let floating = order.filter(is_floating(live, rules, pending));
            let known = exists|i: int| 0 <= i < live.len() && (#[trigger] live[i]).id == window;
            &&& order.contains(window) && known ==> slots.contains(window) || floating.contains(
                window,
            )
            &&& !order.contains(window) || !known ==> !slots.contains(window)
                && !floating.contains(window)
            &&& order.no_duplicates() ==> slots.no_duplicates()
        }),
{
    windows::lemma_filter(order, takes_slot(live, rules, pending));
    windows::lemma_filter(order, is_floating(live, rules, pending));
    let known = exists|i: int| 0 <= i < live.len() && (#[trigger] live[i]).id == window;
    if known {
        let i = choose|i: int| 0 <= i < live.len() && (#[trigger] live[i]).id == window;
        assert(ids(live)[i] == window);
        assert(ids(live).contains(window));
    } else if ids(live).contains(window) {
        let i = choose|i: int| 0 <= i < ids(live).len() && ids(live)[i] == window;
        assert(live[i].id == window);
    }
}

/// What is known of a window is its first description.
pub proof fn first_description_counts(live: Seq<WindowFacts>, i: int)
    requires
        0 <= i < live.len(),
        forall|j: int| 0 <= j < i ==> (#[trigger] live[j]).id != live[i].id,
    ensures
        facts_of(live, live[i].id) == Some(live[i]),
{
    let w = live[i].id;
    assert(ids(live)[i] == w);
    assert forall|j: int| 0 <= j < i implies ids(live)[j] != w by {
        assert(live[j].id != w);
    }
    assert(windows::is_first_at(ids(live), w, i));
    windows::lemma_position(ids(live), w, i);
}

} // verus!
