//! The desktop: workspaces, scratchpads and the history of keyboard focus, and
//! what commands do to them.
//!
//! Every operation changes this state and lists the steps that the compositor
//! has to carry out.

use crate::action;
use crate::action::{Action, Focus};
use crate::geometry::Rect;
use crate::layout;
use crate::params::Gaps;
use crate::rule::WindowRule;
use crate::scratchpad::NamedSlot;
use crate::tiling;
use crate::tiling::{Placement, WindowFacts};
use crate::windows;
use crate::workspace::{Workspace, WorkspaceId, WorkspaceSet};
use vstd::prelude::*;

verus! {

/// A switch between two workspaces that is being animated: the windows of both
/// are on the screen.
#[derive(Debug, Clone, Copy, PartialEq, Eq, Structural)]
pub struct WorkspaceSlide {
    pub from_idx: usize,
    pub to_idx: usize,
    /// Start, in milliseconds of the compositor's clock.
    pub start: u64,
    /// Length in milliseconds.
    pub duration: u64,
}

/// State of the desktop.
#[derive(Debug)]
pub struct Desktop {
    pub workspaces: WorkspaceSet,
    /// The window in the anonymous scratchpad.
    pub scratchpad: Option<u64>,
    /// The named scratchpads.
    pub named: Vec<NamedSlot>,
    /// Windows that float for good because they were in a scratchpad.
    pub force_floating: Vec<u64>,
    /// Windows that had the keyboard focus, the latest one last.
    pub focus_history: Vec<u64>,
    pub slide: Option<WorkspaceSlide>,
}

impl Default for Desktop {
    fn default() -> (d: Desktop)
        ensures
            d.wf(),
            d.workspaces.is_initial(Gaps { inner: 6, outer: 10 }),
            d.scratchpad is None,
            d.named@.len() == 0,
            d.force_floating@.len() == 0,
            d.focus_history@.len() == 0,
            d.slide is None,
    {
        Desktop {
            workspaces: WorkspaceSet::default(),
            scratchpad: None,
            named: Vec::new(),
            force_floating: Vec::new(),
            focus_history: Vec::new(),
            slide: None,
        }
    }
}

/// The windows of the first `n` workspaces, but for the one at `skip`.
pub open spec fn windows_but(workspaces: Seq<Workspace>, skip: int, n: int) -> Seq<u64>
    decreases n,
{
    if n <= 0 {
        Seq::empty()
    } else {
        let before = windows_but(workspaces, skip, n - 1);
        if n - 1 == skip {
            before
        } else {
            before + workspaces[n - 1].tiling.order@
        }
    }
}

/// The windows of all workspaces other than `skip`, in order; of all of them
/// when `skip` is no position in the list.
pub fn collect_windows(workspaces: &[Workspace], skip: usize) -> (r: Vec<u64>)
    ensures
        r@ == windows_but(workspaces@, skip as int, workspaces@.len() as int),
{
    let mut r: Vec<u64> = Vec::new();
    let mut i: usize = 0;
    while i < workspaces.len()
        invariant
            i <= workspaces@.len(),
            r@ == windows_but(workspaces@, skip as int, i as int),
        decreases workspaces@.len() - i,
    {
        if i != skip {
            append_ids(&mut r, workspaces[i].tiling.order.as_slice());
        }
        i = i + 1;
    }
    r
}

/// Appends a list to another one.
pub fn append_ids(to: &mut Vec<u64>, more: &[u64])
    ensures
        final(to)@ == old(to)@ + more@,
{
    let mut i: usize = 0;
    assert(to@ =~= old(to)@ + more@.take(0));
    while i < more.len()
        invariant
            i <= more@.len(),
            to@ == old(to)@ + more@.take(i as int),
        decreases more@.len() - i,
    {
        to.push(more[i]);
        i = i + 1;
        assert(to@ =~= old(to)@ + more@.take(i as int));
    }
    assert(more@.take(i as int) =~= more@);
}

/// The focus history after `window` got the focus.
pub open spec fn focused_last(history: Seq<u64>, window: u64) -> Seq<u64> {
    if history.len() > 0 && history.last() == window {
        history
    } else {
        windows::without(history, window).push(window)
    }
}

/// The latest window of `history` that is in `order`.
pub open spec fn latest_in(history: Seq<u64>, order: Seq<u64>) -> Option<u64>
    decreases history.len(),
{
    if history.len() == 0 {
        None
    } else if order.contains(history.last()) {
        Some(history.last())
    } else {
        latest_in(history.drop_last(), order)
    }
}

/// Whether the focus is where it may stay: not on a window, or on a live window
/// of the active workspace.
pub open spec fn focus_ok(focus: Focus, order: Seq<u64>, alive: Seq<u64>) -> bool {
    match focus {
        Focus::Nothing => false,
        Focus::Window(w) => alive.contains(w) && order.contains(w),
        Focus::Other => true,
    }
}

/// The window that gets the focus next in the tiling order.
pub open spec fn next_focus(order: Seq<u64>, focus: Focus, forward: bool) -> Option<u64> {
    if order.len() < 2 {
        None
    } else {
        let at = match focus {
            Focus::Window(w) => windows::position(order, w),
            _ => None,
        };
        match at {
            Some(i) => Some(order[tiling::neighbour(order.len() as int, i, forward)]),
            None => Some(order[0]),
        }
    }
}

impl Desktop {
    /// The active workspace.
    pub open spec fn active(self) -> Workspace {
        self.workspaces.workspaces@[self.workspaces.active as int]
    }

    /// The workspaces are well-formed, no window is twice in the focus history,
    /// and scratchpad names are distinct.
    pub open spec fn wf(self) -> bool {
        &&& self.workspaces.wf()
        &&& self.focus_history@.no_duplicates()
        &&& forall|i: int, j: int|
            0 <= i < j < self.named@.len() ==> (#[trigger] self.named@[i]).name@ != (
            #[trigger] self.named@[j]).name@
    }

    /// Everything but the workspaces and the slide is the same.
    pub open spec fn same_but_workspaces(self, other: Desktop) -> bool {
        &&& self.scratchpad == other.scratchpad
        &&& self.named == other.named
        &&& self.force_floating == other.force_floating
        &&& self.focus_history == other.focus_history
    }

    /// Records that a window got the keyboard focus. Focusing the latest one
    /// again changes nothing.
    pub fn focus_changed(&mut self, target: Focus)
        requires
            old(self).wf(),
        ensures
            final(self).wf(),
            final(self).focus_history@ == (match target {
                Focus::Window(w) => focused_last(old(self).focus_history@, w),
                _ => old(self).focus_history@,
            }),
            final(self).workspaces == old(self).workspaces,
            final(self).scratchpad == old(self).scratchpad,
            final(self).named == old(self).named,
            final(self).force_floating == old(self).force_floating,
            final(self).slide == old(self).slide,
    {
        if let Focus::Window(window) = target {
            let n: usize = self.focus_history.len();
            if n > 0 && self.focus_history[n - 1] == window {
                return;
            }
            proof {
                windows::lemma_filter(self.focus_history@, windows::other_than(window));
            }
            self.focus_history = windows::drop_window(self.focus_history.as_slice(), window);
            self.focus_history.push(window);
        }
    }

    /// Where the focus has to go when it is on nothing, on a window that is
    /// gone, or on one outside the active workspace: to the window of the
    /// active workspace that had it last. Windows that are gone leave the
    /// history.
    pub fn refocus_if_dangling(&mut self, focus: Focus, alive: &[u64]) -> (target: Option<u64>)
        requires
            old(self).wf(),
        ensures
            final(self).wf(),
            ({
                let ok = focus_ok(focus, old(self).active().tiling.order@, alive@);
                let kept = windows::only_alive(old(self).focus_history@, alive@);
                &&& target == (if ok {
                    None
                } else {
                    latest_in(kept, old(self).active().tiling.order@)
                })
                &&& final(self).focus_history@ == (if ok {
                    old(self).focus_history@
                } else {
                    kept
                })
            }),
            final(self).workspaces == old(self).workspaces,
            final(self).scratchpad == old(self).scratchpad,
            final(self).named == old(self).named,
            final(self).force_floating == old(self).force_floating,
            final(self).slide == old(self).slide,
    {
        let order: &[u64] = self.workspaces.active().tiling.windows();
        match focus {
            Focus::Other => return None,
            Focus::Window(w) => if windows::contains(alive, w) && windows::contains(order, w) {
                return None;
            },
            Focus::Nothing => {},
        }
        proof {
            windows::lemma_filter(self.focus_history@, windows::one_of(alive@));
        }
        let kept: Vec<u64> = windows::keep_alive(self.focus_history.as_slice(), alive);
        let target: Option<u64> = find_latest(kept.as_slice(), order);
        self.focus_history = kept;
        target
    }

    /// Lays out the active workspace and looks after the focus; without an
    /// output nothing happens. Returns the places of the tiled windows and the
    /// window that the focus has to go to, if any. `pending` are the
    /// application ids that scratchpads wait for.
    pub fn arrange_tiling(
        &mut self,
        live: &[WindowFacts],
        rules: &[WindowRule],
        pending: &[String],
        output: bool,
        area: Option<Rect>,
        focus: Focus,
    ) -> (r: (Vec<Placement>, Option<u64>))
        requires
            old(self).wf(),
            output && area is Some ==> layout::can_arrange(
                tiling::tiled(
                    windows::only_alive(old(self).active().tiling.order@, tiling::ids(live@)),
                    live@,
                    rules@,
                    pending@,
                ).len(),
                area->0,
                old(self).active().tiling.params,
            ),
        ensures
            final(self).wf(),
            !output ==> *final(self) == *old(self) && r.0@.len() == 0 && r.1 is None,
            output ==> {
                let alive = tiling::ids(live@);
                let order = windows::only_alive(old(self).active().tiling.order@, alive);
                let params = old(self).active().tiling.params;
                let slots = tiling::tiled(order, live@, rules@, pending@);
                let rects = layout::layout_rects(slots.len(), area->0, params);
                let ok = focus_ok(focus, order, alive);
                let kept = windows::only_alive(old(self).focus_history@, alive);
                &&& only_active_order_changed(*old(self), *final(self))
                &&& final(self).active().tiling.order@ == order
                &&& r.0@ == (if area is Some && rects is Some {
                    tiling::placements(slots, live@, rects->0)
                } else {
                    Seq::<Placement>::empty()
                })
                &&& r.1 == (if ok {
                    None
                } else {
                    latest_in(kept, order)
                })
                &&& final(self).focus_history@ == (if ok {
                    old(self).focus_history@
                } else {
                    kept
                })
            },
            final(self).scratchpad == old(self).scratchpad,
            final(self).named == old(self).named,
            final(self).force_floating == old(self).force_floating,
            final(self).slide == old(self).slide,
    {
        if !output {
            return (Vec::new(), None);
        }
        let current: usize = self.workspaces.active_index();
        let ghost before = self.workspaces;
        let placed: Vec<Placement> = self.workspaces.workspaces[current].tiling.arrange(
            live,
            rules,
            pending,
            area,
        );
        proof {
            lemma_one_changed(before, self.workspaces, current as int);
        }
        let alive: Vec<u64> = tiling::live_ids(live);
        let target: Option<u64> = self.refocus_if_dangling(focus, alive.as_slice());
        (placed, target)
    }

    /// Makes another workspace the active one. The windows of the others leave
    /// the screen, at once or, with a slide, when the slide is over.
    pub fn switch_workspace(&mut self, idx: usize, now: u64, slide: Option<u64>) -> (actions: Vec<
        Action,
    >)
        requires
            old(self).wf(),
            old(self).workspaces.can_grow(idx + 1),
        ensures
            final(self).wf(),
            switched(*old(self), *final(self), idx, now, slide, actions@),
    {
        let from: usize = self.workspaces.active_index();
        let mut actions: Vec<Action> = Vec::new();
        if !self.workspaces.switch_to(idx) {
            return actions;
        }
        match slide {
            None => {
                let leaving: Vec<u64> = collect_windows(self.workspaces.iter(), idx);
                action::push_unmaps(&mut actions, leaving.as_slice());
                self.slide = None;
            },
            Some(duration) => {
                if let Some(running) = self.slide {
                    if let Some(ws) = self.workspaces.get(running.from_idx) {
                        action::push_unmaps(&mut actions, ws.tiling.windows());
                    }
                }
                self.slide = Some(
                    WorkspaceSlide { from_idx: from, to_idx: idx, start: now, duration },
                );
            },
        }
        actions.push(Action::Arrange);
        actions.push(Action::SyncWorkspaces);
        assert(actions@ =~= action::unmap_all(
            match slide {
                None => windows_but(
                    self.workspaces.workspaces@,
                    idx as int,
                    self.workspaces.workspaces@.len() as int,
                ),
                Some(_) => outgoing(self.workspaces.workspaces@, old(self).slide),
            },
        ) + seq![Action::Arrange, Action::SyncWorkspaces]);
        actions
    }

    /// Ends a slide that has run for its whole length: the windows of the
    /// workspace that it left go off the screen, unless that workspace is the
    /// active one again.
    pub fn finalize_workspace_slide(&mut self, now: u64) -> (actions: Vec<Action>)
        requires
            old(self).wf(),
        ensures
            final(self).wf(),
            finalized(*old(self), *final(self), now, actions@),
    {
        let mut actions: Vec<Action> = Vec::new();
        if let Some(slide) = self.slide {
            if now >= slide.start && now - slide.start >= slide.duration {
                self.slide = None;
                if slide.from_idx != self.workspaces.active_index() {
                    if let Some(ws) = self.workspaces.get(slide.from_idx) {
                        action::push_unmaps(&mut actions, ws.tiling.windows());
                        assert(actions@ =~= action::unmap_all(ws.tiling.order@));
                    } else {
                        assert(actions@ =~= action::unmap_all(Seq::<u64>::empty()));
                    }
                }
            }
        }
        actions
    }

    /// Moves a window of the active workspace to another one; the view stays
    /// where it is. Moving to the active workspace does nothing.
    pub fn move_window_to_workspace(&mut self, window: u64, idx: usize, alive: &[u64]) -> (actions:
        Vec<Action>)
        requires
            old(self).wf(),
            old(self).workspaces.can_grow(idx + 1),
        ensures
            final(self).wf(),
            old(self).same_but_workspaces(*final(self)),
            final(self).slide == old(self).slide,
            old(self).workspaces.active == idx ==> *final(self) == *old(self) && actions@.len() == 0,
            old(self).workspaces.active != idx ==> {
                &&& actions@ == seq![
                    Action::Unmap { window },
                    Action::Arrange,
                    Action::SyncWorkspaces,
                ]
                &&& moved_window(*old(self), *final(self), window, idx as int, alive@)
            },
    {
        let mut actions: Vec<Action> = Vec::new();
        let current: usize = self.workspaces.active_index();
        if current == idx {
            return actions;
        }
        let ghost start = *self;
        self.workspaces.workspaces[current].tiling.remove(window);
        let ghost taken = *self;
        assert(taken.workspaces.wf());
        self.workspaces.ensure(idx);
        let ghost grown = *self;
        self.workspaces.workspaces[idx].tiling.push(window, alive);
        proof {
            let now = self.workspaces.workspaces@;
            assert forall|i: int| 0 <= i < now.len() implies (#[trigger] now[i]).id.0
                < self.workspaces.next_id && now[i].tiling.wf() by {
                assert(grown.workspaces.workspaces@[i].id.0 < grown.workspaces.next_id);
            }
            assert forall|i: int, j: int| 0 <= i < j < now.len() implies (#[trigger] now[i]).id != (
            #[trigger] now[j]).id by {
                assert(grown.workspaces.workspaces@[i].id != grown.workspaces.workspaces@[j].id);
            }
            assert(taken.workspaces.workspaces@.len() == start.workspaces.workspaces@.len());
            assert forall|i: int|
                start.workspaces.workspaces@.len() <= i < now.len() && i != idx implies (
            #[trigger] now[i]).is_fresh(
                start.workspaces.next_id + (i - start.workspaces.workspaces@.len()),
                crate::text::decimal((i + 1) as nat),
                start.workspaces.gaps,
            ) by {
                assert(now[i] == grown.workspaces.workspaces@[i]);
            }
            let target = grown.workspaces.workspaces@[idx as int];
            if idx < start.workspaces.workspaces@.len() {
                assert(target == start.workspaces.workspaces@[idx as int]);
            }
        }
        actions.push(Action::Unmap { window });
        actions.push(Action::Arrange);
        actions.push(Action::SyncWorkspaces);
        assert(actions@ =~= seq![
            Action::Unmap { window },
            Action::Arrange,
            Action::SyncWorkspaces,
        ]);
        actions
    }

    /// Moves the window that has the keyboard focus to another workspace; the
    /// view stays where it is. Without such a window nothing happens.
    pub fn move_focused_window_to_workspace(
        &mut self,
        focus: Focus,
        idx: usize,
        alive: &[u64],
    ) -> (actions: Vec<Action>)
        requires
            old(self).wf(),
            old(self).workspaces.can_grow(idx + 1),
        ensures
            final(self).wf(),
            old(self).same_but_workspaces(*final(self)),
            final(self).slide == old(self).slide,
            match focus {
                Focus::Window(window) if old(self).workspaces.active != idx => {
                    &&& actions@ == seq![
                        Action::Unmap { window },
                        Action::Arrange,
                        Action::SyncWorkspaces,
                    ]
                    &&& moved_window(*old(self), *final(self), window, idx as int, alive@)
                },
                _ => *final(self) == *old(self) && actions@.len() == 0,
            },
    {
        match focus {
            Focus::Window(window) => self.move_window_to_workspace(window, idx, alive),
            _ => Vec::new(),
        }
    }

    /// Puts a new window at the end of the active tiling order.
    pub fn join_active(&mut self, window: u64, alive: &[u64])
        requires
            old(self).wf(),
        ensures
            final(self).wf(),
            old(self).same_but_workspaces(*final(self)),
            final(self).slide == old(self).slide,
            joined(*old(self), *final(self), window, alive@),
    {
        let current: usize = self.workspaces.active_index();
        let ghost before = self.workspaces;
        self.workspaces.workspaces[current].tiling.push(window, alive);
        proof {
            lemma_one_changed(before, self.workspaces, current as int);
        }
    }

    /// Asks the focused window to close.
    pub fn close_focused_window(&self, focus: Focus) -> (actions: Vec<Action>)
        ensures
            actions@ == (match focus {
                Focus::Window(window) => seq![Action::Close { window }],
                _ => Seq::<Action>::empty(),
            }),
    {
        let mut actions: Vec<Action> = Vec::new();
        if let Focus::Window(window) = focus {
            actions.push(Action::Close { window });
            assert(actions@ =~= seq![Action::Close { window }]);
        }
        actions
    }

    /// Moves the keyboard focus to the next or previous window in the tiling
    /// order, around its ends, or to the first one when no window of the order
    /// had it. With fewer than two windows nothing happens.
    pub fn cycle_window_focus(&self, focus: Focus, forward: bool) -> (actions: Vec<Action>)
        requires
            self.wf(),
        ensures
            actions@ == (match next_focus(self.active().tiling.order@, focus, forward) {
                Some(window) => seq![Action::Raise { window }, Action::Focus { window }],
                None => Seq::<Action>::empty(),
            }),
    {
        let mut actions: Vec<Action> = Vec::new();
        let order: &[u64] = self.workspaces.active().tiling.windows();
        let n: usize = order.len();
        if n < 2 {
            return actions;
        }
        let at: Option<usize> = match focus {
            Focus::Window(w) => windows::find(order, w),
            _ => None,
        };
        let next: usize = match at {
            Some(i) => if forward {
                if i + 1 < n {
                    i + 1
                } else {
                    0
                }
            } else if i > 0 {
                i - 1
            } else {
                n - 1
            },
            None => 0,
        };
        let window: u64 = order[next];
        actions.push(Action::Raise { window });
        actions.push(Action::Focus { window });
        assert(actions@ =~= seq![Action::Raise { window }, Action::Focus { window }]);
        actions
    }

    /// Lets the focused window change places with its neighbour in the tiling
    /// order.
    pub fn swap_focused_window(&mut self, focus: Focus, forward: bool) -> (actions: Vec<Action>)
        requires
            old(self).wf(),
        ensures
            final(self).wf(),
            old(self).same_but_workspaces(*final(self)),
            final(self).slide == old(self).slide,
            match focus {
                Focus::Window(window) => {
                    &&& actions@ == seq![Action::Arrange]
                    &&& final(self).active().tiling.order@ == tiling::swapped(
                        old(self).active().tiling.order@,
                        window,
                        forward,
                    )
                    &&& only_active_order_changed(*old(self), *final(self))
                },
                _ => actions@.len() == 0 && *final(self) == *old(self),
            },
    {
        let mut actions: Vec<Action> = Vec::new();
        if let Focus::Window(window) = focus {
            let current: usize = self.workspaces.active_index();
            let ghost start = *self;
            self.workspaces.workspaces[current].tiling.swap_window(window, forward);
            proof {
                lemma_one_changed(start.workspaces, self.workspaces, current as int);
            }
            actions.push(Action::Arrange);
            assert(actions@ =~= seq![Action::Arrange]);
        }
        actions
    }

    /// Appends an empty workspace.
    pub fn request_workspace_create(&mut self, name: Option<String>) -> (actions: Vec<Action>)
        requires
            old(self).wf(),
            old(self).workspaces.can_grow(old(self).workspaces.workspaces@.len() as int + 1),
        ensures
            final(self).wf(),
            old(self).same_but_workspaces(*final(self)),
            final(self).slide == old(self).slide,
            actions@ == seq![Action::SyncWorkspaces],
            old(self).workspaces.appended(
                final(self).workspaces,
                match name {
                    Some(given) => given@,
                    None => crate::text::decimal(
                        (old(self).workspaces.workspaces@.len() + 1) as nat,
                    ),
                },
            ),
    {
        let mut actions: Vec<Action> = Vec::new();
        self.workspaces.create(name);
        actions.push(Action::SyncWorkspaces);
        assert(actions@ =~= seq![Action::SyncWorkspaces]);
        actions
    }

    /// Makes the workspace with the given identity the active one; an identity
    /// that is gone does nothing.
    pub fn request_workspace_activate(
        &mut self,
        id: WorkspaceId,
        now: u64,
        slide: Option<u64>,
    ) -> (actions: Vec<Action>)
        requires
            old(self).wf(),
        ensures
            final(self).wf(),
            old(self).same_but_workspaces(*final(self)),
            final(self).workspaces.workspaces@ == old(self).workspaces.workspaces@,
            final(self).workspaces.next_id == old(self).workspaces.next_id,
            final(self).workspaces.gaps == old(self).workspaces.gaps,
            (forall|i: int|
                0 <= i < old(self).workspaces.workspaces@.len() ==> (
                #[trigger] old(self).workspaces.workspaces@[i]).id != id)
                ==> final(self).workspaces.active == old(self).workspaces.active,
            (exists|i: int|
                0 <= i < old(self).workspaces.workspaces@.len() && (
                #[trigger] old(self).workspaces.workspaces@[i]).id == id) ==> final(self).active().id == id,
            old(self).active().id == id ==> final(self).workspaces.active
                == old(self).workspaces.active,
            final(self).workspaces.active == old(self).workspaces.active ==> final(self).slide
                == old(self).slide && actions@.len() == 0,
            final(self).workspaces.active != old(self).workspaces.active ==> ({
                let all = old(self).workspaces.workspaces@;
                let idx = final(self).workspaces.active;
                let leaving = match slide {
                    None => windows_but(all, idx as int, all.len() as int),
                    Some(_) => outgoing(all, old(self).slide),
                };
                &&& actions@ == action::unmap_all(leaving) + seq![
                    Action::Arrange,
                    Action::SyncWorkspaces,
                ]
                &&& final(self).slide == (match slide {
                    None => None,
                    Some(duration) => Some(
                        WorkspaceSlide {
                            from_idx: old(self).workspaces.active,
                            to_idx: idx,
                            start: now,
                            duration,
                        },
                    ),
                })
            }),
    {
        let n: usize = self.workspaces.len();
        if let Some(idx) = self.workspaces.index_of(id) {
            assert(idx < n);
            proof {
                if old(self).active().id == id {
                    assert(idx == old(self).workspaces.active);
                }
            }
            let actions: Vec<Action> = self.switch_workspace(idx, now, slide);
            assert(self.workspaces.workspaces@ =~= old(self).workspaces.workspaces@);
            return actions;
        }
        Vec::new()
    }

    /// Removes the workspace with the given identity; an identity that is gone
    /// does nothing. Its windows go to the active workspace. When it is the
    /// active one, the first of the others becomes active before, and a second
    /// workspace is created if there is no other. A slide between two others
    /// goes on; one from or to the workspace ends.
    #[verifier::rlimit(40)]
    #[verifier::spinoff_prover]
    pub fn request_workspace_remove(
        &mut self,
        id: WorkspaceId,
        alive: &[u64],
        now: u64,
        slide: Option<u64>,
    ) -> (actions: Vec<Action>)
        requires
            old(self).wf(),
            old(self).workspaces.can_grow(2),
        ensures
            final(self).wf(),
            old(self).same_but_workspaces(*final(self)),
            (forall|i: int|
                0 <= i < old(self).workspaces.workspaces@.len() ==> (
                #[trigger] old(self).workspaces.workspaces@[i]).id != id) ==> *final(self)
                == *old(self) && actions@.len() == 0,
            forall|idx: int|
                0 <= idx < old(self).workspaces.workspaces@.len() && (
                #[trigger] old(self).workspaces.workspaces@[idx]).id == id ==> {
                    &&& removed_workspace(*old(self), *final(self), idx, alive@)
                    &&& removal_steps(*old(self), *final(self), idx, slide, actions@)
                },
    {
        let idx: usize = match self.workspaces.index_of(id) {
            Some(idx) => idx,
            None => return Vec::new(),
        };
        let ghost start = *self;
        let ghost was = self.workspaces.workspaces@;
        let ghost target = successor(self.workspaces, idx as int);
        let mut actions: Vec<Action> = Vec::new();
        if idx == self.workspaces.active_index() {
            let to: usize = if idx == 0 { 1 } else { 0 };
            actions = self.switch_workspace(to, now, slide);
            proof {
                lemma_windows_but_grown(
                    was,
                    self.workspaces.workspaces@,
                    target,
                    self.workspaces.workspaces@.len() as int,
                );
                if slide is Some {
                    lemma_outgoing_grown(start, self.workspaces.workspaces@);
                }
            }
        }
        let ghost mid = *self;
        let ghost switching = actions@;
        assert(mid.workspaces.active == target);
        let into: usize = self.workspaces.active_index();
        let mut orphaned: Vec<u64> = Vec::new();
        append_ids(&mut orphaned, self.workspaces.workspaces[idx].tiling.windows());
        assert(orphaned@ =~= was[idx as int].tiling.order@);
        let mut i: usize = 0;
        while i < orphaned.len()
            invariant
                i <= orphaned@.len(),
                mid.workspaces.wf(),
                self.workspaces.wf(),
                into == mid.workspaces.active,
                idx != into,
                idx < mid.workspaces.workspaces@.len(),
                mid.same_but_workspaces(*self),
                self.slide == mid.slide,
                only_active_order_changed(mid, *self),
                self.active().tiling.order@ == adopt(
                    mid.active().tiling.order@,
                    orphaned@.take(i as int),
                    alive@,
                ),
            decreases orphaned@.len() - i,
        {
            let window: u64 = orphaned[i];
            let ghost before = *self;
            self.workspaces.workspaces[into].tiling.push(window, alive);
            proof {
                lemma_one_changed(before.workspaces, self.workspaces, into as int);
                let next = orphaned@.take(i + 1);
                assert(next.drop_last() =~= orphaned@.take(i as int));
                assert(next.last() == window);
            }
            i = i + 1;
        }
        assert(orphaned@.take(i as int) =~= orphaned@);
        let ghost filled = *self;
        let removed: bool = self.workspaces.remove(idx);
        assert(removed);
        self.slide = shift_slide(self.slide, idx);
        actions.push(Action::Arrange);
        actions.push(Action::SyncWorkspaces);
        proof {
            assert(actions@ =~= switching + seq![Action::Arrange, Action::SyncWorkspaces]);
            let now = self.workspaces.workspaces@;
            assert forall|k: int| 0 <= k < was.len() && k != idx implies {
                let kept = now[after_removal(idx as int, k)];
                &&& kept.id == (#[trigger] was[k]).id
                &&& kept.name == was[k].name
                &&& kept.tiling.params == was[k].tiling.params
                &&& k != target ==> kept.tiling.order == was[k].tiling.order
            } by {
                assert(now[after_removal(idx as int, k)] == filled.workspaces.workspaces@[k]);
                assert(mid.workspaces.workspaces@[k] == was[k]);
                if k != target {
                    assert(filled.workspaces.workspaces@[k] == mid.workspaces.workspaces@[k]);
                }
            }
            assert(now[after_removal(idx as int, target)]
                == filled.workspaces.workspaces@[target]);
            if target >= was.len() {
                assert(mid.workspaces.workspaces@[target].is_fresh(
                    start.workspaces.next_id + (target - was.len()),
                    crate::text::decimal((target + 1) as nat),
                    start.workspaces.gaps,
                ));
            } else {
                assert(mid.workspaces.workspaces@[target] == was[target]);
            }
            assert forall|k: int|
                0 <= k < was.len() && (#[trigger] was[k]).id == id implies k == idx by {}
        }
        actions
    }
}

/// Whether `after` is `before` once the workspace at `idx` has become the active
/// one, and `actions` are the steps for it. The windows of the others leave the
/// screen, at once or, with a slide, when the slide is over; what an earlier
/// slide still leaves goes at once.
pub open spec fn switched(
    before: Desktop,
    after: Desktop,
    idx: usize,
    now: u64,
    slide: Option<u64>,
    actions: Seq<Action>,
) -> bool {
    let all = after.workspaces.workspaces@;
    let leaving = match slide {
        None => windows_but(all, idx as int, all.len() as int),
        Some(_) => outgoing(all, before.slide),
    };
    &&& before.workspaces.grown(after.workspaces, idx + 1)
    &&& after.workspaces.active == idx
    &&& before.same_but_workspaces(after)
    &&& before.workspaces.active == idx ==> actions.len() == 0 && after.slide == before.slide
    &&& before.workspaces.active != idx ==> {
        &&& actions == action::unmap_all(leaving) + seq![Action::Arrange, Action::SyncWorkspaces]
        &&& after.slide == (match slide {
            None => None,
            Some(duration) => Some(
                WorkspaceSlide {
                    from_idx: before.workspaces.active,
                    to_idx: idx,
                    start: now,
                    duration,
                },
            ),
        })
    }
}

/// Whether `after` is `before` without its slide, if the slide is over, and
/// `actions` take the windows that it left off the screen.
pub open spec fn finalized(before: Desktop, after: Desktop, now: u64, actions: Seq<Action>) -> bool {
    let over = before.slide matches Some(s) && now >= s.start + s.duration;
    &&& after.workspaces == before.workspaces
    &&& before.same_but_workspaces(after)
    &&& after.slide == (if over {
        None
    } else {
        before.slide
    })
    &&& actions == (if over && before.slide->0.from_idx != before.workspaces.active {
        action::unmap_all(outgoing(before.workspaces.workspaces@, before.slide))
    } else {
        Seq::<Action>::empty()
    })
}

/// A slide once the workspace at `idx` is gone: it goes on between the same two
/// workspaces, whose positions may have moved up, and ends when one of them is
/// the one that went.
pub open spec fn slide_after_removal(slide: Option<WorkspaceSlide>, idx: int) -> Option<
    WorkspaceSlide,
> {
    match slide {
        Some(s) => if s.from_idx == idx || s.to_idx == idx {
            None
        } else {
            Some(
                WorkspaceSlide {
                    from_idx: after_removal(idx, s.from_idx as int) as usize,
                    to_idx: after_removal(idx, s.to_idx as int) as usize,
                    start: s.start,
                    duration: s.duration,
                },
            )
        },
        None => None,
    }
}

/// Lets a slide go on without the workspace at `idx`.
fn shift_slide(slide: Option<WorkspaceSlide>, idx: usize) -> (r: Option<WorkspaceSlide>)
    ensures
        r == slide_after_removal(slide, idx as int),
{
    let s: WorkspaceSlide = match slide {
        Some(s) => s,
        None => return None,
    };
    if s.from_idx == idx || s.to_idx == idx {
        return None;
    }
    Some(
        WorkspaceSlide {
            from_idx: if s.from_idx < idx { s.from_idx } else { s.from_idx - 1 },
            to_idx: if s.to_idx < idx { s.to_idx } else { s.to_idx - 1 },
            start: s.start,
            duration: s.duration,
        },
    )
}

/// The workspace that is active once the one at `idx` is about to go.
pub open spec fn successor(set: WorkspaceSet, idx: int) -> int {
    if idx != set.active {
        set.active as int
    } else if idx == 0 {
        1
    } else {
        0
    }
}

/// Position of the workspace at `i` once the one at `idx` is gone.
pub open spec fn after_removal(idx: int, i: int) -> int {
    if i < idx {
        i
    } else {
        i - 1
    }
}

/// A tiling order that windows are added to, one after the other.
pub open spec fn adopt(order: Seq<u64>, orphans: Seq<u64>, alive: Seq<u64>) -> Seq<u64>
    decreases orphans.len(),
{
    if orphans.len() == 0 {
        order
    } else {
        windows::with_at_end(
            windows::only_alive(adopt(order, orphans.drop_last(), alive), alive),
            orphans.last(),
        )
    }
}

/// Whether `after` is `before` without the workspace at `idx`, whose windows
/// have gone to the workspace that is active then.
pub open spec fn removed_workspace(before: Desktop, after: Desktop, idx: int, alive: Seq<u64>) -> bool {
    let was = before.workspaces.workspaces@;
    let now = after.workspaces.workspaces@;
    let target = successor(before.workspaces, idx);
    &&& now.len() == (if target < was.len() {
        was.len() - 1
    } else {
        was.len() as int
    })
    &&& after.workspaces.next_id == before.workspaces.next_id + (if target < was.len() {
        0int
    } else {
        target + 1 - was.len()
    })
    &&& after.workspaces.active == after_removal(idx, target)
    &&& after.workspaces.gaps == before.workspaces.gaps
    &&& after.active().tiling.order@ == adopt(
        if target < was.len() {
            was[target].tiling.order@
        } else {
            Seq::<u64>::empty()
        },
        was[idx].tiling.order@,
        alive,
    )
    &&& target >= was.len() ==> after.active().id.0 == before.workspaces.next_id
        && after.active().name@ == crate::text::decimal((target + 1) as nat)
        && after.active().tiling.params == crate::params::LayoutParams::fresh(before.workspaces.gaps)
    &&& forall|k: int|
        0 <= k < was.len() && k != idx ==> {
            let kept = now[after_removal(idx, k)];
            &&& kept.id == (#[trigger] was[k]).id
            &&& kept.name == was[k].name
            &&& kept.tiling.params == was[k].tiling.params
            &&& k != target ==> kept.tiling.order == was[k].tiling.order
        }
}

/// Whether `actions` are the steps for removing the workspace at `idx`, and
/// `after` has the slide that is left of that of `before`. With the active
/// workspace goes every slide.
pub open spec fn removal_steps(
    before: Desktop,
    after: Desktop,
    idx: int,
    slide: Option<u64>,
    actions: Seq<Action>,
) -> bool {
    let was = before.workspaces.workspaces@;
    let leaving = match slide {
        None => windows_but(was, successor(before.workspaces, idx), was.len() as int),
        Some(_) => outgoing(was, before.slide),
    };
    let switching = if idx != before.workspaces.active {
        Seq::<Action>::empty()
    } else {
        action::unmap_all(leaving) + seq![Action::Arrange, Action::SyncWorkspaces]
    };
    &&& actions == switching + seq![Action::Arrange, Action::SyncWorkspaces]
    &&& after.slide == (if idx != before.workspaces.active {
        slide_after_removal(before.slide, idx)
    } else {
        None
    })
}

/// Growing the list adds no windows.
proof fn lemma_windows_but_grown(was: Seq<Workspace>, now: Seq<Workspace>, skip: int, n: int)
    requires
        was.len() <= now.len(),
        0 <= n <= now.len(),
        forall|i: int| 0 <= i < was.len() ==> #[trigger] now[i] == was[i],
        forall|i: int|
            was.len() <= i < now.len() ==> (#[trigger] now[i]).tiling.order@ == Seq::<u64>::empty(),
    ensures
        windows_but(now, skip, n) == windows_but(
            was,
            skip,
            if n < was.len() {
                n
            } else {
                was.len() as int
            },
        ),
    decreases n,
{
    if n > 0 {
        lemma_windows_but_grown(was, now, skip, n - 1);
        let last = now[n - 1];
        if n > was.len() {
            assert(windows_but(now, skip, n - 1) + last.tiling.order@ =~= windows_but(
                now,
                skip,
                n - 1,
            ));
        }
    }
}

/// Growing the list changes nothing about the windows that a slide leaves.
proof fn lemma_outgoing_grown(before: Desktop, now: Seq<Workspace>)
    requires
        before.workspaces.workspaces@.len() <= now.len(),
        forall|i: int|
            0 <= i < before.workspaces.workspaces@.len() ==> #[trigger] now[i]
                == before.workspaces.workspaces@[i],
        forall|i: int|
            before.workspaces.workspaces@.len() <= i < now.len() ==> (
            #[trigger] now[i]).tiling.order@ == Seq::<u64>::empty(),
    ensures
        outgoing(now, before.slide) == outgoing(before.workspaces.workspaces@, before.slide),
{
}

/// No live window gets lost when a workspace goes: those of the workspace and
/// those of the one that takes them over are all there afterwards, and no
/// other window is.
pub proof fn removal_loses_no_window(order: Seq<u64>, orphans: Seq<u64>, alive: Seq<u64>, w: u64)
    ensures
        alive.contains(w) && (order.contains(w) || orphans.contains(w)) ==> adopt(
            order,
            orphans,
            alive,
        ).contains(w),
        adopt(order, orphans, alive).contains(w) ==> order.contains(w) || orphans.contains(w),
    decreases orphans.len(),
{
    if orphans.len() > 0 {
        let rest = orphans.drop_last();
        removal_loses_no_window(order, rest, alive, w);
        let before = adopt(order, rest, alive);
        let kept = windows::only_alive(before, alive);
        windows::lemma_filter(before, windows::one_of(alive));
        let after = windows::with_at_end(kept, orphans.last());
        assert(orphans =~= rest.push(orphans.last()));
        assert(kept.contains(w) <==> before.contains(w) && alive.contains(w));
        if orphans.contains(w) && w != orphans.last() {
            let k = choose|k: int| 0 <= k < orphans.len() && orphans[k] == w;
            assert(rest[k] == w);
        }
        if rest.contains(w) {
            let k = choose|k: int| 0 <= k < rest.len() && rest[k] == w;
            assert(orphans[k] == w);
        }
        if !kept.contains(orphans.last()) {
            assert(after[kept.len() as int] == orphans.last());
            if kept.contains(w) {
                let k = choose|k: int| 0 <= k < kept.len() && kept[k] == w;
                assert(after[k] == w);
            }
            if after.contains(w) && w != orphans.last() {
                let k = choose|k: int| 0 <= k < after.len() && after[k] == w;
                assert(kept[k] == w);
            }
        }
        if w == orphans.last() {
            assert(orphans[orphans.len() - 1] == w);
        }
    }
}

/// The windows of the workspace that a slide leaves.
pub open spec fn outgoing(workspaces: Seq<Workspace>, slide: Option<WorkspaceSlide>) -> Seq<u64> {
    match slide {
        Some(s) => if s.from_idx < workspaces.len() {
            workspaces[s.from_idx as int].tiling.order@
        } else {
            Seq::empty()
        },
        None => Seq::empty(),
    }
}

/// Whether `after` is `before` with `window` taken out of the active workspace
/// and put at the end of the one at `idx`.
pub open spec fn moved_window(
    before: Desktop,
    after: Desktop,
    window: u64,
    idx: int,
    alive: Seq<u64>,
) -> bool {
    let was = before.workspaces.workspaces@;
    let now = after.workspaces.workspaces@;
    let from = before.workspaces.active as int;
    &&& after.workspaces.active == from
    &&& after.workspaces.gaps == before.workspaces.gaps
    &&& now.len() == (if idx < was.len() {
        was.len() as int
    } else {
        idx + 1
    })
    &&& after.workspaces.next_id == before.workspaces.next_id + (now.len() - was.len())
    &&& idx >= was.len() ==> {
        &&& now[idx].id.0 == before.workspaces.next_id + (idx - was.len())
        &&& now[idx].name@ == crate::text::decimal((idx + 1) as nat)
        &&& now[idx].tiling.params == crate::params::LayoutParams::fresh(before.workspaces.gaps)
    }
    &&& now[from].tiling.order@ == windows::without(was[from].tiling.order@, window)
    &&& now[idx].tiling.order@ == windows::with_at_end(
        windows::only_alive(
            if idx < was.len() {
                was[idx].tiling.order@
            } else {
                Seq::<u64>::empty()
            },
            alive,
        ),
        window,
    )
    &&& forall|i: int|
        0 <= i < was.len() ==> (#[trigger] now[i]).id == was[i].id && now[i].name == was[i].name
            && now[i].tiling.params == was[i].tiling.params && (i != from && i != idx
            ==> now[i].tiling.order == was[i].tiling.order)
    &&& forall|i: int|
        was.len() <= i < now.len() && i != idx ==> (#[trigger] now[i]).is_fresh(
            before.workspaces.next_id + (i - was.len()),
            crate::text::decimal((i + 1) as nat),
            before.workspaces.gaps,
        )
}

/// Whether the two states agree on everything but the tiling order of the
/// active workspace.
pub open spec fn only_active_order_changed(before: Desktop, after: Desktop) -> bool {
    let was = before.workspaces.workspaces@;
    let now = after.workspaces.workspaces@;
    let at = before.workspaces.active as int;
    &&& after.workspaces.active == at
    &&& after.workspaces.next_id == before.workspaces.next_id
    &&& after.workspaces.gaps == before.workspaces.gaps
    &&& now.len() == was.len()
    &&& now[at].id == was[at].id
    &&& now[at].name == was[at].name
    &&& now[at].tiling.params == was[at].tiling.params
    &&& forall|i: int| 0 <= i < was.len() && i != at ==> #[trigger] now[i] == was[i]
}

/// Whether `after` is `before` with `window` at the end of the active tiling
/// order, once.
pub open spec fn joined(before: Desktop, after: Desktop, window: u64, alive: Seq<u64>) -> bool {
    &&& only_active_order_changed(before, after)
    &&& after.active().tiling.order@ == windows::with_at_end(
        windows::only_alive(before.active().tiling.order@, alive),
        window,
    )
}

/// Changing the tiling order of one workspace keeps the list well-formed.
pub proof fn lemma_one_changed(before: WorkspaceSet, after: WorkspaceSet, at: int)
    requires
        before.wf(),
        0 <= at < before.workspaces@.len(),
        after.workspaces@.len() == before.workspaces@.len(),
        after.active == before.active,
        after.next_id == before.next_id,
        after.workspaces@[at].id == before.workspaces@[at].id,
        after.workspaces@[at].tiling.wf(),
        forall|i: int|
            0 <= i < before.workspaces@.len() && i != at ==> #[trigger] after.workspaces@[i]
                == before.workspaces@[i],
    ensures
        after.wf(),
{
    assert forall|i: int| 0 <= i < after.workspaces@.len() implies (
    #[trigger] after.workspaces@[i]).id.0 < after.next_id && after.workspaces@[i].tiling.wf() by {
        assert(before.workspaces@[i].id.0 < before.next_id);
    }
    assert forall|i: int, j: int| 0 <= i < j < after.workspaces@.len() implies (
    #[trigger] after.workspaces@[i]).id != (#[trigger] after.workspaces@[j]).id by {
        assert(before.workspaces@[i].id != before.workspaces@[j].id);
    }
}

fn find_latest(history: &[u64], order: &[u64]) -> (r: Option<u64>)
    ensures
        r == latest_in(history@, order@),
{
    let mut n: usize = history.len();
    assert(history@.take(n as int) =~= history@);
    while n > 0
        invariant
            n <= history@.len(),
            latest_in(history@, order@) == latest_in(history@.take(n as int), order@),
        decreases n,
    {
        let w: u64 = history[n - 1];
        assert(history@.take(n as int).last() == w);
        if windows::contains(order, w) {
            return Some(w);
        }
        assert(history@.take(n as int).drop_last() =~= history@.take(n - 1));
        n = n - 1;
    }
    None
}

/// Whether no window is on two workspaces.
pub open spec fn one_home(workspaces: Seq<Workspace>) -> bool {
    forall|i: int, j: int, w: u64|
        0 <= i < workspaces.len() && 0 <= j < workspaces.len() && i != j
            && #[trigger] workspaces[i].tiling.order@.contains(w)
            ==> !#[trigger] workspaces[j].tiling.order@.contains(w)
}

/// A window that moves to another workspace is on that one and on no other.
pub proof fn moving_keeps_one_home(
    before: Desktop,
    after: Desktop,
    window: u64,
    idx: int,
    alive: Seq<u64>,
)
    requires
        before.wf(),
        one_home(before.workspaces.workspaces@),
        before.active().tiling.order@.contains(window),
        0 <= idx,
        idx != before.workspaces.active,
        moved_window(before, after, window, idx, alive),
    ensures
        one_home(after.workspaces.workspaces@),
        after.workspaces.workspaces@[idx].tiling.order@.contains(window),
{
    let was = before.workspaces.workspaces@;
    let now = after.workspaces.workspaces@;
    let from = before.workspaces.active as int;
    let there = if idx < was.len() {
        was[idx].tiling.order@
    } else {
        Seq::<u64>::empty()
    };
    let kept = windows::only_alive(there, alive);
    windows::lemma_filter(was[from].tiling.order@, windows::other_than(window));
    windows::lemma_filter(there, windows::one_of(alive));
    assert forall|i: int, w: u64|
        0 <= i < now.len() && #[trigger] now[i].tiling.order@.contains(w) implies (if w == window {
        i == idx
    } else {
        i < was.len() && was[i].tiling.order@.contains(w)
    }) by {
        if i == idx {
            let k = choose|k: int| 0 <= k < now[i].tiling.order@.len() && now[i].tiling.order@[k] == w;
            if w != window {
                assert(kept[k] == w);
                assert(kept.contains(w));
            }
        } else if i == from {
        } else if i < was.len() {
            assert(now[i].id == was[i].id);
        } else {
            assert(now[i].is_fresh(
                before.workspaces.next_id + (i - was.len()),
                crate::text::decimal((i + 1) as nat),
                before.workspaces.gaps,
            ));
        }
    }
    let moved = now[idx].tiling.order@;
    if !kept.contains(window) {
        assert(moved[kept.len() as int] == window);
    }
}

/// Removing a workspace leaves no window on two of the others.
pub proof fn removal_keeps_one_home(before: Desktop, after: Desktop, idx: int, alive: Seq<u64>)
    requires
        before.wf(),
        one_home(before.workspaces.workspaces@),
        0 <= idx < before.workspaces.workspaces@.len(),
        removed_workspace(before, after, idx, alive),
    ensures
        one_home(after.workspaces.workspaces@),
{
    let was = before.workspaces.workspaces@;
    let now = after.workspaces.workspaces@;
    let target = successor(before.workspaces, idx);
    let into = after_removal(idx, target);
    assert forall|i: int, j: int, w: u64|
        0 <= i < now.len() && 0 <= j < now.len() && i != j
            && #[trigger] now[i].tiling.order@.contains(w) implies !#[trigger] now[
    j].tiling.order@.contains(w) by {
        let a = if i < idx { i } else { i + 1 };
        let b = if j < idx { j } else { j + 1 };
        assert(target < was.len());
        removal_loses_no_window(was[target].tiling.order@, was[idx].tiling.order@, alive, w);
        if i == into {
            assert(now[after_removal(idx, b)].id == was[b].id);
        } else if j == into {
            assert(now[after_removal(idx, a)].id == was[a].id);
        } else {
            assert(now[after_removal(idx, a)].id == was[a].id);
            assert(now[after_removal(idx, b)].id == was[b].id);
        }
    }
}

/// Whether of all windows that are on a workspace only those of the active one
/// are on the screen, and during a slide, which leads to the active one, those
/// of the workspace that it leaves.
pub open spec fn tidy(desktop: Desktop, shown: Set<u64>) -> bool {
    let all = desktop.workspaces.workspaces@;
    &&& desktop.slide matches Some(s) ==> s.to_idx == desktop.workspaces.active
    &&& forall|i: int, w: u64|
        0 <= i < all.len() && shown.contains(w) && #[trigger] all[i].tiling.order@.contains(w)
            ==> i == desktop.workspaces.active || (desktop.slide matches Some(s) && s.from_idx == i)
}

/// Whether `after` can be the windows on the screen once steps have been carried
/// out: windows that the steps take off the screen are gone, and those that come
/// are of the active tiling order.
pub open spec fn carried_out(
    shown: Set<u64>,
    actions: Seq<Action>,
    order: Seq<u64>,
    after: Set<u64>,
) -> bool {
    forall|w: u64| #[trigger]
        after.contains(w) ==> order.contains(w) || (shown.contains(w) && !actions.contains(
            Action::Unmap { window: w },
        ))
}

proof fn lemma_unmapped(leaving: Seq<u64>, rest: Seq<Action>, w: u64)
    requires
        leaving.contains(w),
    ensures
        (action::unmap_all(leaving) + rest).contains(Action::Unmap { window: w }),
{
    let k = choose|k: int| 0 <= k < leaving.len() && leaving[k] == w;
    assert((action::unmap_all(leaving) + rest)[k] == Action::Unmap { window: w });
}

proof fn lemma_windows_but_contains(all: Seq<Workspace>, skip: int, n: int, i: int, w: u64)
    requires
        0 <= i < n <= all.len(),
        i != skip,
        all[i].tiling.order@.contains(w),
    ensures
        windows_but(all, skip, n).contains(w),
    decreases n,
{
    let now = windows_but(all, skip, n);
    let before = windows_but(all, skip, n - 1);
    if i == n - 1 {
        let order = all[i].tiling.order@;
        let k = choose|k: int| 0 <= k < order.len() && order[k] == w;
        assert(now[before.len() + k] == w);
    } else {
        lemma_windows_but_contains(all, skip, n - 1, i, w);
        let k = choose|k: int| 0 <= k < before.len() && before[k] == w;
        assert(now[k] == w);
    }
}

/// Switching workspaces leaves no window of another workspace on the screen but
/// those that the slide takes away.
pub proof fn switching_keeps_the_screen_tidy(
    before: Desktop,
    after: Desktop,
    idx: usize,
    now: u64,
    slide: Option<u64>,
    actions: Seq<Action>,
    shown: Set<u64>,
    shown_after: Set<u64>,
)
    requires
        before.wf(),
        one_home(before.workspaces.workspaces@),
        tidy(before, shown),
        switched(before, after, idx, now, slide, actions),
        carried_out(shown, actions, after.active().tiling.order@, shown_after),
    ensures
        tidy(after, shown_after),
        one_home(after.workspaces.workspaces@),
{
    let was = before.workspaces.workspaces@;
    let all = after.workspaces.workspaces@;
    let n = all.len() as int;
    assert forall|i: int, w: u64|
        0 <= i < n && #[trigger] all[i].tiling.order@.contains(w) implies i < was.len()
        && was[i].tiling.order@.contains(w) by {
        if i >= was.len() {
            assert(all[i].tiling.order@.len() == 0);
        }
    }
    assert forall|i: int, w: u64|
        0 <= i < n && shown_after.contains(w) && #[trigger] all[i].tiling.order@.contains(
            w,
        ) implies i == after.workspaces.active || (after.slide matches Some(s) && s.from_idx
        == i) by {
        if i != idx {
            assert(!all[idx as int].tiling.order@.contains(w));
            if before.workspaces.active != idx {
                let tail = seq![Action::Arrange, Action::SyncWorkspaces];
                match slide {
                    None => {
                        lemma_windows_but_contains(all, idx as int, n, i, w);
                        lemma_unmapped(windows_but(all, idx as int, n), tail, w);
                    },
                    Some(_) => {
                        if i != before.workspaces.active {
                            assert(outgoing(all, before.slide).contains(w));
                            lemma_unmapped(outgoing(all, before.slide), tail, w);
                        }
                    },
                }
            }
        }
    }
}

/// After a slide that is over, only windows of the active workspace are on the
/// screen.
pub proof fn finished_slide_leaves_only_the_active_workspace(
    before: Desktop,
    after: Desktop,
    now: u64,
    actions: Seq<Action>,
    shown: Set<u64>,
    shown_after: Set<u64>,
)
    requires
        before.wf(),
        one_home(before.workspaces.workspaces@),
        tidy(before, shown),
        finalized(before, after, now, actions),
        carried_out(shown, actions, after.active().tiling.order@, shown_after),
    ensures
        tidy(after, shown_after),
        before.slide matches Some(s) ==> (now >= s.start + s.duration ==> after.slide is None),
        after.slide is None ==> forall|i: int, w: u64|
            0 <= i < after.workspaces.workspaces@.len() && shown_after.contains(w)
                && #[trigger] after.workspaces.workspaces@[i].tiling.order@.contains(w) ==> i
                == after.workspaces.active,
{
    let all = after.workspaces.workspaces@;
    assert forall|i: int, w: u64|
        0 <= i < all.len() && shown_after.contains(w) && #[trigger] all[i].tiling.order@.contains(
            w,
        ) implies i == after.workspaces.active || (after.slide matches Some(s) && s.from_idx
        == i) by {
        if i != after.workspaces.active {
            assert(!all[after.workspaces.active as int].tiling.order@.contains(w));
            if after.slide is None && before.slide is Some {
                let leaving = outgoing(all, before.slide);
                assert(leaving.contains(w));
                lemma_unmapped(leaving, Seq::empty(), w);
                assert(action::unmap_all(leaving) + Seq::<Action>::empty() =~= actions);
            }
        }
    }
}

/// Removing a workspace leaves no window of a hidden workspace on the screen,
/// also while a slide is under way.
pub proof fn removal_keeps_the_screen_tidy(
    before: Desktop,
    after: Desktop,
    idx: int,
    alive: Seq<u64>,
    slide: Option<u64>,
    actions: Seq<Action>,
    shown: Set<u64>,
    shown_after: Set<u64>,
)
    requires
        before.wf(),
        one_home(before.workspaces.workspaces@),
        0 <= idx < before.workspaces.workspaces@.len(),
        tidy(before, shown),
        removed_workspace(before, after, idx, alive),
        removal_steps(before, after, idx, slide, actions),
        carried_out(shown, actions, after.active().tiling.order@, shown_after),
    ensures
        tidy(after, shown_after),
{
    let was = before.workspaces.workspaces@;
    let now = after.workspaces.workspaces@;
    let target = successor(before.workspaces, idx);
    removal_keeps_one_home(before, after, idx, alive);
    assert forall|i: int, w: u64|
        0 <= i < now.len() && shown_after.contains(w) && #[trigger] now[i].tiling.order@.contains(
            w,
        ) implies i == after.workspaces.active || (after.slide matches Some(s) && s.from_idx
        == i) by {
        if i != after.workspaces.active {
            let j = if i < idx {
                i
            } else {
                i + 1
            };
            assert(!now[after.workspaces.active as int].tiling.order@.contains(w));
            assert(now[after_removal(idx, j)].id == was[j].id);
            assert(was[j].tiling.order@.contains(w));
            if idx == before.workspaces.active {
                let tail = seq![Action::Arrange, Action::SyncWorkspaces];
                let leaving = match slide {
                    None => windows_but(was, target, was.len() as int),
                    Some(_) => outgoing(was, before.slide),
                };
                if slide is None {
                    lemma_windows_but_contains(was, target, was.len() as int, j, w);
                }
                assert(leaving.contains(w));
                lemma_unmapped(leaving, tail + tail, w);
                assert(action::unmap_all(leaving) + (tail + tail) =~= actions);
            }
        }
    }
}

/// Sending a window to another workspace leaves no window of a hidden workspace
/// on the screen.
pub proof fn moving_keeps_the_screen_tidy(
    before: Desktop,
    after: Desktop,
    window: u64,
    idx: int,
    alive: Seq<u64>,
    shown: Set<u64>,
    shown_after: Set<u64>,
)
    requires
        before.wf(),
        one_home(before.workspaces.workspaces@),
        before.active().tiling.order@.contains(window),
        0 <= idx,
        idx != before.workspaces.active,
        tidy(before, shown),
        moved_window(before, after, window, idx, alive),
        after.slide == before.slide,
        carried_out(
            shown,
            seq![Action::Unmap { window }, Action::Arrange, Action::SyncWorkspaces],
            after.active().tiling.order@,
            shown_after,
        ),
    ensures
        tidy(after, shown_after),
{
    let was = before.workspaces.workspaces@;
    let now = after.workspaces.workspaces@;
    let actions = seq![Action::Unmap { window }, Action::Arrange, Action::SyncWorkspaces];
    assert(actions[0] == Action::Unmap { window });
    moving_keeps_one_home(before, after, window, idx, alive);
    assert forall|i: int, w: u64|
        0 <= i < now.len() && shown_after.contains(w) && #[trigger] now[i].tiling.order@.contains(
            w,
        ) implies i == after.workspaces.active || (after.slide matches Some(s) && s.from_idx
        == i) by {
        if i != after.workspaces.active {
            assert(!now[after.workspaces.active as int].tiling.order@.contains(w));
            assert(w != window);
            if i == idx {
                let there = if idx < was.len() {
                    was[idx].tiling.order@
                } else {
                    Seq::<u64>::empty()
                };
                let kept = windows::only_alive(there, alive);
                windows::lemma_filter(there, windows::one_of(alive));
                let order = now[i].tiling.order@;
                let k = choose|k: int| 0 <= k < order.len() && order[k] == w;
                assert(kept[k] == w);
                assert(kept.contains(w));
                assert(there.contains(w));
            } else if i < was.len() {
                assert(now[i].id == was[i].id);
            } else {
                assert(now[i].is_fresh(
                    before.workspaces.next_id + (i - was.len()),
                    crate::text::decimal((i + 1) as nat),
                    before.workspaces.gaps,
                ));
            }
        }
    }
}

/// What changes the active tiling order alone leaves no window of a hidden
/// workspace on the screen.
pub proof fn active_changes_keep_the_screen_tidy(
    before: Desktop,
    after: Desktop,
    actions: Seq<Action>,
    shown: Set<u64>,
    shown_after: Set<u64>,
)
    requires
        before.wf(),
        tidy(before, shown),
        only_active_order_changed(before, after),
        after.slide == before.slide,
        one_home(after.workspaces.workspaces@),
        carried_out(shown, actions, after.active().tiling.order@, shown_after),
    ensures
        tidy(after, shown_after),
{
    let was = before.workspaces.workspaces@;
    let now = after.workspaces.workspaces@;
    assert forall|i: int, w: u64|
        0 <= i < now.len() && shown_after.contains(w) && #[trigger] now[i].tiling.order@.contains(
            w,
        ) implies i == after.workspaces.active || (after.slide matches Some(s) && s.from_idx
        == i) by {
        if i != after.workspaces.active {
            assert(!now[after.workspaces.active as int].tiling.order@.contains(w));
            assert(now[i] == was[i]);
        }
    }
}

/// Moving the focus on and then back returns to the window it was on.
pub proof fn focus_there_and_back(order: Seq<u64>, window: u64, forward: bool)
    requires
        order.no_duplicates(),
        order.len() >= 2,
        order.contains(window),
    ensures
        next_focus(order, Focus::Window(window), forward) is Some,
        next_focus(
            order,
            Focus::Window(next_focus(order, Focus::Window(window), forward)->0),
            !forward,
        ) == Some(window),
{
    windows::lemma_position_exists(order, window);
    let i = windows::position(order, window)->0;
    let n = order.len() as int;
    let j = tiling::neighbour(n, i, forward);
    assert(windows::is_first_at(order, order[j], j));
    windows::lemma_position(order, order[j], j);
    assert(order.contains(order[j]));
    assert(tiling::neighbour(n, j, !forward) == i);
}

/// The window that had the focus last is the last of the history, and the
/// history lists no window twice.
pub proof fn focus_history_ends_with_the_latest(history: Seq<u64>, window: u64)
    requires
        history.no_duplicates(),
    ensures
        focused_last(history, window).last() == window,
        focused_last(history, window).no_duplicates(),
        forall|w: u64|
            focused_last(history, window).contains(w) <==> (history.contains(w) || w == window),
{
    windows::lemma_filter(history, windows::other_than(window));
    let rest = windows::without(history, window);
    let all = focused_last(history, window);
    if !(history.len() > 0 && history.last() == window) {
        assert forall|w: u64| all.contains(w) <==> (history.contains(w) || w == window) by {
            if history.contains(w) && w != window {
                assert(rest.contains(w));
                let k = choose|k: int| 0 <= k < rest.len() && rest[k] == w;
                assert(all[k] == w);
            }
            if w == window {
                assert(all[rest.len() as int] == w);
            }
            if all.contains(w) && w != window {
                let k = choose|k: int| 0 <= k < all.len() && all[k] == w;
                assert(rest[k] == w);
                assert(rest.contains(w));
            }
        }
    } else {
        assert(history.contains(window)) by {
            assert(history[history.len() - 1] == window);
        }
    }
}

/// The focus goes back to the window that had it last: of the windows in the
/// history that are in the order, none comes later. It goes nowhere only when
/// no window of the history is in the order.
pub proof fn focus_returns_to_the_latest_window(history: Seq<u64>, order: Seq<u64>)
    ensures
        match latest_in(history, order) {
            Some(w) => order.contains(w) && exists|k: int|
                {
                    &&& 0 <= k < history.len()
                    &&& #[trigger] history[k] == w
                    &&& forall|j: int| k < j < history.len() ==> !order.contains(#[trigger] history[j])
                },
            None => forall|j: int| 0 <= j < history.len() ==> !order.contains(#[trigger] history[j]),
        },
    decreases history.len(),
{
    if history.len() > 0 {
        let rest = history.drop_last();
        focus_returns_to_the_latest_window(rest, order);
        if order.contains(history.last()) {
            assert(history[history.len() - 1] == history.last());
        } else {
            match latest_in(rest, order) {
                Some(w) => {
                    let k = choose|k: int|
                        {
                            &&& 0 <= k < rest.len()
                            &&& #[trigger] rest[k] == w
                            &&& forall|j: int|
                                k < j < rest.len() ==> !order.contains(#[trigger] rest[j])
                        };
                    assert(history[k] == w);
                    assert forall|j: int| k < j < history.len() implies !order.contains(
                        #[trigger] history[j],
                    ) by {
                        if j < rest.len() {
                            assert(rest[j] == history[j]);
                        }
                    }
                },
                None => {
                    assert forall|j: int| 0 <= j < history.len() implies !order.contains(
                        #[trigger] history[j],
                    ) by {
                        if j < rest.len() {
                            assert(rest[j] == history[j]);
                        }
                    }
                },
            }
        }
    }
}

/// When a window that has just got the focus closes, the focus returns to the
/// window that had it before.
pub proof fn closing_returns_the_focus(
    history: Seq<u64>,
    earlier: u64,
    closed: u64,
    order: Seq<u64>,
    alive: Seq<u64>,
)
    requires
        earlier != closed,
        alive.contains(earlier),
        order.contains(earlier),
        !alive.contains(closed),
    ensures
        latest_in(
            windows::only_alive(focused_last(focused_last(history, earlier), closed), alive),
            order,
        ) == Some(earlier),
{
    reveal(Seq::filter);
    let first = focused_last(history, earlier);
    let both = focused_last(first, closed);
    assert(first.last() == earlier);
    assert(both == windows::without(first, closed).push(closed));
    let kept = windows::without(first, closed);
    assert(kept == windows::without(first.drop_last(), closed).push(earlier));
    assert(both.drop_last() =~= kept);
    assert(kept.last() == earlier);
    let left = windows::only_alive(both, alive);
    assert(left == windows::only_alive(kept, alive));
    assert(left == windows::only_alive(kept.drop_last(), alive).push(earlier));
    assert(left.last() == earlier);
}

/// Getting the focus puts a window behind all others in the history and leaves
/// the order of those as it was.
pub proof fn focusing_keeps_the_order_of_the_others(history: Seq<u64>, window: u64)
    ensures
        windows::without(focused_last(history, window), window) == windows::without(
            history,
            window,
        ),
        focused_last(history, window).len() > 0,
        focused_last(history, window).last() == window,
{
    reveal(Seq::filter);
    let rest = windows::without(history, window);
    if !(history.len() > 0 && history.last() == window) {
        assert(rest.push(window).drop_last() =~= rest);
        windows::lemma_filter(history, windows::other_than(window));
        assert forall|i: int| 0 <= i < rest.len() implies (windows::other_than(window))(
            #[trigger] rest[i],
        ) by {
            assert(rest.contains(rest[i]));
        }
        windows::lemma_filter_all(rest, windows::other_than(window));
    }
}

/// The window that has the focus after `steps` steps forward.
pub open spec fn focus_after(order: Seq<u64>, window: u64, steps: nat) -> Option<u64>
    decreases steps,
{
    if steps == 0 {
        Some(window)
    } else {
        match focus_after(order, window, (steps - 1) as nat) {
            Some(w) => next_focus(order, Focus::Window(w), true),
            None => None,
        }
    }
}

/// A step forward focuses the window after the focused one, a step back the one
/// before it, around the ends; without a focused window in the order the first
/// one gets the focus. With fewer than two windows nothing happens.
pub proof fn focus_steps_to_the_neighbour(order: Seq<u64>, i: int, stranger: u64, forward: bool)
    requires
        order.no_duplicates(),
        0 <= i < order.len(),
        !order.contains(stranger),
    ensures
        ({
            let n = order.len() as int;
            &&& n >= 2 ==> {
                &&& next_focus(order, Focus::Window(order[i]), true) == Some(order[(i + 1) % n])
                &&& next_focus(order, Focus::Window(order[i]), false) == Some(
                    order[(i + n - 1) % n],
                )
                &&& next_focus(order, Focus::Window(stranger), forward) == Some(order[0])
                &&& next_focus(order, Focus::Nothing, forward) == Some(order[0])
                &&& next_focus(order, Focus::Other, forward) == Some(order[0])
            }
            &&& n < 2 ==> next_focus(order, Focus::Window(order[i]), forward) is None
        }),
{
    tiling::neighbours_are_one_place_apart(order.len() as int, i);
    assert(windows::is_first_at(order, order[i], i));
    windows::lemma_position(order, order[i], i);
}

/// As many steps forward as there are windows visit every window exactly once
/// and end where they began: the window at place `j` is reached after just one
/// number of steps.
pub proof fn focus_visits_every_window(order: Seq<u64>, i: int, j: int)
    requires
        order.no_duplicates(),
        order.len() >= 2,
        0 <= i < order.len(),
        0 <= j < order.len(),
    ensures
        focus_after(order, order[i], order.len()) == Some(order[i]),
        exists|k: nat|
            k < order.len() && #[trigger] focus_after(order, order[i], k) == Some(order[j]) && forall|
                other: nat,
            |
                other < order.len() && #[trigger] focus_after(order, order[i], other) == Some(
                    order[j],
                ) ==> other == k,
{
    let n = order.len() as int;
    lemma_focus_after(order, i, order.len());
    vstd::arithmetic::div_mod::lemma_mod_add_multiples_vanish(i, n);
    vstd::arithmetic::div_mod::lemma_small_mod(i as nat, n as nat);
    let k = if j >= i {
        (j - i) as nat
    } else {
        (j - i + n) as nat
    };
    lemma_focus_after(order, i, k);
    lemma_around(n, i, k as int);
    assert(focus_after(order, order[i], k) == Some(order[j]));
    assert forall|other: nat|
        other < order.len() && #[trigger] focus_after(order, order[i], other) == Some(
            order[j],
        ) implies other == k by {
        lemma_focus_after(order, i, other);
        lemma_around(n, i, other as int);
    }
}

proof fn lemma_around(n: int, i: int, k: int)
    requires
        0 <= i < n,
        0 <= k < n,
    ensures
        (i + k) % n == (if i + k < n {
            i + k
        } else {
            i + k - n
        }),
{
    if i + k < n {
        vstd::arithmetic::div_mod::lemma_small_mod((i + k) as nat, n as nat);
    } else {
        vstd::arithmetic::div_mod::lemma_small_mod((i + k - n) as nat, n as nat);
        vstd::arithmetic::div_mod::lemma_mod_add_multiples_vanish(i + k - n, n);
    }
}

proof fn lemma_focus_after(order: Seq<u64>, i: int, k: nat)
    requires
        order.no_duplicates(),
        order.len() >= 2,
        0 <= i < order.len(),
    ensures
        focus_after(order, order[i], k) == Some(order[(i + k) % order.len() as int]),
    decreases k,
{
    let n = order.len() as int;
    if k == 0 {
        vstd::arithmetic::div_mod::lemma_small_mod(i as nat, n as nat);
    } else {
        lemma_focus_after(order, i, (k - 1) as nat);
        let at = (i + k - 1) % n;
        vstd::arithmetic::div_mod::lemma_mod_bound(i + k - 1, n);
        assert(windows::is_first_at(order, order[at], at));
        windows::lemma_position(order, order[at], at);
        tiling::neighbours_are_one_place_apart(n, at);
        vstd::arithmetic::div_mod::lemma_add_mod_noop_right(1, i + k - 1, n);
    }
}

/// The windows of a list of workspaces without one are those of the other
/// workspaces.
pub proof fn windows_of_the_other_workspaces(
    workspaces: Seq<Workspace>,
    skip: int,
    n: int,
    window: u64,
)
    requires
        0 <= n <= workspaces.len(),
    ensures
        windows_but(workspaces, skip, n).contains(window) <==> exists|i: int|
            0 <= i < n && i != skip && (#[trigger] workspaces[i]).tiling.order@.contains(window),
    decreases n,
{
    broadcast use vstd::seq_lib::group_seq_properties;

    if n > 0 {
        windows_of_the_other_workspaces(workspaces, skip, n - 1, window);
        if windows_but(workspaces, skip, n - 1).contains(window) {
            let i = choose|i: int|
                0 <= i < n - 1 && i != skip && (
                #[trigger] workspaces[i]).tiling.order@.contains(window);
            assert(workspaces[i].tiling.order@.contains(window));
        }
        assert(n - 1 != skip ==> workspaces[n - 1].tiling.order@.contains(window)
            ==> windows_but(workspaces, skip, n).contains(window));
    }
}

/// The focus stays if and only if it is on something that is no window, or on a
/// live window of the active workspace.
pub proof fn focus_stays_where_it_may(order: Seq<u64>, alive: Seq<u64>, w: u64)
    ensures
        !focus_ok(Focus::Nothing, order, alive),
        focus_ok(Focus::Other, order, alive),
        focus_ok(Focus::Window(w), order, alive) <==> alive.contains(w) && order.contains(w),
{
}

/// A workspace keeps everything when another one goes; its position is that in
/// the list without the other one. A slide goes on between the same workspaces,
/// and ends with either of them.
pub proof fn positions_follow_a_removal(
    all: Seq<Workspace>,
    idx: int,
    k: int,
    slide: WorkspaceSlide,
)
    requires
        0 <= idx < all.len(),
        0 <= k < all.len(),
        k != idx,
        slide.from_idx < all.len(),
        slide.to_idx < all.len(),
    ensures
        all.remove(idx)[after_removal(idx, k)] == all[k],
        0 <= after_removal(idx, k) < all.len() - 1,
        slide_after_removal(Some(slide), idx) is None <==> slide.from_idx == idx || slide.to_idx
            == idx,
        slide_after_removal(None, idx) is None,
        slide_after_removal(Some(slide), idx) matches Some(s) ==> {
            &&& s.start == slide.start
            &&& s.duration == slide.duration
            &&& all.remove(idx)[s.from_idx as int] == all[slide.from_idx as int]
            &&& all.remove(idx)[s.to_idx as int] == all[slide.to_idx as int]
        },
{
}

/// When a workspace goes, the active one stays active; when the active one goes,
/// the first of the others becomes active.
pub proof fn first_other_workspace_takes_over(set: WorkspaceSet, idx: int, k: int)
    requires
        set.wf(),
        0 <= idx < set.workspaces@.len(),
        0 <= k < set.workspaces@.len(),
        k != idx,
    ensures
        successor(set, idx) != idx,
        idx != set.active ==> successor(set, idx) == set.active,
        idx == set.active ==> 0 <= successor(set, idx) <= k && after_removal(
            idx,
            successor(set, idx),
        ) == 0,
{
}

/// The windows of a workspace that goes are put behind those of the one that
/// takes over, in their order.
pub proof fn adopted_windows_come_last(order: Seq<u64>, orphans: Seq<u64>, alive: Seq<u64>)
    requires
        (order + orphans).no_duplicates(),
        forall|i: int|
            0 <= i < order.len() + orphans.len() ==> alive.contains(
                #[trigger] (order + orphans)[i],
            ),
    ensures
        adopt(order, orphans, alive) == order + orphans,
    decreases orphans.len(),
{
    let all = order + orphans;
    if orphans.len() == 0 {
        assert(all =~= order);
    } else {
        let before = order + orphans.drop_last();
        assert(before =~= all.drop_last());
        lemma_taking_one_in(all, alive);
        assert forall|i: int| 0 <= i < before.len() implies alive.contains(#[trigger] before[i]) by {
            assert(before[i] == all[i]);
        }
        adopted_windows_come_last(order, orphans.drop_last(), alive);
        assert(orphans.last() == all.last());
    }
}

/// Adding the last window of an order to those in front of it gives the order.
proof fn lemma_taking_one_in(all: Seq<u64>, alive: Seq<u64>)
    requires
        all.len() > 0,
        all.no_duplicates(),
        forall|i: int| 0 <= i < all.len() ==> alive.contains(#[trigger] all[i]),
    ensures
        all.drop_last().no_duplicates(),
        windows::with_at_end(windows::only_alive(all.drop_last(), alive), all.last()) == all,
{
    let before = all.drop_last();
    let keep = windows::one_of(alive);
    assert forall|i: int| 0 <= i < before.len() implies keep(#[trigger] before[i]) by {
        assert(before[i] == all[i]);
    }
    windows::lemma_filter_all(before, keep);
    if before.contains(all.last()) {
        let k = choose|k: int| 0 <= k < before.len() && before[k] == all.last();
        assert(all[k] == all[all.len() - 1]);
    }
    assert(before.push(all.last()) =~= all);
}

/// A switch that slides does so from the workspace that was active to the one
/// that is, starting now; the slide ends once it has run for its length, and not
/// before.
pub proof fn slides_run_between_the_two_workspaces(
    before: Desktop,
    after: Desktop,
    idx: usize,
    now: u64,
    duration: u64,
    actions: Seq<Action>,
    later: Desktop,
    time: u64,
    steps: Seq<Action>,
)
    requires
        switched(before, after, idx, now, Some(duration), actions),
        before.workspaces.active != idx,
        finalized(after, later, time, steps),
        now + duration <= u64::MAX,
    ensures
        after.slide matches Some(s) && s.from_idx == before.workspaces.active && s.to_idx == idx
            && s.start == now && s.duration == duration,
        later.slide is None <==> time >= now + duration,
        later.slide is Some ==> later.slide == after.slide && steps.len() == 0,
        after.workspaces.active == idx,
{
}

/// A window that is moved is last on the workspace that it is moved to, unless
/// it was there before, and not on the one that it comes from.
pub proof fn moved_window_comes_last(
    before: Desktop,
    after: Desktop,
    window: u64,
    idx: int,
    alive: Seq<u64>,
)
    requires
        before.wf(),
        moved_window(before, after, window, idx, alive),
        0 <= idx,
        idx != before.workspaces.active,
    ensures
        ({
            let was = before.workspaces.workspaces@;
            let now = after.workspaces.workspaces@;
            let from = before.workspaces.active as int;
            &&& now[idx].tiling.order@.contains(window)
            &&& !now[from].tiling.order@.contains(window)
            &&& idx >= was.len() || !was[idx].tiling.order@.contains(window)
                ==> now[idx].tiling.order@.last() == window
            &&& forall|w: u64|
                w != window ==> (now[from].tiling.order@.contains(w) <==> #[trigger] was[from].tiling.order@.contains(
                    w,
                ))
        }),
{
    let was = before.workspaces.workspaces@;
    let now = after.workspaces.workspaces@;
    let from = before.workspaces.active as int;
    let old_order = if idx < was.len() {
        was[idx].tiling.order@
    } else {
        Seq::<u64>::empty()
    };
    let kept = windows::only_alive(old_order, alive);
    windows::added_window_comes_last(kept, window);
    windows::lemma_filter(old_order, windows::one_of(alive));
    windows::lemma_filter(was[from].tiling.order@, windows::other_than(window));
}

/// A window that joins the active workspace is last there, unless it was there
/// and alive before; those that are gone leave it.
pub proof fn joining_window_comes_last(
    before: Desktop,
    after: Desktop,
    window: u64,
    alive: Seq<u64>,
    w: u64,
)
    requires
        joined(before, after, window, alive),
    ensures
        after.active().tiling.order@.contains(window),
        !before.active().tiling.order@.contains(window) ==> after.active().tiling.order@.last()
            == window,
        w != window ==> (after.active().tiling.order@.contains(w)
            <==> before.active().tiling.order@.contains(w) && alive.contains(w)),
        after.workspaces.active == before.workspaces.active,
{
    let order = before.active().tiling.order@;
    let kept = windows::only_alive(order, alive);
    windows::lemma_filter(order, windows::one_of(alive));
    windows::added_window_comes_last(kept, window);
    let now = after.active().tiling.order@;
    if !kept.contains(window) && w != window {
        vstd::seq_lib::lemma_seq_contains_after_push(kept, window, w);
    }
}

/// A change of the active tiling order leaves everything else as it is: the other
/// workspaces, and of the active one its identity, its name and its parameters.
pub proof fn tiling_order_changes_alone(before: Desktop, after: Desktop, i: int)
    requires
        before.wf(),
        only_active_order_changed(before, after),
        0 <= i < before.workspaces.workspaces@.len(),
    ensures
        ({
            let was = before.workspaces.workspaces@[i];
            let now = after.workspaces.workspaces@[i];
            &&& now.id == was.id
            &&& now.name == was.name
            &&& now.tiling.params == was.tiling.params
            &&& i != before.workspaces.active ==> now.tiling.order == was.tiling.order
        }),
        after.workspaces.workspaces@.len() == before.workspaces.workspaces@.len(),
        after.workspaces.active == before.workspaces.active,
        after.workspaces.next_id == before.workspaces.next_id,
        after.workspaces.gaps == before.workspaces.gaps,
{
}

/// A workspace that stays when another one goes keeps its identity, its name, its
/// parameters, and unless it takes over its windows; the one that takes over is
/// the active one.
pub proof fn other_workspaces_survive_a_removal(
    before: Desktop,
    after: Desktop,
    idx: int,
    alive: Seq<u64>,
    k: int,
)
    requires
        before.wf(),
        before.workspaces.workspaces@.len() > 1,
        removed_workspace(before, after, idx, alive),
        0 <= idx < before.workspaces.workspaces@.len(),
        0 <= k < before.workspaces.workspaces@.len(),
        k != idx,
    ensures
        ({
            let was = before.workspaces.workspaces@;
            let now = after.workspaces.workspaces@;
            let place = if k < idx {
                k
            } else {
                k - 1
            };
            &&& now.len() == was.len() - 1
            &&& now[place].id == was[k].id
            &&& now[place].name == was[k].name
            &&& now[place].tiling.params == was[k].tiling.params
            &&& place != after.workspaces.active ==> now[place].tiling.order == was[k].tiling.order
            &&& k == before.workspaces.active ==> after.workspaces.active == place
            &&& idx == before.workspaces.active ==> after.workspaces.active == 0
            &&& after.workspaces.next_id == before.workspaces.next_id
            &&& after.workspaces.gaps == before.workspaces.gaps
        }),
{
}

/// The last workspace that goes is replaced by an empty one with its windows,
/// under the next identity and name.
pub proof fn last_workspace_is_replaced(before: Desktop, after: Desktop, alive: Seq<u64>)
    requires
        before.wf(),
        before.workspaces.workspaces@.len() == 1,
        removed_workspace(before, after, 0, alive),
    ensures
        after.workspaces.workspaces@.len() == 1,
        after.workspaces.active == 0,
        after.active().id.0 == before.workspaces.next_id,
        after.active().name@ == crate::text::decimal(2),
        after.active().tiling.params == crate::params::LayoutParams::fresh(before.workspaces.gaps),
        after.workspaces.next_id == before.workspaces.next_id + 1,
{
}

/// Moving a window leaves the identity, the name and the parameters of every
/// workspace, and the windows of all but the two that it is moved between.
pub proof fn moving_touches_two_workspaces(
    before: Desktop,
    after: Desktop,
    window: u64,
    idx: int,
    alive: Seq<u64>,
    i: int,
)
    requires
        before.wf(),
        moved_window(before, after, window, idx, alive),
        0 <= i < before.workspaces.workspaces@.len(),
    ensures
        ({
            let was = before.workspaces.workspaces@[i];
            let now = after.workspaces.workspaces@[i];
            &&& now.id == was.id
            &&& now.name == was.name
            &&& now.tiling.params == was.tiling.params
            &&& i != before.workspaces.active && i != idx ==> now.tiling.order == was.tiling.order
            &&& after.workspaces.active == before.workspaces.active
        }),
{
}

} // verus!
