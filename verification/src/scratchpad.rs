//! Scratchpads: windows that are stashed away and brought back on demand.

use crate::action;
use crate::action::{Action, Focus};
use crate::binary64;
use crate::binary64::{Binary64, ONE};
use crate::desktop;
use crate::desktop::Desktop;
use crate::geometry::{Rect, Size};
use crate::text;
use crate::windows;
use crate::workspace::WorkspaceSet;
use vstd::prelude::*;

verus! {

/// State of a named scratchpad.
#[derive(Debug)]
pub enum NamedScratchpad {
    /// The command has been run, and the scratchpad waits for a window of the
    /// application. The fractions of the usable area give the size that the
    /// window will be asked to take.
    Pending { app_id: String, width_frac: Option<Binary64>, height_frac: Option<Binary64> },
    /// The window is on the screen.
    Shown(u64),
    /// The window is stashed away.
    Hidden(u64),
}

/// A named scratchpad.
#[derive(Debug)]
pub struct NamedSlot {
    pub name: String,
    pub state: NamedScratchpad,
}

/// State of a named scratchpad, with the application id as its characters.
pub ghost enum NamedState {
    Pending { app_id: Seq<char>, width_frac: Option<Binary64>, height_frac: Option<Binary64> },
    Shown(u64),
    Hidden(u64),
}

impl NamedScratchpad {
    /// The state that this value stands for.
    pub open spec fn state(self) -> NamedState {
        match self {
            NamedScratchpad::Pending { app_id, width_frac, height_frac } => NamedState::Pending {
                app_id: app_id@,
                width_frac,
                height_frac,
            },
            NamedScratchpad::Shown(w) => NamedState::Shown(w),
            NamedScratchpad::Hidden(w) => NamedState::Hidden(w),
        }
    }
}

/// Whether the slot at `i` has the given name.
pub open spec fn named_at(named: Seq<NamedSlot>, name: Seq<char>, i: int) -> bool {
    0 <= i < named.len() && named[i].name@ == name
}

/// State of the scratchpad with the given name, if there is one.
pub open spec fn lookup(named: Seq<NamedSlot>, name: Seq<char>) -> Option<NamedState> {
    if exists|i: int| named_at(named, name, i) {
        Some(named[choose|i: int| named_at(named, name, i)].state.state())
    } else {
        None
    }
}

/// Names are distinct.
pub open spec fn distinct_names(named: Seq<NamedSlot>) -> bool {
    forall|i: int, j: int|
        0 <= i < j < named.len() ==> (#[trigger] named[i]).name@ != (#[trigger] named[j]).name@
}

/// Whether a slot waits for the given application.
pub open spec fn waits_for(slot: NamedSlot, app_id: Seq<char>) -> bool {
    slot.state matches NamedScratchpad::Pending { app_id: wanted, .. } && wanted@ == app_id
}

/// Whether the first slot that waits for the application is at `i`.
pub open spec fn first_waiting(named: Seq<NamedSlot>, app_id: Seq<char>, i: int) -> bool {
    &&& 0 <= i < named.len()
    &&& waits_for(named[i], app_id)
    &&& forall|j: int| 0 <= j < i ==> !waits_for(#[trigger] named[j], app_id)
}

/// Size that a claimed window is to have: the given fractions of the area, its
/// own size where there is none.
pub open spec fn claimed_size(slot: NamedSlot, area: Rect, natural: Size) -> Size {
    match slot.state {
        NamedScratchpad::Pending { width_frac, height_frac, .. } => Size {
            w: match width_frac {
                Some(f) => f.spec_scale_i32(area.w),
                None => natural.w,
            },
            h: match height_frac {
                Some(f) => f.spec_scale_i32(area.h),
                None => natural.h,
            },
        },
        _ => natural,
    }
}

/// Whether a slot gives a size for the window it waits for.
pub open spec fn gives_size(slot: NamedSlot) -> bool {
    slot.state matches NamedScratchpad::Pending { width_frac, height_frac, .. } && (
    width_frac is Some || height_frac is Some)
}

/// Steps that bring a stashed window back.
pub open spec fn show_steps(window: u64, area: Option<Rect>, size: Size) -> Seq<Action> {
    (match area {
        Some(area) => seq![Action::Show { window, at: action::centered_at(area, size) }],
        None => Seq::<Action>::empty(),
    }) + seq![Action::Raise { window }, Action::RaiseFloating, Action::Focus { window }]
}

/// Steps that put a claimed window in place.
pub open spec fn claim_steps(
    slot: NamedSlot,
    window: u64,
    area: Option<Rect>,
    natural: Size,
) -> Seq<Action> {
    (match area {
        Some(area) => {
            let size = claimed_size(slot, area, natural);
            (if gives_size(slot) {
                seq![Action::Resize { window, size }]
            } else {
                Seq::<Action>::empty()
            }) + seq![Action::Show { window, at: action::centered_at(area, size) }]
        },
        None => Seq::<Action>::empty(),
    }) + seq![Action::Raise { window }, Action::RaiseFloating]
}

/// What a toggle makes of a named scratchpad. A window that is gone counts as
/// none.
pub open spec fn toggled(
    state: Option<NamedState>,
    alive: Seq<u64>,
    fresh: NamedState,
) -> NamedState {
    match state {
        Some(NamedState::Pending { .. }) => state->0,
        Some(NamedState::Shown(w)) if alive.contains(w) => NamedState::Hidden(w),
        Some(NamedState::Hidden(w)) if alive.contains(w) => NamedState::Shown(w),
        _ => fresh,
    }
}

/// Steps that go with a toggle.
pub open spec fn toggle_steps(
    state: Option<NamedState>,
    alive: Seq<u64>,
    area: Option<Rect>,
    size: Size,
) -> Seq<Action> {
    match state {
        Some(NamedState::Pending { .. }) => Seq::empty(),
        Some(NamedState::Shown(w)) if alive.contains(w) => seq![Action::Unmap { window: w }],
        Some(NamedState::Hidden(w)) if alive.contains(w) => show_steps(w, area, size),
        _ => seq![Action::Spawn],
    }
}

/// Whether the two lists of workspaces agree but for `window`, which is in no
/// workspace of the second.
pub open spec fn stashed(before: WorkspaceSet, after: WorkspaceSet, window: u64) -> bool {
    &&& after.active == before.active
    &&& after.next_id == before.next_id
    &&& after.gaps == before.gaps
    &&& after.workspaces@.len() == before.workspaces@.len()
    &&& forall|i: int|
        0 <= i < before.workspaces@.len() ==> {
            let now = #[trigger] after.workspaces@[i];
            let was = before.workspaces@[i];
            &&& now.id == was.id
            &&& now.name == was.name
            &&& now.tiling.params == was.tiling.params
            &&& now.tiling.order@ == windows::without(was.tiling.order@, window)
        }
}

/// Whether `after` is `before` with `window` at the end of the active tiling
/// order and floating for good.
pub open spec fn brought_back(before: Desktop, after: Desktop, window: u64, alive: Seq<u64>) -> bool {
    &&& desktop::only_active_order_changed(before, after)
    &&& after.active().tiling.order@ == windows::with_at_end(
        windows::only_alive(before.active().tiling.order@, alive),
        window,
    )
    &&& after.force_floating@ == windows::with_at_end(before.force_floating@, window)
}

/// The list with the slot of that name, if any, replaced by a new one.
proof fn lemma_lookup_replaced(
    before: Seq<NamedSlot>,
    after: Seq<NamedSlot>,
    name: Seq<char>,
    slot: NamedSlot,
)
    requires
        distinct_names(before),
        slot.name@ == name,
        after == before.push(slot) && (forall|i: int| !named_at(before, name, i)) || (exists|i: int|
            named_at(before, name, i) && after == before.remove(i).push(slot)),
    ensures
        distinct_names(after),
        lookup(after, name) == Some(slot.state.state()),
        forall|other: Seq<char>|
            other != name ==> #[trigger] lookup(after, other) == lookup(before, other),
{
    let last = after.len() - 1;
    if forall|i: int| !named_at(before, name, i) {
        assert forall|i: int, j: int| 0 <= i < j < after.len() implies (
        #[trigger] after[i]).name@ != (#[trigger] after[j]).name@ by {
            assert(!named_at(before, name, i));
            if j < before.len() {
                assert(before[i].name@ != before[j].name@);
            }
        }
        assert forall|other: Seq<char>| other != name implies #[trigger] lookup(after, other)
            == lookup(before, other) by {
            assert forall|i: int| named_at(after, other, i) <==> named_at(before, other, i) by {}
            if exists|i: int| named_at(before, other, i) {
                let a = choose|i: int| named_at(before, other, i);
                let b = choose|i: int| named_at(after, other, i);
                assert(named_at(after, other, a));
                assert(named_at(before, other, b));
                lemma_same_slot(before, other, a, b);
            } else {
                assert(forall|i: int| !named_at(after, other, i));
            }
        }
    } else {
        let at = choose|i: int|
            named_at(before, name, i) && after == before.remove(i).push(slot);
        assert forall|i: int, j: int| 0 <= i < j < after.len() implies (
        #[trigger] after[i]).name@ != (#[trigger] after[j]).name@ by {
            let bi = if i < at {
                i
            } else {
                i + 1
            };
            assert(after[i] == before[bi]);
            if bi < at {
                assert(before[bi].name@ != before[at].name@);
            } else {
                assert(before[at].name@ != before[bi].name@);
            }
            if j < last {
                let bj = if j < at {
                    j
                } else {
                    j + 1
                };
                assert(after[j] == before[bj]);
                assert(before[bi].name@ != before[bj].name@);
            }
        }
        assert forall|other: Seq<char>| other != name implies #[trigger] lookup(after, other)
            == lookup(before, other) by {
            if exists|i: int| named_at(before, other, i) {
                let a = choose|i: int| named_at(before, other, i);
                let moved = if a < at {
                    a
                } else {
                    a - 1
                };
                assert(after[moved] == before[a]);
                assert(named_at(after, other, moved));
                let b = choose|i: int| named_at(after, other, i);
                lemma_same_slot(after, other, moved, b);
            } else {
                assert forall|i: int| !named_at(after, other, i) by {
                    if named_at(after, other, i) {
                        let back = if i < at {
                            i
                        } else {
                            i + 1
                        };
                        assert(after[i] == before[back]);
                        assert(named_at(before, other, back));
                    }
                }
            }
        }
    }
    assert(named_at(after, name, last));
    let found = choose|i: int| named_at(after, name, i);
    lemma_same_slot(after, name, last, found);
}

/// Only one slot has a given name.
proof fn lemma_same_slot(named: Seq<NamedSlot>, name: Seq<char>, a: int, b: int)
    requires
        distinct_names(named),
        named_at(named, name, a),
        named_at(named, name, b),
    ensures
        a == b,
{
    if a < b {
        assert(named[a].name@ != named[b].name@);
    } else if b < a {
        assert(named[b].name@ != named[a].name@);
    }
}

impl Desktop {
    /// Takes a window out of every tiling order.
    pub fn remove_everywhere(&mut self, window: u64)
        requires
            old(self).wf(),
        ensures
            final(self).wf(),
            stashed(old(self).workspaces, final(self).workspaces, window),
            old(self).same_but_workspaces(*final(self)),
            final(self).slide == old(self).slide,
    {
        let n: usize = self.workspaces.workspaces.len();
        let mut i: usize = 0;
        while i < n
            invariant
                i <= n,
                n == self.workspaces.workspaces@.len(),
                n == old(self).workspaces.workspaces@.len(),
                old(self).workspaces.wf(),
                self.workspaces.wf(),
                self.workspaces.active == old(self).workspaces.active,
                self.workspaces.next_id == old(self).workspaces.next_id,
                self.workspaces.gaps == old(self).workspaces.gaps,
                old(self).same_but_workspaces(*self),
                self.slide == old(self).slide,
                forall|k: int|
                    i <= k < n ==> #[trigger] self.workspaces.workspaces@[k]
                        == old(self).workspaces.workspaces@[k],
                forall|k: int|
                    0 <= k < i ==> {
                        let now = #[trigger] self.workspaces.workspaces@[k];
                        let was = old(self).workspaces.workspaces@[k];
                        &&& now.id == was.id
                        &&& now.name == was.name
                        &&& now.tiling.params == was.tiling.params
                        &&& now.tiling.order@ == windows::without(was.tiling.order@, window)
                    },
            decreases n - i,
        {
            let ghost before = self.workspaces;
            self.workspaces.workspaces[i].tiling.remove(window);
            proof {
                desktop::lemma_one_changed(before, self.workspaces, i as int);
            }
            i = i + 1;
        }
    }

    /// Puts a window that comes out of a scratchpad back into the active
    /// tiling order, floating for good.
    fn bring_back(&mut self, window: u64, alive: &[u64])
        requires
            old(self).wf(),
        ensures
            final(self).wf(),
            brought_back(*old(self), *final(self), window, alive@),
            final(self).scratchpad == old(self).scratchpad,
            final(self).named == old(self).named,
            final(self).focus_history == old(self).focus_history,
            final(self).slide == old(self).slide,
    {
        if !windows::contains(self.force_floating.as_slice(), window) {
            self.force_floating.push(window);
        }
        let current: usize = self.workspaces.active_index();
        let ghost before = self.workspaces;
        self.workspaces.workspaces[current].tiling.push(window, alive);
        proof {
            desktop::lemma_one_changed(before, self.workspaces, current as int);
        }
    }

    /// Toggles the anonymous scratchpad. A window in it comes back, centered
    /// and focused; with nothing in it the focused window is stashed away.
    ///
    /// `area` is the usable area of the first output, `size` the size of the
    /// window in the scratchpad.
    pub fn toggle_scratchpad(
        &mut self,
        focus: Focus,
        area: Option<Rect>,
        size: Size,
        alive: &[u64],
    ) -> (actions: Vec<Action>)
        requires
            old(self).wf(),
            area is Some && old(self).scratchpad is Some ==> action::can_center(area->0, size),
        ensures
            final(self).wf(),
            final(self).named == old(self).named,
            final(self).focus_history == old(self).focus_history,
            final(self).slide == old(self).slide,
            match (old(self).scratchpad, focus) {
                (Some(window), _) => {
                    &&& final(self).scratchpad is None
                    &&& brought_back(*old(self), *final(self), window, alive@)
                    &&& actions@ == show_steps(window, area, size)
                },
                (None, Focus::Window(window)) => {
                    &&& final(self).scratchpad == Some(window)
                    &&& stashed(old(self).workspaces, final(self).workspaces, window)
                    &&& final(self).force_floating == old(self).force_floating
                    &&& actions@ == seq![Action::Unmap { window }]
                },
                _ => *final(self) == *old(self) && actions@.len() == 0,
            },
    {
        let mut actions: Vec<Action> = Vec::new();
        if let Some(window) = self.scratchpad {
            self.scratchpad = None;
            let ghost cleared = *self;
            self.bring_back(window, alive);
            assert(brought_back(cleared, *self, window, alive@));
            push_show_steps(&mut actions, window, area, size);
            assert(actions@ =~= show_steps(window, area, size));
            return actions;
        }
        if let Focus::Window(window) = focus {
            self.remove_everywhere(window);
            self.scratchpad = Some(window);
            actions.push(Action::Unmap { window });
            assert(actions@ =~= seq![Action::Unmap { window }]);
        }
        actions
    }

    /// Position of the slot with the given name.
    fn find_named(&self, name: &str) -> (r: Option<usize>)
        ensures
            r is Some <==> exists|i: int| named_at(self.named@, name@, i),
            r is Some ==> named_at(self.named@, name@, r->0 as int),
    {
        let mut i: usize = 0;
        while i < self.named.len()
            invariant
                i <= self.named@.len(),
                forall|k: int| 0 <= k < i ==> (#[trigger] self.named@[k]).name@ != name@,
            decreases self.named@.len() - i,
        {
            if text::same_str(self.named[i].name.as_str(), name) {
                assert(named_at(self.named@, name@, i as int));
                return Some(i);
            }
            i = i + 1;
        }
        assert forall|k: int| !named_at(self.named@, name@, k) by {}
        None
    }

    /// Sets the state of the named scratchpad, in place of an earlier one.
    fn set_named(&mut self, name: &str, state: NamedScratchpad)
        requires
            old(self).wf(),
        ensures
            final(self).wf(),
            lookup(final(self).named@, name@) == Some(state.state()),
            forall|other: Seq<char>|
                other != name@ ==> #[trigger] lookup(final(self).named@, other) == lookup(
                    old(self).named@,
                    other,
                ),
            final(self).workspaces == old(self).workspaces,
            final(self).scratchpad == old(self).scratchpad,
            final(self).force_floating == old(self).force_floating,
            final(self).focus_history == old(self).focus_history,
            final(self).slide == old(self).slide,
    {
        let ghost before = self.named@;
        let at: Option<usize> = self.find_named(name);
        if let Some(i) = at {
            self.named.remove(i);
        }
        let chars: Vec<char> = text::chars_of(name);
        let slot = NamedSlot { name: text::string_of(chars.as_slice()), state };
        let ghost added = slot;
        self.named.push(slot);
        proof {
            if let Some(i) = at {
                assert(self.named@ =~= before.remove(i as int).push(added));
                assert(named_at(before, name@, i as int));
            } else {
                assert(self.named@ =~= before.push(added));
            }
            lemma_lookup_replaced(before, self.named@, name@, added);
        }
    }

    /// Toggles a named scratchpad. Without a window, or when its window is
    /// gone, the command is run and the scratchpad waits for a window of the
    /// application; a second toggle while it waits does nothing. Otherwise the
    /// window is stashed away or brought back.
    ///
    /// `area` is the usable area of the first output, `size` the size of the
    /// window in the scratchpad.
    pub fn toggle_named_scratchpad(
        &mut self,
        name: &str,
        app_id: &str,
        width_frac: Option<Binary64>,
        height_frac: Option<Binary64>,
        area: Option<Rect>,
        size: Size,
        alive: &[u64],
    ) -> (actions: Vec<Action>)
        requires
            old(self).wf(),
            area is Some && (lookup(old(self).named@, name@) is Some && lookup(
                old(self).named@,
                name@,
            )->0 is Hidden) ==> action::can_center(area->0, size),
        ensures
            final(self).wf(),
            ({
                let state = lookup(old(self).named@, name@);
                let fresh = NamedState::Pending { app_id: app_id@, width_frac, height_frac };
                let next = toggled(state, alive@, fresh);
                &&& lookup(final(self).named@, name@) == Some(next)
                &&& actions@ == toggle_steps(state, alive@, area, size)
                &&& match (state, next) {
                    (Some(NamedState::Shown(_)), NamedState::Hidden(w)) => {
                        &&& stashed(old(self).workspaces, final(self).workspaces, w)
                        &&& final(self).force_floating == old(self).force_floating
                    },
                    (Some(NamedState::Hidden(_)), NamedState::Shown(w)) => brought_back(
                        *old(self),
                        *final(self),
                        w,
                        alive@,
                    ),
                    _ => {
                        &&& final(self).workspaces == old(self).workspaces
                        &&& final(self).force_floating == old(self).force_floating
                    },
                }
            }),
            forall|other: Seq<char>|
                other != name@ ==> #[trigger] lookup(final(self).named@, other) == lookup(
                    old(self).named@,
                    other,
                ),
            final(self).scratchpad == old(self).scratchpad,
            final(self).focus_history == old(self).focus_history,
            final(self).slide == old(self).slide,
    {
        let mut actions: Vec<Action> = Vec::new();
        if let Some(i) = self.find_named(name) {
            proof {
                let found = choose|k: int| named_at(self.named@, name@, k);
                lemma_same_slot(self.named@, name@, found, i as int);
            }
            let held: Option<(u64, bool)> = match &self.named[i].state {
                NamedScratchpad::Pending { .. } => None,
                NamedScratchpad::Shown(w) => Some((*w, true)),
                NamedScratchpad::Hidden(w) => Some((*w, false)),
            };
            match held {
                None => {
                    return actions;
                },
                Some((w, shown)) => if windows::contains(alive, w) {
                    if shown {
                        self.remove_everywhere(w);
                        actions.push(Action::Unmap { window: w });
                        assert(actions@ =~= seq![Action::Unmap { window: w }]);
                        self.set_named(name, NamedScratchpad::Hidden(w));
                    } else {
                        self.bring_back(w, alive);
                        push_show_steps(&mut actions, w, area, size);
                        assert(actions@ =~= show_steps(w, area, size));
                        self.set_named(name, NamedScratchpad::Shown(w));
                    }
                    return actions;
                },
            }
        }
        let chars: Vec<char> = text::chars_of(app_id);
        self.set_named(
            name,
            NamedScratchpad::Pending {
                app_id: text::string_of(chars.as_slice()),
                width_frac,
                height_frac,
            },
        );
        actions.push(Action::Spawn);
        assert(actions@ =~= seq![Action::Spawn]);
        actions
    }

    /// Lets a scratchpad that waits for the application of a new window claim
    /// it: the window floats for good, gets the size that was asked for, is
    /// centered and joins the active tiling order. Says whether a scratchpad
    /// claimed the window.
    pub fn claim_pending_named_scratchpad(
        &mut self,
        window: u64,
        app_id: Option<&str>,
        area: Option<Rect>,
        natural: Size,
        alive: &[u64],
    ) -> (claim: (bool, Vec<Action>))
        requires
            old(self).wf(),
            forall|i: int|
                area is Some && app_id is Some && first_waiting(old(self).named@, app_id->0@, i)
                    ==> action::can_center(
                    area->0,
                    claimed_size(old(self).named@[i], area->0, natural),
                ),
        ensures
            final(self).wf(),
            claim.0 == (app_id is Some && exists|i: int|
                first_waiting(old(self).named@, app_id->0@, i)),
            !claim.0 ==> *final(self) == *old(self) && claim.1@.len() == 0,
            claim.0 ==> forall|i: int|
                first_waiting(old(self).named@, app_id->0@, i) ==> {
                    let slot = #[trigger] old(self).named@[i];
                    &&& claim.1@ == claim_steps(slot, window, area, natural)
                    &&& lookup(final(self).named@, slot.name@) == Some(NamedState::Shown(window))
                    &&& forall|other: Seq<char>|
                        other != slot.name@ ==> #[trigger] lookup(final(self).named@, other)
                            == lookup(old(self).named@, other)
                },
            claim.0 ==> brought_back(*old(self), *final(self), window, alive@),
            final(self).scratchpad == old(self).scratchpad,
            final(self).focus_history == old(self).focus_history,
            final(self).slide == old(self).slide,
    {
        let mut actions: Vec<Action> = Vec::new();
        let wanted: &str = match app_id {
            Some(id) => id,
            None => return (false, actions),
        };
        let i: usize = match self.find_waiting(wanted) {
            Some(i) => i,
            None => return (false, actions),
        };
        let ghost slot = self.named@[i as int];
        assert(first_waiting(self.named@, wanted@, i as int));
        let (width_frac, height_frac) = match &self.named[i].state {
            NamedScratchpad::Pending { app_id: _, width_frac, height_frac } => (
                *width_frac,
                *height_frac,
            ),
            _ => (None, None),
        };
        if let Some(area) = area {
            let w: i32 = match width_frac {
                Some(f) => f.scale_i32(area.w),
                None => natural.w,
            };
            let h: i32 = match height_frac {
                Some(f) => f.scale_i32(area.h),
                None => natural.h,
            };
            let size = Size { w, h };
            assert(size == claimed_size(slot, area, natural));
            if width_frac.is_some() || height_frac.is_some() {
                actions.push(Action::Resize { window, size });
            }
            actions.push(Action::Show { window, at: action::center_in(area, size) });
        }
        actions.push(Action::Raise { window });
        actions.push(Action::RaiseFloating);
        assert(actions@ =~= claim_steps(slot, window, area, natural));
        let chars: Vec<char> = text::chars_of(self.named[i].name.as_str());
        let name: String = text::string_of(chars.as_slice());
        let ghost before = *self;
        self.bring_back(window, alive);
        self.set_named(name.as_str(), NamedScratchpad::Shown(window));
        assert forall|k: int| first_waiting(old(self).named@, wanted@, k) implies k == i by {
            if k < i {
                assert(!waits_for(old(self).named@[k], wanted@));
            } else if i < k {
                assert(!waits_for(old(self).named@[i as int], wanted@));
            }
        }
        (true, actions)
    }

    fn find_waiting(&self, app_id: &str) -> (r: Option<usize>)
        ensures
            r is Some <==> exists|i: int| first_waiting(self.named@, app_id@, i),
            r is Some ==> first_waiting(self.named@, app_id@, r->0 as int),
    {
        let mut i: usize = 0;
        while i < self.named.len()
            invariant
                i <= self.named@.len(),
                forall|k: int| 0 <= k < i ==> !waits_for(#[trigger] self.named@[k], app_id@),
            decreases self.named@.len() - i,
        {
            if let NamedScratchpad::Pending { app_id: wanted, .. } = &self.named[i].state {
                if text::same_str(wanted.as_str(), app_id) {
                    assert(first_waiting(self.named@, app_id@, i as int));
                    return Some(i);
                }
            }
            i = i + 1;
        }
        None
    }

    /// Application ids that scratchpads wait for.
    pub fn pending_app_ids(&self) -> (ids: Vec<String>)
        ensures
            forall|id: Seq<char>|
                crate::tiling::awaited(ids@, Some(id)) <==> exists|i: int|
                    0 <= i < self.named@.len() && waits_for(#[trigger] self.named@[i], id),
    {
        let mut ids: Vec<String> = Vec::new();
        let mut i: usize = 0;
        while i < self.named.len()
            invariant
                i <= self.named@.len(),
                forall|k: int|
                    0 <= k < ids@.len() ==> exists|j: int|
                        0 <= j < i && waits_for(#[trigger] self.named@[j], (#[trigger] ids@[k])@),
                forall|j: int, id: Seq<char>|
                    0 <= j < i && #[trigger] waits_for(self.named@[j], id)
                        ==> crate::tiling::awaited(ids@, Some(id)),
            decreases self.named@.len() - i,
        {
            if let NamedScratchpad::Pending { app_id: wanted, .. } = &self.named[i].state {
                let chars: Vec<char> = text::chars_of(wanted.as_str());
                let copy: String = text::string_of(chars.as_slice());
                let ghost before = ids@;
                ids.push(copy);
                proof {
                    assert(waits_for(self.named@[i as int], copy@));
                    assert forall|k: int| 0 <= k < ids@.len() implies exists|j: int|
                        0 <= j < i + 1 && waits_for(
                            #[trigger] self.named@[j],
                            (#[trigger] ids@[k])@,
                        ) by {
                        if k < before.len() {
                            let j = choose|j: int|
                                0 <= j < i && waits_for(#[trigger] self.named@[j], before[k]@);
                            assert(waits_for(self.named@[j], ids@[k]@));
                        } else {
                            assert(waits_for(self.named@[i as int], ids@[k]@));
                        }
                    }
                    assert forall|j: int, id: Seq<char>|
                        0 <= j < i + 1 && #[trigger] waits_for(
                            self.named@[j],
                            id,
                        ) implies crate::tiling::awaited(ids@, Some(id)) by {
                        if j < i {
                            assert(crate::tiling::awaited(before, Some(id)));
                            let k = choose|k: int|
                                0 <= k < before.len() && Some(id) == Some((#[trigger] before[k])@);
                            assert(ids@[k] == before[k]);
                        } else {
                            assert(ids@[ids@.len() - 1]@ == id);
                        }
                    }
                }
            }
            i = i + 1;
        }
        ids
    }
}

fn push_show_steps(actions: &mut Vec<Action>, window: u64, area: Option<Rect>, size: Size)
    requires
        area is Some ==> action::can_center(area->0, size),
    ensures
        final(actions)@ == old(actions)@ + show_steps(window, area, size),
{
    if let Some(area) = area {
        actions.push(Action::Show { window, at: action::center_in(area, size) });
    }
    actions.push(Action::Raise { window });
    actions.push(Action::RaiseFloating);
    actions.push(Action::Focus { window });
    assert(actions@ =~= old(actions)@ + show_steps(window, area, size));
}

/// A scratchpad whose window lives alternates between shown and hidden, always
/// with the same window; a scratchpad that waits keeps waiting, without
/// running its command again; any other toggle starts to wait.
pub proof fn named_scratchpad_alternates(w: u64, alive: Seq<u64>, fresh: NamedState, area: Option<Rect>, size: Size)
    requires
        fresh is Pending,
    ensures
        alive.contains(w) ==> toggled(Some(NamedState::Shown(w)), alive, fresh)
            == NamedState::Hidden(w),
        alive.contains(w) ==> toggled(
            Some(toggled(Some(NamedState::Shown(w)), alive, fresh)),
            alive,
            fresh,
        ) == NamedState::Shown(w),
        toggled(None, alive, fresh) == fresh,
        toggle_steps(None, alive, area, size) == seq![Action::Spawn],
        toggled(Some(toggled(None, alive, fresh)), alive, fresh) == fresh,
        toggle_steps(Some(toggled(None, alive, fresh)), alive, area, size).len() == 0,
        !alive.contains(w) ==> toggled(Some(NamedState::Hidden(w)), alive, fresh) == fresh,
{
}

/// A window that is stashed away and brought back ends up last in the active
/// tiling order, and in no other workspace. Every other window that is alive
/// stays where it was.
pub proof fn stashed_window_comes_back(
    before: Desktop,
    hidden: Desktop,
    shown: Desktop,
    window: u64,
    alive: Seq<u64>,
    i: int,
)
    requires
        before.wf(),
        stashed(before.workspaces, hidden.workspaces, window),
        brought_back(hidden, shown, window, alive),
        0 <= i < before.workspaces.workspaces@.len(),
    ensures
        shown.workspaces.active == before.workspaces.active,
        shown.active().tiling.order@ == windows::only_alive(
            windows::without(before.active().tiling.order@, window),
            alive,
        ).push(window),
        i != before.workspaces.active ==> {
            let order = shown.workspaces.workspaces@[i].tiling.order@;
            &&& order == windows::without(before.workspaces.workspaces@[i].tiling.order@, window)
            &&& !order.contains(window)
        },
{
    let at = before.workspaces.active as int;
    let was = before.active().tiling.order@;
    assert(hidden.workspaces.workspaces@[at].tiling.order@ == windows::without(was, window));
    windows::lemma_filter(was, windows::other_than(window));
    windows::lemma_filter(windows::without(was, window), windows::one_of(alive));
    if i != at {
        assert(shown.workspaces.workspaces@[i] == hidden.workspaces.workspaces@[i]);
        windows::lemma_filter(
            before.workspaces.workspaces@[i].tiling.order@,
            windows::other_than(window),
        );
    }
}

/// Each side of a claimed window follows its own fraction of its own side of
/// the area: the width does not change with the height of the area or with the
/// fraction for the height, and the height not with the width or its fraction.
pub proof fn sides_of_a_claimed_window_are_independent(
    slot: NamedSlot,
    other: NamedSlot,
    area: Rect,
    resized: Rect,
    natural: Size,
    changed: Size,
)
    requires
        slot.state is Pending,
        other.state is Pending,
    ensures
        slot.state->width_frac == other.state->width_frac && area.w == resized.w && natural.w
            == changed.w ==> claimed_size(slot, area, natural).w == claimed_size(
            other,
            resized,
            changed,
        ).w,
        slot.state->height_frac == other.state->height_frac && area.h == resized.h && natural.h
            == changed.h ==> claimed_size(slot, area, natural).h == claimed_size(
            other,
            resized,
            changed,
        ).h,
        slot.state->width_frac is None ==> claimed_size(slot, area, natural).w == natural.w,
        slot.state->height_frac is None ==> claimed_size(slot, area, natural).h == natural.h,
{
}

/// A fraction of at most one never makes a claimed window larger than the area,
/// on either side, and a fraction of one makes it as large.
pub proof fn claimed_window_fits_the_area(slot: NamedSlot, area: Rect, natural: Size)
    requires
        slot.state is Pending,
        area.w >= 0,
        area.h >= 0,
    ensures
        slot.state->width_frac matches Some(f) ==> {
            let w = claimed_size(slot, area, natural).w;
            &&& !f.negative() && !f.spec_is_nan() && !(Binary64 { bits: ONE }).spec_lt(f) ==> 0 <= w
                <= area.w
            &&& f.bits == ONE ==> w == area.w
        },
        slot.state->height_frac matches Some(f) ==> {
            let h = claimed_size(slot, area, natural).h;
            &&& !f.negative() && !f.spec_is_nan() && !(Binary64 { bits: ONE }).spec_lt(f) ==> 0 <= h
                <= area.h
            &&& f.bits == ONE ==> h == area.h
        },
{
    if let Some(f) = slot.state->width_frac {
        if !f.negative() && !f.spec_is_nan() && !(Binary64 { bits: ONE }).spec_lt(f) {
            binary64::scaling_by_at_most_one_never_grows(f, area.w);
        }
        binary64::scaling_by_one_changes_nothing(area.w);
    }
    if let Some(f) = slot.state->height_frac {
        if !f.negative() && !f.spec_is_nan() && !(Binary64 { bits: ONE }).spec_lt(f) {
            binary64::scaling_by_at_most_one_never_grows(f, area.h);
        }
        binary64::scaling_by_one_changes_nothing(area.h);
    }
}

/// A claimed window's sides are the nearest integers to the fractions of the
/// sides of the area: with the fraction `m` over `one`, twice the distance to
/// the exact share is at most one part, up to what rounding the share to a
/// double-precision number adds.
pub proof fn claimed_sides_are_shares_of_the_area(slot: NamedSlot, area: Rect, natural: Size)
    requires
        slot.state is Pending,
        area.w >= 0,
        area.h >= 0,
    ensures
        slot.state->width_frac matches Some(f) ==> binary64::is_share(
            f,
            area.w as int,
            claimed_size(slot, area, natural).w as int,
        ),
        slot.state->height_frac matches Some(f) ==> binary64::is_share(
            f,
            area.h as int,
            claimed_size(slot, area, natural).h as int,
        ),
{
    if let Some(f) = slot.state->width_frac {
        if f.bits < binary64::SIGN_BIT && f.exponent() < binary64::EXPONENT_SPECIAL && f.scale()
            < 0 {
            binary64::scaling_gives_the_nearest_integer(f, area.w);
        }
    }
    if let Some(f) = slot.state->height_frac {
        if f.bits < binary64::SIGN_BIT && f.exponent() < binary64::EXPONENT_SPECIAL && f.scale()
            < 0 {
            binary64::scaling_gives_the_nearest_integer(f, area.h);
        }
    }
}

/// A claimed window is asked to take its size, if one was given, and then shown
/// in the middle of the area: it has the same margin on both sides, up to one
/// pixel, both across and down, as far as it fits. Then it comes to the front,
/// and the other floating windows with it; it is not given the focus.
pub proof fn claimed_window_is_centered(
    slot: NamedSlot,
    window: u64,
    area: Rect,
    natural: Size,
)
    requires
        action::can_center(area, claimed_size(slot, area, natural)),
    ensures
        ({
            let size = claimed_size(slot, area, natural);
            let steps = claim_steps(slot, window, Some(area), natural);
            let n = steps.len() as int;
            &&& gives_size(slot) ==> n == 4 && steps[0] == (Action::Resize { window, size })
            &&& !gives_size(slot) ==> n == 3 && size == natural
            &&& steps[n - 3] is Show
            &&& steps[n - 3]->Show_window == window
            &&& action::in_the_middle(area, size, steps[n - 3]->at)
            &&& steps[n - 2] == (Action::Raise { window })
            &&& steps[n - 1] == Action::RaiseFloating
        }),
        forall|k: int|
            0 <= k < claim_steps(slot, window, Some(area), natural).len() ==> !(
            #[trigger] claim_steps(slot, window, Some(area), natural)[k] is Focus),
{
    action::centered_window_is_in_the_middle(area, claimed_size(slot, area, natural));
}

/// A window that comes back from a scratchpad is shown in the middle of the
/// area, brought to the front with the other floating windows, and focused.
pub proof fn returning_window_is_centered_and_focused(window: u64, area: Rect, size: Size)
    requires
        action::can_center(area, size),
    ensures
        ({
            let steps = show_steps(window, Some(area), size);
            &&& steps.len() == 4
            &&& steps[0] is Show
            &&& steps[0]->Show_window == window
            &&& action::in_the_middle(area, size, steps[0]->at)
            &&& steps[1] == (Action::Raise { window })
            &&& steps[2] == Action::RaiseFloating
            &&& steps[3] == (Action::Focus { window })
        }),
{
    action::centered_window_is_in_the_middle(area, size);
}

/// A toggle hides a window that is shown and shows one that is hidden. Where the
/// window is gone or there never was one, the program is started and waited for;
/// while it is waited for, nothing happens.
pub proof fn toggles_show_hide_or_start(
    state: Option<NamedState>,
    alive: Seq<u64>,
    fresh: NamedState,
    area: Option<Rect>,
    size: Size,
    w: u64,
)
    ensures
        state is Some && state->0 is Pending ==> toggled(state, alive, fresh) == state->0
            && toggle_steps(state, alive, area, size).len() == 0,
        state == Some(NamedState::Shown(w)) && alive.contains(w) ==> toggled(state, alive, fresh)
            == NamedState::Hidden(w) && toggle_steps(state, alive, area, size) == seq![
            Action::Unmap { window: w },
        ],
        state == Some(NamedState::Hidden(w)) && alive.contains(w) ==> {
            let steps = toggle_steps(state, alive, area, size);
            &&& toggled(state, alive, fresh) == NamedState::Shown(w)
            &&& steps.last() == (Action::Focus { window: w })
            &&& steps.contains(Action::Raise { window: w })
            &&& area is Some <==> steps[0] is Show
        },
        state is None || (state->0 == NamedState::Shown(w) || state->0 == NamedState::Hidden(w))
            && !alive.contains(w) ==> toggled(state, alive, fresh) == fresh && toggle_steps(
            state,
            alive,
            area,
            size,
        ) == seq![Action::Spawn],
{
    if state == Some(NamedState::Hidden(w)) && alive.contains(w) {
        let steps = toggle_steps(state, alive, area, size);
        assert(steps == show_steps(w, area, size));
        assert(steps[steps.len() - 3] == (Action::Raise { window: w }));
    }
}

/// Without an output, a claimed window is brought to the front where it is and
/// keeps its size.
pub proof fn claimed_window_stays_without_an_output(slot: NamedSlot, window: u64, natural: Size)
    ensures
        claim_steps(slot, window, None, natural) == seq![
            Action::Raise { window },
            Action::RaiseFloating,
        ],
        show_steps(window, None, natural) == seq![
            Action::Raise { window },
            Action::RaiseFloating,
            Action::Focus { window },
        ],
{
    assert(claim_steps(slot, window, None, natural) =~= seq![
        Action::Raise { window },
        Action::RaiseFloating,
    ]);
    assert(show_steps(window, None, natural) =~= seq![
        Action::Raise { window },
        Action::RaiseFloating,
        Action::Focus { window },
    ]);
}

/// A slot waits for its application alone, and only until it has a window.
pub proof fn slots_wait_for_their_application(slot: NamedSlot, app_id: Seq<char>)
    ensures
        waits_for(slot, app_id) <==> slot.state is Pending && slot.state->app_id@ == app_id,
        gives_size(slot) <==> slot.state is Pending && (slot.state->width_frac is Some
            || slot.state->height_frac is Some),
{
}

/// A stashed window is on no workspace, and the other windows stay where they
/// are.
pub proof fn stashed_window_is_on_no_workspace(
    before: WorkspaceSet,
    after: WorkspaceSet,
    window: u64,
    i: int,
    w: u64,
)
    requires
        stashed(before, after, window),
        0 <= i < before.workspaces@.len(),
    ensures
        after.workspaces@[i].tiling.order@.contains(w) <==> w != window
            && before.workspaces@[i].tiling.order@.contains(w),
        after.active == before.active,
{
    windows::lemma_filter(before.workspaces@[i].tiling.order@, windows::other_than(window));
    assert(after.workspaces@[i].tiling.order@ == windows::without(
        before.workspaces@[i].tiling.order@,
        window,
    ));
}

} // verus!
