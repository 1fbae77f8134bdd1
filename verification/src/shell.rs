//! What happens when a client draws: a surface commit moves windows, gives a
//! new window its place and the focus, and moves the cursor's hotspot and the
//! icon of a drag.

use crate::action;
use crate::action::Action;
use crate::anim;
use crate::anim::{AnimKind, WindowAnim, WindowAnimations};
use crate::config::Settings;
use crate::desktop;
use crate::desktop::Desktop;
use crate::geometry;
use crate::geometry::{Point, Rect, Size};
use crate::params::Gaps;
use crate::rule;
use crate::rule::{RuleEntry, WindowRule};
use crate::scratchpad;
use crate::scratchpad::NamedSlot;
use crate::text;
use crate::windows;
use crate::x11::ResizeState;
use vstd::math::max;
use vstd::prelude::*;

verus! {

/// What the cursor looks like.
#[derive(Debug, Clone, Copy, PartialEq, Eq, Structural)]
pub enum CursorImage {
    Hidden,
    /// A cursor of the theme.
    Named,
    /// What a client draws on a surface; the hotspot is the pixel of it that
    /// points.
    Surface { surface: u64, hotspot: Point },
}

/// The icon of a drag, and where it is relative to the pointer.
#[derive(Debug, Clone, Copy, PartialEq, Eq, Structural)]
pub struct DndIcon {
    pub surface: u64,
    pub offset: Point,
}

/// The part of the compositor that follows what clients draw.
#[derive(Debug)]
pub struct SpitfireState {
    pub desktop: Desktop,
    pub anims: WindowAnimations,
    /// Surfaces of new windows that have not drawn anything yet.
    pub pending_initial_focus: Vec<u64>,
    pub locked: bool,
    /// What the screen locker shows, one surface per output.
    pub lock_surfaces: Vec<u64>,
    pub cursor: CursorImage,
    pub dnd_icon: Option<DndIcon>,
}

impl Default for SpitfireState {
    fn default() -> (s: SpitfireState)
        ensures
            s.is_initial(Gaps { inner: 6, outer: 10 }),
    {
        SpitfireState {
            desktop: Desktop::default(),
            anims: WindowAnimations::default(),
            pending_initial_focus: Vec::new(),
            locked: false,
            lock_surfaces: Vec::new(),
            cursor: CursorImage::Named,
            dnd_icon: None,
        }
    }
}

impl SpitfireState {
    /// One empty workspace with these gaps, and nothing else.
    pub open spec fn is_initial(self, gaps: Gaps) -> bool {
        &&& self.desktop.wf()
        &&& self.desktop.workspaces.is_initial(gaps)
        &&& self.desktop.scratchpad is None
        &&& self.desktop.named@.len() == 0
        &&& self.desktop.force_floating@.len() == 0
        &&& self.desktop.focus_history@.len() == 0
        &&& self.desktop.slide is None
        &&& self.anims.anims@.len() == 0
        &&& self.pending_initial_focus@.len() == 0
        &&& !self.locked
        &&& self.lock_surfaces@.len() == 0
        &&& self.cursor is Named
        &&& self.dnd_icon is None
    }

    /// The state that the compositor starts in. Workspaces come into being when
    /// they are asked for, whatever their limit is.
    pub fn init(settings: &Settings) -> (s: SpitfireState)
        ensures
            s.is_initial(settings.gaps),
    {
        let mut s = SpitfireState::default();
        s.desktop.workspaces.apply_gaps(settings.gaps);
        s
    }
}

/// A window whose surface tree has been committed.
#[derive(Debug)]
pub struct WindowCommit {
    pub window: u64,
    /// Where the window is mapped, if it is.
    pub location: Option<Point>,
    /// The surface has contents.
    pub has_buffer: bool,
    pub app_id: Option<String>,
    /// Size of everything that the window draws.
    pub size: Size,
}

/// A surface commit.
#[derive(Debug)]
pub struct Commit {
    pub surface: u64,
    /// The surface is a subsurface whose state waits for its parent.
    pub synced: bool,
    /// The surface at the top of the tree.
    pub root: u64,
    /// The window of the root, if it is one.
    pub window: Option<WindowCommit>,
    /// How far the client has moved the contents.
    pub delta: Option<Point>,
}

/// What a commit needs to know of the rest of the compositor.
#[derive(Debug)]
pub struct Surroundings<'a> {
    /// There is an output.
    pub output: bool,
    /// Usable area of the first output.
    pub area: Option<Rect>,
    pub rules: &'a [WindowRule],
    pub entries: &'a [RuleEntry],
    /// Windows that are alive.
    pub alive: &'a [u64],
    pub now: u64,
    /// Length of the animation of a window that opens; zero for none.
    pub duration: u64,
}

/// A step for the compositor.
#[derive(Debug, Clone, Copy, PartialEq, Eq, Structural)]
pub enum CommitStep {
    /// Let a window take note of its new contents.
    Refresh { window: u64 },
    /// Do something with the windows.
    Act { action: Action },
    /// Let the popups take note of the commit.
    CommitPopups,
}

/// The same actions as steps.
pub open spec fn acts(actions: Seq<Action>) -> Seq<CommitStep> {
    Seq::new(actions.len(), |i: int| CommitStep::Act { action: actions[i] })
}

fn push_acts(steps: &mut Vec<CommitStep>, actions: &[Action])
    ensures
        final(steps)@ == old(steps)@ + acts(actions@),
{
    let mut i: usize = 0;
    assert(steps@ =~= old(steps)@ + acts(actions@.take(0)));
    while i < actions.len()
        invariant
            i <= actions@.len(),
            steps@ == old(steps)@ + acts(actions@.take(i as int)),
        decreases actions@.len() - i,
    {
        steps.push(CommitStep::Act { action: actions[i] });
        i = i + 1;
        assert(steps@ =~= old(steps)@ + acts(actions@.take(i as int)));
    }
    assert(actions@.take(i as int) =~= actions@);
}

/// The step that puts a window in the middle of the area, if a rule asks for
/// it.
pub open spec fn centering(
    window: u64,
    app_id: Option<Seq<char>>,
    size: Size,
    rules: Seq<WindowRule>,
    area: Option<Rect>,
) -> Seq<Action> {
    if rule::rule_centers(rules, app_id) && area is Some {
        seq![Action::Show { window, at: action::centered_at(area->0, size) }]
    } else {
        Seq::empty()
    }
}

/// Puts a floating window in the middle of the area if a rule asks for it.
pub fn center_if_ruled(
    window: u64,
    app_id: Option<&str>,
    size: Size,
    rules: &[WindowRule],
    area: Option<Rect>,
) -> (actions: Vec<Action>)
    requires
        area is Some && rule::rule_centers(rules@, text::str_view(app_id)) ==> action::can_center(
            area->0,
            size,
        ),
    ensures
        actions@ == centering(window, text::str_view(app_id), size, rules@, area),
{
    let mut actions: Vec<Action> = Vec::new();
    if rule::matches_centered_rule(app_id, rules) {
        if let Some(area) = area {
            actions.push(Action::Show { window, at: action::center_in(area, size) });
        }
    }
    assert(actions@ =~= centering(window, text::str_view(app_id), size, rules@, area));
    actions
}

/// The workspace other than the active one that a rule sends a window to.
pub open spec fn sent_away(desktop: Desktop, app_id: Option<Seq<char>>, entries: Seq<RuleEntry>) -> Option<
    usize,
> {
    match rule::rule_workspace(entries, app_id) {
        Some(idx) => if idx != desktop.workspaces.active {
            Some(idx)
        } else {
            None
        },
        None => None,
    }
}

/// Whether a scratchpad waits for a window with this application id.
pub open spec fn is_claimed(desktop: Desktop, app_id: Option<Seq<char>>) -> bool {
    app_id is Some && exists|i: int| scratchpad::first_waiting(desktop.named@, app_id->0, i)
}

/// The animations after a window has opened.
pub open spec fn opened(anims: Seq<WindowAnim>, window: u64, now: u64, duration: u64) -> Seq<
    WindowAnim,
> {
    if duration == 0 {
        anims
    } else {
        anims.filter(anim::of_others(window)).push(
            WindowAnim { window, kind: AnimKind::Open, start: now, duration },
        )
    }
}

/// Giving a new window its place stays within the machine's limits.
pub open spec fn can_open(desktop: Desktop, w: WindowCommit, env: Surroundings<'_>) -> bool {
    let app_id = text::text_view(w.app_id);
    &&& forall|i: int|
        env.area is Some && app_id is Some && scratchpad::first_waiting(
            desktop.named@,
            app_id->0,
            i,
        ) ==> action::can_center(
            env.area->0,
            #[trigger] scratchpad::claimed_size(desktop.named@[i], env.area->0, w.size),
        )
    &&& env.area is Some && rule::rule_centers(env.rules@, app_id) ==> action::can_center(
        env.area->0,
        w.size,
    )
    &&& rule::rule_workspace(env.entries@, app_id) matches Some(idx)
        ==> desktop.workspaces.can_grow(idx + 1)
}

/// What the first contents of a new window do. A scratchpad that waits for the
/// window claims it. Any other window is centered if a rule says so, and may
/// be sent to another workspace. Unless it was sent away it opens with an
/// animation, and gets the focus while the screen is not locked.
pub open spec fn first_contents(
    before: SpitfireState,
    after: SpitfireState,
    w: WindowCommit,
    env: Surroundings<'_>,
    actions: Seq<Action>,
) -> bool {
    let app_id = text::text_view(w.app_id);
    let claimed = env.output && is_claimed(before.desktop, app_id);
    let target = sent_away(before.desktop, app_id, env.entries@);
    let away = env.output && !claimed && target is Some;
    let focus: Seq<Action> = if before.locked || away {
        Seq::empty()
    } else {
        seq![Action::Focus { window: w.window }]
    };
    let centered = centering(w.window, app_id, w.size, env.rules@, env.area);
    &&& after.anims.anims@ == (if away {
        before.anims.anims@
    } else {
        opened(before.anims.anims@, w.window, env.now, env.duration)
    })
    &&& !env.output ==> after.desktop == before.desktop && actions == focus
    &&& claimed ==> {
        &&& scratchpad::brought_back(before.desktop, after.desktop, w.window, env.alive@)
        &&& after.desktop.scratchpad == before.desktop.scratchpad
        &&& after.desktop.focus_history == before.desktop.focus_history
        &&& after.desktop.slide == before.desktop.slide
        &&& forall|i: int|
            scratchpad::first_waiting(before.desktop.named@, app_id->0, i) ==> {
                let slot = #[trigger] before.desktop.named@[i];
                &&& actions == scratchpad::claim_steps(slot, w.window, env.area, w.size) + focus
                &&& scratchpad::lookup(after.desktop.named@, slot.name@) == Some(
                    scratchpad::NamedState::Shown(w.window),
                )
                &&& forall|other: Seq<char>|
                    other != slot.name@ ==> #[trigger] scratchpad::lookup(
                        after.desktop.named@,
                        other,
                    ) == scratchpad::lookup(before.desktop.named@, other)
            }
    }
    &&& env.output && !claimed && !away ==> after.desktop == before.desktop && actions == centered
        + focus
    &&& away ==> {
        &&& actions == centered + seq![
            Action::Unmap { window: w.window },
            Action::Arrange,
            Action::SyncWorkspaces,
        ]
        &&& desktop::moved_window(
            before.desktop,
            after.desktop,
            w.window,
            target->0 as int,
            env.alive@,
        )
        &&& before.desktop.same_but_workspaces(after.desktop)
        &&& after.desktop.slide == before.desktop.slide
    }
}

/// Whether the two states agree on what a new window's first contents do not
/// touch.
pub open spec fn same_surfaces(before: SpitfireState, after: SpitfireState) -> bool {
    &&& after.locked == before.locked
    &&& after.lock_surfaces == before.lock_surfaces
    &&& after.cursor == before.cursor
    &&& after.dnd_icon == before.dnd_icon
}

impl SpitfireState {
    /// The desktop is well-formed, and no window has two animations.
    pub open spec fn wf(self) -> bool {
        self.desktop.wf() && self.anims.wf()
    }

    fn show_first_contents(&mut self, w: &WindowCommit, env: &Surroundings<'_>) -> (actions: Vec<
        Action,
    >)
        requires
            old(self).wf(),
            env.output ==> can_open(old(self).desktop, *w, *env),
        ensures
            final(self).wf(),
            first_contents(*old(self), *final(self), *w, *env, actions@),
            same_surfaces(*old(self), *final(self)),
            final(self).pending_initial_focus == old(self).pending_initial_focus,
    {
        let app_id: Option<&str> = match &w.app_id {
            Some(id) => Some(id.as_str()),
            None => None,
        };
        let ghost id = text::text_view(w.app_id);
        assert(text::str_view(app_id) == id);
        assert(app_id is Some ==> app_id->0@ == id->0);
        let mut actions: Vec<Action> = Vec::new();
        let mut away: bool = false;
        if env.output {
            proof {
                assert forall|i: int|
                    env.area is Some && app_id is Some && scratchpad::first_waiting(
                        self.desktop.named@,
                        app_id->0@,
                        i,
                    ) implies action::can_center(
                    env.area->0,
                    scratchpad::claimed_size(self.desktop.named@[i], env.area->0, w.size),
                ) by {
                    assert(scratchpad::first_waiting(self.desktop.named@, id->0, i));
                }
            }
            let (claimed, steps) = self.desktop.claim_pending_named_scratchpad(
                w.window,
                app_id,
                env.area,
                w.size,
                env.alive,
            );
            assert(claimed == is_claimed(old(self).desktop, id));
            actions = steps;
            if !claimed {
                actions = center_if_ruled(w.window, app_id, w.size, env.rules, env.area);
                if let Some(idx) = rule::workspace_by_rule(app_id, env.entries) {
                    if idx != self.desktop.workspaces.active_index() {
                        away = true;
                        let moves: Vec<Action> = self.desktop.move_window_to_workspace(
                            w.window,
                            idx,
                            env.alive,
                        );
                        append_actions(&mut actions, moves.as_slice());
                    }
                }
            }
        }
        if !away {
            self.anims.push_open(w.window, env.now, env.duration);
            if !self.locked {
                actions.push(Action::Focus { window: w.window });
            }
        }
        proof {
            let focus: Seq<Action> = if self.locked || away {
                Seq::empty()
            } else {
                seq![Action::Focus { window: w.window }]
            };
            let centered = centering(w.window, id, w.size, env.rules@, env.area);
            let claimed = env.output && is_claimed(old(self).desktop, id);
            if !env.output {
                assert(actions@ =~= focus);
            } else if claimed {
                assert forall|i: int|
                    scratchpad::first_waiting(old(self).desktop.named@, id->0, i) implies actions@
                    == scratchpad::claim_steps(
                    #[trigger] old(self).desktop.named@[i],
                    w.window,
                    env.area,
                    w.size,
                ) + focus by {
                    assert(scratchpad::first_waiting(old(self).desktop.named@, app_id->0@, i));
                    assert(actions@ =~= scratchpad::claim_steps(
                        old(self).desktop.named@[i],
                        w.window,
                        env.area,
                        w.size,
                    ) + focus);
                }
            } else if !away {
                assert(actions@ =~= centered + focus);
            }
        }
        actions
    }
}

fn append_actions(to: &mut Vec<Action>, more: &[Action])
    ensures
        final(to)@ == old(to)@ + more@,
{
    let mut i: usize = 0;
    assert(to@ =~= old(to)@ + more@.take(0));
    while i < more.len()
        invariant
            i <= more@.len(),
            to@ == old(to)@ + more@.take(i as int),
        decreases more@.len() - i,
    {
        to.push(more[i]);
        i = i + 1;
        assert(to@ =~= old(to)@ + more@.take(i as int));
    }
    assert(more@.take(i as int) =~= more@);
}

/// Whether a commit is about the surface of a window itself.
pub open spec fn about_window(commit: Commit) -> bool {
    !commit.synced && commit.window is Some && commit.root == commit.surface
}

/// Whether a commit brings the first contents of a new window.
pub open spec fn is_first(shell: SpitfireState, commit: Commit) -> bool {
    &&& about_window(commit)
    &&& shell.pending_initial_focus@.contains(commit.surface)
    &&& commit.window->0.has_buffer
}

/// The steps of a commit for the window, before the first contents are dealt
/// with: the window takes note of it, and moves along with its contents.
pub open spec fn window_steps(commit: Commit) -> Seq<CommitStep> {
    if commit.synced || commit.window is None {
        Seq::empty()
    } else {
        let w = commit.window->0;
        let refresh = seq![CommitStep::Refresh { window: w.window }];
        if commit.root == commit.surface && commit.delta is Some {
            let at = w.location->0;
            refresh + seq![
                CommitStep::Act {
                    action: Action::Show {
                        window: w.window,
                        at: Point {
                            x: (at.x + commit.delta->0.x) as i32,
                            y: (at.y + commit.delta->0.y) as i32,
                        },
                    },
                },
            ]
        } else {
            refresh
        }
    }
}

/// The movement of the contents that is left for the cursor: that of a window
/// has been used up.
pub open spec fn cursor_delta(commit: Commit) -> Option<Point> {
    if about_window(commit) {
        None
    } else {
        commit.delta
    }
}

/// The cursor after a commit: its hotspot moves against its contents.
pub open spec fn moved_cursor(cursor: CursorImage, commit: Commit) -> CursorImage {
    match (cursor, cursor_delta(commit)) {
        (CursorImage::Surface { surface, hotspot }, Some(d)) => if surface == commit.surface {
            CursorImage::Surface {
                surface,
                hotspot: Point { x: (hotspot.x - d.x) as i32, y: (hotspot.y - d.y) as i32 },
            }
        } else {
            cursor
        },
        _ => cursor,
    }
}

/// The movement of the contents that is left for the icon of a drag.
pub open spec fn icon_delta(cursor: CursorImage, commit: Commit) -> Option<Point> {
    if cursor matches CursorImage::Surface { surface, .. } && surface == commit.surface {
        None
    } else {
        cursor_delta(commit)
    }
}

/// The icon of a drag after a commit: it moves along with its contents.
pub open spec fn moved_icon(icon: Option<DndIcon>, cursor: CursorImage, commit: Commit) -> Option<
    DndIcon,
> {
    match (icon, icon_delta(cursor, commit)) {
        (Some(i), Some(d)) => if i.surface == commit.surface {
            Some(
                DndIcon {
                    surface: i.surface,
                    offset: Point { x: (i.offset.x + d.x) as i32, y: (i.offset.y + d.y) as i32 },
                },
            )
        } else {
            icon
        },
        _ => icon,
    }
}

/// A commit stays within the machine's limits, and a window that moves along
/// with its contents is mapped.
pub open spec fn can_commit(shell: SpitfireState, commit: Commit, env: Surroundings<'_>) -> bool {
    &&& about_window(commit) && commit.delta is Some ==> {
        &&& commit.window->0.location is Some
        &&& geometry::fits_i32(commit.window->0.location->0.x + commit.delta->0.x)
        &&& geometry::fits_i32(commit.window->0.location->0.y + commit.delta->0.y)
    }
    &&& is_first(shell, commit) && env.output ==> can_open(shell.desktop, commit.window->0, env)
    &&& cursor_delta(commit) matches Some(d) ==> {
        &&& shell.cursor matches CursorImage::Surface { surface, hotspot } ==> (surface
            == commit.surface ==> geometry::fits_i32(hotspot.x - d.x) && geometry::fits_i32(
            hotspot.y - d.y,
        ))
        &&& shell.dnd_icon matches Some(i) ==> (i.surface == commit.surface
            ==> geometry::fits_i32(i.offset.x + d.x) && geometry::fits_i32(i.offset.y + d.y))
    }
}

impl SpitfireState {
    /// Takes note that a client has committed a surface.
    pub fn commit(&mut self, commit: &Commit, env: &Surroundings<'_>) -> (steps: Vec<CommitStep>)
        requires
            old(self).wf(),
            can_commit(*old(self), *commit, *env),
        ensures
            final(self).wf(),
            final(self).locked == old(self).locked,
            final(self).lock_surfaces == old(self).lock_surfaces,
            final(self).cursor == moved_cursor(old(self).cursor, *commit),
            final(self).dnd_icon == moved_icon(old(self).dnd_icon, old(self).cursor, *commit),
            final(self).pending_initial_focus@ == (if is_first(*old(self), *commit) {
                old(self).pending_initial_focus@.remove(
                    windows::position(old(self).pending_initial_focus@, commit.surface)->0,
                )
            } else {
                old(self).pending_initial_focus@
            }),
            !is_first(*old(self), *commit) ==> {
                &&& steps@ == window_steps(*commit).push(CommitStep::CommitPopups)
                &&& final(self).desktop == old(self).desktop
                &&& final(self).anims == old(self).anims
            },
            is_first(*old(self), *commit) ==> exists|actions: Seq<Action>|
                {
                    &&& #[trigger] first_contents(
                        *old(self),
                        *final(self),
                        commit.window->0,
                        *env,
                        actions,
                    )
                    &&& steps@ == (window_steps(*commit) + acts(actions)).push(
                        CommitStep::CommitPopups,
                    )
                },
    {
        let mut steps: Vec<CommitStep> = Vec::new();
        let mut delta: Option<Point> = commit.delta;
        let ghost first = is_first(*self, *commit);
        let ghost mut acted: Seq<Action> = Seq::empty();
        if !commit.synced {
            if let Some(w) = &commit.window {
                steps.push(CommitStep::Refresh { window: w.window });
                if commit.root == commit.surface {
                    if let Some(d) = delta {
                        if let Some(at) = w.location {
                            steps.push(
                                CommitStep::Act {
                                    action: Action::Show {
                                        window: w.window,
                                        at: Point { x: at.x + d.x, y: at.y + d.y },
                                    },
                                },
                            );
                        }
                    }
                    delta = None;
                    assert(steps@ =~= window_steps(*commit));
                    if let Some(pos) = windows::find(
                        self.pending_initial_focus.as_slice(),
                        commit.surface,
                    ) {
                        if w.has_buffer {
                            self.pending_initial_focus.remove(pos);
                            let ghost before = *self;
                            let actions: Vec<Action> = self.show_first_contents(w, env);
                            proof {
                                acted = actions@;
                                assert(first);
                                assert(first_contents(*old(self), *self, *w, *env, acted));
                            }
                            push_acts(&mut steps, actions.as_slice());
                        }
                    }
                }
            }
        }
        assert(steps@ =~= (if first {
            window_steps(*commit) + acts(acted)
        } else {
            window_steps(*commit)
        }));
        steps.push(CommitStep::CommitPopups);
        assert(delta == cursor_delta(*commit));
        if let CursorImage::Surface { surface, hotspot } = self.cursor {
            if surface == commit.surface {
                if let Some(d) = delta {
                    self.cursor = CursorImage::Surface {
                        surface,
                        hotspot: Point { x: hotspot.x - d.x, y: hotspot.y - d.y },
                    };
                }
                delta = None;
            }
        }
        if let Some(icon) = self.dnd_icon {
            if icon.surface == commit.surface {
                if let Some(d) = delta {
                    self.dnd_icon = Some(
                        DndIcon {
                            surface: icon.surface,
                            offset: Point { x: icon.offset.x + d.x, y: icon.offset.y + d.y },
                        },
                    );
                }
            }
        }
        proof {
            if first {
                assert(first_contents(*old(self), *self, commit.window->0, *env, acted));
            }
        }
        steps
    }

    /// A new window waits for its first contents.
    pub fn new_toplevel(&mut self, surface: u64)
        ensures
            final(self).pending_initial_focus@ == old(self).pending_initial_focus@.push(surface),
            final(self).desktop == old(self).desktop,
            final(self).anims == old(self).anims,
            same_surfaces(*old(self), *final(self)),
    {
        self.pending_initial_focus.push(surface);
    }

    /// The session is locked: what a screen locker showed before is forgotten.
    pub fn lock(&mut self)
        ensures
            final(self).locked,
            final(self).lock_surfaces@.len() == 0,
            final(self).desktop == old(self).desktop,
            final(self).anims == old(self).anims,
            final(self).pending_initial_focus == old(self).pending_initial_focus,
            final(self).cursor == old(self).cursor,
            final(self).dnd_icon == old(self).dnd_icon,
    {
        self.locked = true;
        self.lock_surfaces.clear();
    }

    /// The session is unlocked.
    pub fn unlock(&mut self)
        ensures
            !final(self).locked,
            final(self).lock_surfaces@.len() == 0,
            final(self).desktop == old(self).desktop,
            final(self).anims == old(self).anims,
            final(self).pending_initial_focus == old(self).pending_initial_focus,
            final(self).cursor == old(self).cursor,
            final(self).dnd_icon == old(self).dnd_icon,
    {
        self.locked = false;
        self.lock_surfaces.clear();
    }

    /// The screen locker has a new surface. Returns the size that it is told to
    /// take, if its output is in use; it gets the keyboard focus in any case.
    pub fn new_lock_surface(&mut self, surface: u64, geometry: Option<Rect>) -> (size: Option<
        (u32, u32),
    >)
        ensures
            final(self).lock_surfaces@ == old(self).lock_surfaces@.push(surface),
            final(self).locked == old(self).locked,
            final(self).desktop == old(self).desktop,
            final(self).anims == old(self).anims,
            final(self).pending_initial_focus == old(self).pending_initial_focus,
            final(self).cursor == old(self).cursor,
            final(self).dnd_icon == old(self).dnd_icon,
            size == (match geometry {
                Some(geo) => Some((max(geo.w as int, 0) as u32, max(geo.h as int, 0) as u32)),
                None => None,
            }),
    {
        self.lock_surfaces.push(surface);
        match geometry {
            Some(geo) => Some(
                (
                    if geo.w > 0 { geo.w as u32 } else { 0 },
                    if geo.h > 0 { geo.h as u32 } else { 0 },
                ),
            ),
            None => None,
        }
    }

    /// The surface that is shown while the session is locked.
    pub fn locked_surface(&self) -> (r: Option<u64>)
        ensures
            r == (if self.locked && self.lock_surfaces@.len() > 0 {
                Some(self.lock_surfaces@[0])
            } else {
                None
            }),
    {
        if self.locked && self.lock_surfaces.len() > 0 {
            Some(self.lock_surfaces[0])
        } else {
            None
        }
    }

    /// A drag has started. Its icon is put where the cursor's contents are.
    pub fn drag_started(&mut self, icon: Option<u64>)
        requires
            old(self).cursor matches CursorImage::Surface { surface, hotspot } ==> hotspot.x
                > i32::MIN && hotspot.y > i32::MIN,
        ensures
            final(self).dnd_icon == (match icon {
                Some(surface) => Some(
                    DndIcon {
                        surface,
                        offset: match old(self).cursor {
                            CursorImage::Surface { surface, hotspot } => Point {
                                x: (-hotspot.x) as i32,
                                y: (-hotspot.y) as i32,
                            },
                            _ => Point { x: 0, y: 0 },
                        },
                    },
                ),
                None => None,
            }),
            final(self).desktop == old(self).desktop,
            final(self).anims == old(self).anims,
            final(self).pending_initial_focus == old(self).pending_initial_focus,
            final(self).cursor == old(self).cursor,
            final(self).locked == old(self).locked,
            final(self).lock_surfaces == old(self).lock_surfaces,
    {
        let offset: Point = match self.cursor {
            CursorImage::Surface { surface: _, hotspot } => Point { x: -hotspot.x, y: -hotspot.y },
            _ => Point { x: 0, y: 0 },
        };
        self.dnd_icon = match icon {
            Some(surface) => Some(DndIcon { surface, offset }),
            None => None,
        };
    }

    /// A drag has ended.
    pub fn drag_dropped(&mut self)
        ensures
            final(self).dnd_icon is None,
            final(self).desktop == old(self).desktop,
            final(self).anims == old(self).anims,
            final(self).pending_initial_focus == old(self).pending_initial_focus,
            final(self).cursor == old(self).cursor,
            final(self).locked == old(self).locked,
            final(self).lock_surfaces == old(self).lock_surfaces,
    {
        self.dnd_icon = None;
    }
}

/// Whether no step moves the keyboard focus.
pub open spec fn leaves_focus(actions: Seq<Action>) -> bool {
    forall|i: int| 0 <= i < actions.len() ==> !(#[trigger] actions[i] is Focus)
}

proof fn lemma_claim_leaves_focus(slot: NamedSlot, window: u64, area: Option<Rect>, natural: Size)
    ensures
        leaves_focus(scratchpad::claim_steps(slot, window, area, natural)),
{
}

proof fn lemma_centering_leaves_focus(
    window: u64,
    app_id: Option<Seq<char>>,
    size: Size,
    rules: Seq<WindowRule>,
    area: Option<Rect>,
)
    ensures
        leaves_focus(centering(window, app_id, size, rules, area)),
{
}

proof fn lemma_both_leave_focus(first: Seq<Action>, second: Seq<Action>)
    requires
        leaves_focus(first),
        leaves_focus(second),
    ensures
        leaves_focus(first + second),
{
    let both = first + second;
    assert forall|i: int| 0 <= i < both.len() implies !(#[trigger] both[i] is Focus) by {
        if i < first.len() {
            assert(both[i] == first[i]);
        } else {
            assert(both[i] == second[i - first.len()]);
        }
    }
}

/// While the session is locked, no window that opens gets the focus.
pub proof fn locked_session_keeps_the_focus(
    before: SpitfireState,
    after: SpitfireState,
    w: WindowCommit,
    env: Surroundings<'_>,
    actions: Seq<Action>,
)
    requires
        before.locked,
        first_contents(before, after, w, env, actions),
    ensures
        forall|window: u64| !actions.contains(Action::Focus { window }),
{
    let app_id = text::text_view(w.app_id);
    let claimed = env.output && is_claimed(before.desktop, app_id);
    let nothing = Seq::<Action>::empty();
    assert(leaves_focus(actions)) by {
        if claimed {
            let i = choose|i: int| scratchpad::first_waiting(before.desktop.named@, app_id->0, i);
            let slot = before.desktop.named@[i];
            lemma_claim_leaves_focus(slot, w.window, env.area, w.size);
            lemma_both_leave_focus(
                scratchpad::claim_steps(slot, w.window, env.area, w.size),
                nothing,
            );
        } else {
            let centered = centering(w.window, app_id, w.size, env.rules@, env.area);
            let leaving = seq![
                Action::Unmap { window: w.window },
                Action::Arrange,
                Action::SyncWorkspaces,
            ];
            lemma_centering_leaves_focus(w.window, app_id, w.size, env.rules@, env.area);
            lemma_both_leave_focus(centered, nothing);
            lemma_both_leave_focus(centered, leaving);
        }
    }
    assert forall|window: u64| !actions.contains(Action::Focus { window }) by {
        if actions.contains(Action::Focus { window }) {
            let k = choose|k: int| 0 <= k < actions.len() && actions[k] == Action::Focus { window };
            assert(actions[k] is Focus);
        }
    }
}

/// The role of a surface.
#[derive(Debug, Clone, Copy, PartialEq, Eq, Structural)]
pub enum SurfaceRole {
    /// A window; `xdg` when the client is a Wayland client.
    Window { xdg: bool, resize: ResizeState },
    /// A popup; that of an input method needs no configure.
    Popup { input_method: bool },
    /// A layer surface of an output.
    Layer,
    Other,
}

/// A step for the compositor.
#[derive(Debug, Clone, Copy, PartialEq, Eq, Structural)]
pub enum ConfigureStep {
    /// Lay out the layer surfaces of the output.
    ArrangeLayers,
    /// Send the surface its configure.
    SendConfigure,
}

/// The steps that let a surface get its first configure, once. Layer surfaces
/// are laid out with every commit.
pub open spec fn configure_steps(role: SurfaceRole, configured: bool) -> Seq<ConfigureStep> {
    let send: Seq<ConfigureStep> = if configured {
        Seq::empty()
    } else {
        seq![ConfigureStep::SendConfigure]
    };
    match role {
        SurfaceRole::Window { xdg, .. } => if xdg {
            send
        } else {
            Seq::empty()
        },
        SurfaceRole::Popup { input_method } => if input_method {
            Seq::empty()
        } else {
            send
        },
        SurfaceRole::Layer => seq![ConfigureStep::ArrangeLayers] + send,
        SurfaceRole::Other => Seq::empty(),
    }
}

/// Lets a surface get its first configure if it has not had one, and ends the
/// resize of a window that has drawn its last size. Returns the steps and the
/// resize state of a window.
pub fn ensure_initial_configure(role: SurfaceRole, configured: bool) -> (r: (
    Vec<ConfigureStep>,
    Option<ResizeState>,
))
    ensures
        r.0@ == configure_steps(role, configured),
        r.1 == (match role {
            SurfaceRole::Window { xdg, resize } => Some(
                if resize is WaitingForCommit {
                    ResizeState::NotResizing
                } else {
                    resize
                },
            ),
            _ => None,
        }),
{
    let mut steps: Vec<ConfigureStep> = Vec::new();
    let mut after: Option<ResizeState> = None;
    match role {
        SurfaceRole::Window { xdg, resize } => {
            if xdg && !configured {
                steps.push(ConfigureStep::SendConfigure);
            }
            after = match resize {
                ResizeState::WaitingForCommit(_) => Some(ResizeState::NotResizing),
                _ => Some(resize),
            };
        },
        SurfaceRole::Popup { input_method } => {
            if !input_method && !configured {
                steps.push(ConfigureStep::SendConfigure);
            }
        },
        SurfaceRole::Layer => {
            steps.push(ConfigureStep::ArrangeLayers);
            if !configured {
                steps.push(ConfigureStep::SendConfigure);
            }
        },
        SurfaceRole::Other => {},
    }
    assert(steps@ =~= configure_steps(role, configured));
    (steps, after)
}

/// What a commit of a buffer waits for.
#[derive(Debug, Clone, Copy, PartialEq, Eq, Structural)]
pub enum Blocker {
    /// It is shown at once.
    Nothing,
    /// The point in time at which the client says that the buffer is ready.
    AcquirePoint,
    /// The buffer itself.
    Buffer,
}

/// What the commit of a new buffer waits for. Only buffers in device memory
/// are waited for: by the acquire point if it can be watched, or else by the
/// buffer if that can be watched.
pub fn commit_blocker(device_buffer: bool, acquire_point: bool, buffer: bool) -> (r: Blocker)
    ensures
        r == (if !device_buffer {
            Blocker::Nothing
        } else if acquire_point {
            Blocker::AcquirePoint
        } else if buffer {
            Blocker::Buffer
        } else {
            Blocker::Nothing
        }),
{
    if !device_buffer {
        Blocker::Nothing
    } else if acquire_point {
        Blocker::AcquirePoint
    } else if buffer {
        Blocker::Buffer
    } else {
        Blocker::Nothing
    }
}

/// A floating window is put in the middle of the area if and only if a rule asks
/// for it and there is an area.
pub proof fn centering_follows_the_rules(
    window: u64,
    app_id: Option<Seq<char>>,
    size: Size,
    rules: Seq<WindowRule>,
    area: Rect,
)
    requires
        action::can_center(area, size),
    ensures
        centering(window, app_id, size, rules, None).len() == 0,
        !rule::rule_centers(rules, app_id) ==> centering(
            window,
            app_id,
            size,
            rules,
            Some(area),
        ).len() == 0,
        rule::rule_centers(rules, app_id) ==> exists|at: Point|
            centering(window, app_id, size, rules, Some(area)) == seq![
                Action::Show { window, at },
            ] && #[trigger] action::in_the_middle(area, size, at),
{
    action::centered_window_is_in_the_middle(area, size);
    let at = action::centered_at(area, size);
    if rule::rule_centers(rules, app_id) {
        assert(action::in_the_middle(area, size, at));
        assert(centering(window, app_id, size, rules, Some(area)) == seq![
            Action::Show { window, at },
        ]);
    }
}

/// A new window is sent away to the workspace that its rule names, unless that
/// is the active one.
pub proof fn windows_are_sent_to_other_workspaces(
    desktop: Desktop,
    app_id: Option<Seq<char>>,
    entries: Seq<RuleEntry>,
    idx: usize,
)
    ensures
        sent_away(desktop, app_id, entries) == Some(idx) <==> rule::rule_workspace(entries, app_id)
            == Some(idx) && idx != desktop.workspaces.active,
{
}

/// The contents of a window, a cursor and an icon stay under the pointer's
/// hotspot while their client moves them: the window and the icon move along,
/// and the hotspot of the cursor moves the other way by the same amount.
pub proof fn contents_move_with_their_client(
    cursor: CursorImage,
    icon: Option<DndIcon>,
    commit: Commit,
    d: Point,
)
    requires
        commit.delta == Some(d),
    ensures
        cursor matches CursorImage::Surface { surface, hotspot } ==> {
            let used = !commit.synced && commit.window is Some && commit.root == commit.surface;
            let own = surface == commit.surface && !used;
            let moved = moved_cursor(cursor, commit);
            &&& moved is Surface
            &&& moved->surface == surface
            &&& own && i32::MIN <= hotspot.x - d.x <= i32::MAX && i32::MIN <= hotspot.y - d.y
                <= i32::MAX ==> moved->hotspot.x + d.x == hotspot.x && moved->hotspot.y + d.y
                == hotspot.y
            &&& !own ==> moved == cursor
        },
        !(cursor is Surface) ==> moved_cursor(cursor, commit) == cursor,
        icon matches Some(i) ==> {
            let taken = cursor is Surface && cursor->surface == commit.surface;
            let used = !commit.synced && commit.window is Some && commit.root == commit.surface;
            let own = i.surface == commit.surface && !used && !taken;
            let moved = moved_icon(icon, cursor, commit);
            &&& moved is Some
            &&& moved->0.surface == i.surface
            &&& own && i32::MIN <= i.offset.x + d.x <= i32::MAX && i32::MIN <= i.offset.y + d.y
                <= i32::MAX ==> moved->0.offset.x - i.offset.x == d.x && moved->0.offset.y
                - i.offset.y == d.y
            &&& !own ==> moved == icon
        },
        icon is None ==> moved_icon(icon, cursor, commit) is None,
{
}

/// Without a movement of the contents, neither the cursor nor an icon moves.
pub proof fn still_contents_move_nothing(
    cursor: CursorImage,
    icon: Option<DndIcon>,
    commit: Commit,
)
    requires
        commit.delta is None,
    ensures
        moved_cursor(cursor, commit) == cursor,
        moved_icon(icon, cursor, commit) == icon,
        forall|i: int|
            0 <= i < window_steps(commit).len() ==> #[trigger] window_steps(commit)[i] is Refresh,
{
}

/// A window takes note of every commit in its tree that is not waited for, and
/// moves along with its own contents.
pub proof fn window_moves_with_its_contents(commit: Commit)
    requires
        !commit.synced,
        commit.window is Some,
    ensures
        ({
            let w = commit.window->0;
            let steps = window_steps(commit);
            &&& steps.len() > 0
            &&& steps[0] == (CommitStep::Refresh { window: w.window })
            &&& steps.len() == 2 <==> commit.root == commit.surface && commit.delta is Some
            &&& commit.root == commit.surface && commit.delta is Some && w.location is Some && ({
                let to = commit.delta->0;
                let from = w.location->0;
                i32::MIN <= from.x + to.x <= i32::MAX && i32::MIN <= from.y + to.y <= i32::MAX
            }) ==> (match steps[1] {
                CommitStep::Act { action: Action::Show { window, at } } => window == w.window
                    && at.x - w.location->0.x == commit.delta->0.x && at.y - w.location->0.y
                    == commit.delta->0.y,
                _ => false,
            })
        }),
{
}

/// A window that opens has one animation, which starts now; those of the other
/// windows go on.
pub proof fn opening_window_is_animated(
    anims: Seq<WindowAnim>,
    window: u64,
    now: u64,
    duration: u64,
    a: WindowAnim,
)
    requires
        duration > 0,
    ensures
        opened(anims, window, now, duration).contains(a) <==> if a.window == window {
            a == (WindowAnim { window, kind: AnimKind::Open, start: now, duration })
        } else {
            anims.contains(a)
        },
        opened(anims, window, now, 0) == anims,
{
    broadcast use vstd::seq_lib::group_seq_properties;

    let keep = anim::of_others(window);
    let others = anims.filter(keep);
    let fresh = WindowAnim { window, kind: AnimKind::Open, start: now, duration };
    vstd::seq_lib::lemma_seq_contains_after_push(others, fresh, a);
    if a.window != window && anims.contains(a) {
        let k = choose|k: int| 0 <= k < anims.len() && anims[k] == a;
        anims.lemma_filter_contains(keep, k);
    }
    if others.contains(a) {
        let k = choose|k: int| 0 <= k < others.len() && others[k] == a;
        anims.lemma_filter_pred(keep, k);
        anims.lemma_filter_contains_rev(keep, a);
    }
}

/// A surface gets its configure once: windows of the desktop shell, popups of
/// clients and layer surfaces do. Layer surfaces are laid out first, with every
/// commit.
pub proof fn configure_comes_once(role: SurfaceRole, configured: bool)
    ensures
        ({
            let steps = configure_steps(role, configured);
            let gets = match role {
                SurfaceRole::Window { xdg, .. } => xdg,
                SurfaceRole::Popup { input_method } => !input_method,
                SurfaceRole::Layer => true,
                SurfaceRole::Other => false,
            };
            &&& steps.contains(ConfigureStep::SendConfigure) <==> gets && !configured
            &&& steps.contains(ConfigureStep::ArrangeLayers) <==> role is Layer
            &&& role is Layer ==> steps[0] is ArrangeLayers
            &&& steps.no_duplicates()
        }),
{
    let steps = configure_steps(role, configured);
    if steps.len() > 0 {
        assert(steps.contains(steps[0]));
    }
    if steps.len() > 1 {
        assert(steps.contains(steps[1]));
    }
}

/// A new window that nothing claims is sent away if and only if there is an
/// output and a rule names another workspace. One that is sent away leaves the
/// screen, unfocused and without an animation; any other one opens with its
/// animation and, while the screen is not locked, gets the focus last of all.
pub proof fn new_windows_open_where_they_belong(
    before: SpitfireState,
    after: SpitfireState,
    w: WindowCommit,
    env: Surroundings<'_>,
    actions: Seq<Action>,
)
    requires
        first_contents(before, after, w, env, actions),
        !is_claimed(before.desktop, text::text_view(w.app_id)),
        env.duration > 0,
    ensures
        ({
            let target = rule::rule_workspace(env.entries@, text::text_view(w.app_id));
            let away = env.output && target is Some && target->0
                != before.desktop.workspaces.active;
            let focus = Action::Focus { window: w.window };
            let anim = WindowAnim {
                window: w.window,
                kind: AnimKind::Open,
                start: env.now,
                duration: env.duration,
            };
            &&& away ==> {
                &&& after.anims.anims@ == before.anims.anims@
                &&& actions.last() == Action::SyncWorkspaces
                &&& actions.contains(Action::Unmap { window: w.window })
            }
            &&& !away ==> {
                &&& after.desktop == before.desktop
                &&& after.anims.anims@.last() == anim
                &&& !before.locked ==> actions.len() > 0 && actions.last() == focus
                &&& before.locked ==> !actions.contains(focus)
            }
        }),
{
    let app_id = text::text_view(w.app_id);
    let centered = centering(w.window, app_id, w.size, env.rules@, env.area);
    let target = sent_away(before.desktop, app_id, env.entries@);
    if env.output && target is Some {
        assert(actions[centered.len() as int] == (Action::Unmap { window: w.window }));
    }
}

/// A commit brings the first contents of a window if and only if it is a commit
/// of the window's own surface, with contents, and the window still waits for
/// them.
pub proof fn first_contents_come_once(shell: SpitfireState, commit: Commit)
    ensures
        is_first(shell, commit) <==> !commit.synced && commit.window is Some && commit.root
            == commit.surface && commit.window->0.has_buffer
            && shell.pending_initial_focus@.contains(commit.surface),
{
}

} // verus!
