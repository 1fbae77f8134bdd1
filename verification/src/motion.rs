//! Where windows are seen while they are animated or while a switch between
//! workspaces slides across the screen.

use crate::action::Focus;
use crate::anim;
use crate::anim::{AnimatedWindow, Easing, WindowAnim, WindowAnimations};
use crate::binary32::Binary32;
use crate::border;
use crate::border::{BorderRect, MappedWindow};
use crate::desktop::{Desktop, WorkspaceSlide};
use crate::geometry;
use crate::geometry::Rect;
use crate::tiling::Placement;
use crate::windows;
use crate::workspace::Workspace;
use vstd::prelude::*;

verus! {

/// How far the slide has the windows of a workspace from their place, for an
/// output of width `width`. Switching to a later workspace brings it in from
/// the right while the other one leaves to the left; switching to an earlier
/// one is the mirror image.
pub open spec fn offset_of(slide: WorkspaceSlide, entering: bool, width: int, eased: Binary32) -> int {
    let side = if slide.to_idx > slide.from_idx {
        width
    } else {
        -width
    };
    if entering {
        anim::spec_lerp(side, 0, eased)
    } else {
        anim::spec_lerp(0, -side, eased)
    }
}

/// Whether a workspace has a window.
pub open spec fn holds(workspaces: Seq<Workspace>, idx: usize, window: u64) -> bool {
    idx < workspaces.len() && workspaces[idx as int].tiling.order@.contains(window)
}

/// Whether a slide is under way.
pub open spec fn sliding(slide: Option<WorkspaceSlide>, now: u64) -> bool {
    slide matches Some(s) && now < s.start + s.duration
}

/// How far a slide has a window from its place, if it moves the window.
pub open spec fn slide_offset(
    workspaces: Seq<Workspace>,
    slide: Option<WorkspaceSlide>,
    window: u64,
    width: int,
    eased: Binary32,
    now: u64,
) -> Option<int> {
    if !sliding(slide, now) {
        None
    } else if holds(workspaces, slide->0.to_idx, window) {
        Some(offset_of(slide->0, true, width, eased))
    } else if holds(workspaces, slide->0.from_idx, window) {
        Some(offset_of(slide->0, false, width, eased))
    } else {
        None
    }
}

/// The offsets of a slide stay within `i32`.
pub open spec fn can_slide(slide: Option<WorkspaceSlide>, width: i32, eased: Binary32) -> bool {
    slide matches Some(s) ==> {
        &&& width > i32::MIN
        &&& geometry::fits_i32(offset_of(s, true, width as int, eased))
        &&& geometry::fits_i32(offset_of(s, false, width as int, eased))
    }
}

/// How far a slide has a window from its place, if it moves the window.
pub fn workspace_slide_offset_for(
    desktop: &Desktop,
    window: u64,
    width: i32,
    eased: Binary32,
    now: u64,
) -> (r: Option<i32>)
    requires
        can_slide(desktop.slide, width, eased),
    ensures
        (match r {
            Some(x) => Some(x as int),
            None => None,
        }) == slide_offset(
            desktop.workspaces.workspaces@,
            desktop.slide,
            window,
            width as int,
            eased,
            now,
        ),
{
    let slide: WorkspaceSlide = match desktop.slide {
        Some(slide) => slide,
        None => return None,
    };
    if now >= slide.start && now - slide.start >= slide.duration {
        return None;
    }
    let side: i32 = if slide.to_idx > slide.from_idx { width } else { -width };
    if has_window(desktop, slide.to_idx, window) {
        Some(side + eased.scale_i32(0 - side))
    } else if has_window(desktop, slide.from_idx, window) {
        Some(eased.scale_i32(-side))
    } else {
        None
    }
}

fn has_window(desktop: &Desktop, idx: usize, window: u64) -> (r: bool)
    ensures
        r == holds(desktop.workspaces.workspaces@, idx, window),
{
    match desktop.workspaces.get(idx) {
        Some(ws) => windows::contains(ws.tiling.windows(), window),
        None => false,
    }
}

/// A rectangle moved sideways.
pub open spec fn shifted(rect: Rect, dx: int) -> Rect {
    Rect { x: (rect.x + dx) as i32, y: rect.y, w: rect.w, h: rect.h }
}

/// An animated window with the slide added to its place.
pub open spec fn with_slide(entry: AnimatedWindow, offset: Option<int>) -> AnimatedWindow {
    match offset {
        Some(dx) => AnimatedWindow { window: entry.window, target: shifted(entry.target, dx) },
        None => entry,
    }
}

/// Whether a list has an entry for a window.
pub open spec fn has_entry(list: Seq<AnimatedWindow>, window: u64) -> bool {
    exists|i: int| 0 <= i < list.len() && (#[trigger] list[i]).window == window
}

/// The entries for windows that only the slide moves, for the first `n` windows
/// on the screen.
pub open spec fn slide_only(
    entries: Seq<AnimatedWindow>,
    mapped: Seq<MappedWindow>,
    offsets: Seq<Option<int>>,
    n: int,
) -> Seq<AnimatedWindow>
    decreases n,
{
    if n <= 0 {
        Seq::empty()
    } else {
        let before = slide_only(entries, mapped, offsets, n - 1);
        let m = mapped[n - 1];
        match offsets[n - 1] {
            Some(dx) => if has_entry(entries, m.id) {
                before
            } else {
                before.push(AnimatedWindow { window: m.id, target: shifted(m.geometry, dx) })
            },
            None => before,
        }
    }
}

/// The offsets of the windows on the screen.
pub open spec fn offsets_of(
    desktop: Desktop,
    mapped: Seq<MappedWindow>,
    width: int,
    eased: Binary32,
    now: u64,
) -> Seq<Option<int>> {
    Seq::new(
        mapped.len(),
        |i: int|
            slide_offset(
                desktop.workspaces.workspaces@,
                desktop.slide,
                mapped[i].id,
                width,
                eased,
                now,
            ),
    )
}

/// The windows that are seen away from their place, and where: the animated
/// ones, with the slide added, and after them those that only the slide moves.
pub open spec fn seen_away(
    desktop: Desktop,
    entries: Seq<AnimatedWindow>,
    mapped: Seq<MappedWindow>,
    width: int,
    eased: Binary32,
    now: u64,
) -> Seq<AnimatedWindow> {
    let moved = Seq::new(
        entries.len(),
        |i: int|
            with_slide(
                entries[i],
                slide_offset(
                    desktop.workspaces.workspaces@,
                    desktop.slide,
                    entries[i].window,
                    width,
                    eased,
                    now,
                ),
            ),
    );
    moved + slide_only(
        entries,
        mapped,
        offsets_of(desktop, mapped, width, eased, now),
        mapped.len() as int,
    )
}

/// Adding the slide stays within `i32`.
pub open spec fn can_shift(
    desktop: Desktop,
    entries: Seq<AnimatedWindow>,
    mapped: Seq<MappedWindow>,
    width: i32,
    eased: Binary32,
    now: u64,
) -> bool {
    &&& can_slide(desktop.slide, width, eased)
    &&& forall|i: int|
        0 <= i < entries.len() ==> (slide_offset(
            desktop.workspaces.workspaces@,
            desktop.slide,
            (#[trigger] entries[i]).window,
            width as int,
            eased,
            now,
        ) matches Some(dx) ==> geometry::fits_i32(entries[i].target.x + dx))
    &&& forall|i: int|
        0 <= i < mapped.len() ==> (slide_offset(
            desktop.workspaces.workspaces@,
            desktop.slide,
            (#[trigger] mapped[i]).id,
            width as int,
            eased,
            now,
        ) matches Some(dx) ==> geometry::fits_i32(mapped[i].geometry.x + dx))
}

fn lists(list: &[AnimatedWindow], window: u64) -> (r: bool)
    ensures
        r == has_entry(list@, window),
{
    let mut i: usize = 0;
    while i < list.len()
        invariant
            i <= list@.len(),
            forall|j: int| 0 <= j < i ==> (#[trigger] list@[j]).window != window,
        decreases list@.len() - i,
    {
        if list[i].window == window {
            return true;
        }
        i = i + 1;
    }
    false
}

/// The windows that are seen away from their place, and where. `entries` are
/// the animated windows, `mapped` all windows on the screen.
pub fn animated_windows(
    desktop: &Desktop,
    entries: &[AnimatedWindow],
    mapped: &[MappedWindow],
    width: i32,
    eased: Binary32,
    now: u64,
) -> (r: Vec<AnimatedWindow>)
    requires
        can_shift(*desktop, entries@, mapped@, width, eased, now),
    ensures
        r@ == seen_away(*desktop, entries@, mapped@, width as int, eased, now),
{
    let mut r: Vec<AnimatedWindow> = Vec::new();
    let ghost workspaces = desktop.workspaces.workspaces@;
    let ghost moved = Seq::new(
        entries@.len(),
        |i: int|
            with_slide(
                entries@[i],
                slide_offset(
                    workspaces,
                    desktop.slide,
                    entries@[i].window,
                    width as int,
                    eased,
                    now,
                ),
            ),
    );
    let mut i: usize = 0;
    while i < entries.len()
        invariant
            i <= entries@.len(),
            workspaces == desktop.workspaces.workspaces@,
            can_shift(*desktop, entries@, mapped@, width, eased, now),
            moved.len() == entries@.len(),
            forall|k: int|
                0 <= k < moved.len() ==> moved[k] == with_slide(
                    entries@[k],
                    slide_offset(
                        workspaces,
                        desktop.slide,
                        entries@[k].window,
                        width as int,
                        eased,
                        now,
                    ),
                ),
            r@ =~= moved.take(i as int),
        decreases entries@.len() - i,
    {
        let mut entry: AnimatedWindow = entries[i];
        if let Some(dx) = workspace_slide_offset_for(desktop, entry.window, width, eased, now) {
            entry.target.x = entry.target.x + dx;
        }
        assert(entry == moved[i as int]);
        r.push(entry);
        i = i + 1;
    }
    assert(moved.take(i as int) =~= moved);
    let ghost offsets = offsets_of(*desktop, mapped@, width as int, eased, now);
    let mut j: usize = 0;
    assert(moved + slide_only(entries@, mapped@, offsets, 0) =~= moved);
    while j < mapped.len()
        invariant
            j <= mapped@.len(),
            can_shift(*desktop, entries@, mapped@, width, eased, now),
            offsets == offsets_of(*desktop, mapped@, width as int, eased, now),
            r@ == moved + slide_only(entries@, mapped@, offsets, j as int),
        decreases mapped@.len() - j,
    {
        let m: MappedWindow = mapped[j];
        if let Some(dx) = workspace_slide_offset_for(desktop, m.id, width, eased, now) {
            if !lists(entries, m.id) {
                let geo: Rect = m.geometry;
                r.push(
                    AnimatedWindow {
                        window: m.id,
                        target: Rect { x: geo.x + dx, y: geo.y, w: geo.w, h: geo.h },
                    },
                );
            }
        }
        assert(r@ =~= moved + slide_only(entries@, mapped@, offsets, j + 1));
        j = j + 1;
    }
    assert(r@ =~= seen_away(*desktop, entries@, mapped@, width as int, eased, now));
    r
}

/// Where a window is seen: as the list has it, or else in its place.
pub open spec fn seen_at(animated: Seq<AnimatedWindow>, m: MappedWindow) -> Rect
    decreases animated.len(),
{
    if animated.len() == 0 {
        m.geometry
    } else if animated[0].window == m.id {
        animated[0].target
    } else {
        seen_at(animated.drop_first(), m)
    }
}

/// All windows on the screen with the places where they are seen.
pub open spec fn as_seen(mapped: Seq<MappedWindow>, animated: Seq<AnimatedWindow>) -> Seq<
    MappedWindow,
> {
    Seq::new(
        mapped.len(),
        |i: int| MappedWindow { id: mapped[i].id, geometry: seen_at(animated, mapped[i]) },
    )
}

/// All windows on the screen with the places where they are seen. Borders are
/// drawn around these, so that they stay with their windows.
pub fn windows_as_seen(mapped: &[MappedWindow], animated: &[AnimatedWindow]) -> (r: Vec<
    MappedWindow,
>)
    ensures
        r@ == as_seen(mapped@, animated@),
{
    let mut r: Vec<MappedWindow> = Vec::new();
    let mut i: usize = 0;
    while i < mapped.len()
        invariant
            i <= mapped@.len(),
            r@.len() == i,
            forall|k: int|
                0 <= k < i ==> #[trigger] r@[k] == (MappedWindow {
                    id: mapped@[k].id,
                    geometry: seen_at(animated@, mapped@[k]),
                }),
        decreases mapped@.len() - i,
    {
        let m: MappedWindow = mapped[i];
        r.push(MappedWindow { id: m.id, geometry: find_seen(animated, m) });
        i = i + 1;
    }
    assert(r@ =~= as_seen(mapped@, animated@));
    r
}

fn find_seen(animated: &[AnimatedWindow], m: MappedWindow) -> (r: Rect)
    ensures
        r == seen_at(animated@, m),
{
    let mut i: usize = 0;
    assert(animated@.skip(0) =~= animated@);
    while i < animated.len()
        invariant
            i <= animated@.len(),
            seen_at(animated@, m) == seen_at(animated@.skip(i as int), m),
        decreases animated@.len() - i,
    {
        if animated[i].window == m.id {
            return animated[i].target;
        }
        assert(animated@.skip(i as int).drop_first() =~= animated@.skip(i + 1));
        i = i + 1;
    }
    m.geometry
}

/// What the screen shows of its windows: those that are away from their place,
/// and the borders.
#[derive(Debug)]
pub struct SeenWindows {
    pub animated: Vec<AnimatedWindow>,
    pub borders: Vec<BorderRect>,
}

/// Finds where the windows on the screen are seen, and puts the borders of the
/// active workspace's windows around them there. `easings` has one entry per
/// animation, in order; `eased` tells how far the slide has come.
pub fn windows_and_borders(
    desktop: &Desktop,
    anims: &WindowAnimations,
    mapped: &[MappedWindow],
    easings: &[Easing],
    width: i32,
    eased: Binary32,
    focus: Focus,
    now: u64,
) -> (r: SeenWindows)
    requires
        desktop.workspaces.wf(),
        easings@.len() == anims.anims@.len(),
        forall|i: int|
            0 <= i < anims.anims@.len() && anim::running(#[trigger] anims.anims@[i], now)
                && border::geometry_of(mapped@, anims.anims@[i].window) is Some
                ==> anim::can_target(
                anims.anims@[i],
                border::geometry_of(mapped@, anims.anims@[i].window)->0,
                easings@[i],
            ),
        can_shift(
            *desktop,
            anim::resolved(anims.anims@, mapped@, easings@, now, anims.anims@.len() as int),
            mapped@,
            width,
            eased,
            now,
        ),
    ensures
        r.animated@ == seen_away(
            *desktop,
            anim::resolved(anims.anims@, mapped@, easings@, now, anims.anims@.len() as int),
            mapped@,
            width as int,
            eased,
            now,
        ),
        ({
            let order = desktop.workspaces.workspaces@[desktop.workspaces.active as int].tiling.order@;
            r.borders@ == border::borders_of(
                order,
                as_seen(mapped@, r.animated@),
                focus,
                order.len() as int,
            )
        }),
{
    let moving: Vec<AnimatedWindow> = anims.resolve_all(mapped, easings, now);
    let animated: Vec<AnimatedWindow> = animated_windows(
        desktop,
        moving.as_slice(),
        mapped,
        width,
        eased,
        now,
    );
    let seen: Vec<MappedWindow> = windows_as_seen(mapped, animated.as_slice());
    let order: &[u64] = desktop.workspaces.active().tiling.windows();
    let borders: Vec<BorderRect> = border::border_rects(order, seen.as_slice(), focus);
    SeenWindows { animated, borders }
}

proof fn lemma_geometry_as_seen(
    mapped: Seq<MappedWindow>,
    animated: Seq<AnimatedWindow>,
    window: u64,
)
    ensures
        border::geometry_of(as_seen(mapped, animated), window) == (match border::geometry_of(
            mapped,
            window,
        ) {
            Some(geometry) => Some(seen_at(animated, MappedWindow { id: window, geometry })),
            None => None,
        }),
    decreases mapped.len(),
{
    if mapped.len() > 0 {
        assert(as_seen(mapped, animated).drop_first() =~= as_seen(mapped.drop_first(), animated));
        lemma_geometry_as_seen(mapped.drop_first(), animated, window);
        assert(mapped[0].id == window ==> mapped[0] == (MappedWindow {
            id: window,
            geometry: mapped[0].geometry,
        }));
    }
}

/// Every border goes around the place where its window is seen, also while the
/// window is animated or slides; and every window of the order that is on the
/// screen has one.
pub proof fn borders_go_around_what_is_seen(
    order: Seq<u64>,
    mapped: Seq<MappedWindow>,
    animated: Seq<AnimatedWindow>,
    focus: Focus,
    n: int,
)
    requires
        0 <= n <= order.len(),
    ensures
        ({
            let borders = border::borders_of(order, as_seen(mapped, animated), focus, n);
            &&& forall|k: int|
                0 <= k < borders.len() ==> ({
                    let b = #[trigger] borders[k];
                    let place = border::geometry_of(mapped, b.window);
                    &&& order.contains(b.window)
                    &&& place is Some
                    &&& b.geometry == seen_at(
                        animated,
                        MappedWindow { id: b.window, geometry: place->0 },
                    )
                    &&& b.focused == (focus == Focus::Window(b.window))
                })
            &&& forall|i: int|
                0 <= i < n && border::geometry_of(mapped, #[trigger] order[i]) is Some
                    ==> exists|k: int|
                    0 <= k < borders.len() && (#[trigger] borders[k]).window == order[i]
        }),
    decreases n,
{
    if n > 0 {
        let seen = as_seen(mapped, animated);
        borders_go_around_what_is_seen(order, mapped, animated, focus, n - 1);
        lemma_geometry_as_seen(mapped, animated, order[n - 1]);
        let before = border::borders_of(order, seen, focus, n - 1);
        let borders = border::borders_of(order, seen, focus, n);
        assert(order.contains(order[n - 1]));
        assert forall|k: int| 0 <= k < before.len() implies #[trigger] borders[k] == before[k] by {}
        assert forall|i: int|
            0 <= i < n && border::geometry_of(mapped, #[trigger] order[i]) is Some implies exists|
            k: int,
        |
            0 <= k < borders.len() && (#[trigger] borders[k]).window == order[i] by {
            if i < n - 1 {
                let k = choose|k: int|
                    0 <= k < before.len() && (#[trigger] before[k]).window == order[i];
                assert(borders[k].window == order[i]);
            } else {
                assert(borders[before.len() as int].window == order[i]);
            }
        }
    }
}

/// A slide starts with the old workspace in place and the new one a whole
/// output away, and ends with the new one in place and the old one a whole
/// output away.
pub proof fn slide_goes_from_one_workspace_to_the_other(slide: WorkspaceSlide, width: i32)
    requires
        0 <= width < 0x100_0000,
    ensures
        ({
            let side = if slide.to_idx > slide.from_idx {
                width as int
            } else {
                -(width as int)
            };
            let start = Binary32 { bits: 0 };
            let end = Binary32 { bits: anim::ONE };
            &&& offset_of(slide, true, width as int, start) == side
            &&& offset_of(slide, false, width as int, start) == 0
            &&& offset_of(slide, true, width as int, end) == 0
            &&& offset_of(slide, false, width as int, end) == -side
        }),
{
    let side: i32 = if slide.to_idx > slide.from_idx {
        width
    } else {
        (-width) as i32
    };
    anim::lerp_starts_in_place(side as int, 0);
    anim::lerp_starts_in_place(0, -(side as int));
    anim::lerp_ends_in_place(side, 0);
    anim::lerp_ends_in_place(0, (-side) as i32);
}

/// Whether a placement is animated: the window is on the screen with contents,
/// and its place or its size changes.
pub open spec fn glides(
    p: Placement,
    mapped: Seq<MappedWindow>,
    fresh: Seq<u64>,
    resized: Seq<u64>,
) -> bool {
    &&& border::geometry_of(mapped, p.window) is Some
    &&& !fresh.contains(p.window)
    &&& p.moved || resized.contains(p.window)
}

/// The animations after the first `n` placements.
pub open spec fn gliding(
    anims: Seq<WindowAnim>,
    placed: Seq<Placement>,
    mapped: Seq<MappedWindow>,
    fresh: Seq<u64>,
    resized: Seq<u64>,
    eased: Seq<Binary32>,
    now: u64,
    duration: u64,
    n: int,
) -> Seq<WindowAnim>
    decreases n,
{
    if n <= 0 {
        anims
    } else {
        let before = gliding(anims, placed, mapped, fresh, resized, eased, now, duration, n - 1);
        let p = placed[n - 1];
        if glides(p, mapped, fresh, resized) {
            anim::after_move(
                before,
                p.window,
                border::geometry_of(mapped, p.window)->0,
                now,
                duration,
                eased[n - 1],
            )
        } else {
            before
        }
    }
}

/// Starting from where a moving window is seen stays within `i32`.
pub open spec fn can_glide(
    anims: Seq<WindowAnim>,
    placed: Seq<Placement>,
    mapped: Seq<MappedWindow>,
    eased: Seq<Binary32>,
) -> bool {
    forall|i: int, j: int|
        0 <= i < placed.len() && 0 <= j < anims.len() && (#[trigger] placed[i]).window == (
        #[trigger] anims[j]).window && border::geometry_of(mapped, placed[i].window) is Some && (
        anims[j].kind is Move) ==> anim::can_lerp_rect(
            anims[j].kind->from,
            border::geometry_of(mapped, placed[i].window)->0,
            eased[i],
        )
}

/// Starts to move the windows that the layout has given another place or size.
/// Windows without contents, which are in `fresh`, appear in their place.
/// `resized` are the windows that were asked to take another size. `eased`
/// tells for every placement how far the window's animation has come.
pub fn animate_placements(
    anims: &mut WindowAnimations,
    placed: &[Placement],
    mapped: &[MappedWindow],
    fresh: &[u64],
    resized: &[u64],
    eased: &[Binary32],
    now: u64,
    duration: u64,
)
    requires
        eased@.len() == placed@.len(),
        forall|i: int, j: int|
            0 <= i < j < placed@.len() ==> (#[trigger] placed@[i]).window != (
            #[trigger] placed@[j]).window,
        can_glide(old(anims).anims@, placed@, mapped@, eased@),
    ensures
        old(anims).wf() ==> final(anims).wf(),
        final(anims).anims@ == gliding(
            old(anims).anims@,
            placed@,
            mapped@,
            fresh@,
            resized@,
            eased@,
            now,
            duration,
            placed@.len() as int,
        ),
{
    let ghost start = anims.anims@;
    let mut i: usize = 0;
    while i < placed.len()
        invariant
            i <= placed@.len(),
            start == old(anims).anims@,
            eased@.len() == placed@.len(),
            forall|k: int, j: int|
                0 <= k < j < placed@.len() ==> (#[trigger] placed@[k]).window != (
                #[trigger] placed@[j]).window,
            can_glide(start, placed@, mapped@, eased@),
            old(anims).wf() ==> anims.wf(),
            anims.anims@ == gliding(
                start,
                placed@,
                mapped@,
                fresh@,
                resized@,
                eased@,
                now,
                duration,
                i as int,
            ),
            forall|j: int|
                0 <= j < anims.anims@.len() ==> is_old_or_placed(
                    start,
                    placed@,
                    i as int,
                    #[trigger] anims.anims@[j],
                ),
        decreases placed@.len() - i,
    {
        let p: Placement = placed[i];
        if let Some(from) = border::find_geometry(mapped, p.window) {
            if !windows::contains(fresh, p.window) && (p.moved || windows::contains(
                resized,
                p.window,
            )) {
                let ghost before = anims.anims@;
                proof {
                    assert forall|k: int|
                        anim::anim_at(before, p.window, k) && anim::running(before[k], now) implies ((
                    #[trigger] before[k]).kind matches anim::AnimKind::Move { from: earlier }
                        ==> anim::can_lerp_rect(earlier, from, eased@[i as int])) by {
                        assert(is_old_or_placed(start, placed@, i as int, before[k]));
                        if exists|j: int| 0 <= j < start.len() && start[j] == before[k] {
                            let j = choose|j: int| 0 <= j < start.len() && start[j] == before[k];
                            assert(placed@[i as int].window == start[j].window);
                        } else {
                            let j = choose|j: int|
                                0 <= j < i && (#[trigger] placed@[j]).window == before[k].window;
                            assert(placed@[j].window != placed@[i as int].window);
                        }
                    }
                }
                anims.push_move(p.window, from, now, duration, eased[i]);
                proof {
                    lemma_after_move_old(before, p.window, from, now, duration, eased@[i as int]);
                    assert forall|j: int| 0 <= j < anims.anims@.len() implies is_old_or_placed(
                        start,
                        placed@,
                        i + 1,
                        #[trigger] anims.anims@[j],
                    ) by {
                        let a = anims.anims@[j];
                        if before.contains(a) {
                            let k = choose|k: int| 0 <= k < before.len() && before[k] == a;
                            assert(is_old_or_placed(start, placed@, i as int, before[k]));
                            lemma_old_or_placed_grows(start, placed@, i as int, a);
                        } else {
                            assert(placed@[i as int].window == a.window);
                        }
                    }
                }
            }
        }
        proof {
            assert forall|j: int| 0 <= j < anims.anims@.len() implies is_old_or_placed(
                start,
                placed@,
                i + 1,
                #[trigger] anims.anims@[j],
            ) by {
                if is_old_or_placed(start, placed@, i as int, anims.anims@[j]) {
                    lemma_old_or_placed_grows(start, placed@, i as int, anims.anims@[j]);
                }
            }
        }
        i = i + 1;
    }
}

/// Whether an animation was there at the start or is of one of the first `n`
/// placed windows.
spec fn is_old_or_placed(
    start: Seq<WindowAnim>,
    placed: Seq<Placement>,
    n: int,
    a: WindowAnim,
) -> bool {
    (exists|j: int| 0 <= j < start.len() && start[j] == a) || exists|j: int|
        0 <= j < n && (#[trigger] placed[j]).window == a.window
}

proof fn lemma_old_or_placed_grows(
    start: Seq<WindowAnim>,
    placed: Seq<Placement>,
    n: int,
    a: WindowAnim,
)
    requires
        is_old_or_placed(start, placed, n, a),
    ensures
        is_old_or_placed(start, placed, n + 1, a),
{
    if !(exists|j: int| 0 <= j < start.len() && start[j] == a) {
        let j = choose|j: int| 0 <= j < n && (#[trigger] placed[j]).window == a.window;
        assert(placed[j].window == a.window);
    }
}

/// Starting to move a window adds at most an animation of that window.
proof fn lemma_after_move_old(
    anims: Seq<WindowAnim>,
    window: u64,
    from: Rect,
    now: u64,
    duration: u64,
    eased: Binary32,
)
    ensures
        forall|j: int|
            0 <= j < anim::after_move(anims, window, from, now, duration, eased).len() ==> (
            anims.contains(
                #[trigger] anim::after_move(anims, window, from, now, duration, eased)[j],
            ) || anim::after_move(anims, window, from, now, duration, eased)[j].window == window),
{
    let after = anim::after_move(anims, window, from, now, duration, eased);
    let kept = anims.filter(anim::of_others(window));
    assert forall|j: int| 0 <= j < after.len() implies anims.contains(#[trigger] after[j])
        || after[j].window == window by {
        if after != anims && j < kept.len() {
            assert(after[j] == kept[j]);
            assert(kept.contains(kept[j]));
            anims.lemma_filter_contains_rev(anim::of_others(window), kept[j]);
        }
    }
}

/// During a slide the two workspaces stay side by side, exactly one output
/// apart: the one that enters is on the right of the one that leaves when it is
/// a later one, and on the left when it is an earlier one. Neither is ever
/// further than one output from its place.
pub proof fn sliding_workspaces_stay_side_by_side(slide: WorkspaceSlide, width: i32, eased: Binary32)
    requires
        0 <= width < 0x100_0000,
        eased.bits <= anim::ONE,
    ensures
        ({
            let enters = offset_of(slide, true, width as int, eased);
            let leaves = offset_of(slide, false, width as int, eased);
            &&& slide.to_idx > slide.from_idx ==> enters - leaves == width && 0 <= enters <= width
            &&& slide.to_idx <= slide.from_idx ==> leaves - enters == width && 0 <= leaves <= width
        }),
{
    let side = if slide.to_idx > slide.from_idx {
        width as int
    } else {
        -(width as int)
    };
    anim::lerp_stays_between(side, 0, eased);
    anim::lerp_stays_between(0, -side, eased);
}

/// A slide moves the windows of the two workspaces between which it goes, those
/// of the workspace that enters as it enters and those of the other as it
/// leaves, and no others. It does so until its length has passed since its
/// start.
pub proof fn slide_moves_only_its_two_workspaces(
    workspaces: Seq<Workspace>,
    slide: WorkspaceSlide,
    window: u64,
    width: int,
    eased: Binary32,
    now: u64,
)
    ensures
        ({
            let moved = slide_offset(workspaces, Some(slide), window, width, eased, now);
            let enters = slide.to_idx < workspaces.len() && workspaces[slide.to_idx as int].tiling.order@.contains(
                window,
            );
            let leaves = slide.from_idx < workspaces.len()
                && workspaces[slide.from_idx as int].tiling.order@.contains(window);
            let over = now >= slide.start && now - slide.start >= slide.duration;
            &&& moved is None <==> over || !(enters || leaves)
            &&& !over && enters ==> moved == Some(offset_of(slide, true, width, eased))
            &&& !over && leaves && !enters ==> moved == Some(offset_of(slide, false, width, eased))
        }),
        slide_offset(workspaces, None, window, width, eased, now) is None,
{
}

/// A window is seen where its first entry in the list has it, and in its own
/// place without an entry.
pub proof fn windows_are_seen_as_listed(animated: Seq<AnimatedWindow>, m: MappedWindow)
    ensures
        (forall|j: int| 0 <= j < animated.len() ==> (#[trigger] animated[j]).window != m.id)
            ==> seen_at(animated, m) == m.geometry,
        forall|i: int|
            {
                &&& 0 <= i < animated.len()
                &&& (#[trigger] animated[i]).window == m.id
                &&& forall|j: int| 0 <= j < i ==> (#[trigger] animated[j]).window != m.id
            } ==> seen_at(animated, m) == animated[i].target,
    decreases animated.len(),
{
    if animated.len() > 0 && animated[0].window != m.id {
        let rest = animated.drop_first();
        windows_are_seen_as_listed(rest, m);
        if forall|j: int| 0 <= j < animated.len() ==> (#[trigger] animated[j]).window != m.id {
            assert forall|j: int| 0 <= j < rest.len() implies (#[trigger] rest[j]).window != m.id by {
                assert(rest[j] == animated[j + 1]);
            }
        }
        assert forall|i: int|
            {
                &&& 0 <= i < animated.len()
                &&& (#[trigger] animated[i]).window == m.id
                &&& forall|j: int| 0 <= j < i ==> (#[trigger] animated[j]).window != m.id
            } implies seen_at(animated, m) == animated[i].target by {
            assert(rest[i - 1] == animated[i]);
            assert forall|j: int| 0 <= j < i - 1 implies (#[trigger] rest[j]).window != m.id by {
                assert(rest[j] == animated[j + 1]);
            }
        }
    }
}

/// The slide is added to where an animation has a window: sideways, and nothing
/// else changes. A window that the slide does not move stays where its animation
/// has it.
pub proof fn slide_shifts_animated_windows_sideways(
    desktop: Desktop,
    entries: Seq<AnimatedWindow>,
    mapped: Seq<MappedWindow>,
    width: i32,
    eased: Binary32,
    now: u64,
    i: int,
)
    requires
        can_shift(desktop, entries, mapped, width, eased, now),
        0 <= i < entries.len(),
    ensures
        ({
            let seen = seen_away(desktop, entries, mapped, width as int, eased, now);
            let offset = slide_offset(
                desktop.workspaces.workspaces@,
                desktop.slide,
                entries[i].window,
                width as int,
                eased,
                now,
            );
            let by = match offset {
                Some(dx) => dx,
                None => 0,
            };
            &&& seen.len() >= entries.len()
            &&& seen[i].window == entries[i].window
            &&& seen[i].target.x == entries[i].target.x + by
            &&& seen[i].target.y == entries[i].target.y
            &&& seen[i].target.w == entries[i].target.w
            &&& seen[i].target.h == entries[i].target.h
        }),
{
}

/// A window on the screen that no animation moves is seen away from its place
/// if and only if the slide moves it, and then it is shifted sideways.
pub proof fn slide_alone_shifts_the_other_windows(
    entries: Seq<AnimatedWindow>,
    mapped: Seq<MappedWindow>,
    offsets: Seq<Option<int>>,
    n: int,
    entry: AnimatedWindow,
)
    requires
        0 <= n <= mapped.len(),
        mapped.len() == offsets.len(),
    ensures
        slide_only(entries, mapped, offsets, n).contains(entry) <==> exists|i: int|
            {
                &&& 0 <= i < n
                &&& (#[trigger] mapped[i]).id == entry.window
                &&& !has_entry(entries, entry.window)
                &&& offsets[i] is Some
                &&& entry.target == (Rect {
                    x: (mapped[i].geometry.x + offsets[i]->0) as i32,
                    ..mapped[i].geometry
                })
            },
    decreases n,
{
    if n > 0 {
        slide_alone_shifts_the_other_windows(entries, mapped, offsets, n - 1, entry);
        let before = slide_only(entries, mapped, offsets, n - 1);
        let all = slide_only(entries, mapped, offsets, n);
        let m = mapped[n - 1];
        if offsets[n - 1] is Some && !has_entry(entries, m.id) {
            assert(all == before.push(all.last()));
            assert(all[all.len() - 1] == all.last());
            if all.contains(entry) {
                let k = choose|k: int| 0 <= k < all.len() && all[k] == entry;
                if k < before.len() {
                    assert(before[k] == entry);
                } else {
                    assert(mapped[n - 1].id == entry.window);
                }
            }
            if before.contains(entry) {
                let k = choose|k: int| 0 <= k < before.len() && before[k] == entry;
                assert(all[k] == entry);
            }
        } else {
            assert(all == before);
        }
    }
}

/// A window that the layout did not move, or that is not on the screen or has no
/// contents yet, keeps the animation that it has.
pub proof fn windows_that_stay_keep_their_animation(
    anims: Seq<WindowAnim>,
    placed: Seq<Placement>,
    mapped: Seq<MappedWindow>,
    fresh: Seq<u64>,
    resized: Seq<u64>,
    eased: Seq<Binary32>,
    now: u64,
    duration: u64,
    n: int,
    a: WindowAnim,
)
    requires
        0 <= n <= placed.len(),
        forall|i: int|
            0 <= i < n && (#[trigger] placed[i]).window == a.window ==> border::geometry_of(
                mapped,
                a.window,
            ) is None || fresh.contains(a.window) || !(placed[i].moved || resized.contains(
                a.window,
            )),
    ensures
        gliding(anims, placed, mapped, fresh, resized, eased, now, duration, n).contains(a)
            <==> anims.contains(a),
    decreases n,
{
    if n > 0 {
        windows_that_stay_keep_their_animation(
            anims,
            placed,
            mapped,
            fresh,
            resized,
            eased,
            now,
            duration,
            n - 1,
            a,
        );
        let before = gliding(anims, placed, mapped, fresh, resized, eased, now, duration, n - 1);
        let p = placed[n - 1];
        if glides(p, mapped, fresh, resized) {
            assert(p.window != a.window);
            lemma_others_kept(
                before,
                p.window,
                border::geometry_of(mapped, p.window)->0,
                now,
                duration,
                eased[n - 1],
                a,
            );
        }
    }
}

proof fn lemma_others_kept(
    anims: Seq<WindowAnim>,
    window: u64,
    from: Rect,
    now: u64,
    duration: u64,
    eased: Binary32,
    a: WindowAnim,
)
    requires
        a.window != window,
    ensures
        anim::after_move(anims, window, from, now, duration, eased).contains(a) <==> anims.contains(
            a,
        ),
{
    let after = anim::after_move(anims, window, from, now, duration, eased);
    if after != anims {
        let others = anims.filter(anim::of_others(window));
        assert(after.drop_last() =~= others);
        anims.filter_lemma(anim::of_others(window));
        if after.contains(a) {
            let k = choose|k: int| 0 <= k < after.len() && after[k] == a;
            assert(others[k] == a);
            assert(others.contains(a));
            anims.lemma_filter_contains_rev(anim::of_others(window), a);
        }
        if anims.contains(a) {
            let k = choose|k: int| 0 <= k < anims.len() && anims[k] == a;
            assert((anim::of_others(window))(anims[k]));
            assert(others.contains(a));
            let j = choose|j: int| 0 <= j < others.len() && others[j] == a;
            assert(after[j] == a);
        }
    }
}

/// A window on the screen that the layout has moved or resized, and that has no
/// animation under way, starts to glide now from where it was.
pub proof fn moved_windows_glide_from_where_they_were(
    anims: Seq<WindowAnim>,
    placed: Seq<Placement>,
    mapped: Seq<MappedWindow>,
    fresh: Seq<u64>,
    resized: Seq<u64>,
    eased: Seq<Binary32>,
    now: u64,
    duration: u64,
    n: int,
)
    requires
        0 < n <= placed.len(),
        duration > 0,
        border::geometry_of(mapped, placed[n - 1].window) is Some,
        !fresh.contains(placed[n - 1].window),
        placed[n - 1].moved || resized.contains(placed[n - 1].window),
        forall|i: int|
            0 <= i < n - 1 ==> (#[trigger] placed[i]).window != placed[n - 1].window,
        forall|a: WindowAnim| #[trigger]
            anims.contains(a) && a.window == placed[n - 1].window ==> !anim::running(a, now),
    ensures
        ({
            let after = gliding(
                anims,
                placed,
                mapped,
                fresh,
                resized,
                eased,
                now,
                duration,
                n,
            ).last();
            let window = placed[n - 1].window;
            &&& after.window == window
            &&& after.start == now
            &&& after.duration == duration
            &&& after.kind == (anim::AnimKind::Move {
                from: border::geometry_of(mapped, window)->0,
            })
        }),
{
    let window = placed[n - 1].window;
    let before = gliding(anims, placed, mapped, fresh, resized, eased, now, duration, n - 1);
    assert forall|i: int| anim::anim_at(before, window, i) implies !anim::running(before[i], now) by {
        let a = before[i];
        assert(before.contains(a));
        windows_that_stay_keep_their_animation(
            anims,
            placed,
            mapped,
            fresh,
            resized,
            eased,
            now,
            duration,
            n - 1,
            a,
        );
        assert(anims.contains(a));
    }
}

} // verus!
