//! Window animations: a window grows when it opens and glides when the layout
//! moves it.
//!
//! How far an animation has come is a fraction of its length. The easing curve
//! turns that fraction into a factor, which is handed in.

use crate::binary32::Binary32;
use crate::binary64;
use crate::binary64::Binary64;
use crate::border;
use crate::border::MappedWindow;
use crate::geometry;
use crate::geometry::Rect;
use crate::windows;
use vstd::arithmetic::power2::{lemma_pow2_pos, pow2};
use vstd::math::max;
use vstd::prelude::*;

verus! {

/// What an animation does.
#[derive(Debug, Clone, Copy, PartialEq, Eq, Structural)]
pub enum AnimKind {
    /// The window grows to its full size.
    Open,
    /// The window glides from where it was.
    Move { from: Rect },
}

/// An animation of a window. Times are those of the compositor's clock.
#[derive(Debug, Clone, Copy, PartialEq, Eq, Structural)]
pub struct WindowAnim {
    pub window: u64,
    pub kind: AnimKind,
    pub start: u64,
    pub duration: u64,
}

/// How far an animation has come, as factors of the easing curve: the eased
/// fraction, and the scale of a window that opens.
#[derive(Debug, Clone, Copy, PartialEq, Eq, Structural)]
pub struct Easing {
    pub eased: Binary32,
    pub scale: Binary64,
}

/// A window at the place that its animation gives it.
#[derive(Debug, Clone, Copy, PartialEq, Eq, Structural)]
pub struct AnimatedWindow {
    pub window: u64,
    pub target: Rect,
}

/// `a` moved towards `b` by the factor `t`.
pub open spec fn spec_lerp(a: int, b: int, t: Binary32) -> int {
    a + t.spec_scale_i32((b - a) as i32)
}

/// Moving from `a` towards `b` stays within `i32`.
pub open spec fn can_lerp(a: int, b: int, t: Binary32) -> bool {
    geometry::fits_i32(b - a) && geometry::fits_i32(spec_lerp(a, b, t))
}

/// A rectangle moved towards another one; no side is ever below one.
pub open spec fn spec_lerp_rect(from: Rect, to: Rect, t: Binary32) -> Rect {
    Rect {
        x: spec_lerp(from.x as int, to.x as int, t) as i32,
        y: spec_lerp(from.y as int, to.y as int, t) as i32,
        w: max(spec_lerp(from.w as int, to.w as int, t), 1) as i32,
        h: max(spec_lerp(from.h as int, to.h as int, t), 1) as i32,
    }
}

/// Moving a rectangle stays within `i32`.
pub open spec fn can_lerp_rect(from: Rect, to: Rect, t: Binary32) -> bool {
    &&& can_lerp(from.x as int, to.x as int, t)
    &&& can_lerp(from.y as int, to.y as int, t)
    &&& can_lerp(from.w as int, to.w as int, t)
    &&& can_lerp(from.h as int, to.h as int, t)
}

fn lerp(a: i32, b: i32, t: Binary32) -> (r: i32)
    requires
        can_lerp(a as int, b as int, t),
    ensures
        r == spec_lerp(a as int, b as int, t),
{
    a + t.scale_i32(b - a)
}

fn at_least_one(v: i32) -> (r: i32)
    ensures
        r == max(v as int, 1),
{
    if v > 1 {
        v
    } else {
        1
    }
}

/// A rectangle moved towards another one by the factor `t`.
pub fn lerp_rect(from: Rect, to: Rect, t: Binary32) -> (r: Rect)
    requires
        can_lerp_rect(from, to, t),
    ensures
        r == spec_lerp_rect(from, to, t),
{
    Rect {
        x: lerp(from.x, to.x, t),
        y: lerp(from.y, to.y, t),
        w: at_least_one(lerp(from.w, to.w, t)),
        h: at_least_one(lerp(from.h, to.h, t)),
    }
}

/// Half of `v`, rounded towards zero.
pub open spec fn half_towards_zero(v: int) -> int {
    if v >= 0 {
        v / 2
    } else {
        -((-v) / 2)
    }
}

/// A rectangle scaled about its center; no side is ever below one.
pub open spec fn spec_scale_about_center(rect: Rect, factor: Binary64) -> Rect {
    let w = factor.spec_scale_i32(rect.w);
    let h = factor.spec_scale_i32(rect.h);
    Rect {
        x: (rect.x + half_towards_zero(rect.w - w)) as i32,
        y: (rect.y + half_towards_zero(rect.h - h)) as i32,
        w: max(w as int, 1) as i32,
        h: max(h as int, 1) as i32,
    }
}

/// Scaling a rectangle stays within `i32`.
pub open spec fn can_scale(rect: Rect, factor: Binary64) -> bool {
    let w = factor.spec_scale_i32(rect.w);
    let h = factor.spec_scale_i32(rect.h);
    &&& geometry::fits_i32(rect.w - w)
    &&& geometry::fits_i32(rect.h - h)
    &&& geometry::fits_i32(rect.x + half_towards_zero(rect.w - w))
    &&& geometry::fits_i32(rect.y + half_towards_zero(rect.h - h))
}

fn halve(v: i32) -> (r: i32)
    ensures
        r == half_towards_zero(v as int),
{
    if v >= 0 {
        (v as u32 / 2) as i32
    } else {
        let size: u32 = (-(v as i64)) as u32;
        (-((size / 2) as i64)) as i32
    }
}

/// A rectangle scaled about its center.
pub fn scale_about_center(rect: Rect, factor: Binary64) -> (r: Rect)
    requires
        can_scale(rect, factor),
    ensures
        r == spec_scale_about_center(rect, factor),
{
    let w: i32 = factor.scale_i32(rect.w);
    let h: i32 = factor.scale_i32(rect.h);
    Rect {
        x: rect.x + halve(rect.w - w),
        y: rect.y + halve(rect.h - h),
        w: at_least_one(w),
        h: at_least_one(h),
    }
}

/// Time since the start of an animation.
pub open spec fn elapsed(anim: WindowAnim, now: u64) -> int {
    if now > anim.start {
        now - anim.start
    } else {
        0
    }
}

/// Whether an animation is under way.
pub open spec fn running(anim: WindowAnim, now: u64) -> bool {
    anim.duration > 0 && elapsed(anim, now) < anim.duration
}

impl WindowAnim {
    /// How far the animation has come: time since its start and its length.
    /// Nothing once it is over.
    pub fn progress(&self, now: u64) -> (r: Option<(u64, u64)>)
        ensures
            r == (if running(*self, now) {
                Some((elapsed(*self, now) as u64, self.duration))
            } else {
                None
            }),
    {
        let passed: u64 = if now > self.start { now - self.start } else { 0 };
        if self.duration == 0 || passed >= self.duration {
            return None;
        }
        Some((passed, self.duration))
    }
}

/// Whether the animation at `i` is the one of a window.
pub open spec fn anim_at(anims: Seq<WindowAnim>, window: u64, i: int) -> bool {
    &&& 0 <= i < anims.len()
    &&& anims[i].window == window
    &&& forall|j: int| 0 <= j < i ==> (#[trigger] anims[j]).window != window
}

/// The predicate "is of another window".
pub open spec fn of_others(window: u64) -> spec_fn(WindowAnim) -> bool {
    |a: WindowAnim| a.window != window
}

/// The predicate "is of a live window and under way".
pub open spec fn going_on(alive: Seq<u64>, now: u64) -> spec_fn(WindowAnim) -> bool {
    |a: WindowAnim| alive.contains(a.window) && running(a, now)
}

/// The animations under way.
#[derive(Debug)]
pub struct WindowAnimations {
    pub anims: Vec<WindowAnim>,
}

impl Default for WindowAnimations {
    fn default() -> (a: WindowAnimations)
        ensures
            a.anims@.len() == 0,
    {
        WindowAnimations { anims: Vec::new() }
    }
}

/// The place that an animation gives to a window whose own place is
/// `reference`.
pub open spec fn target_of(anim: WindowAnim, reference: Rect, easing: Easing) -> Rect {
    match anim.kind {
        AnimKind::Move { from } => spec_lerp_rect(from, reference, easing.eased),
        AnimKind::Open => spec_scale_about_center(reference, easing.scale),
    }
}

/// Finding that place stays within `i32`.
pub open spec fn can_target(anim: WindowAnim, reference: Rect, easing: Easing) -> bool {
    match anim.kind {
        AnimKind::Move { from } => can_lerp_rect(from, reference, easing.eased),
        AnimKind::Open => can_scale(reference, easing.scale),
    }
}

/// The animations after a window that was at `real_from` has started to move.
/// A window that is still growing goes on growing; one that is still moving
/// starts where it is seen, which `eased` tells.
pub open spec fn after_move(
    anims: Seq<WindowAnim>,
    window: u64,
    real_from: Rect,
    now: u64,
    duration: u64,
    eased: Binary32,
) -> Seq<WindowAnim> {
    let under_way = exists|i: int| anim_at(anims, window, i) && running(anims[i], now);
    let current = anims[choose|i: int| anim_at(anims, window, i)];
    if duration == 0 || (under_way && current.kind is Open) {
        anims
    } else {
        let from = if under_way {
            spec_lerp_rect(current.kind->from, real_from, eased)
        } else {
            real_from
        };
        anims.filter(of_others(window)).push(
            WindowAnim { window, kind: AnimKind::Move { from }, start: now, duration },
        )
    }
}

/// The places of the windows of the first `n` animations.
pub open spec fn resolved(
    anims: Seq<WindowAnim>,
    mapped: Seq<MappedWindow>,
    easings: Seq<Easing>,
    now: u64,
    n: int,
) -> Seq<AnimatedWindow>
    decreases n,
{
    if n <= 0 {
        Seq::empty()
    } else {
        let before = resolved(anims, mapped, easings, now, n - 1);
        let anim = anims[n - 1];
        match border::geometry_of(mapped, anim.window) {
            Some(reference) => if running(anim, now) {
                before.push(
                    AnimatedWindow {
                        window: anim.window,
                        target: target_of(anim, reference, easings[n - 1]),
                    },
                )
            } else {
                before
            },
            None => before,
        }
    }
}

impl WindowAnimations {
    /// No window has two animations.
    pub open spec fn wf(self) -> bool {
        forall|i: int, j: int|
            0 <= i < j < self.anims@.len() ==> (#[trigger] self.anims@[i]).window != (
            #[trigger] self.anims@[j]).window
    }

    fn find(&self, window: u64) -> (r: Option<usize>)
        ensures
            r is Some ==> anim_at(self.anims@, window, r->0 as int),
            r is None ==> forall|j: int|
                0 <= j < self.anims@.len() ==> (#[trigger] self.anims@[j]).window != window,
    {
        let mut i: usize = 0;
        while i < self.anims.len()
            invariant
                i <= self.anims@.len(),
                forall|j: int| 0 <= j < i ==> (#[trigger] self.anims@[j]).window != window,
            decreases self.anims@.len() - i,
        {
            if self.anims[i].window == window {
                return Some(i);
            }
            i = i + 1;
        }
        None
    }

    fn drop_of(&mut self, window: u64)
        ensures
            final(self).anims@ == old(self).anims@.filter(of_others(window)),
            old(self).wf() ==> final(self).wf(),
            forall|j: int|
                0 <= j < final(self).anims@.len() ==> (#[trigger] final(self).anims@[j]).window
                    != window,
    {
        let mut kept: Vec<WindowAnim> = Vec::new();
        let mut i: usize = 0;
        let ghost all = self.anims@;
        proof {
            reveal(Seq::filter);
            assert(all.take(0).filter(of_others(window)) =~= Seq::<WindowAnim>::empty());
        }
        while i < self.anims.len()
            invariant
                i <= all.len(),
                self.anims@ == all,
                kept@ == all.take(i as int).filter(of_others(window)),
                forall|j: int| 0 <= j < kept@.len() ==> (#[trigger] kept@[j]).window != window,
            decreases all.len() - i,
        {
            let a: WindowAnim = self.anims[i];
            let ghost next = all.take(i + 1);
            proof {
                reveal(Seq::filter);
                assert(next.drop_last() =~= all.take(i as int));
                assert(next.last() == a);
            }
            if a.window != window {
                kept.push(a);
            }
            i = i + 1;
        }
        assert(all.take(i as int) =~= all);
        self.anims = kept;
        proof {
            if old(self).wf() {
                lemma_filter_distinct(all, of_others(window));
            }
        }
    }

    /// Starts to grow a window, in place of whatever animation it had. With no
    /// length nothing happens.
    pub fn push_open(&mut self, window: u64, now: u64, duration: u64)
        ensures
            duration == 0 ==> *final(self) == *old(self),
            duration > 0 ==> final(self).anims@ == old(self).anims@.filter(of_others(window)).push(
                WindowAnim { window, kind: AnimKind::Open, start: now, duration },
            ),
            old(self).wf() ==> final(self).wf(),
    {
        if duration == 0 {
            return;
        }
        self.drop_of(window);
        self.anims.push(WindowAnim { window, kind: AnimKind::Open, start: now, duration });
    }

    /// Starts to move a window that was at `real_from`. A window that is still
    /// growing goes on growing; one that is still moving starts where it is
    /// seen, which `eased` tells.
    pub fn push_move(
        &mut self,
        window: u64,
        real_from: Rect,
        now: u64,
        duration: u64,
        eased: Binary32,
    )
        requires
            forall|i: int|
                anim_at(old(self).anims@, window, i) && running(old(self).anims@[i], now) ==> (
                (#[trigger] old(self).anims@[i]).kind matches AnimKind::Move { from }
                    ==> can_lerp_rect(from, real_from, eased)),
        ensures
            old(self).wf() ==> final(self).wf(),
            final(self).anims@ == after_move(
                old(self).anims@,
                window,
                real_from,
                now,
                duration,
                eased,
            ),
    {
        if duration == 0 {
            return;
        }
        let mut from: Rect = real_from;
        if let Some(i) = self.find(window) {
            let existing: WindowAnim = self.anims[i];
            proof {
                assert(anim_at(self.anims@, window, i as int));
                let k = choose|k: int| anim_at(self.anims@, window, k);
                assert(k == i);
            }
            if existing.progress(now).is_some() {
                match existing.kind {
                    AnimKind::Open => {
                        return;
                    },
                    AnimKind::Move { from: earlier } => {
                        from = lerp_rect(earlier, real_from, eased);
                    },
                }
            }
        }
        self.drop_of(window);
        self.anims.push(WindowAnim { window, kind: AnimKind::Move { from }, start: now, duration });
    }

    /// Drops the animations that are over and those of windows that are gone.
    pub fn prune(&mut self, now: u64, alive: &[u64])
        ensures
            final(self).anims@ == old(self).anims@.filter(going_on(alive@, now)),
            old(self).wf() ==> final(self).wf(),
    {
        let mut kept: Vec<WindowAnim> = Vec::new();
        let mut i: usize = 0;
        let ghost all = self.anims@;
        proof {
            reveal(Seq::filter);
            assert(all.take(0).filter(going_on(alive@, now)) =~= Seq::<WindowAnim>::empty());
        }
        while i < self.anims.len()
            invariant
                i <= all.len(),
                self.anims@ == all,
                kept@ == all.take(i as int).filter(going_on(alive@, now)),
            decreases all.len() - i,
        {
            let a: WindowAnim = self.anims[i];
            let ghost next = all.take(i + 1);
            proof {
                reveal(Seq::filter);
                assert(next.drop_last() =~= all.take(i as int));
                assert(next.last() == a);
            }
            if windows::contains(alive, a.window) && a.progress(now).is_some() {
                kept.push(a);
            }
            i = i + 1;
        }
        assert(all.take(i as int) =~= all);
        self.anims = kept;
        proof {
            if old(self).wf() {
                lemma_filter_distinct(all, going_on(alive@, now));
            }
        }
    }

    /// Whether nothing is animated.
    pub fn is_empty(&self) -> (r: bool)
        ensures
            r == (self.anims@.len() == 0),
    {
        self.anims.len() == 0
    }

    /// How far the animation of a window has come, if it has one under way.
    pub fn progress_of(&self, window: u64, now: u64) -> (r: Option<(u64, u64)>)
        ensures
            (forall|j: int|
                0 <= j < self.anims@.len() ==> (#[trigger] self.anims@[j]).window != window)
                ==> r is None,
            forall|i: int|
                anim_at(self.anims@, window, i) ==> r == (if running(
                    #[trigger] self.anims@[i],
                    now,
                ) {
                    Some((elapsed(self.anims@[i], now) as u64, self.anims@[i].duration))
                } else {
                    None
                }),
    {
        match self.find(window) {
            Some(i) => {
                assert forall|k: int| anim_at(self.anims@, window, k) implies k == i by {}
                self.anims[i].progress(now)
            },
            None => None,
        }
    }

    /// Where a window is seen: where its animation has it, or in its own place
    /// when none is under way.
    pub fn on_screen_rect(&self, window: u64, reference: Rect, now: u64, easing: Easing) -> (r: Rect)
        requires
            forall|i: int|
                anim_at(self.anims@, window, i) && running(#[trigger] self.anims@[i], now)
                    ==> can_target(self.anims@[i], reference, easing),
        ensures
            (forall|j: int|
                0 <= j < self.anims@.len() ==> (#[trigger] self.anims@[j]).window != window) ==> r
                == reference,
            forall|i: int|
                anim_at(self.anims@, window, i) ==> r == (if running(
                    #[trigger] self.anims@[i],
                    now,
                ) {
                    target_of(self.anims@[i], reference, easing)
                } else {
                    reference
                }),
    {
        match self.find(window) {
            Some(i) => {
                assert forall|k: int| anim_at(self.anims@, window, k) implies k == i by {}
                let anim: WindowAnim = self.anims[i];
                if anim.progress(now).is_none() {
                    return reference;
                }
                target(anim, reference, easing)
            },
            None => reference,
        }
    }

    /// The places of all animated windows that are on the screen. There is one
    /// easing per animation, in order.
    pub fn resolve_all(&self, mapped: &[MappedWindow], easings: &[Easing], now: u64) -> (r: Vec<
        AnimatedWindow,
    >)
        requires
            easings@.len() == self.anims@.len(),
            forall|i: int|
                0 <= i < self.anims@.len() && running(#[trigger] self.anims@[i], now)
                    && border::geometry_of(mapped@, self.anims@[i].window) is Some ==> can_target(
                    self.anims@[i],
                    border::geometry_of(mapped@, self.anims@[i].window)->0,
                    easings@[i],
                ),
        ensures
            r@ == resolved(self.anims@, mapped@, easings@, now, self.anims@.len() as int),
    {
        let mut r: Vec<AnimatedWindow> = Vec::new();
        let mut i: usize = 0;
        while i < self.anims.len()
            invariant
                i <= self.anims@.len(),
                easings@.len() == self.anims@.len(),
                forall|k: int|
                    0 <= k < self.anims@.len() && running(#[trigger] self.anims@[k], now)
                        && border::geometry_of(mapped@, self.anims@[k].window) is Some
                        ==> can_target(
                        self.anims@[k],
                        border::geometry_of(mapped@, self.anims@[k].window)->0,
                        easings@[k],
                    ),
                r@ == resolved(self.anims@, mapped@, easings@, now, i as int),
            decreases self.anims@.len() - i,
        {
            let anim: WindowAnim = self.anims[i];
            if let Some(reference) = border::find_geometry(mapped, anim.window) {
                if anim.progress(now).is_some() {
                    r.push(
                        AnimatedWindow {
                            window: anim.window,
                            target: target(anim, reference, easings[i]),
                        },
                    );
                }
            }
            i = i + 1;
        }
        r
    }
}

fn target(anim: WindowAnim, reference: Rect, easing: Easing) -> (r: Rect)
    requires
        can_target(anim, reference, easing),
    ensures
        r == target_of(anim, reference, easing),
{
    match anim.kind {
        AnimKind::Move { from } => lerp_rect(from, reference, easing.eased),
        AnimKind::Open => scale_about_center(reference, easing.scale),
    }
}

/// Filtering keeps windows apart and adds none.
proof fn lemma_filter_distinct(anims: Seq<WindowAnim>, keep: spec_fn(WindowAnim) -> bool)
    requires
        forall|i: int, j: int|
            0 <= i < j < anims.len() ==> (#[trigger] anims[i]).window != (
            #[trigger] anims[j]).window,
    ensures
        forall|i: int, j: int|
            0 <= i < j < anims.filter(keep).len() ==> (#[trigger] anims.filter(keep)[i]).window != (
            #[trigger] anims.filter(keep)[j]).window,
        forall|i: int|
            0 <= i < anims.filter(keep).len() ==> exists|j: int|
                0 <= j < anims.len() && anims[j] == #[trigger] anims.filter(keep)[i],
    decreases anims.len(),
{
    reveal(Seq::filter);
    if anims.len() > 0 {
        let rest = anims.drop_last();
        lemma_filter_distinct(rest, keep);
        let before = rest.filter(keep);
        let all = anims.filter(keep);
        assert forall|i: int| 0 <= i < all.len() implies exists|j: int|
            0 <= j < anims.len() && anims[j] == #[trigger] all[i] by {
            if i < before.len() {
                assert(all[i] == before[i]);
                let j = choose|j: int| 0 <= j < rest.len() && rest[j] == before[i];
                assert(anims[j] == all[i]);
            } else {
                assert(anims[anims.len() - 1] == all[i]);
            }
        }
        assert forall|i: int, j: int| 0 <= i < j < all.len() implies (#[trigger] all[i]).window != (
        #[trigger] all[j]).window by {
            assert(all[i] == before[i]);
            if j < before.len() {
                assert(all[j] == before[j]);
            } else {
                let k = choose|k: int| 0 <= k < rest.len() && rest[k] == before[i];
                assert(anims[k].window != anims[anims.len() - 1].window);
            }
        }
    }
}

/// Bit pattern of the factor one.
pub const ONE: u32 = 0x3f80_0000;

/// A movement starts where it starts: with the factor zero nothing has moved.
pub proof fn lerp_starts_in_place(a: int, b: int)
    ensures
        spec_lerp(a, b, Binary32 { bits: 0 }) == a,
{
    let d = (b - a) as i32;
    let size = (if d < 0 {
        -d
    } else {
        d as int
    }) as nat;
    let span = crate::binary32::SIGNIFICAND_SPAN as nat;
    let zero = Binary32 { bits: 0 };
    let factor = binary64::round_significand(size, span);
    assert(zero.significand() == 0);
    assert(factor * 0 == 0);
    assert(binary64::rounding_unit(0, span) == 1);
    assert(binary64::round_significand(0, span) == 0);
    lemma_half_below_whole(149);
    assert(binary64::round_scaled(0, -149) == 0);
}

/// Rounding changes nothing about a number that is a small one with zeros
/// behind it.
proof fn lemma_round_exact(d: nat, k: nat, span: nat)
    requires
        d < span,
    ensures
        (d * pow2(k)) % binary64::rounding_unit(d * pow2(k), span) == 0,
        binary64::rounding_unit(d * pow2(k), span) >= 1,
        binary64::round_significand(d * pow2(k), span) == d * pow2(k),
{
    binary64::lemma_round_exact(d, k, span);
}

/// A movement ends where it ends: with the factor one everything has moved,
/// for distances that a binary32 number holds exactly.
pub proof fn lerp_ends_in_place(a: i32, b: i32)
    requires
        -0x100_0000 < b - a < 0x100_0000,
    ensures
        spec_lerp(a as int, b as int, Binary32 { bits: ONE }) == b,
{
    let d = (b - a) as i32;
    let size: nat = if d < 0 {
        (-d) as nat
    } else {
        d as nat
    };
    let span = crate::binary32::SIGNIFICAND_SPAN as nat;
    let one = Binary32 { bits: ONE };
    vstd::arithmetic::power2::lemma2_to64();
    let factor = binary64::round_significand(size, span);
    assert(size * 1 == size);
    assert(size * pow2(0) == size);
    lemma_round_exact(size, 0, span);
    assert(factor == size);
    assert(one.significand() == 0x80_0000);
    assert(one.scale() == -23);
    lemma_round_exact(size, 23, span);
    assert(pow2(23) == 0x80_0000);
    let v = size * 0x80_0000;
    assert(binary64::round_significand(v, span) == v);
    assert(pow2(22) == 0x40_0000);
    assert((v + 0x40_0000) / 0x80_0000 == size);
    assert(binary64::round_scaled(v, -23) == size);
}

/// Half of a power of two is below it.
proof fn lemma_half_below_whole(n: nat)
    requires
        n >= 1,
    ensures
        (0 + pow2((n - 1) as nat)) / pow2(n) == 0,
{
    vstd::arithmetic::power2::lemma_pow2_unfold(n);
    lemma_pow2_pos((n - 1) as nat);
    let h = pow2((n - 1) as nat);
    let w = pow2(n);
    assert((h as int) / (w as int) == 0) by (nonlinear_arith)
        requires
            0 <= h < w,
    ;
}

/// A window that is moved again while it moves does not jump: its one new
/// animation begins exactly where the window was seen. Other windows keep their
/// animations. A window that is still growing, and one that is moved without
/// an animation, keeps the animation that it has.
pub proof fn moving_again_does_not_jump(
    anims: Seq<WindowAnim>,
    window: u64,
    i: int,
    real_from: Rect,
    reference: Rect,
    now: u64,
    duration: u64,
    seen: Easing,
    start: Easing,
)
    requires
        anim_at(anims, window, i),
        running(anims[i], now),
        can_target(anims[i], real_from, seen),
        start.eased == (Binary32 { bits: 0 }),
    ensures
        ({
            let after = after_move(anims, window, real_from, now, duration, seen.eased);
            let new = after.last();
            &&& (duration == 0 || anims[i].kind is Open) ==> after == anims
            &&& (duration > 0 && anims[i].kind is Move) ==> {
                &&& after.drop_last() == anims.filter(of_others(window))
                &&& anim_at(after, window, after.len() - 1)
                &&& running(new, now)
                &&& elapsed(new, now) == 0
                &&& target_of(new, reference, start) == target_of(anims[i], real_from, seen)
            }
        }),
{
    let k = choose|k: int| anim_at(anims, window, k);
    assert(k == i);
    let after = after_move(anims, window, real_from, now, duration, seen.eased);
    if duration > 0 && anims[i].kind is Move {
        let others = anims.filter(of_others(window));
        let at = target_of(anims[i], real_from, seen);
        assert(after.drop_last() =~= others);
        assert forall|j: int| 0 <= j < after.len() - 1 implies (#[trigger] after[j]).window
            != window by {
            anims.lemma_filter_pred(of_others(window), j);
            assert(after[j] == others[j]);
        }
        lerp_starts_in_place(at.x as int, reference.x as int);
        lerp_starts_in_place(at.y as int, reference.y as int);
        lerp_starts_in_place(at.w as int, reference.w as int);
        lerp_starts_in_place(at.h as int, reference.h as int);
    }
}

/// A movement never leaves the way between its start and its end, for factors
/// from zero to one and ways that a binary32 number holds exactly.
pub proof fn lerp_stays_between(a: int, b: int, t: Binary32)
    requires
        t.bits <= ONE,
        -0x100_0000 < b - a < 0x100_0000,
    ensures
        a <= b ==> a <= spec_lerp(a, b, t) <= b,
        b <= a ==> b <= spec_lerp(a, b, t) <= a,
{
    let d = (b - a) as i32;
    if d >= 0 {
        crate::binary32::scaling_by_at_most_one_never_grows(t, d);
    } else {
        crate::binary32::scaling_by_at_most_one_never_grows(t, (-d) as i32);
        crate::binary32::scaling_is_the_same_on_both_sides_of_zero(t, (-d) as i32);
    }
}

/// A movement has come as far as its factor says: forward by the factor's share
/// of the way, as the nearest integer. Backward it goes as it would forward.
pub proof fn lerp_covers_its_share_of_the_way(a: int, b: int, t: Binary32)
    requires
        t.bits <= ONE,
        0 <= b - a < 0x100_0000,
    ensures
        ({
            let exact = (b - a) * t.significand();
            let one = pow2((-t.scale()) as nat);
            let got = (spec_lerp(a, b, t) - a) * one;
            let span = crate::binary32::SIGNIFICAND_SPAN;
            &&& span * (2 * (got - exact)) <= span * one + 2 * exact
            &&& span * (2 * (exact - got)) <= span * one + 2 * exact
        }),
        b - spec_lerp(b, a, t) == spec_lerp(a, b, t) - a,
{
    let d = (b - a) as i32;
    crate::binary32::scaling_gives_the_nearest_integer(t, d);
    crate::binary32::scaling_by_at_most_one_never_grows(t, d);
    crate::binary32::scaling_is_the_same_on_both_sides_of_zero(t, d);
}

/// Every edge measure of a moving window lies between that of its start and that
/// of its end: it keeps to the way between them, and no side is below one pixel.
pub proof fn moving_window_keeps_to_its_way(from: Rect, to: Rect, t: Binary32)
    requires
        t.bits <= ONE,
        can_lerp_rect(from, to, t),
        -0x100_0000 < to.x - from.x < 0x100_0000,
        -0x100_0000 < to.y - from.y < 0x100_0000,
        -0x100_0000 < to.w - from.w < 0x100_0000,
        -0x100_0000 < to.h - from.h < 0x100_0000,
        from.w >= 1 && from.h >= 1 && to.w >= 1 && to.h >= 1,
    ensures
        ({
            let r = spec_lerp_rect(from, to, t);
            &&& from.x <= to.x ==> from.x <= r.x <= to.x
            &&& to.x <= from.x ==> to.x <= r.x <= from.x
            &&& from.y <= to.y ==> from.y <= r.y <= to.y
            &&& to.y <= from.y ==> to.y <= r.y <= from.y
            &&& from.w <= to.w ==> from.w <= r.w <= to.w
            &&& to.w <= from.w ==> to.w <= r.w <= from.w
            &&& from.h <= to.h ==> from.h <= r.h <= to.h
            &&& to.h <= from.h ==> to.h <= r.h <= from.h
        }),
        t.bits == ONE ==> spec_lerp_rect(from, to, t) == to,
        t.bits == 0 ==> spec_lerp_rect(from, to, t) == from,
{
    lerp_stays_between(from.x as int, to.x as int, t);
    lerp_stays_between(from.y as int, to.y as int, t);
    lerp_stays_between(from.w as int, to.w as int, t);
    lerp_stays_between(from.h as int, to.h as int, t);
    if t.bits == ONE {
        lerp_ends_in_place(from.x, to.x);
        lerp_ends_in_place(from.y, to.y);
        lerp_ends_in_place(from.w, to.w);
        lerp_ends_in_place(from.h, to.h);
    }
    if t.bits == 0 {
        lerp_starts_in_place(from.x as int, to.x as int);
        lerp_starts_in_place(from.y as int, to.y as int);
        lerp_starts_in_place(from.w as int, to.w as int);
        lerp_starts_in_place(from.h as int, to.h as int);
    }
}

/// A growing window has the factor's share of both of its sides and stays in
/// the middle of its place: the margins on opposite sides differ by at most one
/// pixel. It stays inside its place, and with the factor one it fills it.
pub proof fn growing_window_stays_in_the_middle(rect: Rect, factor: Binary64)
    requires
        can_scale(rect, factor),
        rect.w >= 1 && rect.h >= 1,
        !factor.negative() && !factor.spec_is_nan(),
        !(Binary64 { bits: binary64::ONE }).spec_lt(factor),
    ensures
        ({
            let r = spec_scale_about_center(rect, factor);
            let left = r.x - rect.x;
            let right = (rect.x + rect.w) - (r.x + r.w);
            let above = r.y - rect.y;
            let below = (rect.y + rect.h) - (r.y + r.h);
            &&& -1 <= left - right <= 1
            &&& -1 <= above - below <= 1
            &&& 1 <= r.w <= rect.w
            &&& 1 <= r.h <= rect.h
            &&& r.w > 1 ==> binary64::is_share(factor, rect.w as int, r.w as int)
            &&& r.h > 1 ==> binary64::is_share(factor, rect.h as int, r.h as int)
            &&& factor.bits == binary64::ONE ==> r == rect
        }),
{
    binary64::scaling_by_at_most_one_never_grows(factor, rect.w);
    binary64::scaling_by_at_most_one_never_grows(factor, rect.h);
    binary64::scaling_by_one_changes_nothing(rect.w);
    binary64::scaling_by_one_changes_nothing(rect.h);
    if factor.bits < binary64::SIGN_BIT && factor.exponent() < binary64::EXPONENT_SPECIAL
        && factor.scale() < 0 {
        binary64::scaling_gives_the_nearest_integer(factor, rect.w);
        binary64::scaling_gives_the_nearest_integer(factor, rect.h);
    }
}

/// An animation is under way from its start until its length has passed, and
/// not at all without a length; meanwhile the time since its start counts up
/// from zero.
pub proof fn animation_lasts_for_its_length(anim: WindowAnim, now: u64)
    ensures
        running(anim, now) <==> anim.duration > 0 && now < anim.start + anim.duration,
        now >= anim.start ==> anim.start + elapsed(anim, now) == now,
        now < anim.start ==> elapsed(anim, now) == 0,
{
}

/// A window that opens is seen growing about its center, and one that moves is
/// seen on the way from where it was to its own place.
pub proof fn animations_are_seen_as_what_they_are(
    window: u64,
    from: Rect,
    reference: Rect,
    start: u64,
    duration: u64,
    begin: Easing,
    end: Easing,
)
    requires
        begin.eased.bits == 0,
        end.eased.bits == ONE,
        end.scale.bits == binary64::ONE,
        from.w >= 1 && from.h >= 1 && reference.w >= 1 && reference.h >= 1,
        -0x100_0000 < reference.x - from.x < 0x100_0000,
        -0x100_0000 < reference.y - from.y < 0x100_0000,
        -0x100_0000 < reference.w - from.w < 0x100_0000,
        -0x100_0000 < reference.h - from.h < 0x100_0000,
    ensures
        ({
            let moving = WindowAnim { window, kind: AnimKind::Move { from }, start, duration };
            let opening = WindowAnim { window, kind: AnimKind::Open, start, duration };
            &&& target_of(moving, reference, begin) == from
            &&& target_of(moving, reference, end) == reference
            &&& target_of(opening, reference, end) == reference
        }),
{
    lerp_starts_in_place(from.x as int, reference.x as int);
    lerp_starts_in_place(from.y as int, reference.y as int);
    lerp_starts_in_place(from.w as int, reference.w as int);
    lerp_starts_in_place(from.h as int, reference.h as int);
    lerp_ends_in_place(from.x, reference.x);
    lerp_ends_in_place(from.y, reference.y);
    lerp_ends_in_place(from.w, reference.w);
    lerp_ends_in_place(from.h, reference.h);
    binary64::scaling_by_one_changes_nothing(reference.w);
    binary64::scaling_by_one_changes_nothing(reference.h);
}

/// The animated windows are those that have an animation under way and are on
/// the screen, each where its own animation has it.
pub proof fn animated_windows_are_those_under_way(
    anims: Seq<WindowAnim>,
    mapped: Seq<MappedWindow>,
    easings: Seq<Easing>,
    now: u64,
    n: int,
    entry: AnimatedWindow,
)
    requires
        0 <= n <= anims.len(),
    ensures
        resolved(anims, mapped, easings, now, n).contains(entry) <==> exists|i: int|
            {
                &&& 0 <= i < n
                &&& (#[trigger] anims[i]).window == entry.window
                &&& running(anims[i], now)
                &&& border::geometry_of(mapped, entry.window) is Some
                &&& entry.target == target_of(
                    anims[i],
                    border::geometry_of(mapped, entry.window)->0,
                    easings[i],
                )
            },
    decreases n,
{
    if n > 0 {
        animated_windows_are_those_under_way(anims, mapped, easings, now, n - 1, entry);
        let before = resolved(anims, mapped, easings, now, n - 1);
        let all = resolved(anims, mapped, easings, now, n);
        if all.len() > before.len() {
            assert(all == before.push(all.last()));
            if all.contains(entry) {
                let k = choose|k: int| 0 <= k < all.len() && all[k] == entry;
                if k < before.len() {
                    assert(before[k] == entry);
                } else {
                    assert(anims[n - 1].window == entry.window);
                }
            }
            if before.contains(entry) {
                let k = choose|k: int| 0 <= k < before.len() && before[k] == entry;
                assert(all[k] == entry);
            }
            assert(all[all.len() - 1] == all.last());
        } else {
            assert(all == before);
        }
    }
}

/// The animations that stay are those under way of windows that are alive.
pub proof fn animations_go_with_their_windows(
    anims: Seq<WindowAnim>,
    alive: Seq<u64>,
    now: u64,
    a: WindowAnim,
)
    ensures
        anims.filter(going_on(alive, now)).contains(a) <==> anims.contains(a) && alive.contains(
            a.window,
        ) && a.duration > 0 && now < a.start + a.duration,
{
    let keep = going_on(alive, now);
    let left = anims.filter(keep);
    if anims.contains(a) && keep(a) {
        let k = choose|k: int| 0 <= k < anims.len() && anims[k] == a;
        anims.lemma_filter_contains(keep, k);
    }
    if left.contains(a) {
        let k = choose|k: int| 0 <= k < left.len() && left[k] == a;
        anims.lemma_filter_pred(keep, k);
        anims.lemma_filter_contains_rev(keep, a);
    }
}

} // verus!
