//! Who gets an input event.

use crate::bind;
use crate::bind::{Bind, Modifiers};
use vstd::prelude::*;

verus! {

/// What becomes of a key event.
#[derive(Debug, Clone, Copy, PartialEq, Eq, Structural)]
pub enum KeyStep {
    /// The focused client gets it.
    Forward,
    /// Nobody gets it.
    Swallow,
    /// Nobody gets it, and the binding at this position fires.
    Fire(usize),
}

/// A key that is pressed, as the keyboard layout has it.
#[derive(Debug, Clone, Copy, PartialEq, Eq, Structural)]
pub struct KeyPress {
    pub mods: Modifiers,
    pub keysym: u32,
}

/// The predicate "is another key".
pub open spec fn other_key(key: u32) -> spec_fn(u32) -> bool {
    |k: u32| k != key
}

/// What becomes of a key event, and the keys whose release is swallowed after
/// it. `press` is absent when the key is released. A binding fires when its key
/// is pressed, unless the session is locked; the client that did not get the
/// press does not get the release either.
pub open spec fn key_handled(
    binds: Seq<Bind>,
    held: Seq<u32>,
    key: u32,
    press: Option<KeyPress>,
    locked: bool,
    after: Seq<u32>,
    step: KeyStep,
) -> bool {
    match press {
        None => {
            &&& after == held.filter(other_key(key))
            &&& step == (if held.contains(key) {
                KeyStep::Swallow
            } else {
                KeyStep::Forward
            })
        },
        Some(p) => if locked {
            after == held && step == KeyStep::Forward
        } else {
            match step {
                KeyStep::Fire(i) => {
                    &&& bind::first_bind(binds, p.mods, p.keysym, i as int)
                    &&& after == held.push(key)
                },
                KeyStep::Forward => {
                    &&& after == held
                    &&& forall|j: int|
                        0 <= j < binds.len() ==> !(#[trigger] binds[j]).spec_matches(
                            p.mods,
                            p.keysym,
                        )
                },
                KeyStep::Swallow => false,
            }
        },
    }
}

fn release(held: &mut Vec<u32>, key: u32) -> (was_held: bool)
    ensures
        was_held == old(held)@.contains(key),
        final(held)@ == old(held)@.filter(other_key(key)),
{
    let mut kept: Vec<u32> = Vec::new();
    let mut was_held: bool = false;
    let mut i: usize = 0;
    let ghost all = held@;
    proof {
        reveal(Seq::filter);
        assert(all.take(0).filter(other_key(key)) =~= Seq::<u32>::empty());
    }
    while i < held.len()
        invariant
            i <= all.len(),
            held@ == all,
            kept@ == all.take(i as int).filter(other_key(key)),
            was_held == all.take(i as int).contains(key),
        decreases all.len() - i,
    {
        let k: u32 = held[i];
        let ghost next = all.take(i + 1);
        proof {
            reveal(Seq::filter);
            assert(next.drop_last() =~= all.take(i as int));
            assert(next.last() == k);
            if all.take(i as int).contains(key) {
                let j = choose|j: int| 0 <= j < i && all.take(i as int)[j] == key;
                assert(next[j] == key);
            }
            if next.contains(key) && k != key {
                let j = choose|j: int| 0 <= j < i + 1 && next[j] == key;
                assert(all.take(i as int)[j] == key);
            }
        }
        if k == key {
            assert(next[i as int] == key);
            was_held = true;
        } else {
            kept.push(k);
        }
        i = i + 1;
    }
    assert(all.take(i as int) =~= all);
    *held = kept;
    was_held
}

/// What becomes of a key event. `held` are the keys whose press fired a
/// binding and which are still down; `press` is absent when the key is
/// released.
pub fn key_event(
    binds: &[Bind],
    held: &mut Vec<u32>,
    key: u32,
    press: Option<KeyPress>,
    locked: bool,
) -> (step: KeyStep)
    ensures
        key_handled(binds@, old(held)@, key, press, locked, final(held)@, step),
{
    match press {
        None => if release(held, key) {
            KeyStep::Swallow
        } else {
            KeyStep::Forward
        },
        Some(p) => {
            if locked {
                return KeyStep::Forward;
            }
            match bind::find_bind(binds, p.mods, p.keysym) {
                Some(i) => {
                    held.push(key);
                    KeyStep::Fire(i)
                },
                None => KeyStep::Forward,
            }
        },
    }
}

/// While the session is locked no binding fires, whatever is bound: every press
/// goes to the client that has the focus.
pub proof fn nothing_fires_while_locked(
    binds: Seq<Bind>,
    held: Seq<u32>,
    key: u32,
    press: Option<KeyPress>,
    after: Seq<u32>,
    step: KeyStep,
)
    requires
        key_handled(binds, held, key, press, true, after, step),
    ensures
        !(step is Fire),
        press is Some ==> step == KeyStep::Forward && after == held,
{
}

/// The release of a key whose press fired a binding is swallowed, even when
/// the session has been locked in between, and leaves nothing behind.
pub proof fn fired_press_keeps_its_release(
    binds: Seq<Bind>,
    held: Seq<u32>,
    key: u32,
    press: KeyPress,
    idx: usize,
    middle: Seq<u32>,
    locked: bool,
    after: Seq<u32>,
    step: KeyStep,
)
    requires
        !held.contains(key),
        key_handled(binds, held, key, Some(press), false, middle, KeyStep::Fire(idx)),
        key_handled(binds, middle, key, None, locked, after, step),
    ensures
        step == KeyStep::Swallow,
        after == held,
{
    reveal(Seq::filter);
    assert(middle.last() == key);
    assert(middle.drop_last() =~= held);
    lemma_filter_keeps_all(held, key);
}

proof fn lemma_filter_keeps_all(held: Seq<u32>, key: u32)
    requires
        !held.contains(key),
    ensures
        held.filter(other_key(key)) == held,
    decreases held.len(),
{
    reveal(Seq::filter);
    if held.len() > 0 {
        let rest = held.drop_last();
        assert(held.last() != key) by {
            assert(held.contains(held[held.len() - 1]));
        }
        assert(!rest.contains(key)) by {
            if rest.contains(key) {
                let j = choose|j: int| 0 <= j < rest.len() && rest[j] == key;
                assert(held[j] == key);
            }
        }
        lemma_filter_keeps_all(rest, key);
        assert(rest.push(held.last()) =~= held);
    }
}

/// What is under the pointer, at each level.
#[derive(Debug, Clone, Copy, PartialEq, Eq, Structural)]
pub struct Under {
    /// The fullscreen window of the output, which hides everything else.
    pub fullscreen: bool,
    /// A layer surface above the windows.
    pub upper: bool,
    /// A window, with the part of it that takes input.
    pub window: bool,
    /// A layer surface below the windows.
    pub lower: bool,
}

/// What gets the events of the pointer.
#[derive(Debug, Clone, Copy, PartialEq, Eq, Structural)]
pub enum PointerTarget {
    Nothing,
    Lock,
    Fullscreen,
    UpperLayer,
    Window,
    LowerLayer,
}

/// What is highest under the pointer; while the session is locked, the lock
/// surface once there is one.
pub open spec fn target_under(locked: bool, lock_surface: bool, under: Under) -> PointerTarget {
    if locked {
        if lock_surface {
            PointerTarget::Lock
        } else {
            PointerTarget::Nothing
        }
    } else if under.fullscreen {
        PointerTarget::Fullscreen
    } else if under.upper {
        PointerTarget::UpperLayer
    } else if under.window {
        PointerTarget::Window
    } else if under.lower {
        PointerTarget::LowerLayer
    } else {
        PointerTarget::Nothing
    }
}

/// What gets the events of the pointer: what is highest under it; while the
/// session is locked, the lock surface once there is one.
pub fn pointer_target(locked: bool, lock_surface: bool, under: &Under) -> (r: PointerTarget)
    ensures
        r == target_under(locked, lock_surface, *under),
{
    if locked {
        if lock_surface {
            PointerTarget::Lock
        } else {
            PointerTarget::Nothing
        }
    } else if under.fullscreen {
        PointerTarget::Fullscreen
    } else if under.upper {
        PointerTarget::UpperLayer
    } else if under.window {
        PointerTarget::Window
    } else if under.lower {
        PointerTarget::LowerLayer
    } else {
        PointerTarget::Nothing
    }
}

/// While the session is locked, nothing but the lock surface gets an event of
/// the pointer, wherever the pointer is; and only then does the lock surface
/// get one.
pub proof fn the_pointer_is_on_the_lock_surface_while_locked(
    locked: bool,
    lock_surface: bool,
    under: Under,
)
    ensures
        locked ==> target_under(locked, lock_surface, under) == PointerTarget::Lock || target_under(
            locked,
            lock_surface,
            under,
        ) == PointerTarget::Nothing,
        target_under(locked, lock_surface, under) == PointerTarget::Lock <==> locked && lock_surface,
{
}

/// What the pointer does to the keyboard focus.
#[derive(Debug, Clone, Copy, PartialEq, Eq, Structural)]
pub enum FocusStep {
    Keep,
    /// The layer surface under the pointer gets the focus.
    FocusLayer,
    /// The window under the pointer comes to the front, gets the focus, or both.
    FocusWindow { raise: bool, focus: bool },
}

/// What a click, or a movement when the focus follows the pointer, makes of the
/// keyboard focus while nothing holds the pointer.
pub open spec fn focus_step(locked: bool, clicked: bool, upper: bool, window: Option<bool>) -> FocusStep {
    if locked {
        FocusStep::Keep
    } else if upper {
        if clicked {
            FocusStep::FocusLayer
        } else {
            FocusStep::Keep
        }
    } else {
        match window {
            Some(focused) => FocusStep::FocusWindow { raise: clicked, focus: !focused },
            None => FocusStep::Keep,
        }
    }
}

/// What a click, or a movement when the focus follows the pointer, does to the
/// keyboard focus. `upper` says whether a layer surface above the windows is
/// under the pointer; `window` is there when a window is, and says whether it
/// has the focus. While the session is locked the focus stays where it is.
pub fn focus_under(locked: bool, clicked: bool, upper: bool, window: Option<bool>) -> (r: FocusStep)
    ensures
        r == focus_step(locked, clicked, upper, window),
{
    if locked {
        return FocusStep::Keep;
    }
    if upper {
        return if clicked { FocusStep::FocusLayer } else { FocusStep::Keep };
    }
    match window {
        Some(focused) => FocusStep::FocusWindow { raise: clicked, focus: !focused },
        None => FocusStep::Keep,
    }
}

/// What an event of the pointer makes of the keyboard focus.
pub open spec fn pointer_focus_step(
    follows: bool,
    grabbed: bool,
    locked: bool,
    clicked: bool,
    fullscreen: Option<bool>,
    upper: bool,
    window: Option<bool>,
) -> FocusStep {
    if grabbed || !(clicked || follows) {
        FocusStep::Keep
    } else if fullscreen is Some {
        focus_step(locked, clicked, false, fullscreen)
    } else {
        focus_step(locked, clicked, upper, window)
    }
}

/// What an event of the pointer does to the keyboard focus. A click always
/// counts, a movement only when the focus `follows` the pointer, and neither
/// while the input is `grabbed`. `fullscreen` is there when the pointer is on
/// the fullscreen window of an output, which comes before everything else, and
/// says whether that window has the focus.
pub fn pointer_focus(
    follows: bool,
    grabbed: bool,
    locked: bool,
    clicked: bool,
    fullscreen: Option<bool>,
    upper: bool,
    window: Option<bool>,
) -> (r: FocusStep)
    ensures
        r == pointer_focus_step(follows, grabbed, locked, clicked, fullscreen, upper, window),
{
    if grabbed || !(clicked || follows) {
        FocusStep::Keep
    } else if fullscreen.is_some() {
        focus_under(locked, clicked, false, fullscreen)
    } else {
        focus_under(locked, clicked, upper, window)
    }
}

/// A movement of the pointer never brings a window to the front and never gives
/// the focus to a layer surface; over a layer surface, or with no window under
/// the pointer, the focus stays.
pub proof fn hovering_only_focuses_windows(
    follows: bool,
    grabbed: bool,
    locked: bool,
    fullscreen: Option<bool>,
    upper: bool,
    window: Option<bool>,
)
    ensures
        ({
            let step = pointer_focus_step(
                follows,
                grabbed,
                locked,
                false,
                fullscreen,
                upper,
                window,
            );
            let target = if fullscreen is Some {
                fullscreen
            } else {
                window
            };
            &&& step == FocusStep::Keep || step == (FocusStep::FocusWindow {
                raise: false,
                focus: target == Some(false),
            })
            &&& fullscreen is None && (upper || window is None) ==> step == FocusStep::Keep
            &&& !follows ==> step == FocusStep::Keep
        }),
{
}

/// While something holds the pointer, and while the session is locked, no event
/// of the pointer moves the keyboard focus.
pub proof fn grabs_and_locks_keep_the_focus(
    follows: bool,
    grabbed: bool,
    locked: bool,
    clicked: bool,
    fullscreen: Option<bool>,
    upper: bool,
    window: Option<bool>,
)
    requires
        grabbed || locked,
    ensures
        pointer_focus_step(follows, grabbed, locked, clicked, fullscreen, upper, window)
            == FocusStep::Keep,
{
}

/// A released key is not held any more, the others stay held, and the client
/// gets the release if and only if it got the press.
pub proof fn releases_follow_their_presses(
    binds: Seq<Bind>,
    held: Seq<u32>,
    key: u32,
    locked: bool,
    after: Seq<u32>,
    step: KeyStep,
    other: u32,
)
    requires
        key_handled(binds, held, key, None, locked, after, step),
    ensures
        step == KeyStep::Swallow <==> held.contains(key),
        step == KeyStep::Forward <==> !held.contains(key),
        after.contains(other) <==> held.contains(other) && other != key,
{
    let keep = other_key(key);
    if held.contains(other) && other != key {
        let k = choose|k: int| 0 <= k < held.len() && held[k] == other;
        held.lemma_filter_contains(keep, k);
    }
    if after.contains(other) {
        let k = choose|k: int| 0 <= k < after.len() && after[k] == other;
        held.lemma_filter_pred(keep, k);
        held.lemma_filter_contains_rev(keep, other);
    }
}

/// While the session is not locked, a press fires the first binding that it
/// matches and is held back from the client; one that matches none goes to the
/// client.
pub proof fn presses_fire_the_first_match(
    binds: Seq<Bind>,
    held: Seq<u32>,
    key: u32,
    press: KeyPress,
    after: Seq<u32>,
    step: KeyStep,
    i: usize,
)
    requires
        key_handled(binds, held, key, Some(press), false, after, step),
        i < binds.len(),
    ensures
        binds[i as int].spec_matches(press.mods, press.keysym) && (forall|j: int|
            0 <= j < i ==> !(#[trigger] binds[j]).spec_matches(press.mods, press.keysym)) ==> step
            == KeyStep::Fire(i),
        step is Fire ==> after.last() == key && after.drop_last() == held,
        step is Forward ==> after == held && !binds[i as int].spec_matches(
            press.mods,
            press.keysym,
        ),
        !(step is Swallow),
{
    if step is Fire {
        let k = step->Fire_0 as int;
        assert(after.drop_last() =~= held);
        if binds[i as int].spec_matches(press.mods, press.keysym) && (forall|j: int|
            0 <= j < i ==> !(#[trigger] binds[j]).spec_matches(press.mods, press.keysym)) {
            assert(bind::first_bind(binds, press.mods, press.keysym, k));
            if k < i {
                assert(!binds[k].spec_matches(press.mods, press.keysym));
            }
            assert(k == i);
        }
    } else if step is Forward {
        assert(!binds[i as int].spec_matches(press.mods, press.keysym));
    }
}

/// While the session is not locked, the pointer is on the highest of what is
/// under it: a fullscreen window, a layer above the windows, a window, a layer
/// below them.
pub proof fn pointer_is_on_the_highest(lock_surface: bool, under: Under)
    ensures
        ({
            let target = target_under(false, lock_surface, under);
            &&& target is Fullscreen <==> under.fullscreen
            &&& target is UpperLayer <==> under.upper && !under.fullscreen
            &&& target is Window <==> under.window && !under.upper && !under.fullscreen
            &&& target is LowerLayer <==> under.lower && !under.window && !under.upper
                && !under.fullscreen
            &&& target is Nothing <==> !under.lower && !under.window && !under.upper
                && !under.fullscreen
        }),
{
}

/// A click gives the focus to what it hits: the fullscreen window before all
/// else, then a layer above the windows, then a window. Windows come to the
/// front, and those that have the focus keep it.
pub proof fn clicks_focus_what_they_hit(
    follows: bool,
    fullscreen: Option<bool>,
    upper: bool,
    window: Option<bool>,
)
    ensures
        ({
            let step = pointer_focus_step(follows, false, false, true, fullscreen, upper, window);
            let hit = if fullscreen is Some {
                fullscreen
            } else {
                window
            };
            &&& step is FocusLayer <==> fullscreen is None && upper
            &&& step is FocusWindow <==> fullscreen is Some || (!upper && window is Some)
            &&& step is FocusWindow ==> step->raise && (step->focus <==> hit == Some(false))
        }),
{
}

/// When the focus follows the pointer, a movement onto a window that does not
/// have the focus gives it the focus.
pub proof fn focus_follows_the_pointer(fullscreen: Option<bool>, window: Option<bool>)
    ensures
        ({
            let step = pointer_focus_step(true, false, false, false, fullscreen, false, window);
            let hit = if fullscreen is Some {
                fullscreen
            } else {
                window
            };
            hit is Some ==> step == (FocusStep::FocusWindow {
                raise: false,
                focus: hit == Some(false),
            })
        }),
{
}

} // verus!
