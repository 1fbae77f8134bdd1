use spitfire::bind::{Bind, Modifiers};
use spitfire::geometry::{Point, Rect, Size};
use spitfire::input::{
    focus_under, key_event, pointer_focus, pointer_target, FocusStep, KeyPress, KeyStep,
    PointerTarget, Under,
};
use spitfire::x11::{ResizeData, ResizeEdge};

const LOGO: Modifiers = Modifiers {
    logo: true,
    ctrl: false,
    alt: false,
    shift: false,
};

fn press(keysym: u32) -> Option<KeyPress> {
    Some(KeyPress { mods: LOGO, keysym })
}

fn binds() -> Vec<Bind> {
    let bind = |keysym| Bind { mods: LOGO, keysym };
    vec![bind(0x61), bind(0x62), bind(0x61)]
}

#[test]
fn the_first_binding_fires_and_its_release_is_swallowed() {
    let mut held = Vec::new();
    assert_eq!(key_event(&binds(), &mut held, 30, press(0x61), false), KeyStep::Fire(0));
    assert_eq!(key_event(&binds(), &mut held, 48, press(0x62), false), KeyStep::Fire(1));
    assert_eq!(held, vec![30, 48]);
    assert_eq!(key_event(&binds(), &mut held, 30, None, false), KeyStep::Swallow);
    assert_eq!(held, vec![48]);
    assert_eq!(key_event(&binds(), &mut held, 30, None, false), KeyStep::Forward);
    // The session is locked before the second key is released.
    assert_eq!(key_event(&binds(), &mut held, 48, None, true), KeyStep::Swallow);
    assert!(held.is_empty());
}

#[test]
fn keys_that_are_not_bound_go_to_the_client() {
    let mut held = Vec::new();
    assert_eq!(key_event(&binds(), &mut held, 46, press(0x63), false), KeyStep::Forward);
    let plain = Some(KeyPress {
        mods: Modifiers::default(),
        keysym: 0x61,
    });
    assert_eq!(key_event(&binds(), &mut held, 30, plain, false), KeyStep::Forward);
    assert!(held.is_empty());
    assert_eq!(key_event(&binds(), &mut held, 30, None, false), KeyStep::Forward);
}

#[test]
fn no_binding_fires_while_locked() {
    let mut held = Vec::new();
    for keysym in [0x61, 0x62, 0x63] {
        assert_eq!(key_event(&binds(), &mut held, 30, press(keysym), true), KeyStep::Forward);
    }
    assert!(held.is_empty());
}

#[test]
fn the_pointer_is_on_what_is_highest() {
    let under = |upper, window, lower| Under {
        fullscreen: false,
        upper,
        window,
        lower,
    };
    let at = |under: Under| pointer_target(false, true, &under);
    assert_eq!(at(under(true, true, true)), PointerTarget::UpperLayer);
    assert_eq!(at(under(false, true, true)), PointerTarget::Window);
    assert_eq!(at(under(false, false, true)), PointerTarget::LowerLayer);
    assert_eq!(at(under(false, false, false)), PointerTarget::Nothing);
    let everything = Under {
        fullscreen: true,
        ..under(true, true, true)
    };
    assert_eq!(at(everything), PointerTarget::Fullscreen);
    assert_eq!(pointer_target(true, true, &everything), PointerTarget::Lock);
    assert_eq!(pointer_target(true, false, &everything), PointerTarget::Nothing);
    let nothing = under(false, false, false);
    assert_eq!(pointer_target(true, true, &nothing), PointerTarget::Lock);
}

#[test]
fn hovering_focuses_windows_and_nothing_else() {
    let hover = |fullscreen, upper, window| {
        pointer_focus(true, false, false, false, fullscreen, upper, window)
    };
    let focus = |focus| FocusStep::FocusWindow {
        raise: false,
        focus,
    };
    assert_eq!(hover(None, false, Some(false)), focus(true));
    assert_eq!(hover(None, false, Some(true)), focus(false));
    assert_eq!(hover(None, true, Some(false)), FocusStep::Keep);
    assert_eq!(hover(None, false, None), FocusStep::Keep);
    assert_eq!(hover(Some(false), true, None), focus(true));
    assert_eq!(
        pointer_focus(false, false, false, false, None, false, Some(false)),
        FocusStep::Keep
    );
}

#[test]
fn a_click_raises_whether_or_not_the_focus_follows_the_pointer() {
    for follows in [false, true] {
        let click = |fullscreen, upper, window| {
            pointer_focus(follows, false, false, true, fullscreen, upper, window)
        };
        let raised = FocusStep::FocusWindow {
            raise: true,
            focus: true,
        };
        assert_eq!(click(None, false, Some(false)), raised);
        assert_eq!(click(None, true, Some(false)), FocusStep::FocusLayer);
        assert_eq!(click(Some(false), true, None), raised);
        assert_eq!(click(None, false, None), FocusStep::Keep);
    }
}

#[test]
fn a_grab_and_a_lock_keep_the_focus() {
    for (grabbed, locked) in [(true, false), (false, true), (true, true)] {
        for clicked in [false, true] {
            for upper in [false, true] {
                for window in [None, Some(false), Some(true)] {
                    assert_eq!(
                        pointer_focus(true, grabbed, locked, clicked, None, upper, window),
                        FocusStep::Keep
                    );
                    assert_eq!(
                        pointer_focus(true, grabbed, locked, clicked, window, upper, None),
                        FocusStep::Keep
                    );
                }
            }
        }
    }
}

#[test]
fn the_focus_stays_while_locked() {
    for clicked in [false, true] {
        for upper in [false, true] {
            for window in [None, Some(false), Some(true)] {
                assert_eq!(focus_under(true, clicked, upper, window), FocusStep::Keep);
            }
        }
    }
}

#[test]
fn clicks_and_movements_change_the_focus() {
    assert_eq!(focus_under(false, true, true, Some(false)), FocusStep::FocusLayer);
    assert_eq!(focus_under(false, false, true, Some(false)), FocusStep::Keep);
    assert_eq!(
        focus_under(false, true, false, Some(false)),
        FocusStep::FocusWindow {
            raise: true,
            focus: true
        }
    );
    assert_eq!(
        focus_under(false, false, false, Some(true)),
        FocusStep::FocusWindow {
            raise: false,
            focus: false
        }
    );
    assert_eq!(focus_under(false, true, false, None), FocusStep::Keep);
}

fn data(edges: ResizeEdge) -> ResizeData {
    ResizeData {
        edges,
        initial_window_location: Point { x: 100, y: 50 },
        initial_window_size: Size { w: 40, h: 30 },
    }
}

#[test]
fn dragging_an_edge_leaves_the_opposite_one() {
    let moved = Point { x: 7, y: -5 };
    let dragged = |edges| data(edges).dragged(moved);
    assert_eq!(dragged(ResizeEdge::Left), Rect::new(107, 50, 33, 30));
    assert_eq!(dragged(ResizeEdge::Right), Rect::new(100, 50, 47, 30));
    assert_eq!(dragged(ResizeEdge::Top), Rect::new(100, 45, 40, 35));
    assert_eq!(dragged(ResizeEdge::Bottom), Rect::new(100, 50, 40, 25));
    assert_eq!(dragged(ResizeEdge::TopLeft), Rect::new(107, 45, 33, 35));
    assert_eq!(dragged(ResizeEdge::BottomRight), Rect::new(100, 50, 47, 25));
    assert_eq!(dragged(ResizeEdge::TopRight), Rect::new(100, 45, 47, 35));
    assert_eq!(dragged(ResizeEdge::BottomLeft), Rect::new(107, 50, 33, 25));
}

#[test]
fn a_window_is_never_dragged_to_nothing() {
    let far = Point { x: 1000, y: i32::MIN };
    assert_eq!(data(ResizeEdge::Left).dragged(far), Rect::new(139, 50, 1, 30));
    assert_eq!(data(ResizeEdge::Bottom).dragged(far), Rect::new(100, 50, 40, 1));
    let right = Point { x: i32::MAX, y: 0 };
    assert_eq!(data(ResizeEdge::Right).dragged(right).w, i32::MAX);
}
