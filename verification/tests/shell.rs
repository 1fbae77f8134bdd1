use spitfire::action::{center_in, Action, Focus};
use spitfire::anim::{
    lerp_rect, scale_about_center, AnimKind, AnimatedWindow, Easing, WindowAnim, WindowAnimations,
};
use spitfire::binary32::{two_thirds, Binary32};
use spitfire::binary64::Binary64;
use spitfire::border::{BorderRect, MappedWindow};
use spitfire::desktop::{Desktop, WorkspaceSlide};
use spitfire::fullscreen::FullscreenSurface;
use spitfire::geometry::{Point, Rect, Size};
use spitfire::motion::{
    animate_placements, animated_windows, windows_and_borders, windows_as_seen,
    workspace_slide_offset_for,
};
use spitfire::outputs::{
    fixup_positions, fullscreen_output_geometry, line_up, orphaned_windows, output_or_first, place_new_window,
    placement_area, preferred_output, usable_area, OutputFacts, WindowCorner,
};
use spitfire::requests::{
    cursor_hint_origin, may_create_context, new_constraint, new_decoration, parent_geometry,
    request_activation, request_mode, select_backend, token_created, unset_mode, BackendKind,
    DecorationMode, TokenRequest,
};
use spitfire::rule::{RuleEntry, WindowRule};
use spitfire::shell::{
    commit_blocker, ensure_initial_configure, Blocker, Commit, CommitStep, ConfigureStep,
    CursorImage, DndIcon, SpitfireState, SurfaceRole, Surroundings, WindowCommit,
};
use spitfire::ssd::{
    window_backdrop, HeaderAction, HeaderBar, WindowElement, BG_COLOR, CLOSE_COLOR,
    CLOSE_COLOR_HOVER,
};
use spitfire::tiling::Placement;
use spitfire::x11::{
    allow_selection_access, configure_notify, configure_request, fullscreen_request,
    is_positioned_by_client, map_window_request, mapped_override_redirect_window,
    maximize_request_x11, move_request_x11, resize_request, unfullscreen_request,
    unmapped_window, unmaximize_request, MoveSource, OldGeometry, ResizeData, ResizeEdge, ResizeState,
    WindowKind, X11Facts, X11Step,
};

fn half(x: f32) -> Binary32 {
    Binary32 { bits: x.to_bits() }
}

fn num(x: f64) -> Binary64 {
    Binary64 { bits: x.to_bits() }
}

fn rect(x: i32, y: i32, w: i32, h: i32) -> Rect {
    Rect::new(x, y, w, h)
}

fn output(id: u64, geometry: Rect) -> OutputFacts {
    OutputFacts {
        id,
        geometry: Some(geometry),
        zone: rect(0, 0, geometry.w, geometry.h),
    }
}

fn surroundings<'a>(
    rules: &'a [WindowRule],
    entries: &'a [RuleEntry],
    alive: &'a [u64],
) -> Surroundings<'a> {
    Surroundings {
        output: true,
        area: Some(rect(0, 0, 1000, 500)),
        rules,
        entries,
        alive,
        now: 10,
        duration: 150,
    }
}

fn commit_of(surface: u64, window: u64, app_id: &str) -> Commit {
    Commit {
        surface,
        synced: false,
        root: surface,
        window: Some(WindowCommit {
            window,
            location: Some(Point { x: 5, y: 5 }),
            has_buffer: true,
            app_id: Some(app_id.to_string()),
            size: Size { w: 200, h: 100 },
        }),
        delta: None,
    }
}

fn act(action: Action) -> CommitStep {
    CommitStep::Act { action }
}

#[test]
fn lerp_rect_halfway() {
    let from = rect(0, 0, 100, 100);
    let to = rect(100, 100, 200, 200);
    assert_eq!(lerp_rect(from, to, half(0.5)), rect(50, 50, 150, 150));
}

#[test]
fn lerp_rect_at_t0_is_from_and_at_t1_is_to() {
    let from = rect(0, 0, 100, 100);
    let to = rect(40, 40, 200, 50);
    assert_eq!(lerp_rect(from, to, half(0.0)), from);
    assert_eq!(lerp_rect(from, to, half(1.0)), to);
}

#[test]
fn scale_about_center_shrinks_and_recenters() {
    let r = rect(0, 0, 100, 100);
    let scaled = scale_about_center(r, num(0.5));
    assert_eq!((scaled.w, scaled.h), (50, 50));
    assert_eq!((scaled.x, scaled.y), (25, 25));
}

#[test]
fn scale_about_center_at_factor_1_is_a_no_op() {
    let r = rect(10, 20, 100, 60);
    assert_eq!(scale_about_center(r, num(1.0)), r);
}

#[test]
fn window_animations_starts_empty() {
    assert!(WindowAnimations::default().is_empty());
}

#[test]
fn scaling_agrees_with_single_precision() {
    for f in [0.0f32, 0.1, 0.25, 0.3333, 0.5, 0.9, 1.0, 1.5, -0.3] {
        for n in [0, 1, 3, 7, 1079, 1919, 16_777_217, i32::MAX, -5, i32::MIN] {
            assert_eq!(half(f).scale_i32(n), (n as f32 * f).round() as i32, "{n} * {f}");
        }
    }
}

#[test]
fn two_thirds_agree_with_single_precision() {
    let check = |n: i32| {
        assert_eq!(two_thirds(n), ((n as f32) / 3.0 * 2.0) as i32, "{n}");
    };
    for n in -2000..=5000 {
        check(n);
    }
    for n in [16_777_215, 16_777_217, 50_000_001, 1_000_000_007, i32::MAX, i32::MIN] {
        check(n);
    }
}

#[test]
fn an_opening_window_is_not_moved() {
    let mut anims = WindowAnimations::default();
    anims.push_open(1, 0, 100);
    anims.push_move(1, rect(0, 0, 10, 10), 50, 100, half(0.5));
    assert_eq!(anims.anims.len(), 1);
    assert_eq!(anims.anims[0].kind, AnimKind::Open);
    anims.push_move(1, rect(0, 0, 10, 10), 100, 100, half(1.0));
    assert_eq!(
        anims.anims,
        vec![WindowAnim {
            window: 1,
            kind: AnimKind::Move {
                from: rect(0, 0, 10, 10)
            },
            start: 100,
            duration: 100
        }]
    );
    anims.push_move(1, rect(100, 0, 10, 10), 150, 100, half(0.5));
    assert_eq!(
        anims.anims[0].kind,
        AnimKind::Move {
            from: rect(50, 0, 10, 10)
        }
    );
    anims.push_open(1, 160, 0);
    assert!(matches!(anims.anims[0].kind, AnimKind::Move { .. }));
}

#[test]
fn animations_end_and_are_pruned() {
    let mut anims = WindowAnimations::default();
    anims.push_open(1, 0, 100);
    anims.push_open(2, 50, 100);
    assert_eq!(anims.progress_of(1, 25), Some((25, 100)));
    assert_eq!(anims.progress_of(1, 100), None);
    assert_eq!(anims.progress_of(9, 25), None);
    anims.prune(100, &[1, 2]);
    assert_eq!(anims.anims.len(), 1);
    anims.prune(100, &[1]);
    assert!(anims.is_empty());
}

#[test]
fn animated_windows_are_seen_where_their_animation_has_them() {
    let mut anims = WindowAnimations::default();
    anims.push_move(1, rect(0, 0, 100, 100), 0, 100, half(0.0));
    anims.push_open(2, 0, 100);
    let easing = Easing {
        eased: half(0.5),
        scale: num(0.5),
    };
    let mapped = [
        MappedWindow {
            id: 1,
            geometry: rect(100, 0, 100, 100),
        },
        MappedWindow {
            id: 2,
            geometry: rect(0, 0, 100, 100),
        },
    ];
    let seen = anims.resolve_all(&mapped, &[easing, easing], 50);
    assert_eq!(
        seen,
        vec![
            AnimatedWindow {
                window: 1,
                target: rect(50, 0, 100, 100)
            },
            AnimatedWindow {
                window: 2,
                target: rect(25, 25, 50, 50)
            },
        ]
    );
    assert_eq!(
        anims.on_screen_rect(1, rect(100, 0, 100, 100), 50, easing),
        rect(50, 0, 100, 100)
    );
    assert_eq!(
        anims.on_screen_rect(3, rect(1, 2, 3, 4), 50, easing),
        rect(1, 2, 3, 4)
    );
    let bordered = windows_as_seen(&mapped, &seen);
    assert_eq!(bordered[1].geometry, rect(25, 25, 50, 50));
}

#[test]
fn a_slide_moves_both_workspaces() {
    let mut desktop = Desktop::default();
    desktop.join_active(1, &[1]);
    desktop.switch_workspace(1, 0, Some(100));
    desktop.join_active(2, &[1, 2]);
    assert_eq!(
        desktop.slide,
        Some(WorkspaceSlide {
            from_idx: 0,
            to_idx: 1,
            start: 0,
            duration: 100
        })
    );
    let at = |window, t, now| workspace_slide_offset_for(&desktop, window, 800, half(t), now);
    assert_eq!(at(1, 0.0, 0), Some(0));
    assert_eq!(at(2, 0.0, 0), Some(800));
    assert_eq!(at(1, 0.5, 50), Some(-400));
    assert_eq!(at(2, 0.5, 50), Some(400));
    assert_eq!(at(2, 1.0, 100), None);
    assert_eq!(at(3, 0.5, 50), None);
    let mapped = [
        MappedWindow {
            id: 1,
            geometry: rect(10, 0, 5, 5),
        },
        MappedWindow {
            id: 2,
            geometry: rect(10, 0, 5, 5),
        },
    ];
    let entries = [AnimatedWindow {
        window: 2,
        target: rect(7, 0, 5, 5),
    }];
    assert_eq!(
        animated_windows(&desktop, &entries, &mapped, 800, half(0.5), 50),
        vec![
            AnimatedWindow {
                window: 2,
                target: rect(407, 0, 5, 5)
            },
            AnimatedWindow {
                window: 1,
                target: rect(-390, 0, 5, 5)
            },
        ]
    );
}

#[test]
fn windows_without_contents_appear_in_their_place() {
    let placement = |window, moved| Placement {
        window,
        x: 0,
        y: 0,
        w: 5,
        h: 5,
        moved,
    };
    let mapped: Vec<MappedWindow> = (1..=4)
        .map(|id| MappedWindow {
            id,
            geometry: rect(id as i32, 0, 5, 5),
        })
        .collect();
    let mut anims = WindowAnimations::default();
    animate_placements(
        &mut anims,
        &[
            placement(1, true),
            placement(2, true),
            placement(3, false),
            placement(4, false),
            placement(5, true),
        ],
        &mapped,
        &[2],
        &[4],
        &[half(0.0); 5],
        0,
        100,
    );
    let moved: Vec<u64> = anims.anims.iter().map(|a| a.window).collect();
    assert_eq!(moved, vec![1, 4]);
}

#[test]
fn the_usable_area_leaves_room_for_the_bar() {
    let mut out = output(1, rect(0, 0, 1920, 1080));
    out.zone = rect(0, 30, 1920, 1050);
    assert_eq!(usable_area(&out, 0, 10), Some(rect(0, 30, 1920, 1050)));
    assert_eq!(usable_area(&out, 24, 10), Some(rect(0, 74, 1920, 1006)));
    assert_eq!(usable_area(&out, 24, -5), Some(rect(0, 54, 1920, 1026)));
    assert_eq!(usable_area(&out, 5000, 0), Some(rect(0, 1080, 1920, 0)));
    out.geometry = None;
    assert_eq!(usable_area(&out, 24, 10), None);
}

#[test]
fn outputs_for_surfaces() {
    let outputs = [
        output(1, rect(0, 0, 100, 100)),
        output(2, rect(100, 0, 50, 50)),
    ];
    assert_eq!(
        fullscreen_output_geometry(Some(2), Some(1), &outputs),
        Some(rect(100, 0, 50, 50))
    );
    assert_eq!(
        fullscreen_output_geometry(None, Some(1), &outputs),
        Some(rect(0, 0, 100, 100))
    );
    assert_eq!(fullscreen_output_geometry(None, None, &outputs), None);
    assert_eq!(output_or_first(None, &outputs), Some(1));
    assert_eq!(output_or_first(None, &[]), None);
    assert_eq!(preferred_output(Some(9), None, Some(2), &outputs), Some(9));
    assert_eq!(
        preferred_output(None, Some(Some(8)), Some(2), &outputs),
        Some(8)
    );
    assert_eq!(
        preferred_output(None, Some(None), Some(2), &outputs),
        Some(2)
    );
    assert_eq!(preferred_output(None, None, None, &outputs), Some(1));
}

#[test]
fn new_windows_start_on_the_output_under_the_pointer() {
    let outputs = [
        output(1, rect(0, 0, 300, 300)),
        output(2, rect(300, 0, 600, 600)),
    ];
    let pointer = Point { x: 350, y: 10 };
    assert_eq!(placement_area(&outputs, pointer), rect(300, 0, 600, 600));
    assert_eq!(
        placement_area(&outputs, Point { x: -5, y: 0 }),
        rect(0, 0, 300, 300)
    );
    assert_eq!(placement_area(&[], pointer), rect(0, 0, 800, 800));
    let mut seen = Vec::new();
    for _ in 0..50 {
        let place = place_new_window(&outputs, pointer);
        assert_eq!(place.bounds, Size { w: 600, h: 600 });
        assert!(place.at.x >= 300 && place.at.x < 700);
        assert!(place.at.y >= 0 && place.at.y < 400);
        seen.push(place.at);
    }
    assert!(seen.iter().any(|p| *p != seen[0]));
}

#[test]
fn outputs_are_lined_up_and_orphans_found() {
    let outputs = [
        output(1, rect(50, 50, 300, 300)),
        output(2, rect(0, 0, 600, 600)),
    ];
    assert_eq!(
        line_up(&outputs),
        vec![Point { x: 0, y: 0 }, Point { x: 300, y: 0 }]
    );
    let corner = |window, location| WindowCorner {
        window,
        location,
        bbox: Point { x: -5, y: -5 },
    };
    assert_eq!(
        orphaned_windows(
            &[rect(0, 0, 300, 300)],
            &[
                corner(1, Some(Point { x: 5, y: 5 })),
                corner(2, Some(Point { x: 4, y: 5 })),
                corner(3, None),
                corner(4, Some(Point { x: 305, y: 5 })),
            ]
        ),
        vec![2, 4]
    );
}

#[test]
fn windows_without_an_output_are_placed_anew() {
    let outputs = [
        output(1, rect(50, 50, 300, 300)),
        output(2, rect(0, 0, 600, 600)),
    ];
    let at = |window, x| WindowCorner {
        window,
        location: Some(Point { x, y: 5 }),
        bbox: Point { x: 0, y: 0 },
    };
    let windows = [at(1, 5), at(2, 899), at(3, 900)];
    let (positions, replaced) = fixup_positions(&outputs, &windows, Point { x: 10, y: 10 });
    assert_eq!(
        positions,
        vec![Point { x: 0, y: 0 }, Point { x: 300, y: 0 }]
    );
    assert_eq!(replaced.len(), 1);
    assert_eq!(replaced[0].window, 3);
    let place = replaced[0].place;
    assert_eq!(place.bounds, Size { w: 300, h: 300 });
    assert!((0..200).contains(&place.at.x) && (0..200).contains(&place.at.y));
}

#[test]
fn a_new_window_gets_the_focus_with_its_first_contents() {
    let mut shell = SpitfireState::default();
    shell.new_toplevel(50);
    let env = surroundings(&[], &[], &[1]);
    let mut early = commit_of(50, 1, "foot");
    early.window.as_mut().unwrap().has_buffer = false;
    assert_eq!(
        shell.commit(&early, &env),
        vec![CommitStep::Refresh { window: 1 }, CommitStep::CommitPopups]
    );
    assert_eq!(shell.pending_initial_focus, vec![50]);
    assert_eq!(
        shell.commit(&commit_of(50, 1, "foot"), &env),
        vec![
            CommitStep::Refresh { window: 1 },
            act(Action::Focus { window: 1 }),
            CommitStep::CommitPopups
        ]
    );
    assert!(shell.pending_initial_focus.is_empty());
    assert_eq!(shell.anims.anims.len(), 1);
    assert_eq!(
        shell.commit(&commit_of(50, 1, "foot"), &env),
        vec![CommitStep::Refresh { window: 1 }, CommitStep::CommitPopups]
    );
}

#[test]
fn a_locked_session_gives_no_window_the_focus() {
    let mut shell = SpitfireState::default();
    shell.lock();
    shell.new_toplevel(50);
    let steps = shell.commit(&commit_of(50, 1, "foot"), &surroundings(&[], &[], &[1]));
    assert_eq!(
        steps,
        vec![CommitStep::Refresh { window: 1 }, CommitStep::CommitPopups]
    );
}

#[test]
fn rules_center_and_send_away_new_windows() {
    let rules = [WindowRule {
        app_id: Some("pavucontrol".to_string()),
        floating: true,
        centered: true,
        hide_from_capture: false,
    }];
    let entries = [RuleEntry {
        rule: WindowRule {
            app_id: Some("mail".to_string()),
            ..Default::default()
        },
        blur: false,
        workspace: Some(2),
    }];
    let mut shell = SpitfireState::default();
    shell.new_toplevel(50);
    shell.new_toplevel(51);
    let env = surroundings(&rules, &entries, &[1, 2]);
    let steps = shell.commit(&commit_of(50, 1, "pavucontrol"), &env);
    assert_eq!(
        steps[1],
        act(Action::Show {
            window: 1,
            at: Point { x: 400, y: 200 }
        })
    );
    assert_eq!(steps[2], act(Action::Focus { window: 1 }));
    shell.desktop.join_active(2, &[1, 2]);
    let steps = shell.commit(&commit_of(51, 2, "mail"), &env);
    assert_eq!(
        steps,
        vec![
            CommitStep::Refresh { window: 2 },
            act(Action::Unmap { window: 2 }),
            act(Action::Arrange),
            act(Action::SyncWorkspaces),
            CommitStep::CommitPopups,
        ]
    );
    assert_eq!(
        shell.desktop.workspaces.get(2).unwrap().tiling.windows(),
        &[2]
    );
    assert_eq!(shell.anims.anims.len(), 1);
}

#[test]
fn a_waiting_scratchpad_claims_a_new_window() {
    let mut shell = SpitfireState::default();
    shell.desktop.toggle_named_scratchpad(
        "term",
        "scratchterm",
        None,
        None,
        None,
        Size { w: 1, h: 1 },
        &[],
    );
    shell.new_toplevel(50);
    let steps = shell.commit(
        &commit_of(50, 1, "scratchterm"),
        &surroundings(&[], &[], &[1]),
    );
    assert_eq!(
        steps,
        vec![
            CommitStep::Refresh { window: 1 },
            act(Action::Show {
                window: 1,
                at: Point { x: 400, y: 200 }
            }),
            act(Action::Raise { window: 1 }),
            act(Action::RaiseFloating),
            act(Action::Focus { window: 1 }),
            CommitStep::CommitPopups,
        ]
    );
}

#[test]
fn moved_contents_move_windows_cursors_and_icons() {
    let mut shell = SpitfireState::default();
    let env = surroundings(&[], &[], &[1]);
    let mut commit = commit_of(50, 1, "foot");
    commit.delta = Some(Point { x: 3, y: -2 });
    assert_eq!(
        shell.commit(&commit, &env)[1],
        act(Action::Show {
            window: 1,
            at: Point { x: 8, y: 3 }
        })
    );
    shell.cursor = CursorImage::Surface {
        surface: 60,
        hotspot: Point { x: 4, y: 4 },
    };
    shell.dnd_icon = Some(DndIcon {
        surface: 61,
        offset: Point { x: 0, y: 0 },
    });
    let plain = |surface| Commit {
        surface,
        synced: false,
        root: surface,
        window: None,
        delta: Some(Point { x: 1, y: 2 }),
    };
    shell.commit(&plain(60), &env);
    shell.commit(&plain(61), &env);
    assert_eq!(
        shell.cursor,
        CursorImage::Surface {
            surface: 60,
            hotspot: Point { x: 3, y: 2 }
        }
    );
    assert_eq!(
        shell.dnd_icon,
        Some(DndIcon {
            surface: 61,
            offset: Point { x: 1, y: 2 }
        })
    );
}

#[test]
fn drags_put_their_icon_under_the_cursor() {
    let mut shell = SpitfireState::default();
    shell.drag_started(Some(9));
    assert_eq!(
        shell.dnd_icon,
        Some(DndIcon {
            surface: 9,
            offset: Point { x: 0, y: 0 }
        })
    );
    shell.cursor = CursorImage::Surface {
        surface: 60,
        hotspot: Point { x: 4, y: 5 },
    };
    shell.drag_started(Some(9));
    assert_eq!(
        shell.dnd_icon.unwrap().offset,
        Point { x: -4, y: -5 }
    );
    shell.drag_dropped();
    assert_eq!(shell.dnd_icon, None);
}

#[test]
fn locking_forgets_old_lock_surfaces() {
    let mut shell = SpitfireState::default();
    assert_eq!(
        shell.new_lock_surface(1, Some(rect(0, 0, 640, -1))),
        Some((640, 0))
    );
    assert_eq!(shell.locked_surface(), None);
    shell.lock();
    assert_eq!(shell.locked_surface(), None);
    assert_eq!(shell.new_lock_surface(2, None), None);
    assert_eq!(shell.locked_surface(), Some(2));
    shell.unlock();
    assert_eq!(shell.locked_surface(), None);
}

#[test]
fn a_dead_cursor_surface_gives_way() {
    let mut shell = SpitfireState::default();
    assert!(shell.plan_frame(false).cursor_visible);
    shell.cursor = CursorImage::Surface {
        surface: 60,
        hotspot: Point { x: 0, y: 0 },
    };
    assert!(!shell.plan_frame(true).cursor_visible);
    assert!(shell.plan_frame(false).cursor_visible);
    assert_eq!(shell.cursor, CursorImage::Named);
    shell.lock();
    let plan = shell.plan_frame(true);
    assert!(!plan.bar && !plan.blur);
}

#[test]
fn surfaces_are_configured_once() {
    let data = ResizeData {
        edges: ResizeEdge::Top,
        initial_window_location: Point { x: 0, y: 0 },
        initial_window_size: Size { w: 1, h: 1 },
    };
    let window = SurfaceRole::Window {
        xdg: true,
        resize: ResizeState::WaitingForCommit(data),
    };
    assert_eq!(
        ensure_initial_configure(window, false),
        (
            vec![ConfigureStep::SendConfigure],
            Some(ResizeState::NotResizing)
        )
    );
    let x11 = SurfaceRole::Window {
        xdg: false,
        resize: ResizeState::Resizing(data),
    };
    assert_eq!(
        ensure_initial_configure(x11, false),
        (vec![], Some(ResizeState::Resizing(data)))
    );
    let popup = SurfaceRole::Popup {
        input_method: false,
    };
    assert_eq!(
        ensure_initial_configure(popup, false),
        (vec![ConfigureStep::SendConfigure], None)
    );
    assert_eq!(ensure_initial_configure(popup, true), (vec![], None));
    assert_eq!(
        ensure_initial_configure(SurfaceRole::Layer, true),
        (vec![ConfigureStep::ArrangeLayers], None)
    );
    assert_eq!(
        ensure_initial_configure(SurfaceRole::Other, false),
        (vec![], None)
    );
}

#[test]
fn commits_wait_for_device_buffers() {
    assert_eq!(commit_blocker(false, true, true), Blocker::Nothing);
    assert_eq!(commit_blocker(true, true, true), Blocker::AcquirePoint);
    assert_eq!(commit_blocker(true, false, true), Blocker::Buffer);
    assert_eq!(commit_blocker(true, false, false), Blocker::Nothing);
}

#[test]
fn a_click_on_the_close_button_closes() {
    let mut bar = HeaderBar::default();
    bar.redraw(100);
    assert_eq!(bar.button_column(), 84);
    assert_eq!(bar.close_button.color, CLOSE_COLOR);
    assert_eq!(bar.clicked(), HeaderAction::Nothing);
    bar.pointer_enter(83);
    assert_eq!(bar.clicked(), HeaderAction::Move);
    assert_eq!(bar.touch_down(), HeaderAction::Move);
    assert_eq!(bar.touch_up(), HeaderAction::Nothing);
    bar.pointer_enter(84);
    assert_eq!(bar.clicked(), HeaderAction::Close);
    assert_eq!(bar.touch_down(), HeaderAction::Nothing);
    assert_eq!(bar.touch_up(), HeaderAction::Close);
    bar.redraw(100);
    assert_eq!(bar.close_button.color, CLOSE_COLOR_HOVER);
    bar.pointer_enter(95);
    assert_eq!(bar.clicked(), HeaderAction::Move);
    bar.pointer_leave();
    assert_eq!(bar.clicked(), HeaderAction::Nothing);
    bar.redraw(0);
    assert_eq!(bar.width, 0);
}

#[test]
fn drawing_a_header_again_changes_nothing() {
    let mut bar = HeaderBar::default();
    bar.pointer_enter(90);
    bar.redraw(100);
    let drawn = bar;
    assert_eq!(drawn.close_button.color, CLOSE_COLOR_HOVER);
    bar.redraw(100);
    assert_eq!(bar, drawn);
}

#[test]
fn decorations_are_created_when_asked_for() {
    let mut window = WindowElement {
        id: 1,
        decoration: None,
    };
    assert!(!window.decoration_state().is_ssd);
    window.set_ssd(true);
    assert!(window.decoration_state().is_ssd);
}

#[test]
fn a_fullscreen_window_that_is_gone_is_forgotten() {
    let mut surface = FullscreenSurface::default();
    assert_eq!(surface.get(&[1]), None);
    surface.set(1);
    assert_eq!(surface.get(&[1]), Some(1));
    assert_eq!(surface.get(&[2]), None);
    surface.set(3);
    assert_eq!(surface.clear(), Some(3));
    assert_eq!(surface.clear(), None);
}

fn x11_window(kind: Option<WindowKind>) -> X11Facts {
    X11Facts {
        override_redirect: false,
        transient: false,
        kind,
        geometry: rect(1, 2, 30, 40),
    }
}

#[test]
fn x11_menus_place_themselves() {
    assert!(is_positioned_by_client(&x11_window(Some(WindowKind::Menu))));
    assert!(!is_positioned_by_client(&x11_window(Some(WindowKind::Other))));
    assert!(!is_positioned_by_client(&x11_window(None)));
    let dialog = X11Facts {
        transient: true,
        ..x11_window(None)
    };
    assert!(is_positioned_by_client(&dialog));
    let outputs = [output(1, rect(0, 0, 300, 300))];
    let mut desktop = Desktop::default();
    let origin = Point { x: 0, y: 0 };
    let steps = map_window_request(&mut desktop, 5, &dialog, &outputs, origin, &[5]);
    let show = X11Step::Show {
        at: Point { x: 1, y: 2 },
        activate: true,
    };
    assert_eq!(steps, vec![X11Step::SetMapped { mapped: true }, show]);
    assert!(desktop.workspaces.active().tiling.windows().is_empty());
    assert_eq!(mapped_override_redirect_window(&dialog), show);
}

#[test]
fn ordinary_x11_windows_are_tiled() {
    let outputs = [output(1, rect(0, 0, 300, 300))];
    let mut desktop = Desktop::default();
    let origin = Point { x: 0, y: 0 };
    let steps = map_window_request(&mut desktop, 5, &x11_window(None), &outputs, origin, &[5]);
    assert_eq!(steps.len(), 4);
    assert_eq!(steps[2..], [X11Step::ConfigureAsShown, X11Step::Undecorate]);
    assert_eq!(desktop.workspaces.active().tiling.windows(), &[5]);
    let steps = unmapped_window(&mut desktop, Some(5), false);
    assert_eq!(
        steps,
        vec![X11Step::Unmap, X11Step::SetMapped { mapped: false }]
    );
    assert!(desktop.workspaces.active().tiling.windows().is_empty());
    assert!(unmapped_window(&mut desktop, None, true).is_empty());
}

#[test]
fn x11_windows_may_change_their_size_only() {
    let facts = x11_window(None);
    assert_eq!(
        configure_request(&facts, Some(50), None),
        Some(rect(1, 2, 50, 40))
    );
    let menu = x11_window(Some(WindowKind::Tooltip));
    assert_eq!(configure_request(&menu, Some(50), None), None);
    let at = Point { x: 1, y: 2 };
    assert!(configure_notify(Some(Some(at)), facts.geometry).is_empty());
    assert!(configure_notify(None, facts.geometry).is_empty());
    assert_eq!(
        configure_notify(Some(Some(Point { x: 0, y: 0 })), facts.geometry),
        vec![
            X11Step::Show {
                at,
                activate: false
            },
            X11Step::RaiseFloating
        ]
    );
}

#[test]
fn a_maximized_window_comes_back_to_its_place() {
    let outputs = [output(1, rect(0, 0, 300, 300))];
    let mut old = OldGeometry::default();
    let steps = maximize_request_x11(&mut old, Some(rect(5, 6, 7, 8)), None, &outputs);
    assert_eq!(
        steps[1],
        X11Step::Configure {
            to: rect(0, 0, 300, 300)
        }
    );
    assert!(maximize_request_x11(&mut old, None, None, &outputs).is_empty());
    assert!(unmaximize_request(false, &mut old).is_empty());
    assert_eq!(
        unmaximize_request(true, &mut old),
        vec![
            X11Step::SetMaximized { maximized: false },
            X11Step::Configure {
                to: rect(5, 6, 7, 8)
            },
            X11Step::Show {
                at: Point { x: 5, y: 6 },
                activate: false
            },
        ]
    );
    assert_eq!(
        unmaximize_request(true, &mut old),
        vec![X11Step::SetMaximized { maximized: false }]
    );
}

#[test]
fn fullscreen_there_and_back() {
    let outputs = [output(1, rect(0, 0, 300, 300))];
    let mut list = Vec::new();
    let steps = fullscreen_request(&mut list, Some(5), None, &outputs);
    assert_eq!(
        steps,
        vec![
            X11Step::SetFullscreen { fullscreen: true },
            X11Step::Undecorate,
            X11Step::Configure {
                to: rect(0, 0, 300, 300)
            },
        ]
    );
    let ended = [
        X11Step::SetFullscreen { fullscreen: false },
        X11Step::Undecorate,
    ];
    assert!(fullscreen_request(&mut list, None, None, &outputs).is_empty());
    assert!(unfullscreen_request(&mut list, None, &[5, 6]).is_empty());
    assert_eq!(unfullscreen_request(&mut list, Some(6), &[5, 6]), ended);
    assert_eq!(
        unfullscreen_request(&mut list, Some(5), &[5, 6])[2..],
        [
            X11Step::ConfigureAsShown,
            X11Step::ResetBuffers { output: 1 }
        ]
    );
    assert_eq!(list[0].surface.window, None);
    fullscreen_request(&mut list, Some(7), None, &outputs);
    assert_eq!(unfullscreen_request(&mut list, Some(6), &[6]), ended);
    assert_eq!(list[0].surface.window, None);
}

#[test]
fn moving_a_maximized_window_gives_it_its_size_back() {
    let at = Point { x: 50, y: 60 };
    let home = Point { x: 1, y: 1 };
    let mut old = OldGeometry::default();
    old.save(rect(5, 6, 7, 8));
    assert_eq!(
        move_request_x11(None, None, Some(home), true, &mut old),
        None
    );
    assert_eq!(move_request_x11(Some(at), None, None, true, &mut old), None);
    let start = move_request_x11(Some(at), None, Some(home), true, &mut old).unwrap();
    assert_eq!(start.source, MoveSource::Touch { at });
    assert_eq!(start.location, at);
    assert_eq!(start.configure, Some(rect(50, 60, 7, 8)));
    assert_eq!(old.saved, None);
    let start = move_request_x11(None, Some(at), Some(home), false, &mut old).unwrap();
    assert_eq!(start.source, MoveSource::Pointer { at });
    assert_eq!(start.location, home);
    assert!(!start.unmaximize);
    let size = Size { w: 3, h: 4 };
    assert_eq!(
        resize_request(
            ResizeState::NotResizing,
            ResizeEdge::Left,
            Some((home, size))
        ),
        ResizeState::Resizing(ResizeData {
            edges: ResizeEdge::Left,
            initial_window_location: home,
            initial_window_size: size
        })
    );
    assert_eq!(
        resize_request(ResizeState::NotResizing, ResizeEdge::Left, None),
        ResizeState::NotResizing
    );
    assert!(allow_selection_access(Some(2), 2));
    assert!(!allow_selection_access(Some(3), 2));
    assert!(!allow_selection_access(None, 2));
}

#[test]
fn requests_are_decided() {
    let token = TokenRequest {
        has_serial: true,
        own_seat: true,
        recent: true,
    };
    assert!(token_created(&token));
    assert!(!token_created(&TokenRequest {
        recent: false,
        ..token
    }));
    assert_eq!(
        request_activation(9, Some(4)),
        Some(Action::Raise { window: 4 })
    );
    assert_eq!(request_activation(10, Some(4)), None);
    assert_eq!(request_activation(9, None), None);
    assert_eq!(new_decoration().mode, DecorationMode::ClientSide);
    assert_eq!(request_mode(true, true).mode, DecorationMode::ServerSide);
    assert!(request_mode(true, true).send);
    assert_eq!(unset_mode(false).mode, DecorationMode::ClientSide);
    assert!(!unset_mode(false).send);
    let windows = [MappedWindow {
        id: 7,
        geometry: rect(3, 4, 5, 6),
    }];
    assert_eq!(parent_geometry(&windows, 7), rect(3, 4, 5, 6));
    assert_eq!(parent_geometry(&windows, 8), rect(0, 0, 0, 0));
    assert_eq!(
        cursor_hint_origin(true, &windows, 7),
        Some(Point { x: 3, y: 4 })
    );
    assert_eq!(cursor_hint_origin(false, &windows, 7), None);
    assert!(new_constraint(Some(7), 7));
    assert!(!new_constraint(None, 7));
    assert!(may_create_context(None));
    assert!(may_create_context(Some(false)));
    assert!(!may_create_context(Some(true)));
}

#[test]
fn the_backend_is_chosen_by_the_first_argument() {
    assert_eq!(select_backend(None), Some(BackendKind::Winit));
    assert_eq!(select_backend(Some("--winit")), Some(BackendKind::Winit));
    assert_eq!(select_backend(Some("--udev")), Some(BackendKind::Udev));
    assert_eq!(select_backend(Some("--x11")), None);
}

#[test]
fn windows_are_centered() {
    assert_eq!(
        center_in(rect(10, 10, 100, 50), Size { w: 20, h: 100 }),
        Point { x: 50, y: 10 }
    );
}

#[test]
fn a_window_that_is_moved_again_does_not_jump() {
    let mut anims = WindowAnimations::default();
    let easing = |eased| Easing {
        eased: half(eased),
        scale: num(1.0),
    };
    anims.push_move(9, rect(1, 1, 1, 1), 0, 500, half(0.0));
    anims.push_move(1, rect(0, 0, 100, 100), 0, 100, half(0.0));
    let place = rect(101, 40, 51, 200);
    let seen = anims.on_screen_rect(1, place, 30, easing(0.3));
    anims.push_move(1, place, 30, 100, half(0.3));
    assert_eq!(anims.anims.len(), 2);
    assert_eq!(anims.anims[0].window, 9);
    assert_eq!(anims.progress_of(1, 30), Some((0, 100)));
    for goal in [rect(0, 0, 10, 10), rect(i32::MIN / 4, 7, 1 << 28, 1)] {
        assert_eq!(anims.on_screen_rect(1, goal, 30, easing(0.0)), seen);
    }
    // Without an animation nothing changes.
    let before = anims.anims.clone();
    anims.push_move(1, rect(5, 5, 5, 5), 40, 0, half(0.1));
    assert_eq!(anims.anims, before);
}

#[test]
fn borders_go_around_windows_that_are_moving() {
    let mut desktop = Desktop::default();
    desktop.join_active(1, &[1]);
    desktop.join_active(2, &[1, 2]);
    let mut anims = WindowAnimations::default();
    anims.push_move(1, rect(0, 0, 100, 100), 0, 100, half(0.0));
    let mapped = [
        MappedWindow {
            id: 1,
            geometry: rect(100, 0, 100, 100),
        },
        MappedWindow {
            id: 2,
            geometry: rect(0, 0, 50, 100),
        },
        MappedWindow {
            id: 3,
            geometry: rect(9, 9, 9, 9),
        },
    ];
    let easing = Easing {
        eased: half(0.5),
        scale: num(1.0),
    };
    let focus = Focus::Window(1);
    let seen = windows_and_borders(&desktop, &anims, &mapped, &[easing], 800, half(0.0), focus, 50);
    assert_eq!(
        seen.animated,
        vec![AnimatedWindow {
            window: 1,
            target: rect(50, 0, 100, 100)
        }]
    );
    let border = |window| {
        let mut of_window = seen.borders.iter().filter(|b| b.window == window);
        (of_window.next().copied(), of_window.next())
    };
    let around_first = BorderRect {
        window: 1,
        geometry: rect(50, 0, 100, 100),
        focused: true,
    };
    let around_second = BorderRect {
        window: 2,
        geometry: rect(0, 0, 50, 100),
        focused: false,
    };
    assert_eq!(border(1), (Some(around_first), None));
    assert_eq!(border(2), (Some(around_second), None));
    assert_eq!(border(3), (None, None));
}

#[test]
fn an_opaque_fill_stands_behind_the_content() {
    let content = Rect::new(10, 40, 300, 200);
    assert_eq!(window_backdrop(content, false), Some((content, BG_COLOR)));
    assert_eq!(BG_COLOR, 0x414868);
    assert_eq!(window_backdrop(content, true), None);
}
