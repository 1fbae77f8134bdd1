use spitfire::action::Focus;
use spitfire::blur::{blur_backdrops, blur_one, sync_blur_flags, BlurBackdrop, BlurTarget};
use spitfire::border::{
    border_elements, border_rects, corner_tile, effective_radius, BorderPiece, BorderRect, Corner,
    CornerMaskCache, MappedWindow, MaskKey,
};
use spitfire::capture;
use spitfire::capture::{
    announced_buffer, capture_one, capture_output, capture_region, check_buffer, copy_image,
    render_and_copy, reported_damage, split_seconds, CaptureEvent, ScreencopyState, ClientBuffer,
    CopyError, CopyStep, FrameInfo,
};
use spitfire::capture_session;
use spitfire::capture_session::{
    buffer_constraints, capture_size, create_session, CaptureSource, FrameData, FrameReply,
    FrameRequest, SessionData, SessionEvent, SessionLink, ExtScreencopyState,
};
use spitfire::color::hex_to_rgb;
use spitfire::frame::{age_with_backdrops, FrameLoop, FrameResult, Housekeeping};
use spitfire::geometry::{Point, Rect, Size};
use spitfire::repaint::{
    frame_roots, post_repaint, pre_repaint, take_presentation_feedback,
    update_primary_scanout_output, FrameRoot, FrameStep, FrameTree, SurfaceFacts,
};
use spitfire::rule::{RuleEntry, WindowRule};
use spitfire::scene::{
    blur_windows_for_output, grid_for, hidden_windows, output_elements, overlays, preview_cell,
    space_preview_elements, Backdrop, Overlay, Purpose, SceneItem, SceneState, SceneWindow,
};
use spitfire::shell::{CursorImage, DndIcon, SpitfireState};
use spitfire::tiling::WindowFacts;

// What a frame that changed something reports.
const CHANGED: [Rect; 1] = [Rect { x: 0, y: 0, w: 1, h: 1 }];

fn facts(id: u64, app_id: &str) -> WindowFacts {
    WindowFacts {
        id,
        app_id: Some(app_id.to_string()),
        decorated: false,
        location: None,
        force_floating: false,
    }
}

fn scene() -> SceneState {
    SceneState {
        locked: false,
        fullscreen: None,
        show_previews: false,
        origin: Point { x: 0, y: 0 },
        windows: vec![
            SceneWindow {
                id: 1,
                location: Some(Point { x: 10, y: 20 }),
                content: Point { x: 0, y: 0 },
            },
            SceneWindow {
                id: 2,
                location: Some(Point { x: 30, y: 40 }),
                content: Point { x: 5, y: 5 },
            },
        ],
        bordered: vec![1],
        border_width: 0,
        animated: Vec::new(),
        hidden: Vec::new(),
        blurred: Vec::new(),
    }
}

#[test]
fn borders_are_strips_around_the_window() {
    let borders = [BorderRect {
        window: 1,
        geometry: Rect::new(10, 10, 100, 50),
        focused: true,
    }];
    let strip = |x, y, w, h| BorderPiece::Strip {
        rect: Rect::new(x, y, w, h),
        focused: true,
    };
    assert_eq!(
        border_elements(&borders, 2, 0),
        vec![
            strip(8, 8, 104, 2),
            strip(8, 60, 104, 2),
            strip(8, 10, 2, 50),
            strip(110, 10, 2, 50),
        ]
    );
    assert!(border_elements(&borders, 0, 5).is_empty());
}

#[test]
fn rounded_borders_have_corner_masks_in_front() {
    let borders = [BorderRect {
        window: 1,
        geometry: Rect::new(10, 10, 100, 50),
        focused: false,
    }];
    let pieces = border_elements(&borders, 2, 8);
    assert_eq!(pieces.len(), 8);
    assert_eq!(
        pieces[0],
        BorderPiece::Mask {
            corner: Corner::TopLeft,
            at: Point { x: 8, y: 8 },
            focused: false
        }
    );
    assert_eq!(effective_radius(&borders, 400), 25);
    assert_eq!(effective_radius(&[], 400), 0);
    assert_eq!(corner_tile(8, 2), 10);
    assert_eq!(Corner::BottomRight.flips(), (true, true));
    assert_eq!(Corner::TopLeft.flips(), (false, false));
}

#[test]
fn corner_masks_are_made_again_only_when_needed() {
    let key = MaskKey {
        radius: 8,
        width: 2,
        active: hex_to_rgb(0x7aa2f7),
        inactive: hex_to_rgb(0x414868),
    };
    let mut cache = CornerMaskCache::default();
    assert!(cache.ensure(key));
    assert!(!cache.ensure(key));
    assert!(cache.ensure(MaskKey { radius: 9, ..key }));
}

#[test]
fn only_windows_on_the_screen_have_borders() {
    let mapped = [MappedWindow {
        id: 2,
        geometry: Rect::new(0, 0, 5, 5),
    }];
    assert_eq!(
        border_rects(&[1, 2], &mapped, Focus::Window(2)),
        vec![BorderRect {
            window: 2,
            geometry: Rect::new(0, 0, 5, 5),
            focused: true
        }]
    );
}

#[test]
fn a_locked_scene_shows_only_the_lock() {
    let state = SceneState {
        locked: true,
        fullscreen: Some(1),
        ..scene()
    };
    assert_eq!(
        output_elements(&state),
        (
            vec![SceneItem::Custom, SceneItem::Lock],
            Backdrop::Locked
        )
    );
}

#[test]
fn a_fullscreen_window_covers_everything() {
    let state = SceneState {
        fullscreen: Some(1),
        ..scene()
    };
    assert_eq!(
        output_elements(&state),
        (
            vec![SceneItem::Custom, SceneItem::Fullscreen { window: 1 }],
            Backdrop::Fullscreen
        )
    );
    let hidden = SceneState {
        fullscreen: Some(1),
        hidden: vec![1],
        ..scene()
    };
    assert_eq!(output_elements(&hidden).0, vec![SceneItem::Custom]);
}

#[test]
fn an_idle_scene_is_drawn_as_it_is_stacked() {
    assert_eq!(
        output_elements(&scene()),
        (
            vec![SceneItem::Custom, SceneItem::Stacked],
            Backdrop::Desktop
        )
    );
}

#[test]
fn windows_are_drawn_between_the_layers_each_with_its_border() {
    let state = SceneState {
        border_width: 2,
        animated: vec![1],
        blurred: vec![2],
        ..scene()
    };
    assert_eq!(
        output_elements(&state).0,
        vec![
            SceneItem::Custom,
            SceneItem::UpperLayers,
            SceneItem::Window {
                window: 2,
                at: Point { x: 25, y: 35 }
            },
            SceneItem::Blur { window: 2 },
            SceneItem::Border { window: 1 },
            SceneItem::Animated { window: 1 },
            SceneItem::LowerLayers,
        ]
    );
}

#[test]
fn rules_hide_and_blur_windows() {
    let live = [facts(1, "keepass"), facts(2, "foot")];
    let rules = [WindowRule {
        app_id: Some("keepass".to_string()),
        hide_from_capture: true,
        ..Default::default()
    }];
    assert_eq!(hidden_windows(&live, &rules), vec![1]);
    let entries = [RuleEntry {
        rule: WindowRule {
            app_id: Some("foot".to_string()),
            ..Default::default()
        },
        blur: true,
        workspace: None,
    }];
    assert_eq!(blur_windows_for_output(&live, &entries, false), vec![2]);
    assert!(blur_windows_for_output(&live, &entries, true).is_empty());
    assert_eq!(sync_blur_flags(&[1, 2], &[2]), vec![false, true]);
}

#[test]
fn previews_form_a_grid() {
    assert_eq!(grid_for(3), (3, 1));
    assert_eq!(grid_for(9), (4, 3));
    assert_eq!(
        preview_cell(5, 4, Size { w: 100, h: 50 }),
        Rect::new(120, 70, 100, 50)
    );
    let cells = space_preview_elements(6, Size { w: 100, h: 50 });
    assert_eq!(cells.len(), 6);
    assert_eq!(cells[0], Rect::new(10, 10, 100, 50));
    assert_eq!(cells[5], Rect::new(120, 70, 100, 50));
    assert!(space_preview_elements(0, Size { w: 100, h: 50 }).is_empty());
}

#[test]
fn captures_of_regions_are_clipped() {
    let mode = Some(Size { w: 100, h: 100 });
    assert_eq!(
        capture_output(Some(1), mode),
        capture::FrameData::Pending(FrameInfo {
            output: 1,
            buffer_size: Size { w: 100, h: 100 },
            region_loc: Point { x: 0, y: 0 }
        })
    );
    assert_eq!(capture_output(None, mode), capture::FrameData::Failed);
    let frame = capture_region(
        Size { w: 50, h: 50 },
        Some(1),
        mode,
        Rect::new(80, 90, 50, 50),
    );
    let capture::FrameData::Pending(info) = frame else {
        panic!("nothing to capture");
    };
    assert_eq!(info.buffer_size, Size { w: 20, h: 10 });
    assert_eq!(info.region_loc, Point { x: 80, y: 90 });
    assert_eq!(announced_buffer(info), (20, 10, 80));
    assert_eq!(
        capture_region(
            Size { w: 0, h: 5 },
            Some(1),
            mode,
            Rect::new(0, 0, 5, 5)
        ),
        capture::FrameData::Failed
    );
    assert_eq!(split_seconds(0x1_0000_0002), (1, 2));
}

#[test]
fn a_copy_with_damage_waits_for_a_change() {
    let info = capture_output(Some(1), Some(Size { w: 100, h: 100 }));
    let mut queue = ScreencopyState::default();
    assert_eq!(queue.request_copy(7, capture::FrameData::Failed, 3, false), CopyStep::Ignored);
    assert_eq!(queue.request_copy(7, info, 3, true), CopyStep::Queued);
    assert_eq!(queue.request_copy(7, info, 3, true), CopyStep::AlreadyUsed);
    assert_eq!(queue.request_copy(8, info, 4, false), CopyStep::Queued);
    assert!(queue.service_pending_captures(2, Some(&CHANGED)).is_empty());
    let ready = queue.service_pending_captures(1, None);
    assert_eq!(ready.len(), 1);
    assert_eq!(ready[0].frame, 8);
    assert!(reported_damage(ready[0], &[Rect::new(0, 0, 5, 5)]).is_empty());
    assert!(queue.service_pending_captures(1, Some(&[])).is_empty());
    let ready = queue.service_pending_captures(1, Some(&CHANGED));
    assert_eq!(ready[0].frame, 7);
    assert_eq!(
        reported_damage(ready[0], &[Rect::new(90, 90, 50, 50)]),
        vec![Rect::new(90, 90, 10, 10)]
    );
    queue.request_copy(9, info, 3, true);
    queue.frame_destroyed(9);
    assert!(queue.pending.is_empty());
}

#[test]
fn buffers_are_checked_before_they_are_filled() {
    let good = ClientBuffer {
        argb: true,
        width: 10,
        height: 2,
        stride: 40,
        len: 80,
    };
    let size = Size { w: 10, h: 2 };
    assert_eq!(check_buffer(good, size, 80), Ok(()));
    assert_eq!(
        check_buffer(good, size, 79),
        Err(CopyError::SizeMismatch)
    );
    assert_eq!(
        check_buffer(ClientBuffer { argb: false, ..good }, size, 80),
        Err(CopyError::BufferMismatch)
    );
    assert_eq!(
        check_buffer(ClientBuffer { stride: 44, ..good }, size, 80),
        Err(CopyError::BufferMismatch)
    );
}

#[test]
fn a_session_frame_is_captured_once() {
    let (session, stopped) = create_session(Some(CaptureSource::Output(1)), true);
    assert!(!stopped);
    let mut queue = ExtScreencopyState::default();
    let mut link = SessionLink::Live(session);
    let mut frame = FrameData::default();
    let mut ask = |queue: &mut ExtScreencopyState, frame: &mut FrameData, r| queue.request(5, frame, &mut link, r);
    assert_eq!(
        ask(&mut queue, &mut frame, FrameRequest::Capture),
        FrameReply::NoBuffer
    );
    assert_eq!(
        ask(
            &mut queue,
            &mut frame,
            FrameRequest::DamageBuffer {
                rect: Rect::new(-1, 0, 1, 1)
            }
        ),
        FrameReply::InvalidDamage
    );
    assert_eq!(
        ask(
            &mut queue,
            &mut frame,
            FrameRequest::AttachBuffer { buffer: 9 }
        ),
        FrameReply::Nothing
    );
    assert_eq!(
        ask(&mut queue, &mut frame, FrameRequest::Capture),
        FrameReply::Nothing
    );
    assert_eq!(
        ask(&mut queue, &mut frame, FrameRequest::Capture),
        FrameReply::AlreadyCaptured
    );
    let ready = queue.service_pending_captures(1, None);
    assert_eq!(ready.len(), 1);
    assert!(!ready[0].wants_damage && ready[0].paint_cursors);
    let mut second = FrameData {
        buffer: Some(9),
        captured: false,
    };
    ask(&mut queue, &mut second, FrameRequest::Capture);
    assert!(queue.service_pending_captures(1, None).is_empty());
    assert!(queue.service_pending_captures(1, Some(&[])).is_empty());
    assert_eq!(queue.service_pending_captures(1, Some(&CHANGED)).len(), 1);
}

#[test]
fn sessions_that_are_gone_stop_their_frames() {
    let mut queue = ExtScreencopyState::default();
    let buffer = FrameData {
        buffer: Some(9),
        captured: false,
    };
    let mut frame = buffer;
    let reply = queue.request(1, &mut frame, &mut SessionLink::Gone, FrameRequest::Capture);
    assert_eq!(reply, FrameReply::Stopped);
    let mut frame = buffer;
    let reply = queue.request(
        1,
        &mut frame,
        &mut SessionLink::Unknown,
        FrameRequest::Capture,
    );
    assert_eq!(reply, FrameReply::Failed);
    let (session, stopped) = create_session(None, false);
    assert!(stopped);
    assert_eq!(
        session,
        SessionData {
            source: None,
            paint_cursors: false,
            captured_once: false
        }
    );
    queue.frame_destroyed(1);
    assert!(queue.pending.is_empty());
    let size = Size { w: 30, h: 20 };
    assert_eq!(
        buffer_constraints(CaptureSource::Toplevel(4), None, true, size),
        Some(size)
    );
    assert_eq!(
        buffer_constraints(CaptureSource::Toplevel(4), None, false, size),
        None
    );
}

#[test]
fn backdrops_are_clipped_to_the_screen() {
    let bounds = Size { w: 100, h: 100 };
    let targets = [
        BlurTarget {
            window: 1,
            alive: true,
            rect: Some(Rect::new(-10, 50, 60, 60)),
        },
        BlurTarget {
            window: 2,
            alive: false,
            rect: Some(Rect::new(0, 0, 5, 5)),
        },
        BlurTarget {
            window: 3,
            alive: true,
            rect: None,
        },
        BlurTarget {
            window: 4,
            alive: true,
            rect: Some(Rect::new(200, 0, 5, 5)),
        },
    ];
    let job = BlurBackdrop {
        window: 1,
        area: Rect::new(0, 50, 50, 50),
    };
    assert_eq!(blur_backdrops(&targets, bounds, 8), vec![job]);
    assert!(blur_backdrops(&targets, bounds, 0).is_empty());
    let (across, down) = blur_one(job.area, bounds);
    assert!(across.horizontal && !down.horizontal);
    assert_eq!(across.source, job.area);
    assert_eq!(across.span, 100);
    assert_eq!(down.source, Rect::new(0, 0, 50, 50));
    assert_eq!(down.span, 50);
}

#[test]
fn the_frame_loop_draws_from_scratch_after_a_reset() {
    let mut frames = FrameLoop::default();
    assert_eq!(frames.begin_frame(Some(2)), 2);
    assert_eq!(frames.begin_frame(None), 0);
    frames.reset_buffers();
    assert_eq!(frames.begin_frame(Some(2)), 0);
    assert_eq!(frames.begin_frame(Some(2)), 0);
    assert_eq!(frames.begin_frame(Some(2)), 0);
    assert_eq!(frames.begin_frame(Some(2)), 2);
    assert_eq!(age_with_backdrops(2, 1), 0);
    assert_eq!(age_with_backdrops(2, 0), 2);
}

#[test]
fn the_frame_loop_ends_when_it_has_to() {
    let mut frames = FrameLoop::default();
    let outcome = frames.end_frame(FrameResult::Drawn { damage: true });
    assert!(outcome.submit && outcome.present && outcome.post_repaint);
    let outcome = frames.end_frame(FrameResult::Drawn { damage: false });
    assert!(!outcome.submit && !outcome.present && outcome.post_repaint);
    let outcome = frames.end_frame(FrameResult::Failed);
    assert!(!outcome.post_repaint && frames.running);
    assert_eq!(frames.between_frames(true)[0], Housekeeping::ArrangeTiling);
    assert_eq!(frames.between_frames(true).len(), 5);
    frames.events_dispatched(false);
    assert!(frames.running);
    frames.end_frame(FrameResult::ContextLost);
    assert!(!frames.running);
    let mut other = FrameLoop::default();
    assert!(other.between_frames(false).is_empty());
    assert!(!other.running);
    let mut third = FrameLoop::default();
    third.events_dispatched(true);
    assert!(!third.running);
}

fn surface(id: u64, client: u64, primary: Option<u64>) -> SurfaceFacts {
    SurfaceFacts {
        surface: id,
        client,
        primary,
        barrier: true,
        timer: id == 1,
    }
}

#[test]
fn everything_on_the_screen_takes_part_in_a_frame() {
    let mut shell = SpitfireState::default();
    shell.lock();
    shell.new_lock_surface(40, None);
    shell.cursor = CursorImage::Surface {
        surface: 20,
        hotspot: Point { x: 0, y: 0 },
    };
    shell.dnd_icon = Some(DndIcon {
        surface: 30,
        offset: Point { x: 0, y: 0 },
    });
    assert_eq!(
        frame_roots(&shell, &[1], &[10]),
        vec![
            FrameRoot::Window { window: 1 },
            FrameRoot::Layer { surface: 10 },
            FrameRoot::Cursor { surface: 20 },
            FrameRoot::Icon { surface: 30 },
            FrameRoot::Lock { surface: 40 },
        ]
    );
    shell.unlock();
    assert_eq!(frame_roots(&shell, &[], &[]).len(), 2);
}

#[test]
fn clients_are_told_about_frames() {
    let trees = vec![
        FrameTree {
            root: FrameRoot::Window { window: 1 },
            on_output: true,
            surfaces: vec![surface(1, 100, Some(7)), surface(2, 100, Some(8))],
        },
        FrameTree {
            root: FrameRoot::Window { window: 2 },
            on_output: false,
            surfaces: Vec::new(),
        },
        FrameTree {
            root: FrameRoot::Lock { surface: 5 },
            on_output: false,
            surfaces: vec![surface(5, 101, None)],
        },
    ];
    let (steps, clients) = pre_repaint(&trees);
    assert_eq!(steps, vec![FrameStep::SignalTimer { surface: 1 }]);
    assert_eq!(clients, vec![100]);
    let (steps, clients) = post_repaint(&trees, 7, false);
    assert_eq!(
        steps,
        vec![
            FrameStep::PreferScale {
                surface: 1,
                output: 7
            },
            FrameStep::Signal { surface: 1 },
            FrameStep::PreferScale {
                surface: 2,
                output: 8
            },
            FrameStep::SendFrame {
                root: FrameRoot::Window { window: 1 }
            },
            FrameStep::Signal { surface: 5 },
            FrameStep::SendFrame {
                root: FrameRoot::Lock { surface: 5 }
            },
        ]
    );
    assert_eq!(clients, vec![100, 101]);
    let (steps, _) = post_repaint(&trees, 7, true);
    assert!(steps.contains(&FrameStep::SendFeedback {
        root: FrameRoot::Lock { surface: 5 }
    }));
    assert_eq!(
        take_presentation_feedback(&trees),
        vec![
            FrameRoot::Window { window: 1 },
            FrameRoot::Lock { surface: 5 }
        ]
    );
    assert_eq!(update_primary_scanout_output(&trees), vec![1, 2, 5]);
}

#[test]
fn captures_show_settled_windows_and_no_bar() {
    let live = [facts(1, "keepass"), facts(2, "foot")];
    let rules = [WindowRule {
        app_id: Some("keepass".to_string()),
        hide_from_capture: true,
        ..Default::default()
    }];
    let busy = || SceneState {
        show_previews: true,
        border_width: 2,
        animated: vec![2],
        blurred: vec![2],
        ..scene()
    };
    assert_eq!(
        output_elements(&busy().captured(&live, &rules)).0,
        vec![
            SceneItem::Custom,
            SceneItem::UpperLayers,
            SceneItem::Window {
                window: 2,
                at: Point { x: 25, y: 35 }
            },
            SceneItem::LowerLayers,
        ]
    );
    assert_eq!(
        output_elements(&busy().behind_blurred()).0,
        vec![
            SceneItem::Custom,
            SceneItem::UpperLayers,
            SceneItem::Border { window: 1 },
            SceneItem::Window {
                window: 1,
                at: Point { x: 10, y: 20 }
            },
            SceneItem::LowerLayers,
        ]
    );
    assert_eq!(
        overlays(Purpose::Screen, false),
        vec![Overlay::Cursor, Overlay::Bar]
    );
    assert_eq!(overlays(Purpose::Screen, true), vec![Overlay::Cursor]);
    let painted = Purpose::Capture { paint_cursor: true };
    assert_eq!(overlays(painted, false), vec![Overlay::Cursor]);
    let bare = Purpose::Capture {
        paint_cursor: false,
    };
    assert!(overlays(bare, false).is_empty());
    assert!(overlays(Purpose::Backdrop, false).is_empty());
}

#[test]
fn an_image_is_handed_over_or_the_reason_told() {
    let size = Size { w: 10, h: 2 };
    let buffer = Some(ClientBuffer {
        argb: true,
        width: 10,
        height: 2,
        stride: 40,
        len: 80,
    });
    assert_eq!(render_and_copy(true, Some(80), buffer, size), Ok(()));
    assert_eq!(
        render_and_copy(false, Some(80), buffer, size),
        Err(CopyError::OutputOff)
    );
    assert_eq!(
        render_and_copy(true, None, buffer, size),
        Err(CopyError::NotDrawn)
    );
    assert_eq!(
        render_and_copy(true, Some(80), None, size),
        Err(CopyError::NotShared)
    );
    assert_eq!(
        render_and_copy(true, Some(8), buffer, size),
        Err(CopyError::SizeMismatch)
    );
    let mut contents = [0u8; 3];
    copy_image(&mut contents, &[1, 2, 3]);
    assert_eq!(contents, [1, 2, 3]);
}

#[test]
fn captures_are_answered() {
    let info = capture_output(Some(1), Some(Size { w: 100, h: 100 }));
    let mut queue = ScreencopyState::default();
    queue.request_copy(7, info, 3, true);
    let pending = queue.service_pending_captures(1, Some(&CHANGED))[0];
    let damage = [Rect::new(90, 90, 50, 50), Rect::new(200, 0, 1, 1)];
    assert_eq!(
        capture_one(pending, true, Ok(()), &damage, 0x1_0000_0002, 9),
        vec![
            CaptureEvent::Flags,
            CaptureEvent::Damage {
                rect: Rect::new(90, 90, 10, 10)
            },
            CaptureEvent::Ready {
                high: 1,
                low: 2,
                nanos: 9
            },
        ]
    );
    assert_eq!(
        capture_one(pending, true, Err(CopyError::NotDrawn), &damage, 5, 0),
        vec![CaptureEvent::Failed]
    );
    assert!(capture_one(pending, false, Ok(()), &damage, 5, 0).is_empty());
}

#[test]
fn captures_of_sessions_are_answered() {
    let mut queue = ExtScreencopyState::default();
    let (session, _) = create_session(Some(CaptureSource::Toplevel(4)), true);
    let mut frame = FrameData {
        buffer: Some(9),
        captured: false,
    };
    let mut link = SessionLink::Live(session);
    queue.request(5, &mut frame, &mut link, FrameRequest::Capture);
    let pending = queue.service_pending_captures(1, None)[0];
    let size = Size { w: 30, h: 20 };
    assert_eq!(
        capture_size(pending.source, None, true, size),
        Some(size)
    );
    let flat = Size { w: 30, h: 0 };
    assert_eq!(capture_size(pending.source, None, true, flat), None);
    assert_eq!(capture_size(pending.source, None, false, size), None);
    assert_eq!(
        capture_session::capture_one(pending, true, Some(size), Ok(()), &[], 5, 6),
        vec![
            SessionEvent::Transform,
            SessionEvent::Damage {
                rect: Rect::new(0, 0, 30, 20)
            },
            SessionEvent::PresentationTime {
                high: 0,
                low: 5,
                nanos: 6
            },
            SessionEvent::Ready,
        ]
    );
    assert_eq!(
        capture_session::capture_one(pending, true, None, Ok(()), &[], 5, 6),
        vec![SessionEvent::Failed]
    );
    let refused = Err(CopyError::BufferMismatch);
    assert_eq!(
        capture_session::capture_one(pending, true, Some(size), refused, &[], 5, 6),
        vec![SessionEvent::Failed]
    );
}

#[test]
fn a_locked_scene_does_not_care_where_windows_are() {
    let far = SceneWindow {
        id: 1,
        location: Some(Point { x: i32::MIN, y: i32::MAX }),
        content: Point { x: 1, y: -1 },
    };
    let state = SceneState {
        locked: true,
        border_width: 2,
        windows: vec![far],
        ..scene()
    };
    assert_eq!(output_elements(&state).0, vec![SceneItem::Custom, SceneItem::Lock]);
    // Nor does a scene in which an animation has the window.
    let state = SceneState {
        border_width: 2,
        windows: vec![far],
        bordered: Vec::new(),
        animated: vec![1],
        ..scene()
    };
    assert!(output_elements(&state).0.contains(&SceneItem::Animated { window: 1 }));
}
