use spitfire::action::{Action, Focus};
use spitfire::desktop::{Desktop, WorkspaceSlide};
use spitfire::ext_workspace::{
    snapshot, ClientAnswer, ClientState, ExtWorkspaceState, WorkspaceEvent,
};
use spitfire::geometry::{Point, Rect, Size};
use spitfire::params::{Gaps, LayoutMode};
use spitfire::rule::WindowRule;
use spitfire::scratchpad::NamedScratchpad;
use spitfire::tiling::{floating_windows, Placement, TilingLayout, WindowFacts};
use spitfire::toplevel::{
    all_windows, toplevel_by_identifier, ToplevelEvent, ToplevelInfo, ToplevelList,
};
use spitfire::workspace::{WorkspaceId, WorkspaceSet};

fn facts(id: u64) -> WindowFacts {
    WindowFacts {
        id,
        app_id: None,
        decorated: false,
        location: None,
        force_floating: false,
    }
}

fn desktop_with(windows: &[u64]) -> Desktop {
    let mut desktop = Desktop::default();
    for w in windows {
        desktop.join_active(*w, windows);
    }
    desktop
}

fn order(desktop: &Desktop, idx: usize) -> Vec<u64> {
    desktop.workspaces.get(idx).unwrap().tiling.windows().to_vec()
}

fn info(window: u64, title: &str) -> ToplevelInfo {
    ToplevelInfo {
        window,
        title: Some(title.to_string()),
        app_id: None,
    }
}

#[test]
fn starts_with_one_workspace_named_1() {
    let ws = WorkspaceSet::default();
    assert_eq!(ws.len(), 1);
    assert_eq!(ws.active_index(), 0);
    assert_eq!(ws.active().name, "1");
}

#[test]
fn switch_to_grows_the_list_dynamically() {
    let mut ws = WorkspaceSet::default();
    assert!(ws.switch_to(4));
    assert_eq!(ws.len(), 5);
    assert_eq!(ws.active_index(), 4);
    assert_eq!(ws.get(4).unwrap().name, "5");
}

#[test]
fn switch_to_the_already_active_workspace_is_a_no_op() {
    let mut ws = WorkspaceSet::default();
    assert!(!ws.switch_to(0));
}

#[test]
fn create_appends_and_returns_its_index() {
    let mut ws = WorkspaceSet::default();
    let idx = ws.create(None);
    assert_eq!(idx, 1);
    assert_eq!(ws.len(), 2);
    assert_eq!(ws.get(1).unwrap().name, "2");
}

#[test]
fn create_with_explicit_name() {
    let mut ws = WorkspaceSet::default();
    let idx = ws.create(Some("scratch".into()));
    assert_eq!(ws.get(idx).unwrap().name, "scratch");
}

#[test]
fn cannot_remove_the_last_remaining_workspace() {
    let mut ws = WorkspaceSet::default();
    assert!(!ws.remove(0));
    assert_eq!(ws.len(), 1);
}

#[test]
fn cannot_remove_the_active_workspace() {
    let mut ws = WorkspaceSet::default();
    ws.create(None);
    assert!(!ws.remove(0));
}

#[test]
fn remove_shifts_active_index_down_when_removing_an_earlier_workspace() {
    let mut ws = WorkspaceSet::default();
    ws.create(None);
    ws.create(None);
    assert!(ws.switch_to(2));
    assert!(ws.remove(0));
    assert_eq!(ws.len(), 2);
    assert_eq!(ws.active_index(), 1);
}

#[test]
fn rename_updates_the_given_workspace_only() {
    let mut ws = WorkspaceSet::default();
    ws.create(None);
    assert!(ws.rename(1, "web".to_string()));
    assert_eq!(ws.active().name, "1");
    assert_eq!(ws.get(1).unwrap().name, "web");
}

#[test]
fn rename_out_of_bounds_returns_false() {
    let mut ws = WorkspaceSet::default();
    assert!(!ws.rename(5, "nope".to_string()));
}

#[test]
fn ids_stay_stable_across_removals_of_other_workspaces() {
    let mut ws = WorkspaceSet::default();
    ws.create(None);
    ws.create(None);
    let id_of_ws2 = ws.get(2).unwrap().id;

    assert!(ws.switch_to(2));
    assert!(ws.switch_to(0));
    assert!(ws.remove(1));

    assert_eq!(ws.index_of(id_of_ws2), Some(1));
}

#[test]
fn identities_of_removed_workspaces_are_not_given_again() {
    let mut ws = WorkspaceSet::default();
    ws.create(None);
    let gone = ws.get(1).unwrap().id;
    assert!(ws.remove(1));
    ws.create(None);
    assert_ne!(ws.get(1).unwrap().id, gone);
    assert_eq!(ws.index_of(gone), None);
}

#[test]
fn new_workspaces_get_the_configured_gaps() {
    let mut ws = WorkspaceSet::default();
    let gaps = Gaps { inner: 1, outer: 2 };
    ws.apply_gaps(gaps);
    ws.ensure(2);
    for w in ws.iter() {
        assert_eq!(w.tiling.params.gaps, gaps);
    }
}

#[test]
fn all_workspaces_can_be_changed_in_place() {
    let mut ws = WorkspaceSet::default();
    ws.active_mut().tiling.params.set_mode(LayoutMode::Monocle);
    assert_eq!(ws.active().tiling.params.mode, LayoutMode::Monocle);
    ws.get_mut(0).unwrap().tiling.params.set_mode(LayoutMode::Tile);
    assert_eq!(ws.active().tiling.params.mode, LayoutMode::Tile);
    assert!(ws.get_mut(1).is_none());
    assert!(!ws.is_empty());
}

#[test]
fn pushing_a_window_twice_lists_it_once() {
    let mut tiling = TilingLayout::default();
    tiling.push(1, &[1, 2]);
    tiling.push(2, &[1, 2]);
    tiling.push(1, &[1, 2]);
    assert_eq!(tiling.windows(), &[1, 2]);
    tiling.push(3, &[2, 3]);
    assert_eq!(tiling.windows(), &[2, 3]);
    tiling.remove(2);
    assert_eq!(tiling.windows(), &[3]);
}

#[test]
fn swapping_wraps_around_and_can_be_undone() {
    let alive = [1, 2, 3];
    let mut tiling = TilingLayout::default();
    for w in alive {
        tiling.push(w, &alive);
    }
    tiling.swap_window(3, true);
    assert_eq!(tiling.windows(), &[3, 2, 1]);
    tiling.swap_window(3, false);
    assert_eq!(tiling.windows(), &[1, 2, 3]);
    tiling.swap_window(9, true);
    assert_eq!(tiling.windows(), &[1, 2, 3]);
}

#[test]
fn arranging_places_tiled_windows_and_skips_floating_ones() {
    let alive = [1, 2, 3];
    let mut tiling = TilingLayout::default();
    for w in alive {
        tiling.push(w, &alive);
    }
    let mut live = vec![facts(1), facts(2), facts(3)];
    live[0].decorated = true;
    live[1].app_id = Some("pavucontrol".to_string());
    live[2].location = Some(Point { x: 963, y: 0 });
    let rules = vec![WindowRule {
        app_id: Some("pavucontrol".to_string()),
        floating: true,
        ..Default::default()
    }];
    tiling.params.gaps = Gaps { inner: 6, outer: 0 };
    tiling.params.mfact.bits = 0.5f64.to_bits();
    let area = Rect::new(0, 0, 1920, 1080);
    let placed = tiling.arrange(&live, &rules, &[], Some(area));
    assert_eq!(
        placed,
        vec![
            Placement {
                window: 1,
                x: 0,
                y: 0,
                w: 957,
                h: 1069,
                moved: true
            },
            Placement {
                window: 3,
                x: 963,
                y: 0,
                w: 957,
                h: 1080,
                moved: false
            },
        ]
    );
    assert!(tiling.arrange(&live, &rules, &[], None).is_empty());
    assert_eq!(floating_windows(&alive, &live, &rules, &[]), vec![2]);
    tiling.params.set_mode(LayoutMode::Floating);
    assert!(tiling.arrange(&live, &rules, &[], Some(area)).is_empty());
}

#[test]
fn windows_that_are_gone_leave_the_tiling_order() {
    let mut tiling = TilingLayout::default();
    tiling.push(1, &[1]);
    tiling.push(2, &[1, 2]);
    tiling.arrange(&[facts(2)], &[], &[], None);
    assert_eq!(tiling.windows(), &[2]);
}

#[test]
fn windows_that_a_scratchpad_waits_for_are_not_tiled() {
    let mut tiling = TilingLayout::default();
    tiling.push(1, &[1]);
    let mut live = vec![facts(1)];
    live[0].app_id = Some("scratchterm".to_string());
    let area = Rect::new(0, 0, 100, 100);
    let pending = vec!["scratchterm".to_string()];
    assert!(tiling.arrange(&live, &[], &pending, Some(area)).is_empty());
    assert_eq!(tiling.arrange(&live, &[], &[], Some(area)).len(), 1);
}

#[test]
fn focus_history_keeps_the_latest_last() {
    let mut desktop = desktop_with(&[1, 2, 3]);
    desktop.focus_changed(Focus::Window(1));
    desktop.focus_changed(Focus::Window(2));
    desktop.focus_changed(Focus::Window(1));
    desktop.focus_changed(Focus::Other);
    assert_eq!(desktop.focus_history, vec![2, 1]);
    assert_eq!(
        desktop.refocus_if_dangling(Focus::Window(1), &[2, 3]),
        Some(2)
    );
    assert_eq!(desktop.refocus_if_dangling(Focus::Window(2), &[2, 3]), None);
    assert_eq!(desktop.refocus_if_dangling(Focus::Other, &[]), None);
}

#[test]
fn arranging_the_desktop_moves_the_focus_off_closed_windows() {
    let mut desktop = desktop_with(&[1, 2]);
    desktop.focus_changed(Focus::Window(1));
    desktop.focus_changed(Focus::Window(2));
    let (placed, target) = desktop.arrange_tiling(
        &[facts(1)],
        &[],
        &[],
        true,
        Some(Rect::new(0, 0, 800, 600)),
        Focus::Window(2),
    );
    assert_eq!(placed.len(), 1);
    assert_eq!(target, Some(1));
    assert_eq!(order(&desktop, 0), vec![1]);
    let (placed, target) = desktop.arrange_tiling(&[], &[], &[], false, None, Focus::Nothing);
    assert!(placed.is_empty());
    assert_eq!(target, None);
    assert_eq!(order(&desktop, 0), vec![1]);
}

#[test]
fn switching_hides_the_other_workspaces() {
    let mut desktop = desktop_with(&[1, 2]);
    let actions = desktop.switch_workspace(2, 0, None);
    assert_eq!(
        actions,
        vec![
            Action::Unmap { window: 1 },
            Action::Unmap { window: 2 },
            Action::Arrange,
            Action::SyncWorkspaces,
        ]
    );
    assert_eq!(desktop.workspaces.len(), 3);
    assert!(desktop.switch_workspace(2, 0, None).is_empty());
}

#[test]
fn a_slide_keeps_both_workspaces_on_the_screen() {
    let mut desktop = desktop_with(&[1]);
    let actions = desktop.switch_workspace(1, 100, Some(150));
    assert_eq!(actions, vec![Action::Arrange, Action::SyncWorkspaces]);
    assert_eq!(
        desktop.slide,
        Some(WorkspaceSlide {
            from_idx: 0,
            to_idx: 1,
            start: 100,
            duration: 150
        })
    );
    assert!(desktop.finalize_workspace_slide(249).is_empty());
    assert_eq!(
        desktop.finalize_workspace_slide(250),
        vec![Action::Unmap { window: 1 }]
    );
    assert_eq!(desktop.slide, None);
}

#[test]
fn moving_a_window_leaves_the_view_in_place() {
    let mut desktop = desktop_with(&[1, 2]);
    let actions = desktop.move_window_to_workspace(2, 1, &[1, 2]);
    assert_eq!(
        actions,
        vec![
            Action::Unmap { window: 2 },
            Action::Arrange,
            Action::SyncWorkspaces
        ]
    );
    assert_eq!(order(&desktop, 0), vec![1]);
    assert_eq!(order(&desktop, 1), vec![2]);
    assert_eq!(desktop.workspaces.active_index(), 0);
    assert!(desktop.move_window_to_workspace(1, 0, &[1, 2]).is_empty());
}

#[test]
fn only_a_focused_window_is_moved_by_key() {
    let mut desktop = desktop_with(&[1, 2]);
    let moved = desktop.move_focused_window_to_workspace(Focus::Nothing, 1, &[1, 2]);
    assert!(moved.is_empty());
    assert_eq!(order(&desktop, 0), vec![1, 2]);
    let moved = desktop.move_focused_window_to_workspace(Focus::Window(1), 1, &[1, 2]);
    assert_eq!(moved.len(), 3);
    assert_eq!(order(&desktop, 0), vec![2]);
    assert_eq!(order(&desktop, 1), vec![1]);
}

#[test]
fn workspaces_can_be_changed_in_place() {
    let mut set = WorkspaceSet::default();
    set.create(None);
    for ws in set.iter_mut() {
        ws.name = format!("<{}>", ws.name);
    }
    assert_eq!(set.get(0).unwrap().name, "<1>");
    assert_eq!(set.get(1).unwrap().name, "<2>");
}

#[test]
fn focus_cycles_through_the_tiling_order() {
    let desktop = desktop_with(&[1, 2, 3]);
    let focused = |actions: Vec<Action>| match actions.last() {
        Some(Action::Focus { window }) => Some(*window),
        _ => None,
    };
    assert_eq!(
        focused(desktop.cycle_window_focus(Focus::Window(3), true)),
        Some(1)
    );
    assert_eq!(
        focused(desktop.cycle_window_focus(Focus::Window(1), false)),
        Some(3)
    );
    assert_eq!(
        focused(desktop.cycle_window_focus(Focus::Nothing, true)),
        Some(1)
    );
    assert!(Desktop::default()
        .cycle_window_focus(Focus::Nothing, true)
        .is_empty());
}

#[test]
fn closing_and_swapping_the_focused_window() {
    let mut desktop = desktop_with(&[1, 2]);
    assert_eq!(
        desktop.close_focused_window(Focus::Window(2)),
        vec![Action::Close { window: 2 }]
    );
    assert!(desktop.close_focused_window(Focus::Other).is_empty());
    desktop.swap_focused_window(Focus::Window(1), true);
    assert_eq!(order(&desktop, 0), vec![2, 1]);
}

#[test]
fn the_anonymous_scratchpad_stashes_and_brings_back() {
    let area = Some(Rect::new(0, 0, 1000, 500));
    let size = Size { w: 200, h: 100 };
    let mut desktop = desktop_with(&[1, 2]);
    let actions = desktop.toggle_scratchpad(Focus::Window(1), area, size, &[1, 2]);
    assert_eq!(actions, vec![Action::Unmap { window: 1 }]);
    assert_eq!(desktop.scratchpad, Some(1));
    assert_eq!(order(&desktop, 0), vec![2]);
    let actions = desktop.toggle_scratchpad(Focus::Window(2), area, size, &[1, 2]);
    assert_eq!(
        actions,
        vec![
            Action::Show {
                window: 1,
                at: Point { x: 400, y: 200 }
            },
            Action::Raise { window: 1 },
            Action::RaiseFloating,
            Action::Focus { window: 1 },
        ]
    );
    assert_eq!(desktop.scratchpad, None);
    assert_eq!(desktop.force_floating, vec![1]);
    assert_eq!(order(&desktop, 0), vec![2, 1]);
}

#[test]
fn a_named_scratchpad_spawns_claims_hides_and_shows() {
    let area = Some(Rect::new(0, 0, 1000, 500));
    let size = Size { w: 200, h: 100 };
    let half = Some(spitfire::binary64::Binary64 {
        bits: 0.5f64.to_bits(),
    });
    let mut desktop = Desktop::default();
    let actions =
        desktop.toggle_named_scratchpad("term", "scratchterm", half, None, area, size, &[]);
    assert_eq!(actions, vec![Action::Spawn]);
    assert_eq!(desktop.pending_app_ids(), vec!["scratchterm".to_string()]);

    let (claimed, _) =
        desktop.claim_pending_named_scratchpad(7, Some("foot"), area, size, &[7]);
    assert!(!claimed);
    let (claimed, actions) =
        desktop.claim_pending_named_scratchpad(7, Some("scratchterm"), area, size, &[7]);
    assert!(claimed);
    assert_eq!(
        actions,
        vec![
            Action::Resize {
                window: 7,
                size: Size { w: 500, h: 100 }
            },
            Action::Show {
                window: 7,
                at: Point { x: 250, y: 200 }
            },
            Action::Raise { window: 7 },
            Action::RaiseFloating,
        ]
    );
    assert!(desktop.pending_app_ids().is_empty());

    let hide = desktop.toggle_named_scratchpad("term", "scratchterm", half, None, area, size, &[7]);
    assert_eq!(hide, vec![Action::Unmap { window: 7 }]);
    assert!(matches!(
        desktop.named[0].state,
        NamedScratchpad::Hidden(7)
    ));
    let show = desktop.toggle_named_scratchpad("term", "scratchterm", half, None, area, size, &[7]);
    assert_eq!(show.last(), Some(&Action::Focus { window: 7 }));
    assert!(matches!(desktop.named[0].state, NamedScratchpad::Shown(7)));
    let again = desktop.toggle_named_scratchpad("term", "scratchterm", half, None, area, size, &[]);
    assert_eq!(again, vec![Action::Spawn]);
}

#[test]
fn removing_a_workspace_moves_its_windows() {
    let mut desktop = desktop_with(&[1, 2]);
    desktop.request_workspace_create(Some("web".to_string()));
    desktop.move_window_to_workspace(2, 1, &[1, 2]);
    let id = desktop.workspaces.get(1).unwrap().id;
    desktop.request_workspace_remove(id, &[1, 2], 0, None);
    assert_eq!(desktop.workspaces.len(), 1);
    assert_eq!(order(&desktop, 0), vec![1, 2]);
}

#[test]
fn removing_the_active_workspace_switches_first() {
    let mut desktop = desktop_with(&[1]);
    desktop.request_workspace_create(None);
    let id = desktop.workspaces.get(0).unwrap().id;
    desktop.request_workspace_remove(id, &[1], 0, None);
    assert_eq!(desktop.workspaces.len(), 1);
    assert_ne!(desktop.workspaces.active().id, id);
    assert_eq!(order(&desktop, 0), vec![1]);
}

#[test]
fn activating_an_unknown_workspace_does_nothing() {
    let mut desktop = desktop_with(&[1]);
    assert!(desktop
        .request_workspace_activate(WorkspaceId(9), 0, None)
        .is_empty());
    desktop.request_workspace_create(None);
    let id = desktop.workspaces.get(1).unwrap().id;
    desktop.request_workspace_activate(id, 0, None);
    assert_eq!(desktop.workspaces.active_index(), 1);
}

#[test]
fn all_windows_includes_hidden_and_stashed_ones() {
    let mut desktop = desktop_with(&[1, 2, 3]);
    desktop.move_window_to_workspace(2, 1, &[1, 2, 3]);
    desktop.toggle_scratchpad(Focus::Window(3), None, Size { w: 1, h: 1 }, &[1, 2, 3]);
    assert_eq!(all_windows(&desktop), vec![1, 2, 3]);
}

#[test]
fn toplevels_keep_their_entries_across_a_switch() {
    let mut desktop = desktop_with(&[1, 2]);
    let mut list = ToplevelList::default();
    let infos = vec![info(1, "a"), info(2, "b")];
    let events = list.sync_foreign_toplevels(&all_windows(&desktop), &infos);
    assert_eq!(
        events,
        vec![
            ToplevelEvent::Opened { window: 1 },
            ToplevelEvent::Opened { window: 2 }
        ]
    );
    desktop.switch_workspace(3, 0, None);
    assert!(list.sync_foreign_toplevels(&all_windows(&desktop), &infos).is_empty());
    let infos = vec![info(1, "c")];
    let events = list.sync_foreign_toplevels(&all_windows(&desktop), &infos);
    assert_eq!(
        events,
        vec![
            ToplevelEvent::Closed { window: 2 },
            ToplevelEvent::Title { window: 1 },
            ToplevelEvent::Done { window: 1 },
        ]
    );
    assert_eq!(list.entries.len(), 1);
    assert_eq!(list.entries[0].title, "c");
}

#[test]
fn toplevels_are_found_by_identifier() {
    let handles = vec![(4, "abc".to_string()), (5, "def".to_string())];
    assert_eq!(toplevel_by_identifier(&handles, "def"), Some(5));
    assert_eq!(toplevel_by_identifier(&handles, "xyz"), None);
}

#[test]
fn workspace_clients_follow_the_list() {
    let mut set = WorkspaceSet::default();
    let mut state = ExtWorkspaceState::default();
    let idx = state.bind(11);
    let shot = snapshot(&set);
    let a = WorkspaceId(0);
    assert_eq!(state.clients[idx].missing(&shot), vec![a]);
    let events = state.clients[idx].sync(&shot, true, &[]);
    assert_eq!(
        events,
        vec![
            WorkspaceEvent::Announced { id: a },
            WorkspaceEvent::Name { id: a },
            WorkspaceEvent::Coordinates { id: a, index: 0 },
            WorkspaceEvent::State {
                id: a,
                active: true
            },
            WorkspaceEvent::Done,
        ]
    );
    set.create(None);
    set.switch_to(1);
    set.remove(0);
    let b = WorkspaceId(1);
    let events = state.clients[idx].sync(&snapshot(&set), true, &[]);
    assert_eq!(
        events,
        vec![
            WorkspaceEvent::Removed { id: a },
            WorkspaceEvent::Announced { id: b },
            WorkspaceEvent::Name { id: b },
            WorkspaceEvent::Coordinates { id: b, index: 0 },
            WorkspaceEvent::State {
                id: b,
                active: true
            },
            WorkspaceEvent::Done,
        ]
    );
    state.forget(11);
    assert!(state.clients.is_empty());
}

#[test]
fn a_refused_workspace_is_tried_again_later() {
    let set = WorkspaceSet::default();
    let shot = snapshot(&set);
    let mut client = ClientState {
        manager: 1,
        workspaces: Vec::new(),
    };
    let a = WorkspaceId(0);
    assert_eq!(client.sync(&shot, true, &[a]), vec![WorkspaceEvent::Done]);
    assert_eq!(client.missing(&shot), vec![a]);
    assert!(client.sync(&shot, false, &[]).is_empty());
    assert!(client.workspaces.is_empty());
}

#[test]
fn every_workspace_client_is_brought_up_to_date() {
    let set = WorkspaceSet::default();
    let mut state = ExtWorkspaceState::default();
    state.bind(11);
    state.bind(12);
    let answers = [true, false].map(|connected| ClientAnswer {
        connected,
        refused: Vec::new(),
    });
    let events = state.sync_ext_workspace_state(&set, &answers);
    assert_eq!(events[0].len(), 5);
    assert!(events[1].is_empty());
    assert_eq!(state.clients[0].workspaces, vec![WorkspaceId(0)]);
    assert!(state.clients[1].workspaces.is_empty());
}

#[test]
fn there_is_room_for_workspaces_until_the_counter_is_full() {
    let mut set = WorkspaceSet::default();
    assert!(set.has_room_for(0) && set.has_room_for(1) && set.has_room_for(1 << 20));
    set.next_id = u64::MAX - 1;
    assert!(set.has_room_for(set.len() + 1));
    assert!(!set.has_room_for(set.len() + 2));
}

#[test]
fn workspaces_far_down_the_list_are_created() {
    let mut desktop = Desktop::default();
    desktop.switch_workspace(70_000, 0, None);
    assert_eq!(desktop.workspaces.len(), 70_001);
    assert_eq!(desktop.workspaces.active_index(), 70_000);
}

// Three workspaces with the windows 1, 2 and 3, the first one active.
fn three_workspaces() -> Desktop {
    let mut desktop = desktop_with(&[1, 2, 3]);
    desktop.move_window_to_workspace(2, 1, &[1, 2, 3]);
    desktop.move_window_to_workspace(3, 2, &[1, 2, 3]);
    desktop
}

fn remove(desktop: &mut Desktop, idx: usize, slide: Option<u64>) -> Vec<Action> {
    let id = desktop.workspaces.get(idx).unwrap().id;
    desktop.request_workspace_remove(id, &[1, 2, 3], 60, slide)
}

#[test]
fn a_slide_between_other_workspaces_outlives_a_removal() {
    let mut desktop = three_workspaces();
    desktop.switch_workspace(1, 0, None);
    desktop.switch_workspace(2, 50, Some(100));
    remove(&mut desktop, 0, Some(100));
    assert_eq!(
        desktop.slide,
        Some(WorkspaceSlide {
            from_idx: 0,
            to_idx: 1,
            start: 50,
            duration: 100
        })
    );
    assert_eq!(order(&desktop, 1), vec![3, 1]);
    assert_eq!(
        desktop.finalize_workspace_slide(150),
        vec![Action::Unmap { window: 2 }]
    );
}

#[test]
fn a_removal_behind_a_slide_leaves_its_positions() {
    let mut desktop = three_workspaces();
    desktop.switch_workspace(1, 50, Some(100));
    remove(&mut desktop, 2, Some(100));
    assert_eq!(
        desktop.slide,
        Some(WorkspaceSlide {
            from_idx: 0,
            to_idx: 1,
            start: 50,
            duration: 100
        })
    );
    assert_eq!(order(&desktop, 1), vec![2, 3]);
    assert_eq!(
        desktop.finalize_workspace_slide(150),
        vec![Action::Unmap { window: 1 }]
    );
}

#[test]
fn removing_either_end_of_a_slide_ends_it() {
    let mut desktop = three_workspaces();
    desktop.switch_workspace(1, 50, Some(100));
    remove(&mut desktop, 0, Some(100));
    assert_eq!(desktop.slide, None);
    assert_eq!(desktop.workspaces.active_index(), 0);
    assert_eq!(order(&desktop, 0), vec![2, 1]);
    assert!(desktop.finalize_workspace_slide(150).is_empty());

    let mut desktop = three_workspaces();
    desktop.switch_workspace(2, 50, Some(100));
    remove(&mut desktop, 2, Some(100));
    assert_eq!(desktop.slide, None);
    assert_eq!(desktop.workspaces.active_index(), 0);
    assert_eq!(order(&desktop, 0), vec![1, 3]);
    assert_eq!(order(&desktop, 1), vec![2]);
}
