use komorebi::classification::ClassificationRules;
use komorebi::classification::RegexCache;
use komorebi::classification::WindowManagerEvent;
use komorebi::classification::WindowProbe;
use komorebi::rect::Rect;
use komorebi::styles::ExtendedWindowStyle;
use komorebi::styles::WindowStyle;
use komorebi::styles::WS_CAPTION;
use komorebi::styles::WS_EX_WINDOWEDGE;
use komorebi::window::HidingBehaviour;
use komorebi::window::OsAction;
use komorebi::window::Window;
use komorebi::window::WindowDetails;
use komorebi::window::WindowInfo;
use komorebi::window::WindowState;
use komorebi::workspace::Workspace;
use komorebi::WmError;

fn window(hwnd: isize) -> Window {
    Window { hwnd }
}

fn workspace_with_windows(hwnds: &[isize]) -> Workspace {
    let mut ws = Workspace::new();
    for &h in hwnds {
        ws.new_container_for_window(window(h), false, None, false);
    }
    ws
}

#[test]
fn workspace_hide_walks_floating_then_containers_then_monocle() {
    let mut ws = workspace_with_windows(&[1, 2]);
    let mut state = WindowState::new();
    ws.focus_container(1);
    ws.float_focused_window(&mut state, HidingBehaviour::Hide).unwrap();
    let mut fresh = WindowState::new();
    let actions = ws.hide_windows(&mut fresh, HidingBehaviour::Hide, None);
    assert_eq!(actions, vec![OsAction::Hide(2), OsAction::Hide(1)]);
    let mut omitting = WindowState::new();
    let omitted = ws.hide_windows(&mut omitting, HidingBehaviour::Hide, Some(1));
    assert_eq!(omitted, vec![OsAction::Hide(2)]);
}

#[test]
fn workspace_restore_restores_containers_and_floating() {
    let mut ws = workspace_with_windows(&[1, 2]);
    let mut state = WindowState::new();
    ws.focus_container(1);
    ws.float_focused_window(&mut state, HidingBehaviour::Hide).unwrap();
    let actions = ws.restore(&mut state, HidingBehaviour::Hide, false);
    assert_eq!(actions, vec![OsAction::Restore(1), OsAction::Restore(2)]);
}

#[test]
fn workspace_restore_prefers_programmatically_maximized() {
    let ws = workspace_with_windows(&[1, 2]);
    let mut state = WindowState::new();
    window(2).maximize(&mut state);
    let actions = ws.restore(&mut state, HidingBehaviour::Hide, true);
    assert_eq!(
        actions,
        vec![
            OsAction::Maximize(2),
            OsAction::RaiseNoTopmost(2),
            OsAction::Focus { hwnd: 2, mouse_follows_focus: true },
        ]
    );
}

#[test]
fn maximize_focused_window_hides_the_rest() {
    let ws = workspace_with_windows(&[1, 2]);
    let mut state = WindowState::new();
    let actions = ws
        .maximize_focused_window(&mut state, HidingBehaviour::Hide, None)
        .unwrap();
    assert_eq!(
        actions,
        vec![
            OsAction::Maximize(2),
            OsAction::RaiseNoTopmost(2),
            OsAction::Hide(1),
        ]
    );
    assert_eq!(state.maximized, vec![2]);
    let empty = Workspace::new();
    assert_eq!(
        empty.maximize_focused_window(&mut state, HidingBehaviour::Hide, None),
        Err(WmError::NoWindow)
    );
}

#[test]
fn unmaximize_focused_window_unmaximizes_then_restores() {
    let ws = workspace_with_windows(&[1]);
    let mut state = WindowState::new();
    window(1).maximize(&mut state);
    let actions = ws
        .unmaximize_focused_window(&mut state, HidingBehaviour::Hide, None, false)
        .unwrap();
    assert_eq!(
        actions,
        vec![
            OsAction::Unmaximize(1),
            OsAction::Delay(35),
            OsAction::Restore(1),
        ]
    );
    assert!(state.maximized.is_empty());
}

#[test]
fn focused_window_prefers_floating_then_monocle() {
    let mut ws = workspace_with_windows(&[1, 2, 3]);
    let mut state = WindowState::new();
    ws.focus_container(2);
    ws.float_focused_window(&mut state, HidingBehaviour::Hide).unwrap();
    // The foreground is the floating window.
    assert_eq!(ws.focused_window(Some(3)).map(|w| w.hwnd), Some(3));
    // The pruned source container left the cursor dangling, so there is
    // no focused window for an unknown foreground until focus is repaired.
    assert!(ws.focused_window(Some(99)).is_none());
    ws.focus_container(1);
    assert_eq!(ws.focused_window(Some(99)).map(|w| w.hwnd), Some(2));
    ws.focus_container(0);
    ws.new_monocle_container(&mut state, HidingBehaviour::Hide).unwrap();
    assert_eq!(ws.focused_window(None).map(|w| w.hwnd), Some(1));
}

#[test]
fn focused_floating_window_takes_last_match() {
    let mut ws = workspace_with_windows(&[1]);
    let mut state = WindowState::new();
    ws.float_focused_window(&mut state, HidingBehaviour::Hide).unwrap();
    assert_eq!(ws.focused_floating_window(Some(1)).map(|w| w.hwnd), Some(1));
    assert!(ws.focused_floating_window(Some(2)).is_none());
    assert!(ws.focused_floating_window(None).is_none());
}

#[test]
fn get_window_to_be_maximized_scans_in_priority_order() {
    let mut ws = workspace_with_windows(&[1, 2]);
    let mut state = WindowState::new();
    assert!(ws.get_window_to_be_maximized(&state).is_none());
    window(1).maximize(&mut state);
    window(2).maximize(&mut state);
    // Tiled windows are found last; both are maximized, the first
    // container wins.
    assert_eq!(ws.get_window_to_be_maximized(&state).map(|w| w.hwnd), Some(1));
    ws.focus_container(1);
    ws.float_focused_window(&mut state, HidingBehaviour::Hide).unwrap();
    // A floating maximized window wins over a tiled one.
    assert_eq!(ws.get_window_to_be_maximized(&state).map(|w| w.hwnd), Some(2));
}

#[test]
fn visible_window_details_follow_the_table() {
    let ws = workspace_with_windows(&[1, 2]);
    let details = vec![(2isize, WindowDetails {
        title: String::from("wezterm"),
        exe: String::from("wezterm.exe"),
        class: String::from("org.wezfurlong.wezterm"),
    })];
    let visible = ws.visible_window_details(&details);
    assert_eq!(visible.len(), 1);
    assert_eq!(visible[0].exe, "wezterm.exe");
}

#[test]
fn layout_request_is_none_without_tiling_work() {
    let work_area = Rect { left: 0, top: 0, right: 1000, bottom: 800 };
    let empty = Workspace::new();
    assert!(empty.layout_request(&work_area, None, true).is_none());
    let mut ws = workspace_with_windows(&[1]);
    assert!(ws.layout_request(&work_area, None, false).is_none());
    ws.set_tile(false);
    assert!(ws.layout_request(&work_area, None, true).is_none());
    ws.set_tile(true);
    let request = ws.layout_request(&work_area, None, true).unwrap();
    assert_eq!(request.container_count, 1);
    // Offset plus default workspace padding.
    let offset = Rect { left: 10, top: 20, right: 30, bottom: 40 };
    let with_offset = ws.layout_request(&work_area, Some(offset), true).unwrap();
    assert_eq!(
        with_offset.area,
        Rect { left: 20, top: 30, right: 950, bottom: 740 }
    );
}

#[test]
fn container_for_window_finds_owner() {
    let ws = workspace_with_windows(&[1, 2]);
    let c = ws.container_for_window(2).unwrap();
    assert_eq!(c.windows()[0].hwnd, 2);
    assert!(ws.container_for_window(9).is_none());
}

#[test]
fn get_container_by_category_finds_first() {
    let mut ws = Workspace::new();
    ws.new_container_for_window(window(1), true, Some(String::from("term")), false);
    ws.new_container_for_window(window(2), true, Some(String::from("web")), false);
    assert!(ws.get_container_by_category("term").is_some());
    assert!(ws.get_container_by_category("mail").is_none());
}

#[test]
fn should_manage_follows_event_and_probe() {
    let rules = ClassificationRules::new();
    let cache = RegexCache::new();
    let w = window(5);
    let probe = WindowProbe {
        title_ok: true,
        cloaked: Some(false),
        attrs: Some(WindowInfo {
            title: String::from("t"),
            exe: String::from("e.exe"),
            class: String::from("c"),
            path: String::from("p"),
        }),
        style: Some(WindowStyle { bits: WS_CAPTION }),
        ex_style: Some(ExtendedWindowStyle { bits: WS_EX_WINDOWEDGE }),
    };
    assert_eq!(w.should_manage(None, &probe, &rules, &cache), Ok(true));
    // Display changes always manage.
    let broken = WindowProbe { title_ok: false, cloaked: None, attrs: None, style: None, ex_style: None };
    assert_eq!(
        w.should_manage(Some(WindowManagerEvent::DisplayChange), &broken, &rules, &cache),
        Ok(true)
    );
    // No readable title: not managed.
    assert_eq!(w.should_manage(None, &broken, &rules, &cache), Ok(false));
    // A cloaked window is skipped unless the event is a hide or cloak.
    let cloaked = WindowProbe { cloaked: Some(true), ..probe.clone() };
    assert_eq!(w.should_manage(None, &cloaked, &rules, &cache), Ok(false));
    assert_eq!(
        w.should_manage(Some(WindowManagerEvent::Cloak), &cloaked, &rules, &cache),
        Ok(true)
    );
    // A failed cloak query surfaces as an error.
    let unreadable = WindowProbe { cloaked: None, ..probe.clone() };
    assert_eq!(
        w.should_manage(None, &unreadable, &rules, &cache),
        Err(WmError::OsQueryFailed)
    );
    let no_style = WindowProbe { style: None, ..probe.clone() };
    assert_eq!(
        w.should_manage(None, &no_style, &rules, &cache),
        Err(WmError::OsQueryFailed)
    );
}

#[test]
fn add_and_remove_containers_keep_slots_aligned() {
    let mut ws = Workspace::new();
    let mut c1 = komorebi::container::Container::new(false);
    c1.add_window(window(1));
    ws.add_container(c1);
    let mut c2 = komorebi::container::Container::new(false);
    c2.add_window(window(2));
    ws.insert_container_at_idx(0, c2);
    assert_eq!(ws.containers().len(), 2);
    assert_eq!(ws.resize_dimensions().len(), 2);
    // The insertion at the front left the cursor at index zero, which
    // now holds the second container.
    let removed = ws.remove_focused_container().unwrap();
    assert_eq!(removed.windows()[0].hwnd, 2);
    assert_eq!(ws.containers().len(), 1);
    assert_eq!(ws.resize_dimensions().len(), 1);
    assert_eq!(ws.focused_container_idx(), 0);
    assert!(ws.remove_container_by_idx(7).is_none());
}

#[test]
fn toggle_dispatches_on_maximized_state() {
    let ws = workspace_with_windows(&[1]);
    let mut state = WindowState::new();
    let maximize = ws
        .toggle_maximize_focused_window(&mut state, HidingBehaviour::Hide, None, false, false)
        .unwrap();
    assert_eq!(maximize[0], OsAction::Maximize(1));
    let restore = ws
        .toggle_maximize_focused_window(&mut state, HidingBehaviour::Hide, None, false, true)
        .unwrap();
    assert_eq!(restore[0], OsAction::Unmaximize(1));
}

#[test]
fn float_without_containers_fails() {
    let mut ws = Workspace::new();
    let mut state = WindowState::new();
    assert_eq!(
        ws.float_focused_window(&mut state, HidingBehaviour::Hide),
        Err(WmError::NoContainer)
    );
}

#[test]
fn new_container_for_focused_window_splits_stack() {
    // Stack two windows in one container, then split the focused one out.
    let mut ws = workspace_with_windows(&[1, 2]);
    let mut state = WindowState::new();
    ws.focus_container(0);
    ws.move_window_to_container(1, &mut state, HidingBehaviour::Hide).unwrap();
    assert_eq!(ws.containers().len(), 1);
    assert_eq!(ws.containers()[0].windows().len(), 2);
    ws.new_container_for_focused_window(&mut state, HidingBehaviour::Hide, false, None, false)
        .unwrap();
    assert_eq!(ws.containers().len(), 2);
    assert_eq!(ws.containers()[0].windows().len(), 1);
    assert_eq!(ws.containers()[1].windows().len(), 1);
    assert!(ws.contains_window(1));
    assert!(ws.contains_window(2));
}
