use komorebi::container::Container;
use komorebi::container::MINIMIZE_SETTLE_DELAY;
use komorebi::utils::rgb_to_bgr_hex;
use komorebi::window::HidingBehaviour;
use komorebi::window::OsAction;
use komorebi::window::Window;
use komorebi::window::WindowState;

fn container_with_windows(hwnds: &[isize]) -> Container {
    let mut c = Container::new(false);
    for &h in hwnds {
        c.add_window(Window { hwnd: h });
    }
    c
}

#[test]
fn container_ids_are_random_and_sized() {
    let a = Container::new(false);
    let b = Container::new(false);
    assert_eq!(a.id().len(), 21);
    assert_eq!(b.id().len(), 21);
    assert_ne!(a.id(), b.id());
    assert!(!(a == b));
}

#[test]
fn add_window_focuses_last() {
    let mut c = container_with_windows(&[1, 2]);
    assert_eq!(c.focused_window_idx(), 1);
    c.add_window(Window { hwnd: 3 });
    assert_eq!(c.focused_window_idx(), 2);
    assert_eq!(c.focused_window().map(|w| w.hwnd), Some(3));
}

#[test]
fn remove_window_focus_falls_back() {
    // Removing index i > 0 leaves focus at i - 1.
    let mut c = container_with_windows(&[1, 2, 3]);
    c.focus_window(2);
    let removed = c.remove_window_by_idx(2);
    assert_eq!(removed.map(|w| w.hwnd), Some(3));
    assert_eq!(c.focused_window_idx(), 1);
    // Removing index 0 leaves focus at 0 when it was there.
    let mut c2 = container_with_windows(&[1, 2]);
    c2.focus_window(0);
    c2.remove_window_by_idx(0);
    assert_eq!(c2.focused_window_idx(), 0);
    assert_eq!(c2.focused_window().map(|w| w.hwnd), Some(2));
}

#[test]
fn remove_focused_window_removes_cursor_target() {
    let mut c = container_with_windows(&[1, 2, 3]);
    c.focus_window(1);
    let removed = c.remove_focused_window();
    assert_eq!(removed.map(|w| w.hwnd), Some(2));
    assert_eq!(c.focused_window_idx(), 0);
    assert_eq!(c.windows().len(), 2);
}

#[test]
fn remove_out_of_range_returns_none() {
    let mut c = container_with_windows(&[1]);
    assert!(c.remove_window_by_idx(5).is_none());
    assert_eq!(c.windows().len(), 1);
}

#[test]
fn contains_and_idx_for_window() {
    let c = container_with_windows(&[4, 5]);
    assert!(c.contains_window(5));
    assert!(!c.contains_window(6));
    assert_eq!(c.idx_for_window(4), Some(0));
    assert_eq!(c.idx_for_window(9), None);
}

#[test]
fn hwnd_from_exe_scans_in_order() {
    let c = container_with_windows(&[4, 5]);
    let exes = vec![(4isize, String::from("a.exe")), (5isize, String::from("b.exe"))];
    assert_eq!(c.hwnd_from_exe("b.exe", &exes), Some(5));
    assert_eq!(c.hwnd_from_exe("z.exe", &exes), None);
}

#[test]
fn hide_windows_walks_in_reverse_and_skips_omitted() {
    let c = container_with_windows(&[1, 2, 3]);
    let mut state = WindowState::new();
    let actions = c.hide_windows(&mut state, HidingBehaviour::Hide, Some(2));
    assert_eq!(actions, vec![OsAction::Hide(3), OsAction::Hide(1)]);
    assert_eq!(state.hidden, vec![3, 1]);
}

#[test]
fn hide_behaviour_selects_action() {
    let c = container_with_windows(&[1]);
    let mut state = WindowState::new();
    let actions = c.hide_windows(&mut state, HidingBehaviour::Cloak, None);
    assert_eq!(actions, vec![OsAction::Cloak(1)]);
    let mut state2 = WindowState::new();
    let minimized = c.hide_windows(&mut state2, HidingBehaviour::Minimize, None);
    assert_eq!(minimized, vec![OsAction::Minimize(1)]);
}

#[test]
fn load_focused_window_hides_others_then_restores() {
    let mut c = container_with_windows(&[1, 2, 3]);
    c.focus_window(1);
    let mut state = WindowState::new();
    let actions = c.load_focused_window(&mut state, HidingBehaviour::Hide);
    assert_eq!(
        actions,
        vec![OsAction::Hide(1), OsAction::Hide(3), OsAction::Restore(2)]
    );
    assert_eq!(state.hidden, vec![1, 3]);
}

#[test]
fn load_focused_window_waits_for_minimize_animation() {
    let mut c = Container::new(true);
    c.add_window(Window { hwnd: 1 });
    c.add_window(Window { hwnd: 2 });
    let mut state = WindowState::new();
    let actions = c.load_focused_window(&mut state, HidingBehaviour::Minimize);
    assert_eq!(
        actions,
        vec![
            OsAction::Minimize(1),
            OsAction::Delay(MINIMIZE_SETTLE_DELAY),
            OsAction::Restore(2),
        ]
    );
}

#[test]
fn restore_targets_only_the_focused_window() {
    let c = container_with_windows(&[1, 2]);
    let mut state = WindowState::new();
    state.hidden = vec![1, 2];
    let actions = c.restore(&mut state, HidingBehaviour::Hide);
    assert_eq!(actions, vec![OsAction::Restore(2)]);
    assert_eq!(state.hidden, vec![1]);
}

#[test]
fn window_state_bookkeeping_is_idempotent() {
    let mut state = WindowState::new();
    let w = Window { hwnd: 9 };
    w.hide_window(&mut state, HidingBehaviour::Hide);
    w.hide_window(&mut state, HidingBehaviour::Hide);
    assert_eq!(state.hidden, vec![9]);
    assert!(!w.is_programmatically_maximized(&state));
    w.maximize(&mut state);
    assert!(w.is_programmatically_maximized(&state));
    assert!(state.hidden.is_empty());
    w.unmaximize(&mut state);
    assert!(!w.is_programmatically_maximized(&state));
}

#[test]
fn rgb_to_bgr_swaps_channels() {
    assert_eq!(rgb_to_bgr_hex(0x00112233), 0x00332211);
    assert_eq!(rgb_to_bgr_hex(0x00FF0000), 0x000000FF);
    assert_eq!(rgb_to_bgr_hex(0), 0);
}
