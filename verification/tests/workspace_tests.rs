use komorebi::layout::CustomLayout;
use komorebi::layout::CycleDirection;
use komorebi::layout::DefaultLayout;
use komorebi::layout::Layout;
use komorebi::rect::Rect;
use komorebi::window::HidingBehaviour;
use komorebi::window::OsAction;
use komorebi::window::Window;
use komorebi::window::WindowState;
use komorebi::workspace::Workspace;
use komorebi::workspace::WorkspaceConfig;
use komorebi::WmError;

fn window(hwnd: isize) -> Window {
    Window { hwnd }
}

fn workspace_with_windows(hwnds: &[isize]) -> Workspace {
    let mut ws = Workspace::new();
    for &h in hwnds {
        ws.new_container_for_window(window(h), false, None, false);
    }
    ws
}

#[test]
fn new_container_for_first_window_scenario() {
    let mut ws = Workspace::new();
    assert_eq!(ws.containers().len(), 0);
    ws.new_container_for_window(window(1), false, None, false);
    assert_eq!(ws.containers().len(), 1);
    assert_eq!(ws.resize_dimensions().len(), 1);
    assert!(ws.resize_dimensions()[0].is_none());
    assert_eq!(ws.focused_container_idx(), 0);
    assert_eq!(ws.containers()[0].windows()[0].hwnd, 1);
}

#[test]
fn new_container_for_second_window_scenario() {
    let mut ws = Workspace::new();
    ws.new_container_for_window(window(1), false, None, false);
    ws.new_container_for_window(window(2), false, None, false);
    assert_eq!(ws.containers().len(), 2);
    assert_eq!(ws.resize_dimensions().len(), 2);
    assert_eq!(ws.focused_container_idx(), 1);
    assert_eq!(ws.containers()[1].windows()[0].hwnd, 2);
}

#[test]
fn category_stacking_groups_windows() {
    let mut ws = Workspace::new();
    ws.new_container_for_window(window(1), true, Some(String::from("terminal")), false);
    ws.new_container_for_window(window(2), true, Some(String::from("browser")), false);
    ws.new_container_for_window(window(3), true, Some(String::from("terminal")), false);
    assert_eq!(ws.containers().len(), 2);
    assert_eq!(ws.containers()[0].windows().len(), 2);
    assert_eq!(ws.containers()[0].windows()[1].hwnd, 3);
}

#[test]
fn monocle_round_trip_restores_container() {
    let mut ws = workspace_with_windows(&[1, 2, 3]);
    ws.focus_container(1);
    let mut state = WindowState::new();
    let id_before = ws.containers()[1].id().clone();
    ws.new_monocle_container(&mut state, HidingBehaviour::Hide).unwrap();
    assert_eq!(ws.containers().len(), 2);
    assert!(ws.monocle_container().is_some());
    assert_eq!(ws.monocle_container_restore_idx(), Some(1));
    ws.reintegrate_monocle_container(&mut state, HidingBehaviour::Hide).unwrap();
    assert_eq!(ws.containers().len(), 3);
    assert_eq!(ws.containers()[1].id(), &id_before);
    assert_eq!(ws.focused_container_idx(), 1);
    assert!(ws.monocle_container().is_none());
}

#[test]
fn monocle_reintegration_pads_when_shrunk() {
    let mut ws = workspace_with_windows(&[1, 2, 3]);
    ws.focus_container(2);
    let mut state = WindowState::new();
    ws.new_monocle_container(&mut state, HidingBehaviour::Hide).unwrap();
    // Remove both remaining containers so the ring shrinks below the
    // restore index.
    ws.remove_window(1, &mut state, HidingBehaviour::Hide).unwrap();
    ws.remove_window(2, &mut state, HidingBehaviour::Hide).unwrap();
    assert_eq!(ws.containers().len(), 0);
    ws.reintegrate_monocle_container(&mut state, HidingBehaviour::Hide).unwrap();
    assert_eq!(ws.containers().len(), 3);
    assert_eq!(ws.resize_dimensions().len(), 3);
    assert_eq!(ws.containers()[2].windows()[0].hwnd, 3);
    assert!(ws.containers()[0].windows().is_empty());
}

#[test]
fn reintegrate_without_monocle_fails() {
    let mut ws = workspace_with_windows(&[1]);
    let mut state = WindowState::new();
    let result = ws.reintegrate_monocle_container(&mut state, HidingBehaviour::Hide);
    assert_eq!(result, Err(WmError::NoMonocleRestoreIndex));
}

#[test]
fn new_monocle_without_containers_fails() {
    let mut ws = Workspace::new();
    let mut state = WindowState::new();
    let result = ws.new_monocle_container(&mut state, HidingBehaviour::Hide);
    assert_eq!(result, Err(WmError::NoContainer));
}

#[test]
fn remove_window_prunes_empty_container() {
    let mut ws = workspace_with_windows(&[1, 2]);
    let mut state = WindowState::new();
    ws.remove_window(1, &mut state, HidingBehaviour::Hide).unwrap();
    assert_eq!(ws.containers().len(), 1);
    assert_eq!(ws.resize_dimensions().len(), 1);
    assert_eq!(ws.containers()[0].windows()[0].hwnd, 2);
}

#[test]
fn remove_window_missing_fails() {
    let mut ws = workspace_with_windows(&[1]);
    let mut state = WindowState::new();
    let result = ws.remove_window(99, &mut state, HidingBehaviour::Hide);
    assert_eq!(result, Err(WmError::NoWindow));
}

#[test]
fn remove_window_prefers_floating() {
    let mut ws = workspace_with_windows(&[1, 2]);
    let mut state = WindowState::new();
    ws.focus_container(1);
    ws.float_focused_window(&mut state, HidingBehaviour::Hide).unwrap();
    assert_eq!(ws.floating_windows().len(), 1);
    ws.remove_window(2, &mut state, HidingBehaviour::Hide).unwrap();
    assert_eq!(ws.floating_windows().len(), 0);
    assert_eq!(ws.containers().len(), 1);
}

#[test]
fn float_and_unfloat_round_trip() {
    let mut ws = workspace_with_windows(&[1, 2]);
    let mut state = WindowState::new();
    ws.focus_container(1);
    ws.float_focused_window(&mut state, HidingBehaviour::Hide).unwrap();
    assert_eq!(ws.containers().len(), 1);
    assert_eq!(ws.floating_windows().len(), 1);
    assert_eq!(ws.floating_windows()[0].hwnd, 2);
    ws.unfloat_focused_window(Some(2), false, None, false).unwrap();
    assert_eq!(ws.containers().len(), 2);
    assert_eq!(ws.floating_windows().len(), 0);
}

#[test]
fn unfloat_without_floating_window_fails() {
    let mut ws = workspace_with_windows(&[1]);
    let result = ws.unfloat_focused_window(Some(1), false, None, false);
    assert_eq!(result, Err(WmError::NoFloatingWindow));
}

#[test]
fn move_window_to_container_appends_and_focuses() {
    let mut ws = workspace_with_windows(&[1, 2]);
    let mut state = WindowState::new();
    ws.focus_container(0);
    ws.move_window_to_container(1, &mut state, HidingBehaviour::Hide).unwrap();
    // The source container emptied and was pruned; the target shifted to
    // index 0 and now stacks both windows.
    assert_eq!(ws.containers().len(), 1);
    let windows = ws.containers()[0].windows();
    assert_eq!(windows.len(), 2);
    assert_eq!(windows[1].hwnd, 1);
    assert_eq!(ws.focused_container_idx(), 0);
}

#[test]
fn move_window_to_missing_container_fails() {
    let mut ws = workspace_with_windows(&[1]);
    let mut state = WindowState::new();
    let result = ws.move_window_to_container(5, &mut state, HidingBehaviour::Hide);
    assert_eq!(result, Err(WmError::NoContainer));
}

#[test]
fn promote_container_moves_focused_to_front() {
    let mut ws = workspace_with_windows(&[1, 2, 3]);
    ws.focus_container(2);
    ws.promote_container().unwrap();
    assert_eq!(ws.containers()[0].windows()[0].hwnd, 3);
    assert_eq!(ws.containers()[1].windows()[0].hwnd, 1);
    assert_eq!(ws.containers()[2].windows()[0].hwnd, 2);
    assert_eq!(ws.focused_container_idx(), 0);
}

#[test]
fn promote_carries_resize_override() {
    let mut ws = workspace_with_windows(&[1, 2]);
    ws.focus_container(1);
    let override_rect = Rect { left: 5, top: 6, right: 7, bottom: 8 };
    ws.resize_dimensions[1] = Some(override_rect);
    ws.promote_container().unwrap();
    assert_eq!(ws.resize_dimensions()[0], Some(override_rect));
    assert!(ws.resize_dimensions()[1].is_none());
}

#[test]
fn promote_custom_layout_without_primary_fails() {
    let mut ws = workspace_with_windows(&[1]);
    ws.set_layout(Layout::Custom(CustomLayout { primary_container_idx: None }));
    assert_eq!(ws.promote_container(), Err(WmError::NoPrimaryColumn));
}

#[test]
fn reap_orphans_removes_dead_and_prunes() {
    let mut ws = workspace_with_windows(&[1, 2, 3]);
    let mut state = WindowState::new();
    ws.focus_container(2);
    ws.float_focused_window(&mut state, HidingBehaviour::Hide).unwrap();
    let dead = vec![1isize, 3];
    let ((windows_removed, containers_removed), _actions) =
        ws.reap_orphans(&dead, &mut state, HidingBehaviour::Hide);
    assert_eq!(windows_removed, 2);
    assert_eq!(containers_removed, 0);
    assert_eq!(ws.containers().len(), 1);
    assert_eq!(ws.containers()[0].windows()[0].hwnd, 2);
    assert_eq!(ws.floating_windows().len(), 0);
}

#[test]
fn update_records_latest_layout_and_positions() {
    let mut ws = workspace_with_windows(&[1, 2]);
    let work_area = Rect { left: 0, top: 0, right: 1000, bottom: 800 };
    let borders = Rect { left: 0, top: 0, right: 0, bottom: 0 };
    let layouts = vec![
        Rect { left: 0, top: 0, right: 500, bottom: 800 },
        Rect { left: 500, top: 0, right: 500, bottom: 800 },
    ];
    let actions = ws.update(&work_area, None, &borders, true, &Vec::new(), &layouts);
    assert_eq!(ws.latest_layout().len(), 2);
    assert_eq!(ws.latest_layout()[1], layouts[1]);
    assert_eq!(actions.len(), 2);
    match actions[0] {
        OsAction::SetPosition { hwnd, rect, top, .. } => {
            assert_eq!(hwnd, 1);
            assert_eq!(rect, layouts[0]);
            assert!(!top);
        },
        _ => panic!("expected a position request"),
    }
}

#[test]
fn update_skips_before_configuration_loaded() {
    let mut ws = workspace_with_windows(&[1]);
    let work_area = Rect { left: 0, top: 0, right: 1000, bottom: 800 };
    let borders = Rect { left: 0, top: 0, right: 0, bottom: 0 };
    let actions = ws.update(&work_area, None, &borders, false, &Vec::new(), &Vec::new());
    assert!(actions.is_empty());
    assert!(ws.latest_layout().is_empty());
}

#[test]
fn update_is_idempotent_on_latest_layout() {
    let mut ws = workspace_with_windows(&[1, 2, 3]);
    let work_area = Rect { left: 0, top: 0, right: 900, bottom: 600 };
    let borders = Rect { left: 0, top: 0, right: 0, bottom: 0 };
    let layouts = vec![
        Rect { left: 0, top: 0, right: 300, bottom: 600 },
        Rect { left: 300, top: 0, right: 300, bottom: 600 },
        Rect { left: 600, top: 0, right: 300, bottom: 600 },
    ];
    let first = ws.update(&work_area, None, &borders, true, &Vec::new(), &layouts);
    let latest_first = ws.latest_layout().clone();
    let request_first = ws.layout_request(&work_area, None, true).unwrap();
    let second = ws.update(&work_area, None, &borders, true, &Vec::new(), &layouts);
    let request_second = ws.layout_request(&work_area, None, true).unwrap();
    assert_eq!(ws.latest_layout(), &latest_first);
    assert_eq!(first, second);
    assert_eq!(request_first.resize_dimensions, request_second.resize_dimensions);
    assert_eq!(request_first.area, request_second.area);
    assert_eq!(request_first.container_count, request_second.container_count);
}

#[test]
fn update_positions_monocle_full_area() {
    let mut ws = workspace_with_windows(&[1, 2]);
    let mut state = WindowState::new();
    ws.focus_container(0);
    ws.new_monocle_container(&mut state, HidingBehaviour::Hide).unwrap();
    let work_area = Rect { left: 0, top: 0, right: 1000, bottom: 800 };
    let borders = Rect { left: 0, top: 0, right: 0, bottom: 0 };
    let actions = ws.update(&work_area, None, &borders, true, &Vec::new(), &Vec::new());
    assert_eq!(actions.len(), 1);
    match actions[0] {
        OsAction::SetPosition { hwnd, rect, top, .. } => {
            assert_eq!(hwnd, 1);
            assert!(top);
            // Work area shrunk by the default workspace padding, then the
            // default container padding: 10 each side twice.
            assert_eq!(rect, Rect { left: 20, top: 20, right: 960, bottom: 760 });
        },
        _ => panic!("expected a position request"),
    }
}

#[test]
fn bsp_resize_constraints_of_four() {
    let mut ws = workspace_with_windows(&[1, 2, 3, 4]);
    let full = Rect { left: 9, top: 9, right: 9, bottom: 9 };
    for i in 0..4 {
        ws.resize_dimensions[i] = Some(full);
    }
    let work_area = Rect { left: 0, top: 0, right: 1000, bottom: 800 };
    let borders = Rect { left: 0, top: 0, right: 0, bottom: 0 };
    ws.update(&work_area, None, &borders, true, &Vec::new(), &Vec::new());
    let dims = ws.resize_dimensions();
    let d0 = dims[0].unwrap();
    assert_eq!((d0.top, d0.left, d0.bottom, d0.right), (0, 0, 0, 9));
    let d1 = dims[1].unwrap();
    assert_eq!((d1.top, d1.left, d1.bottom, d1.right), (9, 9, 9, 0));
    let d2 = dims[2].unwrap();
    assert_eq!((d2.top, d2.left, d2.bottom, d2.right), (9, 9, 0, 9));
    let d3 = dims[3].unwrap();
    assert_eq!((d3.top, d3.left, d3.bottom, d3.right), (9, 9, 0, 0));
}

#[test]
fn ultrawide_resize_constraints_of_three() {
    let mut ws = workspace_with_windows(&[1, 2, 3]);
    ws.set_layout(Layout::Default(DefaultLayout::UltrawideVerticalStack));
    let full = Rect { left: 9, top: 9, right: 9, bottom: 9 };
    for i in 0..3 {
        ws.resize_dimensions[i] = Some(full);
    }
    let work_area = Rect { left: 0, top: 0, right: 1000, bottom: 800 };
    let borders = Rect { left: 0, top: 0, right: 0, bottom: 0 };
    ws.update(&work_area, None, &borders, true, &Vec::new(), &Vec::new());
    let dims = ws.resize_dimensions();
    let d0 = dims[0].unwrap();
    assert_eq!((d0.top, d0.bottom, d0.left, d0.right), (0, 0, 9, 9));
    let d1 = dims[1].unwrap();
    assert_eq!((d1.top, d1.bottom, d1.left, d1.right), (0, 0, 0, 9));
    // The sole stack member is both first and last of the stack: its top
    // and bottom edges sit against the work-area boundary.
    let d2 = dims[2].unwrap();
    assert_eq!((d2.top, d2.bottom, d2.left, d2.right), (0, 0, 9, 0));
}

#[test]
fn other_layouts_zero_all_overrides() {
    let mut ws = workspace_with_windows(&[1, 2]);
    ws.set_layout(Layout::Default(DefaultLayout::Columns));
    ws.resize_dimensions[0] = Some(Rect { left: 9, top: 9, right: 9, bottom: 9 });
    let work_area = Rect { left: 0, top: 0, right: 1000, bottom: 800 };
    let borders = Rect { left: 0, top: 0, right: 0, bottom: 0 };
    ws.update(&work_area, None, &borders, true, &Vec::new(), &Vec::new());
    assert_eq!(
        ws.resize_dimensions()[0],
        Some(Rect { left: 0, top: 0, right: 0, bottom: 0 })
    );
    assert!(ws.resize_dimensions()[1].is_none());
}

#[test]
fn layout_rules_select_highest_satisfied_threshold() {
    let mut ws = workspace_with_windows(&[1, 2, 3]);
    ws.set_layout_rules(vec![
        (0, Layout::Default(DefaultLayout::BSP)),
        (2, Layout::Default(DefaultLayout::Columns)),
        (5, Layout::Default(DefaultLayout::Rows)),
    ]);
    let work_area = Rect { left: 0, top: 0, right: 1000, bottom: 800 };
    let borders = Rect { left: 0, top: 0, right: 0, bottom: 0 };
    ws.update(&work_area, None, &borders, true, &Vec::new(), &Vec::new());
    assert_eq!(ws.layout(), &Layout::Default(DefaultLayout::Columns));
}

#[test]
fn layout_rule_switch_clears_axis_flip() {
    let mut ws = workspace_with_windows(&[1]);
    ws.set_layout_flip(Some(komorebi::layout::Axis::Horizontal));
    ws.set_layout_rules(vec![(0, Layout::Default(DefaultLayout::Columns))]);
    let work_area = Rect { left: 0, top: 0, right: 1000, bottom: 800 };
    let borders = Rect { left: 0, top: 0, right: 0, bottom: 0 };
    ws.update(&work_area, None, &borders, true, &Vec::new(), &Vec::new());
    assert_eq!(ws.layout_flip(), None);
}

#[test]
fn load_static_config_applies_fields() {
    let mut ws = Workspace::new();
    let config = WorkspaceConfig {
        name: String::from("dev"),
        layout: Some(DefaultLayout::Columns),
        custom_layout: None,
        layout_rules: Some(vec![(3, DefaultLayout::Rows)]),
        custom_layout_rules: None,
        container_padding: Some(4),
        workspace_padding: None,
    };
    ws.load_static_config(&config);
    assert_eq!(ws.name(), &Some(String::from("dev")));
    assert_eq!(ws.layout(), &Layout::Default(DefaultLayout::Columns));
    assert_eq!(ws.container_padding(), Some(4));
    assert_eq!(ws.workspace_padding(), Some(10));
    assert!(ws.tile());
    assert_eq!(ws.layout_rules().len(), 1);
}

#[test]
fn load_static_config_without_layout_disables_tiling() {
    let mut ws = Workspace::new();
    let config = WorkspaceConfig {
        name: String::from("floaty"),
        layout: None,
        custom_layout: None,
        layout_rules: None,
        custom_layout_rules: None,
        container_padding: None,
        workspace_padding: None,
    };
    ws.load_static_config(&config);
    assert!(!ws.tile());
}

#[test]
fn cycle_direction_wraps() {
    let ws = {
        let mut ws = workspace_with_windows(&[1, 2, 3]);
        ws.focus_container(2);
        ws
    };
    assert_eq!(ws.new_idx_for_cycle_direction(CycleDirection::Next), Some(0));
    assert_eq!(ws.new_idx_for_cycle_direction(CycleDirection::Previous), Some(1));
    let empty = Workspace::new();
    assert_eq!(empty.new_idx_for_cycle_direction(CycleDirection::Next), None);
}

#[test]
fn hit_testing_finds_container_under_point() {
    let mut ws = workspace_with_windows(&[1, 2]);
    let work_area = Rect { left: 0, top: 0, right: 1000, bottom: 800 };
    let borders = Rect { left: 0, top: 0, right: 0, bottom: 0 };
    let layouts = vec![
        Rect { left: 0, top: 0, right: 500, bottom: 800 },
        Rect { left: 500, top: 0, right: 500, bottom: 800 },
    ];
    ws.update(&work_area, None, &borders, true, &Vec::new(), &layouts);
    assert_eq!(ws.container_idx_from_current_point((700, 100)), Some(1));
    assert_eq!(ws.container_idx_from_current_point((100, 100)), Some(0));
    assert_eq!(ws.container_idx_from_current_point((2000, 100)), None);
}

#[test]
fn swap_containers_swaps_and_focuses() {
    let mut ws = workspace_with_windows(&[1, 2]);
    ws.swap_containers(0, 1);
    assert_eq!(ws.containers()[0].windows()[0].hwnd, 2);
    assert_eq!(ws.containers()[1].windows()[0].hwnd, 1);
    assert_eq!(ws.focused_container_idx(), 1);
}

#[test]
fn contains_window_looks_everywhere() {
    let mut ws = workspace_with_windows(&[1, 2]);
    let mut state = WindowState::new();
    ws.focus_container(1);
    ws.float_focused_window(&mut state, HidingBehaviour::Hide).unwrap();
    ws.focus_container(0);
    ws.new_monocle_container(&mut state, HidingBehaviour::Hide).unwrap();
    assert!(ws.contains_window(1));
    assert!(ws.contains_window(2));
    assert!(!ws.contains_window(3));
    assert!(ws.contains_managed_window(1));
    assert!(!ws.contains_managed_window(2));
}

#[test]
fn focus_container_by_window_focuses_and_reloads() {
    let mut ws = workspace_with_windows(&[1, 2]);
    let mut state = WindowState::new();
    let actions = ws.focus_container_by_window(1, &mut state, HidingBehaviour::Hide).unwrap();
    assert_eq!(ws.focused_container_idx(), 0);
    // The window was already focused within its container, so nothing
    // reloads.
    assert!(actions.is_empty());
    assert_eq!(
        ws.focus_container_by_window(9, &mut state, HidingBehaviour::Hide),
        Err(WmError::NoWindow)
    );
}

#[test]
fn hwnd_from_exe_uses_attribute_table() {
    let ws = workspace_with_windows(&[1, 2]);
    let exes = vec![
        (1isize, String::from("firefox.exe")),
        (2isize, String::from("wezterm.exe")),
    ];
    assert_eq!(ws.hwnd_from_exe("wezterm.exe", &exes), Some(2));
    assert_eq!(ws.hwnd_from_exe("emacs.exe", &exes), None);
}

#[test]
fn visible_windows_reports_focused_per_container() {
    let mut ws = workspace_with_windows(&[1, 2]);
    let mut state = WindowState::new();
    ws.focus_container(0);
    ws.move_window_to_container(1, &mut state, HidingBehaviour::Hide).unwrap();
    let visible = ws.visible_windows();
    assert_eq!(visible.len(), 1);
    assert_eq!(visible[0].map(|w| w.hwnd), Some(1));
}

#[test]
fn reap_orphans_scans_the_monocle_container() {
    let mut ws = workspace_with_windows(&[1, 2]);
    let mut state = WindowState::new();
    ws.focus_container(1);
    ws.new_monocle_container(&mut state, HidingBehaviour::Hide).unwrap();
    let dead = vec![2isize];
    let ((windows_removed, containers_removed), actions) =
        ws.reap_orphans(&dead, &mut state, HidingBehaviour::Hide);
    assert_eq!(windows_removed, 1);
    assert_eq!(containers_removed, 0);
    assert!(actions.is_empty());
    // The monocle emptied, so it dissolved with its restore index.
    assert!(ws.monocle_container().is_none());
    assert_eq!(ws.monocle_container_restore_idx(), None);
    assert_eq!(ws.containers().len(), 1);
}

#[test]
fn reap_orphans_keeps_a_surviving_monocle() {
    let mut ws = workspace_with_windows(&[1, 2]);
    let mut state = WindowState::new();
    ws.focus_container(0);
    ws.move_window_to_container(1, &mut state, HidingBehaviour::Hide).unwrap();
    ws.new_monocle_container(&mut state, HidingBehaviour::Hide).unwrap();
    // The monocle stacks [2, 1] with window 1 focused; reap window 1.
    let dead = vec![1isize];
    let ((windows_removed, _), _) = ws.reap_orphans(&dead, &mut state, HidingBehaviour::Hide);
    assert_eq!(windows_removed, 1);
    let monocle = ws.monocle_container().as_ref().unwrap();
    assert_eq!(monocle.windows().len(), 1);
    assert_eq!(monocle.windows()[0].hwnd, 2);
    assert_eq!(ws.monocle_container_restore_idx(), Some(0));
}

#[test]
fn hwnd_from_exe_prefers_tiled_over_floating() {
    let mut ws = workspace_with_windows(&[1, 2]);
    let mut state = WindowState::new();
    ws.focus_container(1);
    ws.float_focused_window(&mut state, HidingBehaviour::Hide).unwrap();
    // Both the tiled window 1 and the floating window 2 run the same
    // executable; the tiled one is found first.
    let exes = vec![
        (1isize, String::from("term.exe")),
        (2isize, String::from("term.exe")),
    ];
    assert_eq!(ws.hwnd_from_exe("term.exe", &exes), Some(1));
}

#[test]
fn foreground_in_monocle_is_detected() {
    let mut ws = workspace_with_windows(&[1, 2]);
    let mut state = WindowState::new();
    ws.focus_container(0);
    ws.new_monocle_container(&mut state, HidingBehaviour::Hide).unwrap();
    assert!(ws.is_focused_window_monocle_or_maximized(1));
    assert!(!ws.is_focused_window_monocle_or_maximized(2));
}
