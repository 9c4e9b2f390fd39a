use knave_shell::desktop::{DesktopCommand, WindowId, WorkspaceId};
use knave_shell::shell::{
    activate, usage, Anchors, KeyboardMode, LayerKind, SearchInput, ShellRole, WaylandError,
    KEY_BACKSPACE, KEY_DOWN, KEY_ESCAPE, KEY_RETURN, KEY_UP,
};
use knave_shell::ui::{Color, UiAction};

#[test]
fn roles_have_independent_layer_contracts() {
    assert_ne!(ShellRole::Bar.layer(), ShellRole::Overview.layer());
    assert_eq!(ShellRole::Bar.exclusive_zone(), 36);
    assert_eq!(ShellRole::Overview.exclusive_zone(), -1);
    assert_eq!(ShellRole::parse("bar"), Some(ShellRole::Bar));
    assert_eq!(ShellRole::parse("unknown"), None);
}

#[test]
fn role_surface_settings() {
    assert_eq!(ShellRole::parse("overview"), Some(ShellRole::Overview));
    assert_eq!(ShellRole::parse("Bar"), None);
    assert_eq!(ShellRole::Bar.layer(), LayerKind::Top);
    assert_eq!(ShellRole::Overview.keyboard_interactivity(), KeyboardMode::Exclusive);
    assert_eq!(ShellRole::Bar.keyboard_interactivity(), KeyboardMode::Ignored);
    assert_eq!(ShellRole::Bar.requested_size(), (0, 36));
    assert_eq!(ShellRole::Overview.requested_size(), (0, 0));
    assert_eq!(ShellRole::Bar.namespace(), "knave-shell-bar");
    assert_eq!(ShellRole::Overview.namespace(), "knave-shell-overview");
    assert_eq!(
        ShellRole::Bar.anchors(),
        Anchors { top: true, bottom: false, left: true, right: true }
    );
    assert_eq!(ShellRole::Overview.clear_color(), Color::rgba(8, 12, 18, 245));
    assert_eq!(ShellRole::Bar.clear_color(), Color::background());
    assert_eq!(usage(), "usage: knave-shell [--check] [bar|overview]");
}

#[test]
fn configure_falls_back_to_requested_size() {
    assert_eq!(ShellRole::Bar.configured_size((0, 0)), (1, 36));
    assert_eq!(ShellRole::Bar.configured_size((1920, 40)), (1920, 40));
    assert_eq!(ShellRole::Overview.configured_size((0, 0)), (1, 1));
}

#[test]
fn actions_close_the_overview() {
    let focus = activate(ShellRole::Overview, UiAction::FocusWindow(WindowId(4)));
    assert_eq!(focus.command, Some(DesktopCommand::FocusWindow { window: WindowId(4) }));
    assert!(focus.exit);
    let on_bar = activate(ShellRole::Bar, UiAction::FocusWorkspace(WorkspaceId(3)));
    assert_eq!(on_bar.command, Some(DesktopCommand::FocusWorkspace { workspace: WorkspaceId(3) }));
    assert!(!on_bar.exit);
    let close = activate(ShellRole::Bar, UiAction::CloseOverview);
    assert_eq!(close.command, None);
    assert!(close.exit);
    let restore = activate(ShellRole::Overview, UiAction::RestoreWindow(WindowId(9)));
    assert_eq!(restore.command, Some(DesktopCommand::RestoreWindow { window: WindowId(9) }));
}

#[test]
fn typing_builds_a_bounded_query() {
    let mut input = SearchInput::new();
    let r = input.handle_key(ShellRole::Overview, 0x61, Some("ab\u{7}c"), 0, None);
    assert!(r.redraw);
    assert_eq!(input.query, "abc");
    let long = "x".repeat(100);
    input.handle_key(ShellRole::Overview, 0x78, Some(&long), 0, None);
    assert_eq!(input.query.chars().count(), 64);
    let r = input.handle_key(ShellRole::Overview, 0x78, Some("y"), 0, None);
    assert!(!r.redraw);
    assert_eq!(input.query.chars().count(), 64);
}

#[test]
fn keys_move_the_selection() {
    let mut input = SearchInput::new();
    input.handle_key(ShellRole::Overview, KEY_DOWN, None, 3, None);
    input.handle_key(ShellRole::Overview, KEY_DOWN, None, 3, None);
    input.handle_key(ShellRole::Overview, KEY_DOWN, None, 3, None);
    assert_eq!(input.index, 2);
    input.handle_key(ShellRole::Overview, KEY_UP, None, 3, None);
    assert_eq!(input.index, 1);
    input.handle_key(ShellRole::Overview, KEY_UP, None, 3, None);
    input.handle_key(ShellRole::Overview, KEY_UP, None, 3, None);
    assert_eq!(input.index, 0);
}

#[test]
fn backspace_and_escape() {
    let mut input = SearchInput::new();
    input.handle_key(ShellRole::Overview, 0x61, Some("ed"), 0, None);
    input.index = 1;
    let r = input.handle_key(ShellRole::Overview, KEY_BACKSPACE, None, 2, None);
    assert!(r.redraw);
    assert_eq!(input.query, "e");
    assert_eq!(input.index, 0);
    let r = input.handle_key(ShellRole::Overview, KEY_ESCAPE, None, 0, None);
    assert!(r.exit);
    let mut empty = SearchInput::new();
    let r = empty.handle_key(ShellRole::Overview, KEY_BACKSPACE, None, 0, None);
    assert!(!r.redraw && !r.exit);
}

#[test]
fn digits_focus_workspaces_only_without_a_query() {
    let mut input = SearchInput::new();
    let r = input.handle_key(ShellRole::Overview, 0x33, Some("3"), 0, None);
    assert_eq!(r.command, Some(DesktopCommand::FocusWorkspace { workspace: WorkspaceId(3) }));
    assert!(r.exit);
    let r = input.handle_key(ShellRole::Overview, 0x30, Some("0"), 0, None);
    assert_eq!(r.command, Some(DesktopCommand::FocusWorkspace { workspace: WorkspaceId(10) }));
    input.handle_key(ShellRole::Overview, 0x61, Some("a"), 0, None);
    let r = input.handle_key(ShellRole::Overview, 0x33, Some("3"), 0, None);
    assert_eq!(r.command, None);
    assert_eq!(input.query, "a3");
}

#[test]
fn return_activates_the_selected_result() {
    let mut input = SearchInput::new();
    let r = input.handle_key(ShellRole::Overview, KEY_RETURN, None, 1, Some(UiAction::FocusWindow(WindowId(2))));
    assert_eq!(r.command, Some(DesktopCommand::FocusWindow { window: WindowId(2) }));
    assert!(r.exit);
    let r = input.handle_key(ShellRole::Overview, KEY_RETURN, None, 0, None);
    assert!(!r.exit && r.command.is_none());
}

#[test]
fn the_bar_ignores_keys() {
    let mut input = SearchInput::new();
    let r = input.handle_key(ShellRole::Bar, KEY_ESCAPE, Some("a"), 0, None);
    assert!(!r.exit && !r.redraw && r.command.is_none());
    assert_eq!(input.query, "");
}

#[test]
fn wayland_error_messages() {
    assert_eq!(
        WaylandError::Adapter("none".to_string()).message(),
        "no compatible GPU adapter was found: none"
    );
    assert_eq!(
        WaylandError::SurfaceConfiguration.message(),
        "the Wayland surface has no supported configuration"
    );
}
