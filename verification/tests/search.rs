use knave_shell::desktop::{DesktopSnapshot, WindowId, WindowSummary, WorkspaceId, WorkspaceSummary};
use knave_shell::scene::{
    active_workspace, bar_title, overview_heading, overview_windows, overview_workspace_count, preview_for, search_rows,
    tile_color, window_activation, workspace_color,
};
use knave_shell::search::{search_results, window_label, workspace_label};
use knave_shell::text::{bounded_text, decimal_text};
use knave_shell::ui::{Color, UiAction, UiImage, WorkspacePreviewImage};

fn window(id: u64, title: &str, app_id: &str, workspace: u32, minimized: bool) -> WindowSummary {
    WindowSummary {
        id: WindowId(id),
        title: title.into(),
        app_id: app_id.into(),
        workspace: WorkspaceId(workspace),
        focused: false,
        minimized,
        floating: false,
        fullscreen: false,
    }
}

fn workspace(n: u32, active: bool, count: u32) -> WorkspaceSummary {
    WorkspaceSummary { workspace: WorkspaceId(n), active, window_count: count, visible_window_count: count }
}

fn snapshot() -> DesktopSnapshot {
    DesktopSnapshot {
        generation: 1,
        workspaces: vec![workspace(1, true, 1)],
        windows: vec![window(9, "Editor", "code", 1, true)],
    }
}

#[test]
fn search_finds_a_minimized_window() {
    let results = search_results(&snapshot(), "editor");
    assert_eq!(results.len(), 1);
    assert_eq!(results[0].action, UiAction::RestoreWindow(WindowId(9)));
    assert_eq!(results[0].title, "Editor");
    assert_eq!(results[0].detail, "code · Restore minimized window");
}

#[test]
fn search_matches_app_and_workspace_text() {
    let s = DesktopSnapshot {
        generation: 2,
        workspaces: vec![workspace(1, true, 1), workspace(2, false, 1)],
        windows: vec![window(1, "", "foot", 2, false)],
    };
    let results = search_results(&s, "  FOOT ");
    assert_eq!(results.len(), 1);
    assert_eq!(results[0].title, "foot");
    assert_eq!(results[0].detail, "foot · Workspace 2");
    assert_eq!(results[0].action, UiAction::FocusWindow(WindowId(1)));
    let results = search_results(&s, "workspace 2");
    assert_eq!(results.len(), 2);
    assert_eq!(results[1].title, "Workspace 2");
    assert_eq!(results[1].detail, "Switch workspace");
    assert_eq!(results[1].action, UiAction::FocusWorkspace(WorkspaceId(2)));
}

#[test]
fn search_offers_closing_the_overview() {
    let results = search_results(&snapshot(), "esc");
    assert_eq!(results.len(), 1);
    assert_eq!(results[0].title, "Close overview");
    assert_eq!(results[0].detail, "Return to the desktop");
    assert_eq!(results[0].action, UiAction::CloseOverview);
}

#[test]
fn blank_search_finds_nothing() {
    assert!(search_results(&snapshot(), "   ").is_empty());
    assert!(search_results(&snapshot(), "").is_empty());
}

#[test]
fn search_returns_at_most_twelve() {
    let windows = (0..20).map(|i| window(i, "Term", "foot", 1, false)).collect();
    let s = DesktopSnapshot { generation: 1, workspaces: vec![workspace(1, true, 20)], windows };
    let results = search_results(&s, "term");
    assert_eq!(results.len(), 12);
    assert_eq!(results[11].action, UiAction::FocusWindow(WindowId(11)));
}

#[test]
fn labels_are_bounded() {
    let long = "t".repeat(60);
    let w = window(1, &long, "app", 1, false);
    assert_eq!(window_label(&w).chars().count(), 48);
    assert_eq!(window_label(&window(1, "", "app", 1, false)), "app");
    assert_eq!(bounded_text("héllo", 2), "hé");
    assert_eq!(decimal_text(0), "0");
    assert_eq!(decimal_text(40213), "40213");
}

#[test]
fn snapshot_bar_title_reflects_active_workspace() {
    let s = DesktopSnapshot {
        generation: 4,
        workspaces: vec![workspace(2, true, 3)],
        windows: vec![],
    };
    assert_eq!(bar_title(Some(&s)), "Workspace 2");
    assert_eq!(bar_title(None), "Knave");
    let idle = DesktopSnapshot { generation: 4, workspaces: vec![workspace(5, false, 0)], windows: vec![] };
    assert_eq!(bar_title(Some(&idle)), "Knave");
    assert_eq!(active_workspace(&idle), None);
    assert_eq!(active_workspace(&s), Some(0));
}

#[test]
fn overview_heading_text() {
    assert_eq!(overview_heading(&workspace(2, true, 3), ""), "Workspace 2 · 3 windows");
    assert_eq!(overview_heading(&workspace(2, true, 3), "ed"), "Search: ed");
}

#[test]
fn overview_shows_windows_of_the_active_workspace() {
    let mut windows: Vec<WindowSummary> = (0..40).map(|i| window(i, "w", "a", 2, false)).collect();
    windows.insert(1, window(100, "x", "b", 3, false));
    let s = DesktopSnapshot { generation: 1, workspaces: vec![workspace(2, true, 40)], windows };
    let cards = overview_windows(&s, WorkspaceId(2));
    assert_eq!(cards.len(), 12);
    assert_eq!(cards[0], 0);
    assert_eq!(cards[1], 2);
    let mut mixed: Vec<WindowSummary> = (0..20).map(|i| window(i, "t", "a", 2, false)).collect();
    mixed.extend((20..50).map(|i| window(i, "m", "a", 2, true)));
    let m = DesktopSnapshot { generation: 1, workspaces: vec![workspace(2, true, 50)], windows: mixed };
    let cards = overview_windows(&m, WorkspaceId(2));
    assert_eq!(cards.len(), 36);
    assert_eq!(cards[11], 11);
    assert_eq!(cards[12], 20);
    assert_eq!(cards[35], 43);
    assert_eq!(window_activation(&window(7, "a", "b", 1, true)), UiAction::RestoreWindow(WindowId(7)));
    assert_eq!(window_activation(&window(7, "a", "b", 1, false)), UiAction::FocusWindow(WindowId(7)));
}

#[test]
fn colors_follow_activity() {
    assert_eq!(workspace_color(true), Color::accent());
    assert_eq!(workspace_color(false), Color::text());
    assert_eq!(tile_color(false), Color::rgba(35, 48, 64, 255));
    assert_eq!(Color::background(), Color::rgba(21, 29, 40, 255));
}

#[test]
fn search_rows_clamp_the_selection() {
    let results = search_results(&snapshot(), "editor");
    let rows = search_rows(&results, 5);
    assert_eq!(rows.len(), 1);
    assert!(rows[0].selected);
    assert_eq!(rows[0].text, "Editor · code · Restore minimized window");
    assert!(search_rows(&Vec::new(), 0).is_empty());
}

#[test]
fn previews_are_found_by_workspace() {
    let image = UiImage::from_rgba(320, 180, vec![0; 320 * 180 * 4]).unwrap();
    let previews = vec![WorkspacePreviewImage { workspace: WorkspaceId(1), image }];
    assert_eq!(preview_for(&previews, WorkspaceId(1)), Some(0));
    assert_eq!(preview_for(&previews, WorkspaceId(2)), None);
    assert_eq!(previews[0].image.width(), 320);
}

#[test]
fn workspace_labels_name_the_number() {
    assert_eq!(workspace_label(&workspace(3, false, 0)), "Workspace 3");
    assert_eq!(workspace_label(&workspace(120, true, 2)), "Workspace 120");
}

#[test]
fn blank_queries_find_nothing() {
    assert!(search_results(&snapshot(), "").is_empty());
    assert!(search_results(&snapshot(), " \t ").is_empty());
    assert_eq!(search_results(&snapshot(), " editor ").len(), 1);
}

#[test]
fn the_overview_shows_at_most_ten_workspaces() {
    let many = DesktopSnapshot {
        generation: 1,
        workspaces: (1..=12).map(|n| workspace(n, n == 1, 0)).collect(),
        windows: Vec::new(),
    };
    assert_eq!(overview_workspace_count(&many), 10);
    assert_eq!(overview_workspace_count(&snapshot()), 1);
}
