use vstd::prelude::*;

verus! {

/// Identifier of a compositor workspace.
#[derive(Clone, Copy, Debug, PartialEq, Eq, Structural)]
pub struct WorkspaceId(pub u32);

/// Identifier of a toplevel window.
#[derive(Clone, Copy, Debug, PartialEq, Eq, Structural)]
pub struct WindowId(pub u64);

/// One window as the compositor reports it.
#[derive(Clone, Debug)]
pub struct WindowSummary {
    pub id: WindowId,
    pub title: String,
    pub app_id: String,
    pub workspace: WorkspaceId,
    pub focused: bool,
    pub minimized: bool,
    pub floating: bool,
    pub fullscreen: bool,
}

/// One workspace as the compositor reports it.
#[derive(Clone, Debug)]
pub struct WorkspaceSummary {
    pub workspace: WorkspaceId,
    pub active: bool,
    pub window_count: u32,
    pub visible_window_count: u32,
}

/// The desktop state the shell renders, tagged with the compositor's generation.
#[derive(Clone, Debug)]
pub struct DesktopSnapshot {
    pub generation: u64,
    pub workspaces: Vec<WorkspaceSummary>,
    pub windows: Vec<WindowSummary>,
}

/// A captured workspace image, PNG encoded and then base64 encoded.
#[derive(Clone, Debug)]
pub struct WorkspacePreview {
    pub workspace: WorkspaceId,
    pub width: u32,
    pub height: u32,
    pub png_base64: String,
}

/// A request the shell sends to the compositor.
#[derive(Clone, Copy, Debug, PartialEq, Eq, Structural)]
pub enum DesktopCommand {
    FocusWorkspace { workspace: WorkspaceId },
    FocusWindow { window: WindowId },
    RestoreWindow { window: WindowId },
}

} // verus!
