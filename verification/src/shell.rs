use vstd::prelude::*;

use crate::desktop::{DesktopCommand, WorkspaceId};
use crate::search::MAX_SEARCH_QUERY;
use crate::text::{is_control, is_control_char, pop_char, push_char, str_equals};
use crate::ui::{Color, UiAction};

verus! {

/// Which shell surface this process drives.
#[derive(Clone, Copy, Debug, PartialEq, Eq, Structural)]
pub enum ShellRole {
    Bar,
    Overview,
}

/// The layer-shell layer a surface is placed on.
#[derive(Clone, Copy, Debug, PartialEq, Eq, Structural)]
pub enum LayerKind {
    Top,
    Overlay,
}

/// Whether a surface takes keyboard focus.
#[derive(Clone, Copy, Debug, PartialEq, Eq, Structural)]
pub enum KeyboardMode {
    Ignored,
    Exclusive,
}

/// The output edges a surface is anchored to.
#[derive(Clone, Copy, Debug, PartialEq, Eq, Structural)]
pub struct Anchors {
    pub top: bool,
    pub bottom: bool,
    pub left: bool,
    pub right: bool,
}

/// The command-line usage text.
pub fn usage() -> (r: &'static str)
    ensures
        r@ == "usage: knave-shell [--check] [bar|overview]"@,
{
    "usage: knave-shell [--check] [bar|overview]"
}

impl ShellRole {
    /// Reads a role name: `bar` or `overview`.
    pub fn parse(value: &str) -> (r: Option<Self>)
        ensures
            r == (if value@ == "bar"@ {
                Some(ShellRole::Bar)
            } else if value@ == "overview"@ {
                Some(ShellRole::Overview)
            } else {
                None
            }),
    {
        if str_equals(value, "bar") {
            Some(ShellRole::Bar)
        } else if str_equals(value, "overview") {
            Some(ShellRole::Overview)
        } else {
            None
        }
    }

    /// The bar sits on the top layer; the overview covers everything.
    pub fn layer(self) -> (r: LayerKind)
        ensures
            r == (if self == ShellRole::Bar { LayerKind::Top } else { LayerKind::Overlay }),
    {
        match self {
            ShellRole::Bar => LayerKind::Top,
            ShellRole::Overview => LayerKind::Overlay,
        }
    }

    /// The layer-shell namespace of the role's surface.
    pub fn namespace(self) -> (r: &'static str)
        ensures
            r@ == (if self == ShellRole::Bar { "knave-shell-bar"@ } else { "knave-shell-overview"@ }),
    {
        match self {
            ShellRole::Bar => "knave-shell-bar",
            ShellRole::Overview => "knave-shell-overview",
        }
    }

    /// Only the overview takes the keyboard, exclusively.
    pub fn keyboard_interactivity(self) -> (r: KeyboardMode)
        ensures
            r == (if self == ShellRole::Bar { KeyboardMode::Ignored } else { KeyboardMode::Exclusive }),
    {
        match self {
            ShellRole::Bar => KeyboardMode::Ignored,
            ShellRole::Overview => KeyboardMode::Exclusive,
        }
    }

    /// The size asked of the compositor; zero leaves a side to the compositor.
    pub fn requested_size(self) -> (r: (u32, u32))
        ensures
            r == (if self == ShellRole::Bar { (0u32, 36u32) } else { (0u32, 0u32) }),
    {
        match self {
            ShellRole::Bar => (0, 36),
            ShellRole::Overview => (0, 0),
        }
    }

    /// The bar spans the top edge; the overview is anchored to all four edges.
    pub fn anchors(self) -> (r: Anchors)
        ensures
            r == (if self == ShellRole::Bar {
                Anchors { top: true, bottom: false, left: true, right: true }
            } else {
                Anchors { top: true, bottom: true, left: true, right: true }
            }),
    {
        match self {
            ShellRole::Bar => Anchors { top: true, bottom: false, left: true, right: true },
            ShellRole::Overview => Anchors { top: true, bottom: true, left: true, right: true },
        }
    }

    /// The bar reserves its 36 pixels; the overview ignores other exclusive zones.
    pub fn exclusive_zone(self) -> (r: i32)
        ensures
            r == (if self == ShellRole::Bar { 36i32 } else { -1i32 }),
    {
        match self {
            ShellRole::Bar => 36,
            ShellRole::Overview => -1,
        }
    }

    /// The color a frame is cleared to when the scene paints no panel.
    pub fn clear_color(self) -> (r: Color)
        ensures
            r == (if self == ShellRole::Bar {
                Color { red: 21, green: 29, blue: 40, alpha: 255 }
            } else {
                Color { red: 8, green: 12, blue: 18, alpha: 245 }
            }),
    {
        match self {
            ShellRole::Bar => Color::background(),
            ShellRole::Overview => Color::rgba(8, 12, 18, 245),
        }
    }

    /// The surface size to use after a configure event: each side the compositor
    /// left at zero falls back to the requested size, and to at least one pixel.
    pub fn configured_size(self, new_size: (u32, u32)) -> (r: (u32, u32))
        ensures
            r.0 == (if new_size.0 != 0 { new_size.0 } else if self.requested_size_spec().0 > 0 { self.requested_size_spec().0 } else { 1 }),
            r.1 == (if new_size.1 != 0 { new_size.1 } else if self.requested_size_spec().1 > 0 { self.requested_size_spec().1 } else { 1 }),
            r.0 >= 1,
            r.1 >= 1,
    {
        let requested = self.requested_size();
        let width = if new_size.0 != 0 { new_size.0 } else if requested.0 > 0 { requested.0 } else { 1 };
        let height = if new_size.1 != 0 { new_size.1 } else if requested.1 > 0 { requested.1 } else { 1 };
        (width, height)
    }

    /// The size the role asks of the compositor.
    pub open spec fn requested_size_spec(self) -> (u32, u32) {
        if self == ShellRole::Bar { (0u32, 36u32) } else { (0u32, 0u32) }
    }
}

/// What the runtime does after an input event.
#[derive(Clone, Copy, Debug, PartialEq, Eq, Structural)]
pub struct Response {
    /// A request for the compositor.
    pub command: Option<DesktopCommand>,
    /// Whether the shell process ends.
    pub exit: bool,
    /// Whether the scene is rebuilt and a frame drawn.
    pub redraw: bool,
}

/// The compositor request an action makes, if any.
pub open spec fn action_command(action: UiAction) -> Option<DesktopCommand> {
    match action {
        UiAction::CloseOverview => None,
        UiAction::FocusWorkspace(workspace) => Some(DesktopCommand::FocusWorkspace { workspace }),
        UiAction::FocusWindow(window) => Some(DesktopCommand::FocusWindow { window }),
        UiAction::RestoreWindow(window) => Some(DesktopCommand::RestoreWindow { window }),
    }
}

/// Activating an action sends its request; the overview closes after every
/// action, the bar only on a close action.
pub open spec fn action_response(role: ShellRole, action: UiAction) -> Response {
    Response {
        command: action_command(action),
        exit: action == UiAction::CloseOverview || role == ShellRole::Overview,
        redraw: false,
    }
}

/// The response to activating `action` on the surface of `role`.
pub fn activate(role: ShellRole, action: UiAction) -> (r: Response)
    ensures
        r == action_response(role, action),
{
    match action {
        UiAction::CloseOverview => Response { command: None, exit: true, redraw: false },
        UiAction::FocusWorkspace(workspace) => Response {
            command: Some(DesktopCommand::FocusWorkspace { workspace }),
            exit: role == ShellRole::Overview,
            redraw: false,
        },
        UiAction::FocusWindow(window) => Response {
            command: Some(DesktopCommand::FocusWindow { window }),
            exit: role == ShellRole::Overview,
            redraw: false,
        },
        UiAction::RestoreWindow(window) => Response {
            command: Some(DesktopCommand::RestoreWindow { window }),
            exit: role == ShellRole::Overview,
            redraw: false,
        },
    }
}

/// The overview's search input: the query text and the selected result.
#[derive(Clone, Debug)]
pub struct SearchInput {
    pub query: String,
    pub index: usize,
}

/// Key symbols the overview reacts to.
pub const KEY_ESCAPE: u32 = 0xff1b;
pub const KEY_RETURN: u32 = 0xff0d;
pub const KEY_LEFT: u32 = 0xff51;
pub const KEY_UP: u32 = 0xff52;
pub const KEY_RIGHT: u32 = 0xff53;
pub const KEY_DOWN: u32 = 0xff54;
pub const KEY_BACKSPACE: u32 = 0xff08;

/// The query after typing `text`: control characters are dropped, and typing
/// stops once the query holds 64 characters.
pub open spec fn typed(query: Seq<char>, text: Seq<char>) -> Seq<char>
    decreases text.len(),
{
    if text.len() == 0 {
        query
    } else if is_control_char(text[0]) {
        typed(query, text.drop_first())
    } else if query.len() >= 64 {
        query
    } else {
        typed(query.push(text[0]), text.drop_first())
    }
}

/// No response at all.
pub open spec fn quiet() -> Response {
    Response { command: None, exit: false, redraw: false }
}

/// A response that only rebuilds the scene.
pub open spec fn redraw_only() -> Response {
    Response { command: None, exit: false, redraw: true }
}

/// The overview's reaction to a key press: the next query, the next selection,
/// and the response. `count` is the number of search results shown and
/// `selected` the action of the selected one. The bar ignores keys.
pub open spec fn key_step(
    role: ShellRole,
    query: Seq<char>,
    index: usize,
    keysym: u32,
    text: Option<Seq<char>>,
    count: usize,
    selected: Option<UiAction>,
) -> (Seq<char>, usize, Response) {
    if role != ShellRole::Overview {
        (query, index, quiet())
    } else if keysym == KEY_ESCAPE {
        (query, index, Response { command: None, exit: true, redraw: false })
    } else if keysym == KEY_RETURN {
        (query, index, match selected { Some(a) => action_response(role, a), None => quiet() })
    } else if keysym == KEY_LEFT || keysym == KEY_UP {
        (query, if index > 0 { (index - 1) as usize } else { 0usize }, redraw_only())
    } else if keysym == KEY_RIGHT || keysym == KEY_DOWN {
        (query, if count > 0 { if index + 1 < count { (index + 1) as usize } else { (count - 1) as usize } } else { index }, redraw_only())
    } else if keysym == KEY_BACKSPACE {
        if query.len() > 0 { (query.drop_last(), 0usize, redraw_only()) } else { (query, index, quiet()) }
    } else if 0x31 <= keysym <= 0x39 && query.len() == 0 {
        (query, index, action_response(role, UiAction::FocusWorkspace(WorkspaceId((keysym - 0x30) as u32))))
    } else if keysym == 0x30 && query.len() == 0 {
        (query, index, action_response(role, UiAction::FocusWorkspace(WorkspaceId(10))))
    } else {
        match text {
            Some(t) => {
                let next = typed(query, t);
                if next.len() > query.len() { (next, 0usize, redraw_only()) } else { (query, index, quiet()) }
            },
            None => (query, index, quiet()),
        }
    }
}

proof fn lemma_typed_grows(query: Seq<char>, text: Seq<char>)
    ensures
        typed(query, text).len() >= query.len(),
        query.len() <= 64 ==> typed(query, text).len() <= 64,
        typed(query, text).len() == query.len() ==> typed(query, text) == query,
    decreases text.len(),
{
    if text.len() > 0 {
        if is_control_char(text[0]) {
            lemma_typed_grows(query, text.drop_first());
        } else if query.len() < 64 {
            lemma_typed_grows(query.push(text[0]), text.drop_first());
        }
    }
}

impl SearchInput {
    /// An empty query with the first result selected.
    pub fn new() -> (s: Self)
        ensures
            s.query@.len() == 0,
            s.index == 0,
    {
        SearchInput { query: String::new(), index: 0 }
    }

    fn type_text(&mut self, text: &str) -> (changed: bool)
        ensures
            final(self).query@ == typed(old(self).query@, text@),
            final(self).index == old(self).index,
            changed == (typed(old(self).query@, text@).len() > old(self).query@.len()),
    {
        let ghost q0 = self.query@;
        let n = text.unicode_len();
        let mut count = self.query.as_str().unicode_len();
        let mut i: usize = 0;
        let mut changed = false;
        assert(text@.skip(0) =~= text@);
        while i < n
            invariant
                n == text@.len(),
                i <= n,
                q0 == old(self).query@,
                count == self.query@.len(),
                typed(q0, text@) == typed(self.query@, text@.skip(i as int)),
                self.index == old(self).index,
                changed == (self.query@.len() > q0.len()),
                self.query@.len() >= q0.len(),
            decreases n - i,
        {
            let c = text.get_char(i);
            assert(text@.skip(i as int).drop_first() =~= text@.skip(i + 1));
            assert(text@.skip(i as int)[0] == c);
            if !is_control(c) {
                if count >= MAX_SEARCH_QUERY {
                    proof {
                        lemma_typed_grows(self.query@, text@.skip(i as int));
                    }
                    assert(typed(q0, text@) == self.query@);
                    return changed;
                }
                push_char(&mut self.query, c);
                count = count + 1;
                changed = true;
            }
            i = i + 1;
        }
        assert(text@.skip(n as int) =~= Seq::<char>::empty());
        changed
    }

    /// Applies a key press on the surface of `role`. `keysym` is the pressed
    /// key, `text` the characters it produced, `count` the number of shown search
    /// results and `selected` the action of the selected result.
    pub fn handle_key(
        &mut self,
        role: ShellRole,
        keysym: u32,
        text: Option<&str>,
        count: usize,
        selected: Option<UiAction>,
    ) -> (r: Response)
        ensures
            (final(self).query@, final(self).index, r) == key_step(
                role,
                old(self).query@,
                old(self).index,
                keysym,
                match text { Some(t) => Some(t@), None => None },
                count,
                selected,
            ),
    {
        if role != ShellRole::Overview {
            return Response { command: None, exit: false, redraw: false };
        }
        if keysym == KEY_ESCAPE {
            return Response { command: None, exit: true, redraw: false };
        }
        if keysym == KEY_RETURN {
            return match selected {
                Some(action) => activate(role, action),
                None => Response { command: None, exit: false, redraw: false },
            };
        }
        if keysym == KEY_LEFT || keysym == KEY_UP {
            self.index = if self.index > 0 { self.index - 1 } else { 0 };
            return Response { command: None, exit: false, redraw: true };
        }
        if keysym == KEY_RIGHT || keysym == KEY_DOWN {
            if count > 0 {
                self.index = if self.index < count - 1 { self.index + 1 } else { count - 1 };
            }
            return Response { command: None, exit: false, redraw: true };
        }
        if keysym == KEY_BACKSPACE {
            return match pop_char(&mut self.query) {
                Some(_) => {
                    self.index = 0;
                    Response { command: None, exit: false, redraw: true }
                },
                None => Response { command: None, exit: false, redraw: false },
            };
        }
        let empty = self.query.as_str().unicode_len() == 0;
        if 0x31 <= keysym && keysym <= 0x39 && empty {
            return activate(role, UiAction::FocusWorkspace(WorkspaceId(keysym - 0x30)));
        }
        if keysym == 0x30 && empty {
            return activate(role, UiAction::FocusWorkspace(WorkspaceId(10)));
        }
        match text {
            Some(t) => {
                let changed = self.type_text(t);
                if changed {
                    self.index = 0;
                    Response { command: None, exit: false, redraw: true }
                } else {
                    proof {
                        lemma_typed_grows(old(self).query@, t@);
                    }
                    Response { command: None, exit: false, redraw: false }
                }
            },
            None => Response { command: None, exit: false, redraw: false },
        }
    }
}

} // verus!

verus! {

/// Why the Wayland runtime could not start or stopped.
#[derive(Clone, Debug)]
pub enum WaylandError {
    Connect(String),
    Globals(String),
    Compositor(String),
    LayerShell(String),
    Adapter(String),
    Device(String),
    SurfaceConfiguration,
    Dispatch(String),
}

/// The text describing an error.
pub open spec fn error_text(e: WaylandError) -> Seq<char> {
    match e {
        WaylandError::Connect(d) => "could not connect to the Knave Wayland compositor: "@ + d@,
        WaylandError::Globals(d) => "could not enumerate Wayland globals: "@ + d@,
        WaylandError::Compositor(d) => "wl_compositor is unavailable: "@ + d@,
        WaylandError::LayerShell(d) => "wlr-layer-shell is unavailable: "@ + d@,
        WaylandError::Adapter(d) => "no compatible GPU adapter was found: "@ + d@,
        WaylandError::Device(d) => "could not create the GPU device: "@ + d@,
        WaylandError::SurfaceConfiguration => "the Wayland surface has no supported configuration"@,
        WaylandError::Dispatch(d) => "Wayland dispatch failed: "@ + d@,
    }
}

impl WaylandError {
    /// The text describing the error.
    pub fn message(&self) -> (r: String)
        ensures
            r@ == error_text(*self),
    {
        let (prefix, detail) = match self {
            WaylandError::Connect(d) => ("could not connect to the Knave Wayland compositor: ", d.as_str()),
            WaylandError::Globals(d) => ("could not enumerate Wayland globals: ", d.as_str()),
            WaylandError::Compositor(d) => ("wl_compositor is unavailable: ", d.as_str()),
            WaylandError::LayerShell(d) => ("wlr-layer-shell is unavailable: ", d.as_str()),
            WaylandError::Adapter(d) => ("no compatible GPU adapter was found: ", d.as_str()),
            WaylandError::Device(d) => ("could not create the GPU device: ", d.as_str()),
            WaylandError::SurfaceConfiguration => ("the Wayland surface has no supported configuration", ""),
            WaylandError::Dispatch(d) => ("Wayland dispatch failed: ", d.as_str()),
        };
        let mut text = String::from_str(prefix);
        text.append(detail);
        proof {
            reveal_strlit("");
        }
        assert(text@ =~= error_text(*self));
        text
    }
}

} // verus!
