use vstd::prelude::*;

use crate::desktop::{DesktopSnapshot, WindowSummary, WorkspaceId, WorkspaceSummary};
use crate::search::{window_action, SearchResult};
use crate::text::{bounded, bounded_text, decimal, decimal_text};
use crate::ui::{Color, UiAction, WorkspacePreviewImage};

verus! {

/// Most cards the overview shows for windows that are not minimized.
pub const MAX_OVERVIEW_TILED: usize = 12;

/// Most cards the overview shows for minimized windows.
pub const MAX_OVERVIEW_MINIMIZED: usize = 24;

/// Most workspace previews the overview shows.
pub const MAX_OVERVIEW_WORKSPACES: usize = 10;

/// Columns of the overview's window grid.
pub const OVERVIEW_COLUMNS: usize = 4;

/// The index of the first workspace marked active.
pub open spec fn first_active(ks: Seq<WorkspaceSummary>) -> Option<int>
    decreases ks.len(),
{
    if ks.len() == 0 {
        None
    } else if ks[0].active {
        Some(0)
    } else {
        match first_active(ks.drop_first()) {
            Some(i) => Some(i + 1),
            None => None,
        }
    }
}

proof fn lemma_first_active(ks: Seq<WorkspaceSummary>, i: int)
    requires
        0 <= i <= ks.len(),
        forall|j: int| 0 <= j < i ==> !(#[trigger] ks[j]).active,
    ensures
        i < ks.len() && ks[i].active ==> first_active(ks) == Some(i),
        i == ks.len() ==> first_active(ks) is None,
    decreases i,
{
    if i > 0 {
        assert forall|j: int| 0 <= j < i - 1 implies !(#[trigger] ks.drop_first()[j]).active by {
            assert(ks.drop_first()[j] == ks[j + 1]);
        }
        lemma_first_active(ks.drop_first(), i - 1);
    }
}

/// The position of the active workspace in the snapshot, the first if several.
pub fn active_workspace(snapshot: &DesktopSnapshot) -> (r: Option<usize>)
    ensures
        match r {
            Some(i) => first_active(snapshot.workspaces@) == Some(i as int)
                && i < snapshot.workspaces@.len() && snapshot.workspaces@[i as int].active,
            None => first_active(snapshot.workspaces@) is None,
        },
{
    let mut i: usize = 0;
    while i < snapshot.workspaces.len()
        invariant
            i <= snapshot.workspaces@.len(),
            forall|j: int| 0 <= j < i ==> !(#[trigger] snapshot.workspaces@[j]).active,
        decreases snapshot.workspaces@.len() - i,
    {
        if snapshot.workspaces[i].active {
            proof {
                lemma_first_active(snapshot.workspaces@, i as int);
            }
            return Some(i);
        }
        i = i + 1;
    }
    proof {
        lemma_first_active(snapshot.workspaces@, i as int);
    }
    None
}

/// The bar's title: the active workspace, or the desktop's name.
pub open spec fn bar_title_text(snapshot: Option<DesktopSnapshot>) -> Seq<char> {
    match snapshot {
        Some(s) => match first_active(s.workspaces@) {
            Some(i) => "Workspace "@ + decimal(s.workspaces@[i].workspace.0 as nat),
            None => "Knave"@,
        },
        None => "Knave"@,
    }
}

/// The bar's title text.
pub fn bar_title(snapshot: Option<&DesktopSnapshot>) -> (r: String)
    ensures
        r@ == bar_title_text(match snapshot {
            Some(s) => Some(*s),
            None => None,
        }),
{
    match snapshot {
        Some(s) => match active_workspace(s) {
            Some(i) => {
                let mut title = String::from_str("Workspace ");
                let number = decimal_text(s.workspaces[i].workspace.0);
                title.append(number.as_str());
                title
            },
            None => String::from_str("Knave"),
        },
        None => String::from_str("Knave"),
    }
}

/// Workspace numbers are highlighted when active.
pub fn workspace_color(active: bool) -> (c: Color)
    ensures
        c == (if active {
            Color { red: 93, green: 173, blue: 226, alpha: 255 }
        } else {
            Color { red: 240, green: 244, blue: 248, alpha: 255 }
        }),
{
    if active { Color::accent() } else { Color::text() }
}

/// Preview and window tiles are highlighted when active or focused.
pub fn tile_color(highlighted: bool) -> (c: Color)
    ensures
        c == (if highlighted {
            Color { red: 93, green: 173, blue: 226, alpha: 255 }
        } else {
            Color { red: 35, green: 48, blue: 64, alpha: 255 }
        }),
{
    if highlighted { Color::accent() } else { Color::rgba(35, 48, 64, 255) }
}

/// The overview heading: the active workspace and its window count, or the
/// search query cut to 64 characters while searching.
pub open spec fn heading_text(k: WorkspaceSummary, query: Seq<char>) -> Seq<char> {
    if query.len() == 0 {
        "Workspace "@ + decimal(k.workspace.0 as nat) + " · "@ + decimal(k.window_count as nat) + " windows"@
    } else {
        "Search: "@ + bounded(query, 64)
    }
}

/// The overview heading text.
pub fn overview_heading(workspace: &WorkspaceSummary, query: &str) -> (r: String)
    ensures
        r@ == heading_text(*workspace, query@),
{
    if query.is_empty() {
        let mut text = String::from_str("Workspace ");
        let number = decimal_text(workspace.workspace.0);
        text.append(number.as_str());
        text.append(" · ");
        let count = decimal_text(workspace.window_count);
        text.append(count.as_str());
        text.append(" windows");
        text
    } else {
        let mut text = String::from_str("Search: ");
        let q = bounded_text(query, 64);
        text.append(q.as_str());
        text
    }
}

/// The overview cards among the first windows of `ws`, with the number of
/// tiled and of minimized cards: a window on `workspace` gets a card while
/// fewer than 12 tiled (or 24 minimized) windows have one.
pub open spec fn card_fold(ws: Seq<WindowSummary>, workspace: WorkspaceId) -> (Seq<int>, int, int)
    decreases ws.len(),
{
    if ws.len() == 0 {
        (seq![], 0, 0)
    } else {
        let (cards, tiled, minimized) = card_fold(ws.drop_last(), workspace);
        let w = ws.last();
        if w.workspace != workspace {
            (cards, tiled, minimized)
        } else if w.minimized {
            if minimized < MAX_OVERVIEW_MINIMIZED {
                (cards.push(ws.len() - 1), tiled, minimized + 1)
            } else {
                (cards, tiled, minimized)
            }
        } else if tiled < MAX_OVERVIEW_TILED {
            (cards.push(ws.len() - 1), tiled + 1, minimized)
        } else {
            (cards, tiled, minimized)
        }
    }
}

/// The windows shown as overview cards, in snapshot order: the first 12 tiled
/// and the first 24 minimized windows on `workspace`.
pub open spec fn overview_cards(ws: Seq<WindowSummary>, workspace: WorkspaceId) -> Seq<int> {
    card_fold(ws, workspace).0
}

/// Whether the window at a position of `ws` is minimized.
pub open spec fn minimized_at(ws: Seq<WindowSummary>) -> spec_fn(int) -> bool {
    |i: int| ws[i].minimized
}

/// Whether the window at a position of `ws` is not minimized.
pub open spec fn tiled_at(ws: Seq<WindowSummary>) -> spec_fn(int) -> bool {
    |i: int| !ws[i].minimized
}

pub(crate) proof fn lemma_card_fold(ws: Seq<WindowSummary>, full: Seq<WindowSummary>, workspace: WorkspaceId)
    requires
        ws.len() <= full.len(),
        forall|i: int| 0 <= i < ws.len() ==> full[i] == ws[i],
    ensures
        ({
            let (cards, tiled, minimized) = card_fold(ws, workspace);
            &&& 0 <= tiled <= MAX_OVERVIEW_TILED
            &&& 0 <= minimized <= MAX_OVERVIEW_MINIMIZED
            &&& cards.filter(tiled_at(full)).len() == tiled
            &&& cards.filter(minimized_at(full)).len() == minimized
            &&& forall|k: int| 0 <= k < cards.len() ==> 0 <= #[trigger] cards[k] < ws.len() && ws[cards[k]].workspace == workspace
            &&& forall|k: int, j: int| 0 <= k < j < cards.len() ==> cards[k] < cards[j]
        }),
    decreases ws.len(),
{
    reveal(Seq::filter);
    if ws.len() > 0 {
        let rest = ws.drop_last();
        lemma_card_fold(rest, full, workspace);
        let (cards, tiled, minimized) = card_fold(rest, workspace);
        let x = ws.len() - 1;
        let pushed = cards.push(x);
        assert(pushed.drop_last() =~= cards);
        assert(full[x] == ws.last());
    }
}

/// Whether a window is on `workspace` and minimized exactly when `minimized` is.
pub open spec fn card_kind(workspace: WorkspaceId, minimized: bool) -> spec_fn(WindowSummary) -> bool {
    |x: WindowSummary| x.workspace == workspace && x.minimized == minimized
}

/// The card cap for tiled (12) or minimized (24) windows.
pub open spec fn card_cap(minimized: bool) -> int {
    if minimized { MAX_OVERVIEW_MINIMIZED as int } else { MAX_OVERVIEW_TILED as int }
}

pub(crate) proof fn lemma_cards_exact(ws: Seq<WindowSummary>, workspace: WorkspaceId)
    ensures
        card_fold(ws, workspace).1 == (if ws.filter(card_kind(workspace, false)).len() < MAX_OVERVIEW_TILED {
            ws.filter(card_kind(workspace, false)).len() as int
        } else {
            MAX_OVERVIEW_TILED as int
        }),
        card_fold(ws, workspace).2 == (if ws.filter(card_kind(workspace, true)).len() < MAX_OVERVIEW_MINIMIZED {
            ws.filter(card_kind(workspace, true)).len() as int
        } else {
            MAX_OVERVIEW_MINIMIZED as int
        }),
        forall|i: int| 0 <= i < ws.len() ==> (card_fold(ws, workspace).0.contains(i) <==> {
            &&& (#[trigger] ws[i]).workspace == workspace
            &&& ws.take(i).filter(card_kind(workspace, ws[i].minimized)).len() < card_cap(ws[i].minimized)
        }),
        forall|k: int| 0 <= k < card_fold(ws, workspace).0.len() ==> 0 <= #[trigger] card_fold(ws, workspace).0[k] < ws.len(),
    decreases ws.len(),
{
    reveal(Seq::filter);
    if ws.len() > 0 {
        let rest = ws.drop_last();
        lemma_cards_exact(rest, workspace);
        let n = ws.len() - 1;
        let (cards, t, m) = card_fold(rest, workspace);
        let out = card_fold(ws, workspace).0;
        assert(ws.take(n) =~= rest);
        assert forall|i: int| 0 <= i < ws.len() implies (out.contains(i) <==> {
            &&& (#[trigger] ws[i]).workspace == workspace
            &&& ws.take(i).filter(card_kind(workspace, ws[i].minimized)).len() < card_cap(ws[i].minimized)
        }) by {
            if i < n {
                assert(rest[i] == ws[i]);
                assert(rest.take(i) =~= ws.take(i));
                if out.contains(i) {
                    let k = choose|k: int| 0 <= k < out.len() && out[k] == i;
                    if k < cards.len() {
                        assert(cards.contains(i));
                    }
                }
                if cards.contains(i) {
                    let k = choose|k: int| 0 <= k < cards.len() && cards[k] == i;
                    assert(out[k] == cards[k]);
                }
            } else {
                if out.contains(i) {
                    let k = choose|k: int| 0 <= k < out.len() && out[k] == i;
                    if k < cards.len() {
                        assert(cards[k] < rest.len());
                    }
                }
                if out.len() > cards.len() {
                    assert(out[cards.len() as int] == n);
                }
            }
        }
    }
}

/// The positions, in the snapshot, of the windows the overview shows as cards.
pub fn overview_windows(snapshot: &DesktopSnapshot, workspace: WorkspaceId) -> (r: Vec<usize>)
    ensures
        r@.map_values(|i: usize| i as int) == overview_cards(snapshot.windows@, workspace),
{
    let ghost ws = snapshot.windows@;
    let mut cards: Vec<usize> = Vec::new();
    let mut tiled: usize = 0;
    let mut minimized: usize = 0;
    let mut i: usize = 0;
    while i < snapshot.windows.len()
        invariant
            ws == snapshot.windows@,
            i <= ws.len(),
            tiled <= MAX_OVERVIEW_TILED,
            minimized <= MAX_OVERVIEW_MINIMIZED,
            cards@.len() <= i,
            (cards@.map_values(|i: usize| i as int), tiled as int, minimized as int) == card_fold(ws.take(i as int), workspace),
        decreases ws.len() - i,
    {
        assert(ws.take(i + 1).drop_last() =~= ws.take(i as int));
        assert(ws.take(i + 1).last() == ws[i as int]);
        let ghost before = cards@;
        let window = &snapshot.windows[i];
        if window.workspace == workspace {
            if window.minimized {
                if minimized < MAX_OVERVIEW_MINIMIZED {
                    cards.push(i);
                    minimized = minimized + 1;
                    assert(cards@.map_values(|i: usize| i as int) =~= before.map_values(|i: usize| i as int).push(i as int));
                }
            } else if tiled < MAX_OVERVIEW_TILED {
                cards.push(i);
                tiled = tiled + 1;
                assert(cards@.map_values(|i: usize| i as int) =~= before.map_values(|i: usize| i as int).push(i as int));
            }
        }
        i = i + 1;
    }
    assert(ws.take(ws.len() as int) =~= ws);
    cards
}

/// How many workspaces the overview shows, in snapshot order: at most 10.
pub fn overview_workspace_count(snapshot: &DesktopSnapshot) -> (n: usize)
    ensures
        n == (if snapshot.workspaces@.len() <= MAX_OVERVIEW_WORKSPACES {
            snapshot.workspaces@.len()
        } else {
            MAX_OVERVIEW_WORKSPACES as nat
        }),
        n <= MAX_OVERVIEW_WORKSPACES,
{
    if snapshot.workspaces.len() <= MAX_OVERVIEW_WORKSPACES {
        snapshot.workspaces.len()
    } else {
        MAX_OVERVIEW_WORKSPACES
    }
}

/// What activating a window does: restore it when minimized, focus it otherwise.
pub fn window_activation(window: &WindowSummary) -> (a: UiAction)
    ensures
        a == window_action(*window),
{
    if window.minimized { UiAction::RestoreWindow(window.id) } else { UiAction::FocusWindow(window.id) }
}

/// The position of the first preview of `workspace`.
pub fn preview_for(previews: &[WorkspacePreviewImage], workspace: WorkspaceId) -> (r: Option<usize>)
    ensures
        match r {
            Some(i) => i < previews@.len() && previews@[i as int].workspace == workspace
                && forall|j: int| 0 <= j < i ==> (#[trigger] previews@[j]).workspace != workspace,
            None => forall|j: int| 0 <= j < previews@.len() ==> (#[trigger] previews@[j]).workspace != workspace,
        },
{
    let mut i: usize = 0;
    while i < previews.len()
        invariant
            i <= previews@.len(),
            forall|j: int| 0 <= j < i ==> (#[trigger] previews@[j]).workspace != workspace,
        decreases previews@.len() - i,
    {
        if previews[i].workspace == workspace {
            return Some(i);
        }
        i = i + 1;
    }
    None
}

/// One row of the overview's search list.
#[derive(Clone, Debug)]
pub struct SearchRow {
    pub text: String,
    pub action: UiAction,
    pub selected: bool,
}

/// The text of a search row: title and detail, cut to 96 characters.
pub open spec fn row_text(r: SearchResult) -> Seq<char> {
    bounded(r.title@ + " · "@ + r.detail@, 96)
}

/// The search list: one row per result; the selected row is the one at
/// `selected`, or the last row when `selected` is past the end.
pub fn search_rows(results: &Vec<SearchResult>, selected: usize) -> (rows: Vec<SearchRow>)
    ensures
        rows@.len() == results@.len(),
        forall|i: int| 0 <= i < rows@.len() ==> {
            &&& (#[trigger] rows@[i]).text@ == row_text(results@[i])
            &&& rows@[i].action == results@[i].action
            &&& rows@[i].selected == (i == (if selected < results@.len() { selected as int } else { results@.len() - 1 }))
        },
{
    let n = results.len();
    let chosen = if selected < n { selected } else if n > 0 { n - 1 } else { 0 };
    let mut rows: Vec<SearchRow> = Vec::new();
    let mut i: usize = 0;
    while i < n
        invariant
            n == results@.len(),
            i <= n,
            n > 0 ==> chosen == (if selected < n { selected as int } else { n - 1 }),
            rows@.len() == i,
            forall|k: int| 0 <= k < i ==> {
                &&& (#[trigger] rows@[k]).text@ == row_text(results@[k])
                &&& rows@[k].action == results@[k].action
                &&& rows@[k].selected == (k == chosen)
            },
        decreases n - i,
    {
        let mut text = String::new();
        text.append(results[i].title.as_str());
        text.append(" · ");
        text.append(results[i].detail.as_str());
        let text = bounded_text(text.as_str(), 96);
        rows.push(SearchRow { text, action: results[i].action, selected: i == chosen });
        i = i + 1;
    }
    rows
}

} // verus!
