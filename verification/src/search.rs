use vstd::prelude::*;

use crate::desktop::{DesktopSnapshot, WindowSummary, WorkspaceSummary};
use crate::text::{
    bounded, bounded_text, decimal, decimal_text, is_substring, lowercase, str_contains, to_lowercase,
    trim, trimmed,
};
use crate::ui::UiAction;

verus! {

/// Most results one search returns.
pub const MAX_SEARCH_RESULTS: usize = 12;

/// Most characters of a search query the shell keeps.
pub const MAX_SEARCH_QUERY: usize = 64;

/// One row of overview search results.
#[derive(Clone, Debug)]
pub struct SearchResult {
    pub title: String,
    pub detail: String,
    pub action: UiAction,
}

/// Title, detail and action of a search result.
pub type SearchHit = (Seq<char>, Seq<char>, UiAction);

/// The abstract content of a search result.
pub open spec fn hit_of(r: SearchResult) -> SearchHit {
    (r.title@, r.detail@, r.action)
}

/// The title shown for a window: its title, or its application id when untitled,
/// cut to 48 characters.
pub open spec fn window_label_text(w: WindowSummary) -> Seq<char> {
    bounded(if w.title@.len() == 0 { w.app_id@ } else { w.title@ }, 48)
}

/// The application name shown in a window's search row.
pub open spec fn app_text(w: WindowSummary) -> Seq<char> {
    if w.app_id@.len() == 0 { "Application"@ } else { bounded(w.app_id@, 32) }
}

/// The lower-cased text a query is matched against for a window.
pub open spec fn window_haystack(w: WindowSummary) -> Seq<char> {
    lowercase(window_label_text(w) + " "@ + app_text(w) + " workspace "@ + decimal(w.workspace.0 as nat))
}

/// The second line of a window's search row.
pub open spec fn window_detail(w: WindowSummary) -> Seq<char> {
    bounded(
        if w.minimized {
            app_text(w) + " · Restore minimized window"@
        } else {
            app_text(w) + " · Workspace "@ + decimal(w.workspace.0 as nat)
        },
        64,
    )
}

/// Activating a window restores it when minimized and focuses it otherwise.
pub open spec fn window_action(w: WindowSummary) -> UiAction {
    if w.minimized { UiAction::RestoreWindow(w.id) } else { UiAction::FocusWindow(w.id) }
}

/// The search hits among `ws`, in order.
pub open spec fn window_hits(ws: Seq<WindowSummary>, needle: Seq<char>) -> Seq<SearchHit>
    decreases ws.len(),
{
    if ws.len() == 0 {
        seq![]
    } else {
        let prev = window_hits(ws.drop_last(), needle);
        let w = ws.last();
        if is_substring(needle, window_haystack(w)) {
            prev.push((window_label_text(w), window_detail(w), window_action(w)))
        } else {
            prev
        }
    }
}

/// The title of a workspace's search row.
pub open spec fn workspace_title(k: WorkspaceSummary) -> Seq<char> {
    "Workspace "@ + decimal(k.workspace.0 as nat)
}

/// The search hits among the workspaces `ks`, in order.
pub open spec fn workspace_hits(ks: Seq<WorkspaceSummary>, needle: Seq<char>) -> Seq<SearchHit>
    decreases ks.len(),
{
    if ks.len() == 0 {
        seq![]
    } else {
        let prev = workspace_hits(ks.drop_last(), needle);
        let k = ks.last();
        if is_substring(needle, lowercase(workspace_title(k))) {
            prev.push((workspace_title(k), "Switch workspace"@, UiAction::FocusWorkspace(k.workspace)))
        } else {
            prev
        }
    }
}

/// The row offered for closing the overview.
pub open spec fn close_hit() -> SearchHit {
    ("Close overview"@, "Return to the desktop"@, UiAction::CloseOverview)
}

/// Search results for `query`: matching windows, then matching workspaces, cut to
/// twelve rows; then, if room is left and the query fits "close overview" or
/// "escape", a row that closes the overview. A blank query finds nothing.
pub open spec fn search_hits(s: DesktopSnapshot, query: Seq<char>) -> Seq<SearchHit> {
    let needle = lowercase(trimmed(query));
    if trimmed(query).len() == 0 || needle.len() == 0 {
        seq![]
    } else {
        let all = window_hits(s.windows@, needle) + workspace_hits(s.workspaces@, needle);
        if all.len() >= 12 {
            all.take(12)
        } else if is_substring(needle, "close overview"@) || is_substring(needle, "escape"@) {
            all.push(close_hit())
        } else {
            all
        }
    }
}

proof fn lemma_window_hits_prefix(ws: Seq<WindowSummary>, j: int, needle: Seq<char>)
    requires
        0 <= j <= ws.len(),
    ensures
        window_hits(ws.take(j), needle).is_prefix_of(window_hits(ws, needle)),
    decreases ws.len(),
{
    if j == ws.len() {
        assert(ws.take(j) =~= ws);
    } else {
        assert(ws.drop_last().take(j) =~= ws.take(j));
        lemma_window_hits_prefix(ws.drop_last(), j, needle);
    }
}

proof fn lemma_workspace_hits_prefix(ks: Seq<WorkspaceSummary>, j: int, needle: Seq<char>)
    requires
        0 <= j <= ks.len(),
    ensures
        workspace_hits(ks.take(j), needle).is_prefix_of(workspace_hits(ks, needle)),
    decreases ks.len(),
{
    if j == ks.len() {
        assert(ks.take(j) =~= ks);
    } else {
        assert(ks.drop_last().take(j) =~= ks.take(j));
        lemma_workspace_hits_prefix(ks.drop_last(), j, needle);
    }
}

/// The label shown for a window: its title, or its application id when
/// untitled, cut to 48 characters.
pub fn window_label(window: &WindowSummary) -> (r: String)
    ensures
        r@ == window_label_text(*window),
{
    if window.title.as_str().is_empty() {
        bounded_text(window.app_id.as_str(), 48)
    } else {
        bounded_text(window.title.as_str(), 48)
    }
}

fn app_name(window: &WindowSummary) -> (r: String)
    ensures
        r@ == app_text(*window),
{
    if window.app_id.as_str().is_empty() {
        String::from_str("Application")
    } else {
        bounded_text(window.app_id.as_str(), 32)
    }
}

fn window_result(window: &WindowSummary, needle: &str) -> (r: Option<SearchResult>)
    ensures
        r is Some <==> is_substring(needle@, window_haystack(*window)),
        r matches Some(x) ==> hit_of(x) == (window_label_text(*window), window_detail(*window), window_action(*window)),
{
    let title = window_label(window);
    let app_id = app_name(window);
    let number = decimal_text(window.workspace.0);
    let mut text = String::new();
    text.append(title.as_str());
    text.append(" ");
    text.append(app_id.as_str());
    text.append(" workspace ");
    text.append(number.as_str());
    let haystack = to_lowercase(text.as_str());
    assert(text@ =~= window_label_text(*window) + " "@ + app_text(*window) + " workspace "@ + decimal(window.workspace.0 as nat));
    if !str_contains(haystack.as_str(), needle) {
        return None;
    }
    let mut detail = String::new();
    detail.append(app_id.as_str());
    let action;
    if window.minimized {
        detail.append(" · Restore minimized window");
        action = UiAction::RestoreWindow(window.id);
    } else {
        detail.append(" · Workspace ");
        detail.append(number.as_str());
        action = UiAction::FocusWindow(window.id);
    }
    let detail = bounded_text(detail.as_str(), 64);
    Some(SearchResult { title, detail, action })
}

/// "Workspace " and the workspace's number.
pub fn workspace_label(workspace: &WorkspaceSummary) -> (r: String)
    ensures
        r@ == workspace_title(*workspace),
{
    let mut title = String::from_str("Workspace ");
    let number = decimal_text(workspace.workspace.0);
    title.append(number.as_str());
    title
}

fn workspace_result(workspace: &WorkspaceSummary, needle: &str) -> (r: Option<SearchResult>)
    ensures
        r is Some <==> is_substring(needle@, lowercase(workspace_title(*workspace))),
        r matches Some(x) ==> hit_of(x) == (workspace_title(*workspace), "Switch workspace"@, UiAction::FocusWorkspace(workspace.workspace)),
{
    let title = workspace_label(workspace);
    let lowered = to_lowercase(title.as_str());
    if str_contains(lowered.as_str(), needle) {
        Some(SearchResult {
            title,
            detail: String::from_str("Switch workspace"),
            action: UiAction::FocusWorkspace(workspace.workspace),
        })
    } else {
        None
    }
}

/// Windows, workspaces and the close action that match `query`, at most twelve.
pub fn search_results(snapshot: &DesktopSnapshot, query: &str) -> (r: Vec<SearchResult>)
    ensures
        r@.map_values(|x: SearchResult| hit_of(x)) == search_hits(*snapshot, query@),
        r@.len() <= MAX_SEARCH_RESULTS,
        trimmed(query@).len() == 0 ==> r@.len() == 0,
{
    let trimmed_query = trim(query);
    let mut results: Vec<SearchResult> = Vec::new();
    if trimmed_query.is_empty() {
        assert(results@.map_values(|x: SearchResult| hit_of(x)) =~= search_hits(*snapshot, query@));
        return results;
    }
    let needle = to_lowercase(trimmed_query);
    let ghost n = needle@;
    let ghost ws = snapshot.windows@;
    let ghost ks = snapshot.workspaces@;
    if needle.as_str().is_empty() {
        assert(results@.map_values(|x: SearchResult| hit_of(x)) =~= search_hits(*snapshot, query@));
        return results;
    }
    let mut i: usize = 0;
    while i < snapshot.windows.len()
        invariant
            i <= ws.len(),
            ws == snapshot.windows@,
            n == needle@,
            n == lowercase(trimmed(query@)),
            n.len() > 0,
            trimmed(query@).len() > 0,
            results@.len() < MAX_SEARCH_RESULTS,
            results@.map_values(|x: SearchResult| hit_of(x)) == window_hits(ws.take(i as int), n),
        decreases ws.len() - i,
    {
        let ghost before = results@;
        assert(ws.take(i + 1).drop_last() =~= ws.take(i as int));
        assert(ws.take(i + 1).last() == ws[i as int]);
        match window_result(&snapshot.windows[i], needle.as_str()) {
            Some(hit) => {
                results.push(hit);
                assert(results@.map_values(|x: SearchResult| hit_of(x)) =~= before.map_values(|x: SearchResult| hit_of(x)).push(hit_of(hit)));
                if results.len() == MAX_SEARCH_RESULTS {
                    proof {
                        lemma_window_hits_prefix(ws, i + 1, n);
                        assert(ws.take(ws.len() as int) =~= ws);
                        let all = window_hits(ws, n) + workspace_hits(ks, n);
                        assert(all.take(12) =~= results@.map_values(|x: SearchResult| hit_of(x)));
                    }
                    return results;
                }
            },
            None => {},
        }
        i = i + 1;
    }
    assert(ws.take(ws.len() as int) =~= ws);
    let mut j: usize = 0;
    while j < snapshot.workspaces.len()
        invariant
            j <= ks.len(),
            ks == snapshot.workspaces@,
            ws == snapshot.windows@,
            n == needle@,
            n == lowercase(trimmed(query@)),
            n.len() > 0,
            trimmed(query@).len() > 0,
            results@.len() < MAX_SEARCH_RESULTS,
            results@.map_values(|x: SearchResult| hit_of(x)) == window_hits(ws, n) + workspace_hits(ks.take(j as int), n),
        decreases ks.len() - j,
    {
        let ghost before = results@;
        assert(ks.take(j + 1).drop_last() =~= ks.take(j as int));
        assert(ks.take(j + 1).last() == ks[j as int]);
        match workspace_result(&snapshot.workspaces[j], needle.as_str()) {
            Some(hit) => {
                results.push(hit);
                assert(results@.map_values(|x: SearchResult| hit_of(x)) =~= before.map_values(|x: SearchResult| hit_of(x)).push(hit_of(hit)));
                assert(results@.map_values(|x: SearchResult| hit_of(x)) =~= window_hits(ws, n) + workspace_hits(ks.take(j + 1), n));
                if results.len() == MAX_SEARCH_RESULTS {
                    proof {
                        lemma_workspace_hits_prefix(ks, j + 1, n);
                        let all = window_hits(ws, n) + workspace_hits(ks, n);
                        assert(all.take(12) =~= results@.map_values(|x: SearchResult| hit_of(x)));
                    }
                    return results;
                }
            },
            None => {},
        }
        j = j + 1;
    }
    assert(ks.take(ks.len() as int) =~= ks);
    let ghost before = results@;
    if str_contains("close overview", needle.as_str()) || str_contains("escape", needle.as_str()) {
        results.push(SearchResult {
            title: String::from_str("Close overview"),
            detail: String::from_str("Return to the desktop"),
            action: UiAction::CloseOverview,
        });
        assert(results@.map_values(|x: SearchResult| hit_of(x)) =~= before.map_values(|x: SearchResult| hit_of(x)).push(close_hit()));
    }
    results
}

/// Every window whose text matches has its hit among the window hits.
pub(crate) proof fn lemma_window_hit_present(ws: Seq<WindowSummary>, needle: Seq<char>, i: int)
    requires
        0 <= i < ws.len(),
        is_substring(needle, window_haystack(ws[i])),
    ensures
        exists|k: int| 0 <= k < window_hits(ws, needle).len()
            && #[trigger] window_hits(ws, needle)[k] == (window_label_text(ws[i]), window_detail(ws[i]), window_action(ws[i])),
    decreases ws.len(),
{
    let prev = window_hits(ws.drop_last(), needle);
    if i == ws.len() - 1 {
        assert(window_hits(ws, needle)[prev.len() as int] == (window_label_text(ws[i]), window_detail(ws[i]), window_action(ws[i])));
    } else {
        assert(ws.drop_last()[i] == ws[i]);
        lemma_window_hit_present(ws.drop_last(), needle, i);
        let k = choose|k: int| 0 <= k < prev.len() && #[trigger] prev[k] == (window_label_text(ws[i]), window_detail(ws[i]), window_action(ws[i]));
        assert(window_hits(ws, needle)[k] == prev[k]);
    }
}

/// The hit a window gives.
pub open spec fn window_hit(w: WindowSummary) -> SearchHit {
    (window_label_text(w), window_detail(w), window_action(w))
}

/// Whether `hit` is the hit of a window of `ws` whose text contains `needle`.
pub open spec fn hit_from(ws: Seq<WindowSummary>, needle: Seq<char>, hit: SearchHit) -> bool {
    exists|i: int| #![trigger window_hit(ws[i])] 0 <= i < ws.len()
        && is_substring(needle, window_haystack(ws[i]))
        && hit == window_hit(ws[i])
}

/// Every window hit comes from a window whose text matches.
pub(crate) proof fn lemma_window_hit_source(ws: Seq<WindowSummary>, needle: Seq<char>)
    ensures
        forall|k: int| 0 <= k < window_hits(ws, needle).len() ==> hit_from(ws, needle, #[trigger] window_hits(ws, needle)[k]),
    decreases ws.len(),
{
    if ws.len() > 0 {
        let rest = ws.drop_last();
        lemma_window_hit_source(rest, needle);
        let prev = window_hits(rest, needle);
        let out = window_hits(ws, needle);
        assert forall|k: int| 0 <= k < out.len() implies hit_from(ws, needle, #[trigger] out[k]) by {
            if k < prev.len() {
                assert(hit_from(rest, needle, prev[k]));
                let i = choose|i: int| #![trigger window_hit(rest[i])] 0 <= i < rest.len()
                    && is_substring(needle, window_haystack(rest[i]))
                    && prev[k] == window_hit(rest[i]);
                assert(out[k] == prev[k]);
                assert(ws[i] == rest[i]);
                assert(out[k] == window_hit(ws[i]));
            } else {
                let n = ws.len() - 1;
                assert(out[k] == window_hit(ws[n]));
            }
        }
    }
}

/// Workspace hits focus a workspace.
pub(crate) proof fn lemma_workspace_hit_actions(ks: Seq<WorkspaceSummary>, needle: Seq<char>)
    ensures
        forall|k: int| 0 <= k < workspace_hits(ks, needle).len() ==> (#[trigger] workspace_hits(ks, needle)[k]).2 is FocusWorkspace,
    decreases ks.len(),
{
    if ks.len() > 0 {
        lemma_workspace_hit_actions(ks.drop_last(), needle);
        let prev = workspace_hits(ks.drop_last(), needle);
        assert forall|k: int| 0 <= k < workspace_hits(ks, needle).len() implies (#[trigger] workspace_hits(ks, needle)[k]).2 is FocusWorkspace by {
            if k < prev.len() {
                assert(workspace_hits(ks, needle)[k] == prev[k]);
            }
        }
    }
}

/// Every workspace whose title matches has its hit among the workspace hits.
pub(crate) proof fn lemma_workspace_hit_present(ks: Seq<WorkspaceSummary>, needle: Seq<char>, j: int)
    requires
        0 <= j < ks.len(),
        is_substring(needle, lowercase(workspace_title(ks[j]))),
    ensures
        exists|m: int| 0 <= m < workspace_hits(ks, needle).len()
            && #[trigger] workspace_hits(ks, needle)[m] == (workspace_title(ks[j]), "Switch workspace"@, UiAction::FocusWorkspace(ks[j].workspace)),
    decreases ks.len(),
{
    let prev = workspace_hits(ks.drop_last(), needle);
    if j == ks.len() - 1 {
        assert(workspace_hits(ks, needle)[prev.len() as int] == (workspace_title(ks[j]), "Switch workspace"@, UiAction::FocusWorkspace(ks[j].workspace)));
    } else {
        assert(ks.drop_last()[j] == ks[j]);
        lemma_workspace_hit_present(ks.drop_last(), needle, j);
        let m = choose|m: int| 0 <= m < prev.len() && #[trigger] prev[m] == (workspace_title(ks[j]), "Switch workspace"@, UiAction::FocusWorkspace(ks[j].workspace));
        assert(workspace_hits(ks, needle)[m] == prev[m]);
    }
}

} // verus!
