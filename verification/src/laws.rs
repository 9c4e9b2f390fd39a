use vstd::prelude::*;

use crate::catalog::{
    answers_to, first_by_key, icon_pairs, icon_targets_spec, lemma_icon_pairs, lemma_first_answering_found, merged_icons, normalized_id,
    CatalogEntry,
};
use crate::desktop::{DesktopCommand, DesktopSnapshot, WindowSummary, WorkspaceId, WorkspacePreview};
use crate::icon::{decoded_png_icon, fitted_extent, fitted_icon, fitted_icon_byte, icon_scale, longer_side};
use crate::sampling::{lemma_resampled_channel, lemma_resampled_transparent, lemma_sample_pos_range, sample_pos};
use crate::scene::{card_kind, lemma_cards_exact, lemma_card_fold, minimized_at, overview_cards, tiled_at};
use crate::preview::{decoded_preview, preview_from_frame};
use crate::raster::PixelLayout;
use crate::catalog::{launchable, EntryFlags};
use crate::search::{hit_from, lemma_window_hit_source, lemma_workspace_hit_actions, window_hit, lemma_window_hit_present, search_hits};
use crate::text::{bounded, decimal, digit, is_substring};
use crate::shell::{action_response, key_step, typed, ShellRole};
use crate::text::{lowercase, trimmed};
use crate::ui::{UiAction, UiImage};
use crate::order::{before, is_catalog_order, lemma_before_order, lemma_lex_asymmetric, lemma_lex_irreflexive, lex_lt};

verus! {

proof fn lemma_typed_bounded(query: Seq<char>, text: Seq<char>)
    requires
        query.len() <= 64,
    ensures
        typed(query, text).len() <= 64,
    decreases text.len(),
{
    if text.len() > 0 {
        if crate::text::is_control_char(text[0]) {
            lemma_typed_bounded(query, text.drop_first());
        } else if query.len() < 64 {
            lemma_typed_bounded(query.push(text[0]), text.drop_first());
        }
    }
}

/// Search text is capped at 64 characters: no key press takes a query of at
/// most 64 characters past 64.
pub proof fn law_query_stays_bounded(
    role: ShellRole,
    query: Seq<char>,
    index: usize,
    keysym: u32,
    text: Option<Seq<char>>,
    count: usize,
    selected: Option<UiAction>,
)
    requires
        query.len() <= 64,
    ensures
        key_step(role, query, index, keysym, text, count, selected).0.len() <= 64,
{
    if let Some(t) = text {
        lemma_typed_bounded(query, t);
    }
}

/// The selected search result stays among the results: a key press keeps a
/// selection below the result count below it.
pub proof fn law_selection_stays_in_range(
    role: ShellRole,
    query: Seq<char>,
    index: usize,
    keysym: u32,
    text: Option<Seq<char>>,
    count: usize,
    selected: Option<UiAction>,
)
    requires
        index < count,
    ensures
        key_step(role, query, index, keysym, text, count, selected).1 < count,
{
}

/// Every action taken in the overview closes it.
pub proof fn law_overview_closes_after_action(action: UiAction)
    ensures
        action_response(ShellRole::Overview, action).exit,
{
}

/// A search returns at most twelve results, and a blank query none.
pub proof fn law_search_is_bounded(s: DesktopSnapshot, query: Seq<char>)
    ensures
        search_hits(s, query).len() <= 12,
        trimmed(query).len() == 0 ==> search_hits(s, query).len() == 0,
        lowercase(trimmed(query)).len() == 0 ==> search_hits(s, query).len() == 0,
{
}

/// A decoded preview is exactly the requested 320x180, 230,400 RGBA bytes.
pub proof fn law_preview_has_requested_size(p: WorkspacePreview)
    ensures
        decoded_preview(p) matches Some(v) ==> {
            &&& v.1 == 320
            &&& v.2 == 180
            &&& v.3.len() == 230400
        },
{
}

/// A decoded icon is always 48x48 RGBA8.
pub proof fn law_icons_are_48_square(bytes: Seq<u8>)
    ensures
        decoded_png_icon(bytes) matches Some(v) ==> v.0 == 48 && v.1 == 48 && v.2.len() == 9216,
{
}

/// Fitting keeps the aspect ratio: the longer side fills the 48 pixels and each
/// side is scaled by the same factor (to the nearest pixel, at least one).
pub proof fn law_fit_fills_longer_side(w: int, h: int)
    requires
        1 <= w <= 0xffff_ffff,
        1 <= h <= 0xffff_ffff,
    ensures
        fitted_extent(longer_side(w, h), w, h) == 48,
        1 <= fitted_extent(w, w, h) <= 48,
        1 <= fitted_extent(h, w, h) <= 48,
{
    crate::icon::lemma_longer_side_fills(w, h);
    crate::icon::lemma_extent_bounds(w, w, h);
    crate::icon::lemma_extent_bounds(h, w, h);
}

/// Published icons never exceed 48, however many updates pile up.
pub proof fn law_published_icons_bounded(previous: Seq<(String, UiImage)>, newer: Seq<(String, UiImage)>)
    ensures
        merged_icons(previous, newer).len() <= 48,
{
}

/// Coalesced icon requests name each normalized id at most once and number at
/// most `cap`.
pub proof fn law_requests_are_distinct(ids: Seq<Seq<char>>, cap: int)
    requires
        cap >= 0,
    ensures
        first_by_key(ids, cap).len() <= cap,
        forall|i: int, j: int| 0 <= i < j < first_by_key(ids, cap).len() ==>
            normalized_id(#[trigger] first_by_key(ids, cap)[i]) != normalized_id(#[trigger] first_by_key(ids, cap)[j]),
    decreases ids.len(),
{
    if ids.len() > 0 {
        law_requests_are_distinct(ids.drop_last(), cap);
        let kept = first_by_key(ids.drop_last(), cap);
        let r = first_by_key(ids, cap);
        assert forall|i: int, j: int| 0 <= i < j < r.len() implies
            normalized_id(#[trigger] r[i]) != normalized_id(#[trigger] r[j]) by {
            if j == kept.len() {
                assert(r[i] == kept[i]);
            } else {
                assert(r[i] == kept[i] && r[j] == kept[j]);
            }
        }
    }
}

/// The overview shows at most 12 tiled and 24 minimized window cards, each for
/// a window on the shown workspace, in snapshot order.
pub proof fn law_overview_cards_bounded(ws: Seq<WindowSummary>, workspace: WorkspaceId)
    ensures
        overview_cards(ws, workspace).filter(tiled_at(ws)).len() <= 12,
        overview_cards(ws, workspace).filter(minimized_at(ws)).len() <= 24,
        forall|k: int| 0 <= k < overview_cards(ws, workspace).len() ==>
            0 <= #[trigger] overview_cards(ws, workspace)[k] < ws.len()
            && ws[overview_cards(ws, workspace)[k]].workspace == workspace,
        forall|k: int, j: int| 0 <= k < j < overview_cards(ws, workspace).len() ==>
            overview_cards(ws, workspace)[k] < overview_cards(ws, workspace)[j],
{
    lemma_card_fold(ws, ws, workspace);
}

/// An icon request is served by distinct applications, no more than ids were
/// requested, each one an application that some requested id belongs to.
pub proof fn law_icon_targets_distinct(entries: Seq<CatalogEntry>, request: Seq<Seq<char>>)
    ensures
        icon_targets_spec(entries, request).len() <= request.len(),
        forall|k: int| 0 <= k < icon_targets_spec(entries, request).len() ==> {
            let t = #[trigger] icon_targets_spec(entries, request)[k];
            &&& 0 <= t < entries.len()
            &&& exists|n: int| 0 <= n < request.len() && answers_to(entries[t], normalized_id(#[trigger] request[n]))
        },
        forall|k: int, j: int| 0 <= k < j < icon_targets_spec(entries, request).len() ==>
            entries[#[trigger] icon_targets_spec(entries, request)[k]].summary.id@
                != entries[#[trigger] icon_targets_spec(entries, request)[j]].summary.id@,
    decreases request.len(),
{
    if request.len() > 0 {
        let rest = request.drop_last();
        law_icon_targets_distinct(entries, rest);
        let taken = icon_targets_spec(entries, rest);
        let t = icon_targets_spec(entries, request);
        lemma_first_answering_found(entries, normalized_id(request.last()));
        assert forall|k: int| 0 <= k < t.len() implies {
            let x = #[trigger] t[k];
            &&& 0 <= x < entries.len()
            &&& exists|n: int| 0 <= n < request.len() && answers_to(entries[x], normalized_id(#[trigger] request[n]))
        } by {
            if k < taken.len() {
                assert(t[k] == taken[k]);
                let n = choose|n: int| 0 <= n < rest.len() && answers_to(entries[taken[k]], normalized_id(#[trigger] rest[n]));
                assert(request[n] == rest[n]);
            } else {
                assert(request[request.len() - 1] == request.last());
            }
        }
        assert forall|k: int, j: int| 0 <= k < j < t.len() implies
            entries[#[trigger] t[k]].summary.id@ != entries[#[trigger] t[j]].summary.id@ by {
            if j < taken.len() {
                assert(t[k] == taken[k] && t[j] == taken[j]);
            } else {
                assert(t[k] == taken[k]);
            }
        }
    }
}

/// Every icon update after the application list carries at most 48 icons, of
/// distinct applications, each one an application that some requested id
/// belongs to, each icon 48x48 when every icon found is.
pub proof fn law_icon_updates(entries: Seq<CatalogEntry>, request: Seq<Seq<char>>, found: Seq<Option<UiImage>>)
    requires
        found.len() == icon_targets_spec(entries, request).len(),
    ensures
        icon_pairs(entries, icon_targets_spec(entries, request), found).len() <= 48,
        forall|p: int, q: int| 0 <= p < q < icon_pairs(entries, icon_targets_spec(entries, request), found).len() ==>
            (#[trigger] icon_pairs(entries, icon_targets_spec(entries, request), found)[p]).0@
                != (#[trigger] icon_pairs(entries, icon_targets_spec(entries, request), found)[q]).0@,
        forall|p: int| 0 <= p < icon_pairs(entries, icon_targets_spec(entries, request), found).len() ==>
            exists|e: int, n: int| 0 <= e < entries.len() && 0 <= n < request.len()
                && entries[e].summary.id == (#[trigger] icon_pairs(entries, icon_targets_spec(entries, request), found)[p]).0
                && answers_to(entries[e], normalized_id(request[n])),
        (forall|k: int| 0 <= k < found.len() ==> (#[trigger] found[k] matches Some(img) ==> img.spec_width() == 48 && img.spec_height() == 48))
            ==> forall|p: int| 0 <= p < icon_pairs(entries, icon_targets_spec(entries, request), found).len() ==>
                (#[trigger] icon_pairs(entries, icon_targets_spec(entries, request), found)[p]).1.spec_width() == 48
                && icon_pairs(entries, icon_targets_spec(entries, request), found)[p].1.spec_height() == 48,
{
    let t = icon_targets_spec(entries, request);
    law_icon_targets_distinct(entries, request);
    lemma_icon_pairs(entries, t, found);
    let r = icon_pairs(entries, t, found);
    assert forall|p: int| 0 <= p < r.len() implies exists|e: int, n: int| 0 <= e < entries.len() && 0 <= n < request.len()
        && entries[e].summary.id == (#[trigger] r[p]).0 && answers_to(entries[e], normalized_id(request[n])) by {
        let k = choose|k: int| 0 <= k < found.len() && (#[trigger] r[p]).0 == entries[t[k]].summary.id && found[k] == Some(r[p].1);
        let e = t[k];
        let n = choose|n: int| 0 <= n < request.len() && answers_to(entries[e], normalized_id(#[trigger] request[n]));
    }
    if forall|k: int| 0 <= k < found.len() ==> (#[trigger] found[k] matches Some(img) ==> img.spec_width() == 48 && img.spec_height() == 48) {
        assert forall|p: int| 0 <= p < r.len() implies (#[trigger] r[p]).1.spec_width() == 48 && r[p].1.spec_height() == 48 by {
            let k = choose|k: int| 0 <= k < found.len() && (#[trigger] r[p]).0 == entries[t[k]].summary.id && found[k] == Some(r[p].1);
            assert(found[k] matches Some(img) ==> img.spec_width() == 48 && img.spec_height() == 48);
        }
    }
}

/// Left and Up select the previous search result, stopping at the first;
/// Right and Down select the next, stopping at the last. None of them changes
/// the query, and each redraws the overview without a command.
pub proof fn law_arrow_keys_move_the_selection(
    query: Seq<char>,
    index: usize,
    text: Option<Seq<char>>,
    count: usize,
    selected: Option<UiAction>,
)
    ensures
        key_step(ShellRole::Overview, query, index, 0xff51, text, count, selected).1 == (if index > 0 { index - 1 } else { 0 }),
        key_step(ShellRole::Overview, query, index, 0xff52, text, count, selected).1 == (if index > 0 { index - 1 } else { 0 }),
        key_step(ShellRole::Overview, query, index, 0xff53, text, count, selected).1
            == (if count == 0 { index as int } else if index + 1 < count { index + 1 } else { count - 1 }),
        key_step(ShellRole::Overview, query, index, 0xff54, text, count, selected).1
            == (if count == 0 { index as int } else if index + 1 < count { index + 1 } else { count - 1 }),
        forall|k: u32| 0xff51 <= k <= 0xff54 ==> {
            &&& key_step(ShellRole::Overview, query, index, k, text, count, selected).0 == query
            &&& (#[trigger] key_step(ShellRole::Overview, query, index, k, text, count, selected)).2.redraw
            &&& key_step(ShellRole::Overview, query, index, k, text, count, selected).2.command is None
            &&& !key_step(ShellRole::Overview, query, index, k, text, count, selected).2.exit
        },
{
}

/// A desktop file marked Hidden or NoDisplay, of a type other than
/// Application, or without a command that parses to arguments, is never
/// admitted to the catalog.
pub proof fn law_unlaunchable_files_are_not_listed(flags: EntryFlags)
    ensures
        flags.hidden ==> !launchable(flags),
        flags.no_display ==> !launchable(flags),
        (flags.kind matches Some(k) && k@ != "Application"@) ==> !launchable(flags),
        flags.exec_line is None ==> !launchable(flags),
        (flags.argv is None || flags.argv.unwrap()@.len() == 0) ==> !launchable(flags),
{
}

/// A decoded preview is the frame itself, widened to RGBA8 pixel by pixel:
/// RGBA data unchanged; RGB gets opaque alpha; gray is copied to the three
/// color channels, with opaque alpha or the frame's own.
pub proof fn law_preview_pixels_are_the_frame(
    workspace: WorkspaceId,
    width: u32,
    height: u32,
    fw: u32,
    fh: u32,
    layout: PixelLayout,
    data: Seq<u8>,
)
    ensures
        preview_from_frame(workspace, width, height, Some((fw, fh, layout, data))) matches Some(v) ==> {
            &&& v.0 == workspace
            &&& v.1 == width && v.2 == height
            &&& v.3.len() == width * height * 4
            &&& layout != PixelLayout::Indexed
            &&& layout == PixelLayout::Rgba ==> v.3 == data
            &&& layout == PixelLayout::Rgb ==> forall|j: int, c: int| 0 <= j < width * height && 0 <= c < 4 ==>
                #[trigger] v.3[4 * j + c] == (if c < 3 { data[3 * j + c] } else { 255u8 })
            &&& layout == PixelLayout::Grayscale ==> forall|j: int, c: int| 0 <= j < width * height && 0 <= c < 4 ==>
                #[trigger] v.3[4 * j + c] == (if c < 3 { data[j] } else { 255u8 })
            &&& layout == PixelLayout::GrayscaleAlpha ==> forall|j: int, c: int| 0 <= j < width * height && 0 <= c < 4 ==>
                #[trigger] v.3[4 * j + c] == (if c < 3 { data[2 * j] } else { data[2 * j + 1] })
        },
{
    if let Some(v) = preview_from_frame(workspace, width, height, Some((fw, fh, layout, data))) {
        if layout != PixelLayout::Rgba {
            assert forall|j: int, c: int| 0 <= j < width * height && 0 <= c < 4 implies
                #[trigger] v.3[4 * j + c] == crate::raster::rgba_byte(layout, data, j, c) by {
                assert((4 * j + c) / 4 == j && (4 * j + c) % 4 == c);
            }
        }
    }
}

/// A window is searched by the lower-cased text "{title} {application} workspace
/// {n}", where the title is the window's title (its application id when
/// untitled) cut to 48 characters, the application is its id cut to 32
/// characters ("Application" when empty), and n its workspace number. When a
/// search returns fewer than 12 results, every window whose text contains the
/// trimmed, lower-cased query is among them, titled by its title and activated
/// by restoring it when minimized and focusing it otherwise.
pub proof fn law_search_finds_matching_windows(s: DesktopSnapshot, query: Seq<char>, i: int)
    requires
        0 <= i < s.windows@.len(),
        trimmed(query).len() > 0,
        lowercase(trimmed(query)).len() > 0,
        is_substring(
            lowercase(trimmed(query)),
            lowercase(
                bounded(if s.windows@[i].title@.len() == 0 { s.windows@[i].app_id@ } else { s.windows@[i].title@ }, 48)
                + " "@
                + (if s.windows@[i].app_id@.len() == 0 { "Application"@ } else { bounded(s.windows@[i].app_id@, 32) })
                + " workspace "@
                + decimal(s.windows@[i].workspace.0 as nat),
            ),
        ),
        search_hits(s, query).len() < 12,
    ensures
        exists|k: int| 0 <= k < search_hits(s, query).len() && {
            let hit = #[trigger] search_hits(s, query)[k];
            &&& hit.0 == bounded(if s.windows@[i].title@.len() == 0 { s.windows@[i].app_id@ } else { s.windows@[i].title@ }, 48)
            &&& hit.1 == bounded(
                (if s.windows@[i].app_id@.len() == 0 { "Application"@ } else { bounded(s.windows@[i].app_id@, 32) })
                + (if s.windows@[i].minimized {
                    " · Restore minimized window"@
                } else {
                    " · Workspace "@ + decimal(s.windows@[i].workspace.0 as nat)
                }),
                64,
            )
            &&& hit.2 == (if s.windows@[i].minimized {
                UiAction::RestoreWindow(s.windows@[i].id)
            } else {
                UiAction::FocusWindow(s.windows@[i].id)
            })
        },
{
    let needle = lowercase(trimmed(query));
    let ws = s.windows@;
    lemma_window_hit_present(ws, needle, i);
    let wh = crate::search::window_hits(ws, needle);
    let all = wh + crate::search::workspace_hits(s.workspaces@, needle);
    let k = choose|k: int| 0 <= k < wh.len() && #[trigger] wh[k] == (
        crate::search::window_label_text(ws[i]),
        crate::search::window_detail(ws[i]),
        crate::search::window_action(ws[i]),
    );
    assert(all[k] == wh[k]);
    assert(search_hits(s, query)[k] == all[k]);
}

/// Every window on the shown workspace gets a card, whatever else is true of it,
/// unless 12 earlier tiled windows (24 earlier minimized ones, for a minimized
/// window) on that workspace have one; no other window gets a card.
pub proof fn law_overview_cards_complete(ws: Seq<WindowSummary>, workspace: WorkspaceId)
    ensures
        forall|i: int| 0 <= i < ws.len() ==> (overview_cards(ws, workspace).contains(i) <==> {
            &&& (#[trigger] ws[i]).workspace == workspace
            &&& ws.take(i).filter(|x: WindowSummary| x.workspace == workspace && x.minimized == ws[i].minimized).len()
                < (if ws[i].minimized { 24int } else { 12int })
        }),
{
    lemma_cards_exact(ws, workspace);
    assert forall|i: int| 0 <= i < ws.len() implies
        ws.take(i).filter(|x: WindowSummary| x.workspace == workspace && x.minimized == ws[i].minimized)
            == ws.take(i).filter(card_kind(workspace, (#[trigger] ws[i]).minimized)) by {
        let m = ws[i].minimized;
        assert(card_kind(workspace, m) =~= (|x: WindowSummary| x.workspace == workspace && x.minimized == m));
    }
}

/// Every window a search returns matches: its lower-cased text "{title}
/// {application} workspace {n}" (as in `law_search_finds_matching_windows`)
/// contains the trimmed, lower-cased query, and the result is titled and
/// activated as that window's.
pub proof fn law_search_returns_only_matching_windows(s: DesktopSnapshot, query: Seq<char>, k: int)
    requires
        0 <= k < search_hits(s, query).len(),
        search_hits(s, query)[k].2 is FocusWindow || search_hits(s, query)[k].2 is RestoreWindow,
    ensures
        exists|i: int| 0 <= i < s.windows@.len() && {
            let w = #[trigger] s.windows@[i];
            &&& is_substring(
                lowercase(trimmed(query)),
                lowercase(
                    bounded(if w.title@.len() == 0 { w.app_id@ } else { w.title@ }, 48)
                    + " "@
                    + (if w.app_id@.len() == 0 { "Application"@ } else { bounded(w.app_id@, 32) })
                    + " workspace "@
                    + decimal(w.workspace.0 as nat),
                ),
            )
            &&& search_hits(s, query)[k].0 == bounded(if w.title@.len() == 0 { w.app_id@ } else { w.title@ }, 48)
            &&& search_hits(s, query)[k].2 == (if w.minimized { UiAction::RestoreWindow(w.id) } else { UiAction::FocusWindow(w.id) })
        },
{
    let needle = lowercase(trimmed(query));
    let ws = s.windows@;
    let wh = crate::search::window_hits(ws, needle);
    let kh = crate::search::workspace_hits(s.workspaces@, needle);
    let all = wh + kh;
    lemma_window_hit_source(ws, needle);
    lemma_workspace_hit_actions(s.workspaces@, needle);
    let hits = search_hits(s, query);
    assert(k < all.len() && hits[k] == all[k]);
    if k >= wh.len() {
        assert(all[k] == kh[k - wh.len()]);
    }
    assert(hit_from(ws, needle, wh[k]));
    let i = choose|i: int| #![trigger window_hit(ws[i])] 0 <= i < ws.len()
        && is_substring(needle, crate::search::window_haystack(ws[i]))
        && wh[k] == window_hit(ws[i]);
    assert(s.windows@[i] == ws[i]);
}

proof fn lemma_typed_extends(query: Seq<char>, text: Seq<char>)
    ensures
        typed(query, text).len() >= query.len(),
        typed(query, text).subrange(0, query.len() as int) == query,
        forall|j: int| query.len() <= j < typed(query, text).len() ==>
            !crate::text::is_control_char(#[trigger] typed(query, text)[j]) && text.contains(typed(query, text)[j]),
        typed(query, text).len() <= (if query.len() > 64 { query.len() as int } else { 64 }),
    decreases text.len(),
{
    if text.len() > 0 {
        let rest = text.drop_first();
        if crate::text::is_control_char(text[0]) {
            lemma_typed_extends(query, rest);
        } else if query.len() < 64 {
            let q2 = query.push(text[0]);
            lemma_typed_extends(q2, rest);
            let r = typed(q2, rest);
            assert(r.subrange(0, q2.len() as int) == q2);
            assert(r.subrange(0, query.len() as int) =~= q2.subrange(0, query.len() as int));
            assert(q2.subrange(0, query.len() as int) =~= query);
            assert forall|j: int| query.len() <= j < r.len() implies
                !crate::text::is_control_char(#[trigger] r[j]) && text.contains(r[j]) by {
                if j == query.len() {
                    assert(r[j] == r.subrange(0, q2.len() as int)[j]);
                    assert(text[0] == r[j]);
                } else {
                    let m = choose|m: int| 0 <= m < rest.len() && rest[m] == r[j];
                    assert(text[m + 1] == rest[m]);
                }
            }
        }
        if crate::text::is_control_char(text[0]) {
            let r = typed(query, rest);
            assert forall|j: int| query.len() <= j < r.len() implies
                !crate::text::is_control_char(#[trigger] r[j]) && text.contains(r[j]) by {
                let m = choose|m: int| 0 <= m < rest.len() && rest[m] == r[j];
                assert(text[m + 1] == rest[m]);
            }
        }
    } else {
        assert(query.subrange(0, query.len() as int) =~= query);
    }
}

/// The other keys of the overview: Escape closes it; Return activates the
/// selected result (sending its request and closing); Backspace removes the
/// query's last character and selects the first result; with an empty query,
/// 1 to 9 switch to that workspace and 0 to workspace 10; typed text extends
/// the query by its non-control characters, up to 64. The bar ignores keys.
pub proof fn law_overview_keys(
    query: Seq<char>,
    index: usize,
    keysym: u32,
    text: Option<Seq<char>>,
    count: usize,
    selected: Option<UiAction>,
)
    ensures
        ({
            let r = key_step(ShellRole::Bar, query, index, keysym, text, count, selected);
            r.0 == query && r.1 == index && r.2.command is None && !r.2.exit && !r.2.redraw
        }),
        ({
            let r = key_step(ShellRole::Overview, query, index, 0xff1b, text, count, selected);
            r.0 == query && r.1 == index && r.2.command is None && r.2.exit
        }),
        ({
            let r = key_step(ShellRole::Overview, query, index, 0xff0d, text, count, selected);
            &&& r.0 == query && r.1 == index
            &&& selected is None ==> r.2.command is None && !r.2.exit
            &&& selected is Some ==> r.2.exit
            &&& selected == Some(UiAction::CloseOverview) ==> r.2.command is None
            &&& (selected matches Some(UiAction::FocusWindow(id)) ==> r.2.command == Some(DesktopCommand::FocusWindow { window: id }))
            &&& (selected matches Some(UiAction::RestoreWindow(id)) ==> r.2.command == Some(DesktopCommand::RestoreWindow { window: id }))
            &&& (selected matches Some(UiAction::FocusWorkspace(id)) ==> r.2.command == Some(DesktopCommand::FocusWorkspace { workspace: id }))
        }),
        ({
            let r = key_step(ShellRole::Overview, query, index, 0xff08, text, count, selected);
            &&& query.len() > 0 ==> r.0 == query.drop_last() && r.1 == 0 && r.2.redraw && r.2.command is None && !r.2.exit
            &&& query.len() == 0 ==> r.0 == query && r.1 == index && !r.2.redraw && !r.2.exit
        }),
        query.len() == 0 && 0x31 <= keysym <= 0x39 ==> {
            let r = key_step(ShellRole::Overview, query, index, keysym, text, count, selected);
            r.2.command == Some(DesktopCommand::FocusWorkspace { workspace: WorkspaceId((keysym - 0x30) as u32) }) && r.2.exit
        },
        query.len() == 0 ==> {
            let r = key_step(ShellRole::Overview, query, index, 0x30, text, count, selected);
            r.2.command == Some(DesktopCommand::FocusWorkspace { workspace: WorkspaceId(10) }) && r.2.exit
        },
        text matches Some(t) ==> (!(0xff08 <= keysym <= 0xff54) && !(0x30 <= keysym <= 0x39 && query.len() == 0)) ==> {
            let r = key_step(ShellRole::Overview, query, index, keysym, text, count, selected);
            &&& r.0.len() >= query.len()
            &&& r.0.subrange(0, query.len() as int) == query
            &&& forall|j: int| query.len() <= j < r.0.len() ==> !crate::text::is_control_char(#[trigger] r.0[j]) && t.contains(r.0[j])
            &&& query.len() <= 64 ==> r.0.len() <= 64
            &&& r.0.len() > query.len() ==> r.1 == 0 && r.2.redraw
            &&& r.2.command is None && !r.2.exit
        },
{
    if let Some(t) = text {
        lemma_typed_extends(query, t);
    }
}

/// When a search returns fewer than 12 results, every workspace whose
/// lower-cased "Workspace {n}" contains the trimmed, lower-cased query is among
/// them, titled "Workspace {n}" and switching to it; and when the query is part
/// of "close overview" or "escape", so is a result that closes the overview.
pub proof fn law_search_finds_workspaces_and_close(s: DesktopSnapshot, query: Seq<char>)
    requires
        trimmed(query).len() > 0,
        lowercase(trimmed(query)).len() > 0,
        search_hits(s, query).len() < 12,
    ensures
        forall|j: int| 0 <= j < s.workspaces@.len()
            && is_substring(lowercase(trimmed(query)), lowercase("Workspace "@ + decimal(s.workspaces@[j].workspace.0 as nat)))
            ==> exists|k: int| 0 <= k < search_hits(s, query).len()
                && #[trigger] search_hits(s, query)[k] == (
                    "Workspace "@ + decimal((#[trigger] s.workspaces@[j]).workspace.0 as nat),
                    "Switch workspace"@,
                    UiAction::FocusWorkspace(s.workspaces@[j].workspace),
                ),
        (is_substring(lowercase(trimmed(query)), "close overview"@) || is_substring(lowercase(trimmed(query)), "escape"@))
            ==> exists|k: int| 0 <= k < search_hits(s, query).len()
                && (#[trigger] search_hits(s, query)[k]).2 == UiAction::CloseOverview,
{
    let needle = lowercase(trimmed(query));
    let wh = crate::search::window_hits(s.windows@, needle);
    let kh = crate::search::workspace_hits(s.workspaces@, needle);
    let all = wh + kh;
    let hits = search_hits(s, query);
    assert forall|j: int| 0 <= j < s.workspaces@.len()
        && is_substring(needle, lowercase("Workspace "@ + decimal(s.workspaces@[j].workspace.0 as nat)))
        implies exists|k: int| 0 <= k < hits.len()
            && #[trigger] hits[k] == (
                "Workspace "@ + decimal((#[trigger] s.workspaces@[j]).workspace.0 as nat),
                "Switch workspace"@,
                UiAction::FocusWorkspace(s.workspaces@[j].workspace),
            ) by {
        crate::search::lemma_workspace_hit_present(s.workspaces@, needle, j);
        let m = choose|m: int| 0 <= m < kh.len() && #[trigger] kh[m] == (
            crate::search::workspace_title(s.workspaces@[j]),
            "Switch workspace"@,
            UiAction::FocusWorkspace(s.workspaces@[j].workspace),
        );
        assert(all[wh.len() + m] == kh[m]);
        assert(hits[wh.len() + m] == all[wh.len() + m]);
    }
    if is_substring(needle, "close overview"@) || is_substring(needle, "escape"@) {
        assert(hits[all.len() as int].2 == UiAction::CloseOverview);
    }
}

proof fn lemma_icon_sample_in_range(w: int, h: int, row: int, col: int)
    requires
        1 <= w <= 0x800000,
        1 <= h <= 0x800000,
        0 <= row < 48,
        0 <= col < 48,
        (48 - fitted_extent(h, w, h)) / 2 <= row < (48 - fitted_extent(h, w, h)) / 2 + fitted_extent(h, w, h),
        (48 - fitted_extent(w, w, h)) / 2 <= col < (48 - fitted_extent(w, w, h)) / 2 + fitted_extent(w, w, h),
    ensures
        ({
            let sx = sample_pos(col - (48 - fitted_extent(w, w, h)) / 2, icon_scale(w, h), w);
            let sy = sample_pos(row - (48 - fitted_extent(h, w, h)) / 2, icon_scale(w, h), h);
            &&& 0 <= sx && sx / 0x800000000000 <= w - 1
            &&& 0 <= sy && sy / 0x800000000000 <= h - 1
        }),
{
    crate::icon::lemma_extent_bounds(w, w, h);
    crate::icon::lemma_extent_bounds(h, w, h);
    lemma_sample_pos_range(col - (48 - fitted_extent(w, w, h)) / 2, icon_scale(w, h), w);
    lemma_sample_pos_range(row - (48 - fitted_extent(h, w, h)) / 2, icon_scale(w, h), h);
}

/// An image whose every pixel is fully transparent fits to an icon whose every
/// byte is zero.
pub proof fn law_transparent_images_give_transparent_icons(p: Seq<u8>, w: int, h: int)
    requires
        1 <= w <= 0x800000,
        1 <= h <= 0x800000,
        p.len() == w * h * 4,
        forall|k: int| 0 <= k < p.len() && k % 4 == 3 ==> p[k] == 0,
    ensures
        forall|k: int| 0 <= k < 9216 ==> #[trigger] fitted_icon(p, w, h)[k] == 0,
{
    assert forall|k: int| 0 <= k < 9216 implies #[trigger] fitted_icon(p, w, h)[k] == 0 by {
        let (row, col, ch) = (k / 192, (k % 192) / 4, k % 4);
        let tw = fitted_extent(w, w, h);
        let th = fitted_extent(h, w, h);
        let (ox, oy) = ((48 - tw) / 2, (48 - th) / 2);
        if oy <= row < oy + th && ox <= col < ox + tw {
            lemma_icon_sample_in_range(w, h, row, col);
            lemma_resampled_transparent(p, w, h,
                sample_pos(col - ox, icon_scale(w, h), w), sample_pos(row - oy, icon_scale(w, h), h), ch);
        }
        assert(fitted_icon_byte(p, w, h, row, col, ch) == 0);
    }
}

/// Each color channel of a fitted icon depends only on that channel and the
/// alpha of the image, and its alpha only on the image's alpha: changing any
/// other channel of the image changes nothing in it.
pub proof fn law_icon_channels_are_independent(p: Seq<u8>, q: Seq<u8>, w: int, h: int, ch: int)
    requires
        1 <= w <= 0x800000,
        1 <= h <= 0x800000,
        p.len() == w * h * 4,
        q.len() == p.len(),
        0 <= ch < 4,
        forall|k: int| 0 <= k < p.len() && (k % 4 == ch || k % 4 == 3) ==> p[k] == q[k],
    ensures
        forall|k: int| 0 <= k < 9216 && k % 4 == ch ==> #[trigger] fitted_icon(p, w, h)[k] == fitted_icon(q, w, h)[k],
{
    assert forall|k: int| 0 <= k < 9216 && k % 4 == ch implies #[trigger] fitted_icon(p, w, h)[k] == fitted_icon(q, w, h)[k] by {
        let (row, col) = (k / 192, (k % 192) / 4);
        let tw = fitted_extent(w, w, h);
        let th = fitted_extent(h, w, h);
        let (ox, oy) = ((48 - tw) / 2, (48 - th) / 2);
        if oy <= row < oy + th && ox <= col < ox + tw {
            lemma_icon_sample_in_range(w, h, row, col);
            lemma_resampled_channel(p, q, w, h,
                sample_pos(col - ox, icon_scale(w, h), w), sample_pos(row - oy, icon_scale(w, h), h), ch);
        }
        assert(fitted_icon_byte(p, w, h, row, col, ch) == fitted_icon_byte(q, w, h, row, col, ch));
    }
}

/// Search results list the matching windows first, then the matching
/// workspaces; the row that closes the overview, when present, comes last.
pub proof fn law_search_lists_windows_then_workspaces(s: DesktopSnapshot, query: Seq<char>, k: int, l: int)
    requires
        0 <= k < l < search_hits(s, query).len(),
    ensures
        (search_hits(s, query)[l].2 is FocusWindow || search_hits(s, query)[l].2 is RestoreWindow)
            ==> (search_hits(s, query)[k].2 is FocusWindow || search_hits(s, query)[k].2 is RestoreWindow),
        search_hits(s, query)[k].2 is FocusWorkspace
            ==> (search_hits(s, query)[l].2 is FocusWorkspace || search_hits(s, query)[l].2 is CloseOverview),
        !(search_hits(s, query)[k].2 is CloseOverview),
{
    let needle = lowercase(trimmed(query));
    let ws = s.windows@;
    let wh = crate::search::window_hits(ws, needle);
    let kh = crate::search::workspace_hits(s.workspaces@, needle);
    let all = wh + kh;
    let hits = search_hits(s, query);
    lemma_window_hit_source(ws, needle);
    lemma_workspace_hit_actions(s.workspaces@, needle);
    assert forall|m: int| 0 <= m < all.len() implies
        (if m < wh.len() {
            (#[trigger] all[m]).2 is FocusWindow || all[m].2 is RestoreWindow
        } else {
            all[m].2 is FocusWorkspace
        }) by {
        if m < wh.len() {
            assert(all[m] == wh[m]);
            assert(hit_from(ws, needle, wh[m]));
            let i = choose|i: int| #![trigger window_hit(ws[i])] 0 <= i < ws.len()
                && is_substring(needle, crate::search::window_haystack(ws[i]))
                && wh[m] == window_hit(ws[i]);
            assert(wh[m].2 == crate::search::window_action(ws[i]));
        } else {
            assert(all[m] == kh[m - wh.len()]);
        }
    }
    assert(k < all.len() && hits[k] == all[k]);
    if l < all.len() {
        assert(hits[l] == all[l]);
    } else {
        assert(hits[l].2 == UiAction::CloseOverview);
    }
}

/// A desktop file name matches the application id it is named for: once
/// trimmed, "{id}.desktop" normalizes to the same key as "{id}".
pub proof fn law_desktop_file_names_match_ids(id: Seq<char>)
    requires
        id.len() > 0,
        !crate::text::is_unicode_whitespace(id[0]),
        !crate::text::is_unicode_whitespace(id.last()),
    ensures
        normalized_id(id + ".desktop"@) == normalized_id(id),
        normalized_id(id + ".desktop"@ + ".desktop"@) == normalized_id(id),
{
    reveal_strlit(".desktop");
    let f = id + ".desktop"@;
    let g = f + ".desktop"@;
    assert(crate::text::trim_start(id) == id);
    assert(crate::text::trim_end(id) == id);
    assert(crate::text::trim_start(f) == f);
    assert(f.last() == 'p');
    assert(crate::text::trim_end(f) == f);
    assert(crate::text::trim_start(g) == g);
    assert(g.last() == 'p');
    assert(crate::text::trim_end(g) == g);
    assert(f.subrange(f.len() - 8, f.len() as int) =~= ".desktop"@);
    assert(f.take(f.len() - 8) =~= id);
    assert(crate::catalog::strip_desktop(f) == crate::catalog::strip_desktop(id));
    assert(g.subrange(g.len() - 8, g.len() as int) =~= ".desktop"@);
    assert(g.take(g.len() - 8) =~= f);
    assert(crate::catalog::strip_desktop(g) == crate::catalog::strip_desktop(f));
}

/// The catalog lists each entry once, in order of lower-cased name (by code
/// point), entries with the same lower-cased name in order of id, and entries
/// alike in both in the order they were read.
pub proof fn law_catalog_is_sorted_by_name(es: Seq<CatalogEntry>, order: Seq<usize>, k: int, l: int)
    requires
        is_catalog_order(es, order),
        0 <= k < l < order.len(),
    ensures
        order[k] != order[l],
        !lex_lt(lowercase(es[order[l] as int].summary.name@), lowercase(es[order[k] as int].summary.name@)),
        lowercase(es[order[l] as int].summary.name@) == lowercase(es[order[k] as int].summary.name@)
            ==> !lex_lt(es[order[l] as int].summary.id@, es[order[k] as int].summary.id@),
        lowercase(es[order[l] as int].summary.name@) == lowercase(es[order[k] as int].summary.name@)
            && es[order[l] as int].summary.id@ == es[order[k] as int].summary.id@ ==> order[k] < order[l],
{
    let i = order[k] as int;
    let j = order[l] as int;
    assert(before(es, i, j));
    lemma_before_order(es, i, j, j);
    lemma_lex_asymmetric(lowercase(es[i].summary.name@), lowercase(es[j].summary.name@));
    lemma_lex_asymmetric(es[i].summary.id@, es[j].summary.id@);
    lemma_lex_irreflexive(lowercase(es[i].summary.name@));
    lemma_lex_irreflexive(es[i].summary.id@);
}

proof fn lemma_first_active_is_first(ks: Seq<crate::desktop::WorkspaceSummary>)
    ensures
        crate::scene::first_active(ks) matches Some(i) ==> 0 <= i < ks.len() && ks[i].active
            && forall|j: int| 0 <= j < i ==> !(#[trigger] ks[j]).active,
        crate::scene::first_active(ks) is None ==> forall|j: int| 0 <= j < ks.len() ==> !(#[trigger] ks[j]).active,
    decreases ks.len(),
{
    if ks.len() > 0 && !ks[0].active {
        let rest = ks.drop_first();
        lemma_first_active_is_first(rest);
        assert forall|j: int| 1 <= j < ks.len() implies ks[j] == rest[j - 1] by {}
    }
}

/// The bar is titled by the first workspace marked active, "Workspace {n}",
/// and "Knave" when no workspace is active or no snapshot has arrived.
pub proof fn law_bar_names_first_active_workspace(snapshot: Option<DesktopSnapshot>)
    ensures
        snapshot is None ==> crate::scene::bar_title_text(snapshot) == "Knave"@,
        snapshot matches Some(s) ==> (
            (forall|j: int| 0 <= j < s.workspaces@.len() ==> !(#[trigger] s.workspaces@[j]).active)
                ==> crate::scene::bar_title_text(snapshot) == "Knave"@),
        snapshot matches Some(s) ==> forall|i: int| 0 <= i < s.workspaces@.len() && (#[trigger] s.workspaces@[i]).active
            && (forall|j: int| 0 <= j < i ==> !(#[trigger] s.workspaces@[j]).active)
            ==> crate::scene::bar_title_text(snapshot) == "Workspace "@ + decimal(s.workspaces@[i].workspace.0 as nat),
{
    if let Some(s) = snapshot {
        lemma_first_active_is_first(s.workspaces@);
        assert forall|i: int| 0 <= i < s.workspaces@.len() && (#[trigger] s.workspaces@[i]).active
            && (forall|j: int| 0 <= j < i ==> !(#[trigger] s.workspaces@[j]).active)
            implies crate::scene::bar_title_text(snapshot) == "Workspace "@ + decimal(s.workspaces@[i].workspace.0 as nat) by {
            match crate::scene::first_active(s.workspaces@) {
                Some(f) => {
                    if f < i {
                        assert(!s.workspaces@[f].active);
                    } else if f > i {
                        assert(!s.workspaces@[i].active);
                    }
                },
                None => {
                    assert(!s.workspaces@[i].active);
                },
            }
        }
    }
}

/// Icons published while an older update waits keep the newest: all of the
/// newer icons, last and in order, when they number at most 48, after the
/// latest of the older ones, 48 in all at most.
pub proof fn law_merged_icons_keep_the_newest(previous: Seq<(String, UiImage)>, newer: Seq<(String, UiImage)>)
    ensures
        merged_icons(previous, newer).len() == (if previous.len() + newer.len() <= 48 { previous.len() + newer.len() } else { 48 }),
        newer.len() <= 48 ==> merged_icons(previous, newer).skip(merged_icons(previous, newer).len() - newer.len()) == newer,
        forall|j: int| 0 <= j < merged_icons(previous, newer).len() ==>
            #[trigger] merged_icons(previous, newer)[j]
                == (previous + newer)[previous.len() + newer.len() - merged_icons(previous, newer).len() + j],
{
    let m = merged_icons(previous, newer);
    let all = previous + newer;
    if newer.len() <= 48 {
        assert(m.skip(m.len() - newer.len()) =~= newer);
    }
}

spec fn hits_in_order(ws: Seq<WindowSummary>, hits: Seq<crate::search::SearchHit>, k: int, l: int) -> bool {
    exists|i: int, j: int| #![trigger window_hit(ws[i]), window_hit(ws[j])]
        0 <= i < j < ws.len() && hits[k] == window_hit(ws[i]) && hits[l] == window_hit(ws[j])
}

proof fn lemma_window_hits_in_order(ws: Seq<WindowSummary>, needle: Seq<char>)
    ensures
        forall|k: int, l: int| 0 <= k < l < crate::search::window_hits(ws, needle).len() ==>
            #[trigger] hits_in_order(ws, crate::search::window_hits(ws, needle), k, l),
    decreases ws.len(),
{
    if ws.len() > 0 {
        let rest = ws.drop_last();
        lemma_window_hits_in_order(rest, needle);
        lemma_window_hit_source(rest, needle);
        let prev = crate::search::window_hits(rest, needle);
        let wh = crate::search::window_hits(ws, needle);
        assert forall|k: int, l: int| 0 <= k < l < wh.len() implies #[trigger] hits_in_order(ws, wh, k, l) by {
            assert(wh[k] == prev[k]);
            if l < prev.len() {
                assert(wh[l] == prev[l]);
                assert(hits_in_order(rest, prev, k, l));
                let (i, j) = choose|i: int, j: int| #![trigger window_hit(rest[i]), window_hit(rest[j])]
                    0 <= i < j < rest.len() && prev[k] == window_hit(rest[i]) && prev[l] == window_hit(rest[j]);
                assert(ws[i] == rest[i] && ws[j] == rest[j]);
                assert(window_hit(ws[i]) == wh[k] && window_hit(ws[j]) == wh[l]);
            } else {
                let n = ws.len() - 1;
                assert(wh[l] == window_hit(ws[n]));
                assert(hit_from(rest, needle, prev[k]));
                let i = choose|i: int| #![trigger window_hit(rest[i])] 0 <= i < rest.len()
                    && is_substring(needle, crate::search::window_haystack(rest[i]))
                    && prev[k] == window_hit(rest[i]);
                assert(ws[i] == rest[i]);
                assert(window_hit(ws[i]) == wh[k] && window_hit(ws[n]) == wh[l]);
            }
        }
    }
}

/// Matching windows are listed in the order the snapshot lists them.
pub proof fn law_search_keeps_window_order(s: DesktopSnapshot, query: Seq<char>, k: int, l: int)
    requires
        0 <= k < l < search_hits(s, query).len(),
        search_hits(s, query)[l].2 is FocusWindow || search_hits(s, query)[l].2 is RestoreWindow,
    ensures
        exists|i: int, j: int| #![trigger s.windows@[i], s.windows@[j]]
            0 <= i < j < s.windows@.len()
            && search_hits(s, query)[k].2 == (if s.windows@[i].minimized {
                UiAction::RestoreWindow(s.windows@[i].id)
            } else {
                UiAction::FocusWindow(s.windows@[i].id)
            })
            && search_hits(s, query)[l].2 == (if s.windows@[j].minimized {
                UiAction::RestoreWindow(s.windows@[j].id)
            } else {
                UiAction::FocusWindow(s.windows@[j].id)
            }),
{
    let needle = lowercase(trimmed(query));
    let ws = s.windows@;
    let wh = crate::search::window_hits(ws, needle);
    let kh = crate::search::workspace_hits(s.workspaces@, needle);
    let all = wh + kh;
    let hits = search_hits(s, query);
    lemma_workspace_hit_actions(s.workspaces@, needle);
    lemma_window_hits_in_order(ws, needle);
    assert(l < all.len() && hits[l] == all[l] && hits[k] == all[k]);
    if l >= wh.len() {
        assert(all[l] == kh[l - wh.len()]);
    }
    assert(wh[k] == all[k] && wh[l] == all[l]);
    assert(hits_in_order(ws, wh, k, l));
    let (i, j) = choose|i: int, j: int| #![trigger window_hit(ws[i]), window_hit(ws[j])]
        0 <= i < j < ws.len() && wh[k] == window_hit(ws[i]) && wh[l] == window_hit(ws[j]);
    assert(s.windows@[i] == ws[i] && s.windows@[j] == ws[j]);
}

proof fn lemma_first_by_key_covers(ids: Seq<Seq<char>>, cap: int)
    ensures
        first_by_key(ids, cap).len() <= ids.len(),
        first_by_key(ids, cap).len() < cap || ids.len() <= cap ==>
            forall|m: int| 0 <= m < ids.len() ==> exists|k: int| 0 <= k < first_by_key(ids, cap).len()
                && normalized_id(#[trigger] first_by_key(ids, cap)[k]) == normalized_id(#[trigger] ids[m]),
    decreases ids.len(),
{
    if ids.len() > 0 {
        let rest = ids.drop_last();
        lemma_first_by_key_covers(rest, cap);
        let prev = first_by_key(rest, cap);
        let kept = first_by_key(ids, cap);
        assert forall|k: int| 0 <= k < prev.len() implies kept[k] == prev[k] by {}
        if kept.len() < cap || ids.len() <= cap {
            assert(prev.len() < cap);
            assert forall|m: int| 0 <= m < ids.len() implies exists|k: int| 0 <= k < kept.len()
                && normalized_id(#[trigger] kept[k]) == normalized_id(#[trigger] ids[m]) by {
                if m < rest.len() {
                    assert(ids[m] == rest[m]);
                    let k = choose|k: int| 0 <= k < prev.len() && normalized_id(#[trigger] prev[k]) == normalized_id(rest[m]);
                    assert(kept[k] == prev[k]);
                } else if exists|k: int| 0 <= k < prev.len() && normalized_id(#[trigger] prev[k]) == normalized_id(ids.last()) {
                    let k = choose|k: int| 0 <= k < prev.len() && normalized_id(#[trigger] prev[k]) == normalized_id(ids.last());
                    assert(kept[k] == prev[k]);
                } else {
                    assert(kept[prev.len() as int] == ids.last());
                }
            }
        }
    }
}

/// Coalescing icon requests loses no application: unless 48 distinct ids were
/// kept, every requested id has a kept id that normalizes to the same key.
pub proof fn law_requests_cover_every_id(ids: Seq<Seq<char>>)
    requires
        first_by_key(ids, 48).len() < 48,
    ensures
        forall|m: int| 0 <= m < ids.len() ==> exists|k: int| 0 <= k < first_by_key(ids, 48).len()
            && normalized_id(#[trigger] first_by_key(ids, 48)[k]) == normalized_id(#[trigger] ids[m]),
{
    lemma_first_by_key_covers(ids, 48);
}

/// A listed application answers to windows of its desktop id and, when its
/// desktop file names a non-empty StartupWMClass, to windows of that class.
pub proof fn law_applications_answer_to_their_ids(e: CatalogEntry, f: EntryFlags, l: Option<crate::catalog::EntryLabels>)
    requires
        crate::catalog::summary_fits(e.summary, f, l),
    ensures
        answers_to(e, normalized_id(f.appid@)),
        l matches Some(lab) ==> (lab.startup_wm_class matches Some(c) ==> c@.len() > 0 ==> answers_to(e, normalized_id(c@))),
{
    let class = match l { Some(lab) => crate::catalog::option_view(lab.startup_wm_class), None => None };
    let c = crate::catalog::alias_candidates(f.appid@, class);
    lemma_first_by_key_covers(c, c.len() as int);
    let kept = first_by_key(c, c.len() as int);
    let ids = e.summary.window_app_ids@;
    assert(crate::catalog::strings_view(ids) == kept);
    assert(c[0] == f.appid@);
    let k0 = choose|k: int| 0 <= k < kept.len() && normalized_id(#[trigger] kept[k]) == normalized_id(c[0]);
    assert(ids[k0]@ == kept[k0]);
    if let Some(lab) = l {
        if let Some(cls) = lab.startup_wm_class {
            if cls@.len() > 0 {
                let m = c.len() - 1;
                assert(c[m] == cls@);
                let k1 = choose|k: int| 0 <= k < kept.len() && normalized_id(#[trigger] kept[k]) == normalized_id(c[m]);
                assert(ids[k1]@ == kept[k1]);
            }
        }
    }
}

/// Activating an action sends the matching request: a workspace is focused, a
/// window focused or restored, and closing sends nothing. The overview closes
/// after any action; the bar stays unless the action closes.
pub proof fn law_activation_sends_the_request(role: ShellRole, action: UiAction)
    ensures
        action_response(role, action).command == (match action {
            UiAction::CloseOverview => None,
            UiAction::FocusWorkspace(w) => Some(DesktopCommand::FocusWorkspace { workspace: w }),
            UiAction::FocusWindow(w) => Some(DesktopCommand::FocusWindow { window: w }),
            UiAction::RestoreWindow(w) => Some(DesktopCommand::RestoreWindow { window: w }),
        }),
        action_response(role, action).exit == (role == ShellRole::Overview || action is CloseOverview),
        !action_response(role, action).redraw,
{
}

proof fn lemma_first_answering_is_first(es: Seq<CatalogEntry>, key: Seq<char>)
    ensures
        crate::catalog::first_answering(es, key) matches Some(j) ==> 0 <= j < es.len() && answers_to(es[j], key)
            && forall|i: int| 0 <= i < j ==> !answers_to(#[trigger] es[i], key),
        crate::catalog::first_answering(es, key) is None ==> forall|i: int| 0 <= i < es.len() ==> !answers_to(#[trigger] es[i], key),
    decreases es.len(),
{
    if es.len() > 0 {
        let rest = es.drop_last();
        lemma_first_answering_is_first(rest, key);
        assert forall|i: int| 0 <= i < rest.len() implies es[i] == rest[i] by {}
    }
}

/// Every requested id that some application answers to is served: the first
/// application it belongs to, or one with the same desktop id, is among the
/// icon targets.
pub proof fn law_every_requested_application_is_served(entries: Seq<CatalogEntry>, request: Seq<Seq<char>>, n: int)
    requires
        0 <= n < request.len(),
        exists|e: int| 0 <= e < entries.len() && answers_to(#[trigger] entries[e], normalized_id(request[n])),
    ensures
        exists|j: int, k: int| #![trigger entries[j], icon_targets_spec(entries, request)[k]]
            0 <= j < entries.len() && 0 <= k < icon_targets_spec(entries, request).len()
            && answers_to(entries[j], normalized_id(request[n]))
            && (forall|i: int| 0 <= i < j ==> !answers_to(#[trigger] entries[i], normalized_id(request[n])))
            && entries[icon_targets_spec(entries, request)[k]].summary.id@ == entries[j].summary.id@,
    decreases request.len(),
{
    let key = normalized_id(request[n]);
    let rest = request.drop_last();
    let taken = icon_targets_spec(entries, rest);
    let t = icon_targets_spec(entries, request);
    assert forall|k: int| 0 <= k < taken.len() implies t[k] == taken[k] by {}
    lemma_first_answering_is_first(entries, key);
    let e = choose|e: int| 0 <= e < entries.len() && answers_to(#[trigger] entries[e], key);
    assert(crate::catalog::first_answering(entries, key) is Some);
    let j = crate::catalog::first_answering(entries, key)->0;
    if n < rest.len() {
        assert(rest[n] == request[n]);
        law_every_requested_application_is_served(entries, rest, n);
        let (j2, k2) = choose|j2: int, k2: int| #![trigger entries[j2], taken[k2]]
            0 <= j2 < entries.len() && 0 <= k2 < taken.len()
            && answers_to(entries[j2], key)
            && (forall|i: int| 0 <= i < j2 ==> !answers_to(#[trigger] entries[i], key))
            && entries[taken[k2]].summary.id@ == entries[j2].summary.id@;
        assert(t[k2] == taken[k2]);
    } else {
        assert(request.last() == request[n]);
        if crate::catalog::targets_id(entries, taken, entries[j].summary.id@) {
            let k = choose|k: int| 0 <= k < taken.len() && entries[#[trigger] taken[k]].summary.id@ == entries[j].summary.id@;
            assert(t[k] == taken[k]);
        } else {
            assert(t[taken.len() as int] == j);
        }
    }
}

/// Unless 48 icons are published, every icon found for a served application
/// is published under that application's id.
pub proof fn law_found_icons_are_published(entries: Seq<CatalogEntry>, targets: Seq<int>, found: Seq<Option<UiImage>>, k: int)
    requires
        targets.len() == found.len(),
        0 <= k < found.len(),
        found[k] is Some,
        icon_pairs(entries, targets, found).len() < 48,
    ensures
        exists|p: int| 0 <= p < icon_pairs(entries, targets, found).len()
            && #[trigger] icon_pairs(entries, targets, found)[p] == (entries[targets[k]].summary.id, found[k]->0),
    decreases found.len(),
{
    let ft = found.drop_last();
    let prev = icon_pairs(entries, targets, ft);
    let r = icon_pairs(entries, targets, found);
    assert forall|p: int| 0 <= p < prev.len() implies r[p] == prev[p] by {}
    assert(prev.len() <= r.len());
    if k < ft.len() {
        assert(ft[k] == found[k]);
        lemma_icon_pairs_prefix_targets(entries, targets, ft);
        law_found_icons_are_published(entries, targets.drop_last(), ft, k);
        let p = choose|p: int| 0 <= p < icon_pairs(entries, targets.drop_last(), ft).len()
            && #[trigger] icon_pairs(entries, targets.drop_last(), ft)[p] == (entries[targets.drop_last()[k]].summary.id, ft[k]->0);
        assert(targets.drop_last()[k] == targets[k]);
        assert(r[p] == prev[p]);
    } else {
        assert(r[prev.len() as int] == (entries[targets[k]].summary.id, found[k]->0));
    }
}

proof fn lemma_icon_pairs_prefix_targets(entries: Seq<CatalogEntry>, targets: Seq<int>, found: Seq<Option<UiImage>>)
    requires
        found.len() < targets.len(),
    ensures
        icon_pairs(entries, targets, found) == icon_pairs(entries, targets.drop_last(), found),
    decreases found.len(),
{
    if found.len() > 0 {
        lemma_icon_pairs_prefix_targets(entries, targets, found.drop_last());
        assert(targets.drop_last()[found.len() - 1] == targets[found.len() - 1]);
    }
}

/// The number a string of decimal digits reads as.
pub open spec fn digits_value(s: Seq<char>) -> int
    decreases s.len(),
{
    if s.len() == 0 { 0 } else { digits_value(s.drop_last()) * 10 + ((s.last() as int) - ('0' as int)) }
}

/// Workspace numbers are written in decimal: only the digits 0 to 9, no
/// leading zero, reading back as the number.
pub proof fn law_decimal_reads_back(n: nat)
    ensures
        digits_value(decimal(n)) == n,
        decimal(n).len() >= 1,
        forall|i: int| 0 <= i < decimal(n).len() ==> '0' <= #[trigger] decimal(n)[i] <= '9',
        n > 0 ==> decimal(n)[0] != '0',
    decreases n,
{
    if n >= 10 {
        let q = n / 10;
        let r = n % 10;
        law_decimal_reads_back(q);
        let d = decimal(n);
        assert(d.drop_last() =~= decimal(q));
        assert(d[0] == decimal(q)[0]);
        assert forall|i: int| 0 <= i < d.len() implies '0' <= #[trigger] d[i] <= '9' by {
            if i < d.len() - 1 {
                assert(d[i] == decimal(q)[i]);
            }
        }
        assert(q * 10 + r == n) by (nonlinear_arith)
            requires
                q == n / 10,
                r == n % 10,
        ;
        assert(d.last() == digit(r as int));
        assert((digit(r as int) as int) - ('0' as int) == r);
        assert(digits_value(d) == digits_value(decimal(q)) * 10 + r);
    } else {
        let d = decimal(n);
        assert(d.drop_last() =~= Seq::<char>::empty());
        assert((digit(n as int) as int) - ('0' as int) == n);
        assert(digits_value(d) == digits_value(d.drop_last()) * 10 + ((d.last() as int) - ('0' as int)));
    }
}

/// Coalescing icon requests keeps, for each application id it keeps, its
/// first request: every kept id is requested, and no earlier request
/// normalizes to the same key.
pub proof fn law_requests_keep_the_first_of_each_id(ids: Seq<Seq<char>>, cap: int)
    ensures
        forall|k: int| 0 <= k < first_by_key(ids, cap).len() ==> exists|m: int| 0 <= m < ids.len()
            && ids[m] == #[trigger] first_by_key(ids, cap)[k]
            && forall|m2: int| 0 <= m2 < m ==> normalized_id(#[trigger] ids[m2]) != normalized_id(ids[m]),
    decreases ids.len(),
{
    if ids.len() > 0 {
        let rest = ids.drop_last();
        law_requests_keep_the_first_of_each_id(rest, cap);
        lemma_first_by_key_covers(rest, cap);
        let prev = first_by_key(rest, cap);
        let kept = first_by_key(ids, cap);
        assert forall|k: int| 0 <= k < kept.len() implies exists|m: int| 0 <= m < ids.len()
            && ids[m] == #[trigger] kept[k]
            && forall|m2: int| 0 <= m2 < m ==> normalized_id(#[trigger] ids[m2]) != normalized_id(ids[m]) by {
            if k < prev.len() {
                assert(kept[k] == prev[k]);
                let m = choose|m: int| 0 <= m < rest.len() && rest[m] == #[trigger] prev[k]
                    && forall|m2: int| 0 <= m2 < m ==> normalized_id(#[trigger] rest[m2]) != normalized_id(rest[m]);
                assert(ids[m] == rest[m]);
                assert forall|m2: int| 0 <= m2 < m implies normalized_id(#[trigger] ids[m2]) != normalized_id(ids[m]) by {
                    assert(ids[m2] == rest[m2]);
                }
            } else {
                let m = ids.len() - 1;
                assert(kept[k] == ids[m]);
                assert(prev.len() < cap);
                assert forall|m2: int| 0 <= m2 < m implies normalized_id(#[trigger] ids[m2]) != normalized_id(ids[m]) by {
                    assert(ids[m2] == rest[m2]);
                    let j = choose|j: int| 0 <= j < prev.len() && normalized_id(#[trigger] prev[j]) == normalized_id(rest[m2]);
                    assert(normalized_id(prev[j]) == normalized_id(rest[m2]));
                }
            }
        }
    }
}

/// Once a desktop id is admitted it counts as seen, and so is never admitted
/// again; ids seen before stay seen.
pub proof fn law_admitted_ids_are_seen(seen: Seq<String>, id: String, other: Seq<char>)
    ensures
        crate::catalog::seen_id(seen.push(id), id@),
        crate::catalog::seen_id(seen, other) ==> crate::catalog::seen_id(seen.push(id), other),
        !crate::catalog::seen_id(Seq::<String>::empty(), other),
{
    assert(seen.push(id)[seen.len() as int] == id);
    if crate::catalog::seen_id(seen, other) {
        let k = choose|k: int| 0 <= k < seen.len() && (#[trigger] seen[k])@ == other;
        assert(seen.push(id)[k] == seen[k]);
    }
}

proof fn lemma_trim_start_push(s: Seq<char>, c: char)
    requires
        crate::text::is_unicode_whitespace(c),
    ensures
        crate::text::trim_start(s.push(c)) == (if crate::text::trim_start(s).len() > 0 {
            crate::text::trim_start(s).push(c)
        } else {
            Seq::<char>::empty()
        }),
    decreases s.len(),
{
    if s.len() == 0 {
        assert(s.push(c).drop_first() =~= s);
    } else if crate::text::is_unicode_whitespace(s[0]) {
        assert(s.push(c).drop_first() =~= s.drop_first().push(c));
        lemma_trim_start_push(s.drop_first(), c);
    }
}

/// White space around an application id does not change its key: a leading
/// or trailing space is ignored, and so is trimming.
pub proof fn law_white_space_around_ids_is_ignored(s: Seq<char>)
    ensures
        normalized_id(" "@ + s) == normalized_id(s),
        normalized_id(s + " "@) == normalized_id(s),
{
    reveal_strlit(" ");
    assert((" "@ + s)[0] == ' ');
    assert((" "@ + s).drop_first() =~= s);
    assert(crate::text::trim_start(" "@ + s) == crate::text::trim_start(s));
    assert(s + " "@ =~= s.push(' '));
    lemma_trim_start_push(s, ' ');
    let t = crate::text::trim_start(s);
    if t.len() > 0 {
        assert(t.push(' ').drop_last() =~= t);
        assert(crate::text::trim_end(t.push(' ')) == crate::text::trim_end(t));
    } else {
        assert(crate::text::trim_end(t) == t);
        assert(t =~= Seq::<char>::empty());
    }
}

/// A listed application shows its desktop file's Name, or its desktop id
/// when the file has none; its first 32 keywords, all of them when there are
/// at most 32; and launches the command its Exec key parses to.
pub proof fn law_listed_applications_show_their_file(e: CatalogEntry, f: EntryFlags, l: Option<crate::catalog::EntryLabels>)
    requires
        crate::catalog::summary_fits(e.summary, f, l),
    ensures
        e.summary.id@ == f.appid@,
        l matches Some(lab) ==> (lab.name matches Some(n) ==> e.summary.name@ == n@),
        (l is None || l->0.name is None) ==> e.summary.name@ == f.appid@,
        e.summary.keywords@.len() <= 32,
        l matches Some(lab) ==> lab.keywords matches Some(ks) ==> {
            &&& e.summary.keywords@.len() == (if ks@.len() <= 32 { ks@.len() } else { 32 })
            &&& forall|i: int| 0 <= i < e.summary.keywords@.len() ==> (#[trigger] e.summary.keywords@[i])@ == ks@[i]@
        },
        f.argv == Some(e.summary.exec_argv),
        e.summary.icon is None,
{
    let kv = crate::catalog::strings_view(e.summary.keywords@);
    assert(kv.len() == e.summary.keywords@.len());
    if let Some(lab) = l {
        if let Some(ks) = lab.keywords {
            let kk = crate::catalog::strings_view(ks@);
            assert forall|i: int| 0 <= i < e.summary.keywords@.len() implies (#[trigger] e.summary.keywords@[i])@ == ks@[i]@ by {
                assert(kv[i] == e.summary.keywords@[i]@);
                assert(kk[i] == ks@[i]@);
            }
        }
    }
}

/// A desktop file that is shown, of type Application (or of no type), with
/// an Exec key that parses to at least one argument, is admitted unless its
/// id was seen.
pub proof fn law_launchable_files_are_listed(flags: EntryFlags)
    requires
        !flags.hidden,
        !flags.no_display,
        flags.kind matches Some(k) ==> k@ == "Application"@,
        flags.exec_line is Some,
        flags.argv matches Some(argv) && argv@.len() > 0,
    ensures
        launchable(flags),
{
}

/// A frame of the requested size whose data holds exactly its pixels in a
/// gray, gray-and-alpha, RGB or RGBA layout always becomes the preview.
pub proof fn law_full_frames_become_previews(
    workspace: WorkspaceId,
    width: u32,
    height: u32,
    layout: PixelLayout,
    data: Seq<u8>,
)
    requires
        width > 0,
        height > 0,
        layout != PixelLayout::Indexed,
        data.len() == width * height * (match layout {
            PixelLayout::Grayscale => 1int,
            PixelLayout::GrayscaleAlpha => 2int,
            PixelLayout::Rgb => 3int,
            _ => 4int,
        }),
    ensures
        preview_from_frame(workspace, width, height, Some((width, height, layout, data))) is Some,
{
    let px = width * height;
    assert(px > 0) by (nonlinear_arith)
        requires
            width > 0,
            height > 0,
            px == width * height,
    ;
    assert((px * 3) / 3 == px && (px * 2) / 2 == px && (px * 4) / 4 == px);
    assert(px * 4 == width * height * 4);
}

} // verus!
