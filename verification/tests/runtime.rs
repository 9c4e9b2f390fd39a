use knave_shell::desktop::{DesktopSnapshot, WorkspaceId, WorkspaceSummary};
use knave_shell::glyph::{bitmap, lit_cells};
use knave_shell::runtime::{frame_step, FrameAction, FrameState, PreviewTracker, SnapshotPoller};
use knave_shell::texture::{texture_slot, CacheSlot, TextureCache};

#[test]
fn snapshot_backoff_doubles_to_five_seconds() {
    let mut poller = SnapshotPoller::new();
    assert_eq!(poller.backoff_ms(), 500);
    poller.on_failure();
    assert_eq!(poller.backoff_ms(), 1000);
    for _ in 0..10 {
        poller.on_failure();
    }
    assert_eq!(poller.backoff_ms(), 5000);
    assert!(poller.on_snapshot(7));
    assert_eq!(poller.backoff_ms(), 500);
    assert!(!poller.on_snapshot(7));
    assert!(poller.on_snapshot(8));
}

#[test]
fn previews_of_stale_snapshots_are_dropped() {
    let snapshot = DesktopSnapshot {
        generation: 1,
        workspaces: (1..=12)
            .map(|n| WorkspaceSummary { workspace: WorkspaceId(n), active: n == 1, window_count: 0, visible_window_count: 0 })
            .collect(),
        windows: Vec::new(),
    };
    let mut tracker = PreviewTracker::new();
    let (first, targets) = tracker.request(&snapshot);
    assert_eq!(first, 1);
    assert_eq!(targets.len(), 10);
    assert_eq!(targets[9], WorkspaceId(10));
    let (second, _) = tracker.request(&snapshot);
    assert!(tracker.accepts(second));
    assert!(!tracker.accepts(first));
}

#[test]
fn glyphs_are_five_by_seven() {
    assert_eq!(bitmap('a'), bitmap('A'));
    assert_eq!(bitmap('-'), [0x00, 0x00, 0x00, 0x1f, 0x00, 0x00, 0x00]);
    assert_eq!(bitmap('~'), bitmap('?'));
    let cells = lit_cells(bitmap('-'));
    assert_eq!(cells, vec![(3, 0), (3, 1), (3, 2), (3, 3), (3, 4)]);
    let one = lit_cells(bitmap('1'));
    assert_eq!(one[0], (0, 2));
    assert_eq!(one.len(), 1 + 2 + 1 + 1 + 1 + 1 + 3);
}

#[test]
fn frames_are_submitted_only_after_a_change() {
    let mut unconfigured = FrameState { configured: false, scene_dirty: true };
    assert_eq!(frame_step(&mut unconfigured, true, true), FrameAction { rebuild: false, render: false });
    assert_eq!(unconfigured, FrameState { configured: false, scene_dirty: true });
    let mut state = FrameState { configured: true, scene_dirty: true };
    assert_eq!(frame_step(&mut state, false, false), FrameAction { rebuild: true, render: true });
    assert!(!state.scene_dirty);
    assert_eq!(frame_step(&mut state, false, false), FrameAction { rebuild: false, render: false });
    assert_eq!(frame_step(&mut state, true, false), FrameAction { rebuild: true, render: true });
    assert_eq!(frame_step(&mut state, false, true), FrameAction { rebuild: true, render: true });
}

#[test]
fn textures_are_reused_and_bounded() {
    let mut cache: Vec<(u64, u32, u32, usize)> = Vec::new();
    assert_eq!(texture_slot(&cache, (1, 48, 48), 9216), CacheSlot::Insert { evict: 0 });
    cache.push((1, 48, 48, 9216));
    cache.push((2, 320, 180, 230400));
    assert_eq!(texture_slot(&cache, (2, 320, 180), 230400), CacheSlot::Hit(1));
    assert_eq!(texture_slot(&cache, (2, 48, 48), 9216), CacheSlot::Insert { evict: 0 });
    let full: Vec<(u64, u32, u32, usize)> = (0..64).map(|i| (i, 48, 48, 9216)).collect();
    assert_eq!(texture_slot(&full, (99, 48, 48), 9216), CacheSlot::Insert { evict: 1 });
    let heavy: Vec<(u64, u32, u32, usize)> = (0..18).map(|i| (i, 320, 180, 230400)).collect();
    assert_eq!(texture_slot(&heavy, (99, 320, 180), 230400), CacheSlot::Insert { evict: 1 });
    assert_eq!(texture_slot(&heavy, (99, 4096, 4096), 4096 * 4096 * 4), CacheSlot::Insert { evict: 18 });
}

#[test]
fn the_texture_cache_stays_within_64_entries_and_4_mib() {
    let mut cache = TextureCache::new();
    for key in 0..100u64 {
        assert_eq!(cache.place((key, 320, 180), 230400), CacheSlot::Insert { evict: if key < 18 { 0 } else { 1 } });
    }
    assert_eq!(cache.len(), 18);
    assert_eq!(cache.place((99, 320, 180), 230400), CacheSlot::Hit(17));
    for key in 200..300u64 {
        cache.place((key, 48, 48), 9216);
    }
    assert_eq!(cache.len(), 64);
}
