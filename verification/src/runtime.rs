use vstd::prelude::*;

use crate::desktop::{DesktopSnapshot, WorkspaceId};
use crate::preview::MAX_PREVIEWS;

verus! {

/// Interval between successful snapshot queries, in milliseconds.
pub const SNAPSHOT_REFRESH_MS: u64 = 500;

/// Longest wait between failed snapshot queries, in milliseconds.
pub const SNAPSHOT_MAX_BACKOFF_MS: u64 = 5000;

/// The snapshot worker's schedule: how long to wait before the next query, and
/// the generation last published to the shell.
pub struct SnapshotPoller {
    backoff_ms: u64,
    last_generation: Option<u64>,
}

impl SnapshotPoller {
    /// The wait before the next query, in milliseconds.
    pub closed spec fn wait(&self) -> u64 {
        self.backoff_ms
    }

    /// The generation last published.
    pub closed spec fn published(&self) -> Option<u64> {
        self.last_generation
    }

    /// The wait always lies between the refresh interval and the backoff cap.
    pub open spec fn wf(&self) -> bool {
        SNAPSHOT_REFRESH_MS <= self.wait() <= SNAPSHOT_MAX_BACKOFF_MS
    }

    #[verifier::type_invariant]
    spec fn bounded(&self) -> bool {
        self.wf()
    }

    /// A poller that has published nothing and waits the refresh interval.
    pub fn new() -> (p: Self)
        ensures
            p.wf(),
            p.wait() == SNAPSHOT_REFRESH_MS,
            p.published() is None,
    {
        SnapshotPoller { backoff_ms: SNAPSHOT_REFRESH_MS, last_generation: None }
    }

    /// The wait before the next query, in milliseconds.
    pub fn backoff_ms(&self) -> (ms: u64)
        ensures
            ms == self.wait(),
            SNAPSHOT_REFRESH_MS <= ms <= SNAPSHOT_MAX_BACKOFF_MS,
    {
        proof {
            use_type_invariant(self);
        }
        self.backoff_ms
    }

    /// After a successful query: the wait returns to the refresh interval, and
    /// the snapshot is published only when its generation differs from the last
    /// one published.
    pub fn on_snapshot(&mut self, generation: u64) -> (publish: bool)
        ensures
            final(self).wf(),
            final(self).wait() == SNAPSHOT_REFRESH_MS,
            publish == (old(self).published() != Some(generation)),
            final(self).published() == Some(generation),
    {
        self.backoff_ms = SNAPSHOT_REFRESH_MS;
        let publish = match self.last_generation {
            Some(g) => g != generation,
            None => true,
        };
        self.last_generation = Some(generation);
        publish
    }

    /// After a failed query: the wait doubles, up to five seconds.
    pub fn on_failure(&mut self)
        ensures
            final(self).wf(),
            final(self).wait() == (if 2 * old(self).wait() < SNAPSHOT_MAX_BACKOFF_MS {
                2 * old(self).wait()
            } else {
                SNAPSHOT_MAX_BACKOFF_MS as int
            }),
            final(self).published() == old(self).published(),
    {
        proof {
            use_type_invariant(&*self);
        }
        let doubled = self.backoff_ms * 2;
        self.backoff_ms = if doubled < SNAPSHOT_MAX_BACKOFF_MS { doubled } else { SNAPSHOT_MAX_BACKOFF_MS };
    }
}

/// Which preview request the shell waits for.
pub struct PreviewTracker {
    generation: u64,
}

/// The workspaces of a snapshot previews are requested for: the first ten.
pub open spec fn preview_targets(s: DesktopSnapshot) -> Seq<WorkspaceId> {
    let ks = s.workspaces@;
    let n = if ks.len() <= MAX_PREVIEWS { ks.len() as int } else { MAX_PREVIEWS as int };
    Seq::new(n as nat, |i: int| ks[i].workspace)
}

impl PreviewTracker {
    /// The generation of the request the shell waits for.
    pub closed spec fn current(&self) -> u64 {
        self.generation
    }

    /// A tracker that has requested nothing.
    pub fn new() -> (t: Self)
        ensures
            t.current() == 0,
    {
        PreviewTracker { generation: 0 }
    }

    /// Starts a preview request for a new snapshot: the generation advances
    /// (wrapping) and the first ten workspaces are requested.
    pub fn request(&mut self, snapshot: &DesktopSnapshot) -> (r: (u64, Vec<WorkspaceId>))
        ensures
            final(self).current() == (if old(self).current() == u64::MAX { 0 } else { old(self).current() + 1 }),
            r.0 == final(self).current(),
            r.1@ == preview_targets(*snapshot),
    {
        self.generation = self.generation.wrapping_add(1);
        let mut targets: Vec<WorkspaceId> = Vec::new();
        let n = if snapshot.workspaces.len() <= MAX_PREVIEWS { snapshot.workspaces.len() } else { MAX_PREVIEWS };
        let mut i: usize = 0;
        while i < n
            invariant
                i <= n,
                n <= snapshot.workspaces@.len(),
                n == preview_targets(*snapshot).len(),
                targets@ == preview_targets(*snapshot).take(i as int),
            decreases n - i,
        {
            targets.push(snapshot.workspaces[i].workspace);
            assert(targets@ =~= preview_targets(*snapshot).take(i + 1));
            i = i + 1;
        }
        assert(targets@ =~= preview_targets(*snapshot));
        (self.generation, targets)
    }

    /// Whether previews tagged `generation` answer the current request.
    pub fn accepts(&self, generation: u64) -> (r: bool)
        ensures
            r == (generation == self.current()),
    {
        generation == self.generation
    }
}

/// What the shell's frame loop knows between frames: whether the surface has
/// been configured, and whether the scene must be rebuilt.
#[derive(Clone, Copy, Debug, PartialEq, Eq, Structural)]
pub struct FrameState {
    pub configured: bool,
    pub scene_dirty: bool,
}

/// What one draw does: rebuild the scene and render list, and submit a frame.
#[derive(Clone, Copy, Debug, PartialEq, Eq, Structural)]
pub struct FrameAction {
    pub rebuild: bool,
    pub render: bool,
}

/// Decides one draw. Before the surface is configured nothing happens. After,
/// the scene is rebuilt and a frame submitted exactly when the scene was marked
/// dirty, a different snapshot arrived, or the awaited previews arrived; an
/// unchanged frame is not submitted again.
pub fn frame_step(state: &mut FrameState, snapshot_changed: bool, preview_accepted: bool) -> (r: FrameAction)
    ensures
        !old(state).configured ==> !r.rebuild && !r.render && *final(state) == *old(state),
        old(state).configured ==> {
            &&& r.rebuild == (old(state).scene_dirty || snapshot_changed || preview_accepted)
            &&& r.render == r.rebuild
            &&& *final(state) == (FrameState { configured: true, scene_dirty: false })
        },
{
    if !state.configured {
        return FrameAction { rebuild: false, render: false };
    }
    let changed = state.scene_dirty || snapshot_changed || preview_accepted;
    state.scene_dirty = false;
    FrameAction { rebuild: changed, render: changed }
}

} // verus!
