//! Capture pipelines of single windows: which windows have one, and how many may.

use crate::config::{Config, EncoderType};
use crate::pipeline::{build_window_pipeline_string, window_pipeline_text};
use std::collections::HashSet;
use vstd::prelude::*;

verus! {

broadcast use vstd::std_specs::hash::group_hash_axioms;

/// How a window comes to be streamed.
#[derive(Debug)]
pub enum WindowStart {
    /// Its pipeline runs already: force a keyframe and subscribe to its frames.
    AlreadyRunning,
    /// A pipeline with this description is to be launched. If that fails, the window is to be
    /// stopped again.
    Launch { description: String },
}

/// Why a window cannot be streamed.
#[derive(Debug, Clone, Copy, PartialEq, Eq, Structural)]
pub enum WindowPipelineError {
    /// There is no such window on the display.
    NoSuchWindow { window_id: u32 },
    /// As many windows are streamed as may be.
    LimitReached { max_pipelines: u32 },
}

/// Manages per-window pipelines.
#[derive(Debug)]
pub struct WindowPipelineManager {
    display: String,
    fps: u32,
    bitrate: u32,
    keyframe_interval: u32,
    max_pipelines: u32,
    encoder_type: EncoderType,
    pipelines: HashSet<u32>,
}

/// What comes of starting a window: `before` and `after` are the managers then and now.
pub open spec fn start_outcome(
    before: &WindowPipelineManager,
    after: &WindowPipelineManager,
    window_id: u32,
    exists: bool,
    start: Result<WindowStart, WindowPipelineError>,
) -> bool {
    if before@.contains(window_id) {
        start == Ok::<WindowStart, WindowPipelineError>(WindowStart::AlreadyRunning) && after@
            == before@
    } else if !exists {
        start == Err::<WindowStart, WindowPipelineError>(
            WindowPipelineError::NoSuchWindow { window_id },
        ) && after@ == before@
    } else if before@.len() >= before.limit() {
        start == Err::<WindowStart, WindowPipelineError>(
            WindowPipelineError::LimitReached { max_pipelines: before.limit() },
        ) && after@ == before@
    } else {
        (start matches Ok(WindowStart::Launch { description }) && description@
            == before.description_of(window_id)) && after@ == before@.insert(window_id)
    }
}

/// What comes of restarting a window: `before` and `after` are the managers then and now.
pub open spec fn restart_outcome(
    before: &WindowPipelineManager,
    after: &WindowPipelineManager,
    window_id: u32,
    exists: bool,
    start: Result<WindowStart, WindowPipelineError>,
) -> bool {
    if !exists {
        start == Err::<WindowStart, WindowPipelineError>(
            WindowPipelineError::NoSuchWindow { window_id },
        ) && after@ == before@.remove(window_id)
    } else if !before@.contains(window_id) && before@.len() >= before.limit() {
        start == Err::<WindowStart, WindowPipelineError>(
            WindowPipelineError::LimitReached { max_pipelines: before.limit() },
        ) && after@ == before@
    } else {
        (start matches Ok(WindowStart::Launch { description }) && description@
            == before.description_of(window_id)) && after@ == before@.insert(window_id)
    }
}

impl View for WindowPipelineManager {
    type V = Set<u32>;

    /// The windows that are streamed.
    closed spec fn view(&self) -> Set<u32> {
        self.pipelines@
    }
}

impl WindowPipelineManager {
    /// How many windows may be streamed at once.
    pub closed spec fn limit(&self) -> u32 {
        self.max_pipelines
    }

    /// The description of a window's pipeline.
    pub closed spec fn description_of(&self, window_id: u32) -> Seq<char> {
        window_pipeline_text(
            self.display@,
            window_id as nat,
            self.fps as nat,
            self.bitrate as nat,
            self.keyframe_interval as nat,
            self.encoder_type,
        )
    }

    /// No more windows are streamed than may be.
    pub open spec fn wf(&self) -> bool {
        self@.finite() && self@.len() <= self.limit()
    }

    /// The settings are those of `other`.
    pub open spec fn same_settings(&self, other: &Self) -> bool {
        &&& self.limit() == other.limit()
        &&& forall|w: u32| #[trigger] self.description_of(w) == other.description_of(w)
    }

    pub fn new(config: &Config, encoder_type: EncoderType) -> (manager: Self)
        ensures
            manager.wf(),
            manager@ == Set::<u32>::empty(),
            manager.limit() == config.max_window_pipelines,
            forall|w: u32| #[trigger]
                manager.description_of(w) == window_pipeline_text(
                    config.display@,
                    w as nat,
                    config.fps as nat,
                    config.window_bitrate as nat,
                    config.keyframe_interval as nat,
                    encoder_type,
                ),
    {
        let manager = WindowPipelineManager {
            display: config.display.clone(),
            fps: config.fps,
            bitrate: config.window_bitrate,
            keyframe_interval: config.keyframe_interval,
            max_pipelines: config.max_window_pipelines,
            encoder_type,
            pipelines: HashSet::new(),
        };
        proof {
            assert(manager@ =~= Set::<u32>::empty());
        }
        manager
    }

    /// Start streaming a window. `exists` says whether the window is on the display; it counts
    /// only if the window is not streamed yet.
    pub fn start_window(&mut self, window_id: u32, exists: bool) -> (start: Result<
        WindowStart,
        WindowPipelineError,
    >)
        requires
            old(self).wf(),
        ensures
            final(self).wf(),
            final(self).same_settings(old(self)),
            start_outcome(old(self), final(self), window_id, exists, start),
    {
        if self.pipelines.contains(&window_id) {
            return Ok(WindowStart::AlreadyRunning);
        }
        if !exists {
            return Err(WindowPipelineError::NoSuchWindow { window_id });
        }
        if self.pipelines.len() as u64 >= self.max_pipelines as u64 {
            return Err(WindowPipelineError::LimitReached { max_pipelines: self.max_pipelines });
        }
        let description = build_window_pipeline_string(
            self.display.as_str(),
            window_id,
            self.fps,
            self.bitrate,
            self.keyframe_interval,
            self.encoder_type,
        );
        self.pipelines.insert(window_id);
        Ok(WindowStart::Launch { description })
    }

    /// Stop streaming a window; says whether it has a pipeline to tear down.
    pub fn stop_window(&mut self, window_id: u32) -> (stopped: bool)
        requires
            old(self).wf(),
        ensures
            final(self).wf(),
            final(self).same_settings(old(self)),
            stopped == old(self)@.contains(window_id),
            final(self)@ == old(self)@.remove(window_id),
    {
        let stopped = self.pipelines.remove(&window_id);
        proof {
            assert(self@ =~= old(self)@.remove(window_id));
        }
        stopped
    }

    /// Check if a window is currently being streamed. Only then is there a pipeline to pause or
    /// resume, and are there frames to receive.
    pub fn is_streaming(&self, window_id: u32) -> (streaming: bool)
        ensures
            streaming == self@.contains(window_id),
    {
        self.pipelines.contains(&window_id)
    }

    /// Restart a window's pipeline (e.g., after resize): stops it, if it runs, and starts it
    /// anew. Says also whether it has a pipeline to tear down first.
    pub fn restart_window(&mut self, window_id: u32, exists: bool) -> (restart: (
        bool,
        Result<WindowStart, WindowPipelineError>,
    ))
        requires
            old(self).wf(),
        ensures
            final(self).wf(),
            final(self).same_settings(old(self)),
            restart.0 == old(self)@.contains(window_id),
            restart_outcome(old(self), final(self), window_id, exists, restart.1),
            match restart.1 {
                Ok(WindowStart::AlreadyRunning) => false,
                Ok(WindowStart::Launch { description }) => exists && (old(self)@.contains(
                    window_id,
                ) || old(self)@.len() < old(self).limit()) && description@ == old(
                    self,
                ).description_of(window_id) && final(self)@ == old(self)@.insert(window_id),
                Err(WindowPipelineError::NoSuchWindow { window_id: id }) => !exists && id
                    == window_id && final(self)@ == old(self)@.remove(window_id),
                Err(WindowPipelineError::LimitReached { max_pipelines }) => exists && !old(
                    self,
                )@.contains(window_id) && old(self)@.len() == old(self).limit() && max_pipelines
                    == old(self).limit() && final(self)@ == old(self)@,
            },
    {
        let ghost before = self@;
        let stopped = self.stop_window(window_id);
        let start = self.start_window(window_id, exists);
        proof {
            if before.contains(window_id) {
                assert(before.remove(window_id).insert(window_id) =~= before.insert(window_id));
            } else {
                assert(before.remove(window_id) =~= before);
            }
        }
        (stopped, start)
    }

    /// Stop all pipelines; gives the windows whose pipelines are to be torn down.
    pub fn stop_all(&mut self) -> (ids: Vec<u32>)
        requires
            old(self).wf(),
        ensures
            final(self).wf(),
            final(self).same_settings(old(self)),
            final(self)@ == Set::<u32>::empty(),
            ids@.to_set() == old(self)@,
            ids@.no_duplicates(),
    {
        let mut ids: Vec<u32> = Vec::new();
        for id in it: self.pipelines.iter()
            invariant
                it.seq().unref().to_set() == self.pipelines@,
                it.seq().no_duplicates(),
                it.seq().len() == self.pipelines@.len(),
                ids@.len() == it.index(),
                ids@.no_duplicates(),
                forall|i: int| 0 <= i < ids@.len() ==> ids@[i] == *(#[trigger] it.seq()[i]),
                forall|i: int| 0 <= i < ids@.len() ==> self.pipelines@.contains(#[trigger] ids@[i]),
        {
            proof {
                assert(it.seq().unref()[it.index() as int] == *id);
                assert(it.seq().unref().to_set().contains(*id));
                assert forall|j: int| 0 <= j < ids@.len() implies ids@[j] != *id by {
                    assert(it.seq()[j] != it.seq()[it.index() as int]);
                }
            }
            ids.push(*id);
        }
        proof {
            ids@.unique_seq_to_set();
            vstd::set_lib::lemma_subset_equality(ids@.to_set(), self.pipelines@);
        }
        self.pipelines.clear();
        proof {
            assert(self@ =~= Set::<u32>::empty());
        }
        ids
    }

    /// Number of active pipelines.
    pub fn active_count(&self) -> (count: usize)
        ensures
            count == self@.len(),
    {
        self.pipelines.len()
    }
}

// ---------------------------------------------------------------------------
// Laws
// ---------------------------------------------------------------------------

/// Starting a window that is streamed changes nothing, whether or not it is said to exist. One
/// that is not streamed and does not exist is refused for that reason, even if no more windows may
/// be streamed; one that exists is refused exactly if as many are streamed as may be, and streamed
/// from then on if not. A window that is refused is not streamed.
pub proof fn law_start(
    before: &WindowPipelineManager,
    after: &WindowPipelineManager,
    window_id: u32,
    exists: bool,
    start: Result<WindowStart, WindowPipelineError>,
)
    requires
        before.wf(),
        start_outcome(before, after, window_id, exists, start),
    ensures
        before@.contains(window_id) <==> start matches Ok(WindowStart::AlreadyRunning),
        !before@.contains(window_id) && !exists <==> start matches Err(
            WindowPipelineError::NoSuchWindow { .. },
        ),
        !before@.contains(window_id) && exists && before@.len() == before.limit() <==> start
            matches Err(WindowPipelineError::LimitReached { .. }),
        !before@.contains(window_id) && exists && before@.len() < before.limit() <==> start
            matches Ok(WindowStart::Launch { .. }),
        start matches Err(WindowPipelineError::NoSuchWindow { window_id: id }) ==> id == window_id,
        start matches Err(WindowPipelineError::LimitReached { max_pipelines }) ==> max_pipelines
            == before.limit(),
        start is Ok ==> after@.contains(window_id),
        start is Err ==> !after@.contains(window_id),
        forall|other: u32|
            other != window_id ==> (#[trigger] after@.contains(other) <==> before@.contains(other)),
        after@.len() <= before.limit(),
        start matches Ok(WindowStart::Launch { .. }) ==> after@.len() == before@.len() + 1,
{
}

/// A window that was started is not started again: the second time it runs already, whoever asks.
pub proof fn law_started_once(
    before: &WindowPipelineManager,
    middle: &WindowPipelineManager,
    after: &WindowPipelineManager,
    window_id: u32,
    exists: bool,
    first: Result<WindowStart, WindowPipelineError>,
    second: Result<WindowStart, WindowPipelineError>,
)
    requires
        before.wf(),
        middle.wf(),
        start_outcome(before, middle, window_id, true, first),
        first is Ok,
        start_outcome(middle, after, window_id, exists, second),
    ensures
        second matches Ok(WindowStart::AlreadyRunning),
        after@ == middle@,
{
}

/// A window that is restarted never counts as running: if it exists and is streamed, or there is
/// room for it, it is launched anew, and the others stay as they are; if it does not exist, it is
/// streamed no more. A window that is streamed is not refused for want of room.
pub proof fn law_restart(
    before: &WindowPipelineManager,
    after: &WindowPipelineManager,
    window_id: u32,
    exists: bool,
    start: Result<WindowStart, WindowPipelineError>,
)
    requires
        before.wf(),
        restart_outcome(before, after, window_id, exists, start),
    ensures
        !(start matches Ok(WindowStart::AlreadyRunning)),
        start is Ok <==> exists && (before@.contains(window_id) || before@.len() < before.limit()),
        start is Ok <==> after@.contains(window_id),
        !exists ==> start == Err::<WindowStart, WindowPipelineError>(
            WindowPipelineError::NoSuchWindow { window_id },
        ),
        exists && start is Err ==> start == Err::<WindowStart, WindowPipelineError>(
            WindowPipelineError::LimitReached { max_pipelines: before.limit() },
        ),
        start matches Ok(WindowStart::Launch { description }) ==> description@
            == before.description_of(window_id),
        forall|other: u32|
            other != window_id ==> (#[trigger] after@.contains(other) <==> before@.contains(other)),
{
}

} // verus!
