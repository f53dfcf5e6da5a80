use vstd::prelude::*;

verus! {

use crate::sort::SerializedSlicedFeature;
use crate::tileid::TileIdMethod;
use crate::tileid::spec_id_to_zxy;
use crate::tileid::valid_zxy;
use crate::tileid::spec_zxy_to_id;

/// The failures a pipeline run can surface.
#[derive(Debug, Clone, Copy, PartialEq, Eq, Structural)]
pub enum PipelineError {
    /// A geometry entry's kind is not sliceable (curve or point input):
    /// an upstream contract violation, surfaced rather than skipped.
    UnsupportedGeometry,
    /// Reading or writing a temporary sort chunk failed; fatal to the
    /// whole pipeline.
    SpillIo,
    /// A sliced feature could not be encoded or decoded.
    Encoding,
    /// The run was canceled cooperatively; not a failure.
    Canceled,
}

/// Lifecycle of one pipeline run.
#[derive(Debug, Clone, Copy, PartialEq, Eq, Structural)]
pub enum PipelineState {
    Idle,
    Running,
    Completed,
    Canceled,
    Failed,
}

/// What the orchestrator observes from its stage workers: a stage ran to
/// the end of its input, a stage gave up with an error, or cancellation
/// was requested from outside.
#[derive(Debug, Clone, Copy, PartialEq, Eq, Structural)]
pub enum StageEvent {
    StageFinished,
    StageFailed(PipelineError),
    CancelRequested,
}

/// The orchestrator's bookkeeping for one run of the three-stage
/// pipeline.
#[derive(Debug, Clone, Copy, PartialEq, Eq, Structural)]
pub struct PipelineStatus {
    pub state: PipelineState,
    pub stages_done: u8,
    pub cancel_requested: bool,
    pub failed: bool,
}

/// The bookkeeping invariant: three stages at most; a terminal state
/// records how the run ended, and cancellation always wins over failure.
pub open spec fn wf_status(s: PipelineStatus) -> bool {
    &&& s.stages_done <= 3
    &&& (s.state is Idle ==> s.stages_done == 0 && !s.cancel_requested && !s.failed)
    &&& (s.state is Running ==> s.stages_done < 3)
    &&& (s.state is Completed ==> s.stages_done == 3 && !s.cancel_requested && !s.failed)
    &&& (s.state is Canceled ==> s.stages_done == 3 && s.cancel_requested)
    &&& (s.state is Failed ==> s.stages_done == 3 && s.failed && !s.cancel_requested)
}

/// The state a finished run reports: cancellation wins over any error,
/// an error wins over completion.
pub open spec fn spec_final_state(cancel_requested: bool, failed: bool) -> PipelineState {
    if cancel_requested {
        PipelineState::Canceled
    } else if failed {
        PipelineState::Failed
    } else {
        PipelineState::Completed
    }
}

/// One orchestrator step.  Events arriving outside `Running` are ignored;
/// the third stage termination closes the run.
pub open spec fn spec_step(s: PipelineStatus, ev: StageEvent) -> PipelineStatus {
    if !(s.state is Running) {
        s
    } else {
        match ev {
            StageEvent::CancelRequested => PipelineStatus { cancel_requested: true, ..s },
            StageEvent::StageFinished => {
                let done = (s.stages_done + 1) as u8;
                if done == 3 {
                    PipelineStatus {
                        state: spec_final_state(s.cancel_requested, s.failed),
                        stages_done: 3,
                        ..s
                    }
                } else {
                    PipelineStatus { stages_done: done, ..s }
                }
            },
            StageEvent::StageFailed(_) => {
                let done = (s.stages_done + 1) as u8;
                if done == 3 {
                    PipelineStatus {
                        state: spec_final_state(s.cancel_requested, true),
                        stages_done: 3,
                        failed: true,
                        ..s
                    }
                } else {
                    PipelineStatus { stages_done: done, failed: true, ..s }
                }
            },
        }
    }
}

/// Folding a whole event sequence through the orchestrator.
pub open spec fn spec_run(s: PipelineStatus, events: Seq<StageEvent>) -> PipelineStatus
    decreases events.len(),
{
    if events.len() == 0 {
        s
    } else {
        spec_run(spec_step(s, events[0]), events.drop_first())
    }
}

proof fn lemma_step_wf(s: PipelineStatus, ev: StageEvent)
    requires
        wf_status(s),
    ensures
        wf_status(spec_step(s, ev)),
{
}

/// Stage terminations (finished or failed) among the events.
pub open spec fn count_terminations(events: Seq<StageEvent>) -> nat
    decreases events.len(),
{
    if events.len() == 0 {
        0
    } else {
        (match events[0] {
            StageEvent::CancelRequested => 0nat,
            _ => 1nat,
        }) + count_terminations(events.drop_first())
    }
}

/// Cancellation: once cancellation is requested on a running pipeline,
/// no later event can turn the run into `Failed` or `Completed`; and as
/// soon as the in-flight stages have terminated — at most three
/// terminations later — the run reports `Canceled`.
pub proof fn lemma_cancellation_wins(s: PipelineStatus, events: Seq<StageEvent>)
    requires
        wf_status(s),
        s.cancel_requested,
        s.state is Running || s.state is Canceled,
    ensures
        wf_status(spec_run(s, events)),
        spec_run(s, events).state is Running || spec_run(s, events).state is Canceled,
        !(spec_run(s, events).state is Failed),
        !(spec_run(s, events).state is Completed),
        (s.state is Running && count_terminations(events) >= 3 - s.stages_done) ==> spec_run(
            s,
            events,
        ).state is Canceled,
    decreases events.len(),
{
    if events.len() > 0 {
        let s2 = spec_step(s, events[0]);
        lemma_step_wf(s, events[0]);
        assert(s2.cancel_requested);
        assert(count_terminations(events) == (match events[0] {
            StageEvent::CancelRequested => 0nat,
            _ => 1nat,
        }) + count_terminations(events.drop_first()));
        if s2.state is Running || s2.state is Canceled {
            lemma_cancellation_wins(s2, events.drop_first());
        }
        if !(s2.state is Running) {
            lemma_terminal_stays(s2, events.drop_first());
        }
    }
}

/// Runs end: whatever the events, a run that sees three stage
/// terminations while running reaches a terminal state, and it is
/// `Completed` exactly when no failure and no cancellation came first.
pub proof fn lemma_run_terminates(s: PipelineStatus, events: Seq<StageEvent>)
    requires
        wf_status(s),
        s.state is Running,
        count_terminations(events) >= 3 - s.stages_done,
    ensures
        wf_status(spec_run(s, events)),
        !(spec_run(s, events).state is Running),
        !(spec_run(s, events).state is Idle),
    decreases events.len(),
{
    if events.len() > 0 {
        let s2 = spec_step(s, events[0]);
        lemma_step_wf(s, events[0]);
        if s2.state is Running {
            lemma_run_terminates(s2, events.drop_first());
        } else {
            lemma_terminal_stays(s2, events.drop_first());
        }
    }
}

proof fn lemma_terminal_stays(s: PipelineStatus, events: Seq<StageEvent>)
    requires
        wf_status(s),
        !(s.state is Running),
    ensures
        spec_run(s, events) == s,
    decreases events.len(),
{
    if events.len() > 0 {
        lemma_terminal_stays(spec_step(s, events[0]), events.drop_first());
    }
}

impl PipelineStatus {
    /// A run that has not started.
    pub fn idle() -> (r: PipelineStatus)
        ensures
            wf_status(r),
            r.state is Idle,
    {
        PipelineStatus {
            state: PipelineState::Idle,
            stages_done: 0,
            cancel_requested: false,
            failed: false,
        }
    }

    /// Spawn the three stages.
    pub fn start(&mut self)
        requires
            wf_status(*old(self)),
            old(self).state is Idle,
        ensures
            wf_status(*final(self)),
            final(self).state is Running,
            final(self).stages_done == 0,
            !final(self).cancel_requested,
            !final(self).failed,
    {
        self.state = PipelineState::Running;
    }

    /// Feed one observed event through the orchestrator.
    pub fn on_event(&mut self, ev: StageEvent)
        requires
            wf_status(*old(self)),
        ensures
            wf_status(*final(self)),
            *final(self) == spec_step(*old(self), ev),
    {
        proof {
            lemma_step_wf(*self, ev);
        }
        if self.state == PipelineState::Running {
            match ev {
                StageEvent::CancelRequested => {
                    self.cancel_requested = true;
                },
                StageEvent::StageFinished => {
                    let done = self.stages_done + 1;
                    self.stages_done = done;
                    if done == 3 {
                        self.state = if self.cancel_requested {
                            PipelineState::Canceled
                        } else if self.failed {
                            PipelineState::Failed
                        } else {
                            PipelineState::Completed
                        };
                    }
                },
                StageEvent::StageFailed(_) => {
                    let done = self.stages_done + 1;
                    self.stages_done = done;
                    self.failed = true;
                    if done == 3 {
                        self.state = if self.cancel_requested {
                            PipelineState::Canceled
                        } else {
                            PipelineState::Failed
                        };
                    }
                },
            }
        }
    }
}

/// A bounded FIFO channel model: the producing side blocks (receives its
/// item back) when the queue is full, which is what couples the stages'
/// speeds.
pub struct BoundedQueue<T> {
    items: Vec<T>,
    cap: usize,
}

impl<T> BoundedQueue<T> {
    /// The queued items, oldest first.
    pub closed spec fn view(&self) -> Seq<T> {
        self.items@
    }

    pub closed spec fn spec_cap(&self) -> int {
        self.cap as int
    }

    /// Backpressure: the queue never holds more than its capacity.
    pub open spec fn inv(&self) -> bool {
        self.view().len() <= self.spec_cap()
    }

    pub fn new(cap: usize) -> (r: BoundedQueue<T>)
        requires
            cap >= 1,
        ensures
            r.inv(),
            r.view() =~= Seq::<T>::empty(),
            r.spec_cap() == cap,
    {
        BoundedQueue { items: Vec::new(), cap }
    }

    pub fn len(&self) -> (r: usize)
        ensures
            r == self.view().len(),
    {
        self.items.len()
    }

    /// Push an item, or hand it back when the queue is full.
    pub fn try_push(&mut self, item: T) -> (r: Option<T>)
        requires
            old(self).inv(),
        ensures
            final(self).inv(),
            final(self).spec_cap() == old(self).spec_cap(),
            old(self).view().len() < old(self).spec_cap() ==> r is None && final(self).view()
                =~= old(self).view().push(item),
            old(self).view().len() >= old(self).spec_cap() ==> r == Some(item)
                && final(self).view() =~= old(self).view(),
    {
        if self.items.len() < self.cap {
            self.items.push(item);
            None
        } else {
            Some(item)
        }
    }

    /// Pop the oldest item, if any.
    pub fn pop_front(&mut self) -> (r: Option<T>)
        requires
            old(self).inv(),
        ensures
            final(self).inv(),
            final(self).spec_cap() == old(self).spec_cap(),
            old(self).view().len() == 0 ==> r is None && final(self).view() =~= old(self).view(),
            old(self).view().len() > 0 ==> r == Some(old(self).view()[0]) && final(self).view()
                =~= old(self).view().drop_first(),
    {
        if self.items.len() > 0 {
            let item = self.items.remove(0);
            Some(item)
        } else {
            None
        }
    }
}

/// The writing stage's per-batch step: decode the batch's tile id back
/// to its tile coordinate and hand the features over untouched and in
/// order.  An empty batch is skipped; a batch whose id no tile encodes
/// to is corrupt input and fails the stage.
pub fn prepare_tile_batch(method: TileIdMethod, batch: (u64, Vec<SerializedSlicedFeature>)) -> (r:
    Result<Option<(u8, u32, u32, Vec<SerializedSlicedFeature>)>, PipelineError>)
    ensures
        match r {
            Ok(opt) => match opt {
                None => batch.1@.len() == 0,
                Some(out) => {
                    &&& batch.1@.len() > 0
                    &&& spec_id_to_zxy(batch.0 as nat) == Some((out.0, out.1, out.2))
                    &&& valid_zxy(out.0, out.1, out.2)
                    &&& batch.0 as nat == spec_zxy_to_id(out.0 as nat, out.1 as nat, out.2 as nat)
                    &&& out.3@ == batch.1@
                },
            },
            Err(e) => e == PipelineError::Encoding && batch.1@.len() > 0 && spec_id_to_zxy(
                batch.0 as nat,
            ) is None,
        },
{
    let (tile_id, features) = batch;
    if features.len() == 0 {
        return Ok(None);
    }
    match method.id_to_zxy(tile_id) {
        Some((zoom, x, y)) => Ok(Some((zoom, x, y, features))),
        None => Err(PipelineError::Encoding),
    }
}

} // verus!
