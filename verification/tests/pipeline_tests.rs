use nusamai::pipeline::BoundedQueue;
use nusamai::pipeline::PipelineError;
use nusamai::pipeline::PipelineState;
use nusamai::pipeline::PipelineStatus;
use nusamai::pipeline::prepare_tile_batch;
use nusamai::pipeline::StageEvent;
use nusamai::sort::SerializedSlicedFeature;
use nusamai::tileid::TileIdMethod;

#[test]
fn all_stages_finishing_completes_the_run() {
    let mut status = PipelineStatus::idle();
    status.start();
    assert_eq!(status.state, PipelineState::Running);
    status.on_event(StageEvent::StageFinished);
    status.on_event(StageEvent::StageFinished);
    assert_eq!(status.state, PipelineState::Running);
    status.on_event(StageEvent::StageFinished);
    assert_eq!(status.state, PipelineState::Completed);
}

#[test]
fn a_stage_failure_fails_the_run() {
    let mut status = PipelineStatus::idle();
    status.start();
    status.on_event(StageEvent::StageFinished);
    status.on_event(StageEvent::StageFailed(PipelineError::SpillIo));
    status.on_event(StageEvent::StageFinished);
    assert_eq!(status.state, PipelineState::Failed);
}

/// Cancellation wins: a canceled run reports `Canceled` even when a
/// stage error arrives after cancellation began.
#[test]
fn cancellation_wins_over_later_errors() {
    let mut status = PipelineStatus::idle();
    status.start();
    status.on_event(StageEvent::StageFinished);
    status.on_event(StageEvent::CancelRequested);
    status.on_event(StageEvent::StageFailed(PipelineError::SpillIo));
    status.on_event(StageEvent::StageFinished);
    assert_eq!(status.state, PipelineState::Canceled);
}

#[test]
fn events_after_a_terminal_state_change_nothing() {
    let mut status = PipelineStatus::idle();
    status.start();
    for _ in 0..3 {
        status.on_event(StageEvent::StageFinished);
    }
    assert_eq!(status.state, PipelineState::Completed);
    status.on_event(StageEvent::StageFailed(PipelineError::SpillIo));
    status.on_event(StageEvent::CancelRequested);
    assert_eq!(status.state, PipelineState::Completed);
}

/// Backpressure: a full queue refuses the item and hands it back, and
/// never holds more than its capacity.
#[test]
fn bounded_queue_applies_backpressure() {
    let mut q: BoundedQueue<u32> = BoundedQueue::new(2);
    assert_eq!(q.try_push(10), None);
    assert_eq!(q.try_push(11), None);
    assert_eq!(q.len(), 2);
    assert_eq!(q.try_push(12), Some(12));
    assert_eq!(q.len(), 2);
    assert_eq!(q.pop_front(), Some(10));
    assert_eq!(q.try_push(12), None);
    assert_eq!(q.pop_front(), Some(11));
    assert_eq!(q.pop_front(), Some(12));
    assert_eq!(q.pop_front(), None);
}

#[test]
fn empty_batch_is_skipped() {
    let conv = TileIdMethod::Hilbert;
    let batch = (42u64, Vec::new());
    assert_eq!(prepare_tile_batch(conv, batch), Ok(None));
}

#[test]
fn batch_decodes_to_tile_coordinate_in_order() {
    let conv = TileIdMethod::Hilbert;
    let id = conv.zxy_to_id(3, 2, 1);
    let features = vec![
        SerializedSlicedFeature { tile_id: id, body: vec![1] },
        SerializedSlicedFeature { tile_id: id, body: vec![2] },
        SerializedSlicedFeature { tile_id: id, body: vec![3] },
    ];
    let out = prepare_tile_batch(conv, (id, features)).unwrap().unwrap();
    assert_eq!((out.0, out.1, out.2), (3, 2, 1));
    let bodies: Vec<u8> = out.3.iter().map(|f| f.body[0]).collect();
    assert_eq!(bodies, vec![1, 2, 3]);
}

#[test]
fn corrupt_tile_id_fails_the_batch() {
    let conv = TileIdMethod::Hilbert;
    let features = vec![SerializedSlicedFeature { tile_id: u64::MAX, body: vec![1] }];
    assert_eq!(
        prepare_tile_batch(conv, (u64::MAX, features)),
        Err(PipelineError::Encoding)
    );
}
