use love_api::render_worker::{worker_step, Followup, WorkerEvent, WorkerState, BATCH_JOBS};

/// Runs the worker over `events`, returning the jobs drawn (with whether each came in a
/// batch) and what followed each step.
fn run(occlusion: bool, events: Vec<WorkerEvent<u32>>) -> (Vec<(u32, bool)>, Vec<Followup>, WorkerState<u32>) {
    let mut state = WorkerState::new(occlusion);
    let mut drawn = Vec::new();
    let mut next = Vec::new();
    for event in events {
        let action = worker_step(&mut state, event);
        drawn.extend(action.draw.iter().map(|&job| (job, action.batched)));
        next.push(action.next);
    }
    (drawn, next, state)
}

#[test]
fn occlusion_batches_draws_until_the_queue_runs_dry() {
    let (drawn, next, state) = run(true, vec![WorkerEvent::Draw(1), WorkerEvent::Draw(2), WorkerEvent::Draw(3), WorkerEvent::Empty]);
    assert_eq!(drawn, vec![(1, true), (2, true), (3, true)]);
    assert_eq!(next.last(), Some(&Followup::Continue));
    assert!(!state.draining && state.batch.is_empty());
}

#[test]
fn draws_keep_their_order_across_boundaries_flushes_and_full_batches() {
    let mut events: Vec<WorkerEvent<u32>> = (0..70).map(WorkerEvent::Draw).collect();
    events.push(WorkerEvent::Boundary);
    events.push(WorkerEvent::Draw(70));
    events.push(WorkerEvent::Flush);
    events.push(WorkerEvent::Draw(71));
    events.push(WorkerEvent::Stop);
    let (drawn, next, state) = run(true, events);
    assert_eq!(drawn.iter().map(|d| d.0).collect::<Vec<_>>(), (0..72).collect::<Vec<_>>());
    assert_eq!(next[BATCH_JOBS - 1], Followup::Continue);
    assert_eq!(next[70], Followup::ApplyBoundary);
    assert_eq!(next[72], Followup::AnswerFlush);
    assert_eq!(next[74], Followup::Stop);
    assert!(state.batch.is_empty());
}

#[test]
fn without_occlusion_each_draw_runs_at_once() {
    let (drawn, next, _) = run(false, vec![WorkerEvent::Draw(5), WorkerEvent::Draw(6), WorkerEvent::Disconnected]);
    assert_eq!(drawn, vec![(5, false), (6, false)]);
    assert_eq!(next, vec![Followup::Continue, Followup::Continue, Followup::Stop]);
}
