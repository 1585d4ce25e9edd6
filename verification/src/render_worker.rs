use vstd::prelude::*;

verus! {

/// Queued draws batched before occlusion runs over them.
pub const BATCH_JOBS: usize = 64;

/// What the raster worker receives. `Empty` and `Disconnected` are what a non-blocking
/// receive gives while the worker drains the queue.
pub enum WorkerEvent<J> {
    Draw(J),
    Boundary,
    Flush,
    Stop,
    Empty,
    Disconnected,
}

/// What the worker does after drawing: go on, run the boundary's action on the buffer, answer
/// a flush (and release the buffer), or stop.
#[derive(Clone, Copy, Debug, PartialEq, Eq, Structural)]
pub enum Followup {
    Continue,
    ApplyBoundary,
    AnswerFlush,
    Stop,
}

/// The worker's state: whether occlusion batches draws, whether it is draining the queue
/// (holding the buffer, receiving without blocking), and the draws batched so far.
pub struct WorkerState<J> {
    pub occlusion: bool,
    pub draining: bool,
    pub batch: Vec<J>,
}

/// One step's work: the jobs to draw, in order, as an occlusion batch or each on its own,
/// and what follows.
pub struct WorkerAction<J> {
    pub draw: Vec<J>,
    pub batched: bool,
    pub next: Followup,
}

/// A batch waits only while draining, only with occlusion, and never reaches `BATCH_JOBS`.
pub open spec fn worker_wf<J>(occlusion: bool, draining: bool, batch: Seq<J>) -> bool {
    &&& batch.len() < BATCH_JOBS
    &&& (!occlusion || !draining) ==> batch.len() == 0
}

/// One step of the worker on `event`: whether it drains afterwards, the batch afterwards, the
/// jobs it draws, whether as a batch, and what follows.
pub open spec fn spec_worker_step<J>(occlusion: bool, draining: bool, batch: Seq<J>, event: WorkerEvent<J>) -> (
    bool,
    Seq<J>,
    Seq<J>,
    bool,
    Followup,
) {
    match event {
        WorkerEvent::Draw(job) => if occlusion {
            if batch.push(job).len() == BATCH_JOBS {
                (true, Seq::empty(), batch.push(job), true, Followup::Continue)
            } else {
                (true, batch.push(job), Seq::empty(), true, Followup::Continue)
            }
        } else {
            (true, batch, seq![job], false, Followup::Continue)
        },
        WorkerEvent::Boundary => (draining, Seq::empty(), batch, true, Followup::ApplyBoundary),
        WorkerEvent::Flush => (false, Seq::empty(), batch, true, Followup::AnswerFlush),
        WorkerEvent::Stop => (false, Seq::empty(), batch, true, Followup::Stop),
        WorkerEvent::Empty => (false, Seq::empty(), batch, true, Followup::Continue),
        WorkerEvent::Disconnected => (false, Seq::empty(), batch, true, Followup::Stop),
    }
}

impl<J> WorkerState<J> {
    pub open spec fn wf(&self) -> bool {
        worker_wf(self.occlusion, self.draining, self.batch@)
    }

    /// A worker waiting for its first message.
    pub fn new(occlusion: bool) -> (s: Self)
        ensures
            s.wf(),
            s.occlusion == occlusion,
            !s.draining,
            s.batch@.len() == 0,
    {
        WorkerState { occlusion, draining: false, batch: Vec::new() }
    }
}

/// Decides what the worker does with `event`: with occlusion a draw joins the batch, which is
/// drawn once it holds `BATCH_JOBS` draws, at a boundary, a flush or a stop, or when the queue
/// is empty or closed; without occlusion each draw is run at once.
pub fn worker_step<J>(state: &mut WorkerState<J>, event: WorkerEvent<J>) -> (action: WorkerAction<J>)
    requires
        old(state).wf(),
    ensures
        final(state).wf(),
        final(state).occlusion == old(state).occlusion,
        (final(state).draining, final(state).batch@, action.draw@, action.batched, action.next)
            == spec_worker_step(old(state).occlusion, old(state).draining, old(state).batch@, event),
{
    let mut batch: Vec<J> = Vec::new();
    std::mem::swap(&mut batch, &mut state.batch);
    match event {
        WorkerEvent::Draw(job) => {
            state.draining = true;
            if state.occlusion {
                batch.push(job);
                if batch.len() == BATCH_JOBS {
                    WorkerAction { draw: batch, batched: true, next: Followup::Continue }
                } else {
                    state.batch = batch;
                    WorkerAction { draw: Vec::new(), batched: true, next: Followup::Continue }
                }
            } else {
                state.batch = batch;
                let mut draw: Vec<J> = Vec::new();
                draw.push(job);
                proof {
                    assert(draw@ =~= seq![job]);
                }
                WorkerAction { draw, batched: false, next: Followup::Continue }
            }
        },
        WorkerEvent::Boundary => WorkerAction { draw: batch, batched: true, next: Followup::ApplyBoundary },
        WorkerEvent::Flush => {
            state.draining = false;
            WorkerAction { draw: batch, batched: true, next: Followup::AnswerFlush }
        },
        WorkerEvent::Stop => {
            state.draining = false;
            WorkerAction { draw: batch, batched: true, next: Followup::Stop }
        },
        WorkerEvent::Empty => {
            state.draining = false;
            WorkerAction { draw: batch, batched: true, next: Followup::Continue }
        },
        WorkerEvent::Disconnected => {
            state.draining = false;
            WorkerAction { draw: batch, batched: true, next: Followup::Stop }
        },
    }
}

/// The jobs submitted by `events`, in order.
pub open spec fn submitted<J>(events: Seq<WorkerEvent<J>>) -> Seq<J>
    decreases events.len(),
{
    if events.len() == 0 {
        Seq::empty()
    } else {
        submitted(events.drop_last()) + match events.last() {
            WorkerEvent::Draw(job) => seq![job],
            _ => Seq::empty(),
        }
    }
}

/// The worker run over `events`: whether it drains at the end, the batch at the end, and the
/// jobs drawn, in order.
pub open spec fn run_worker<J>(occlusion: bool, draining: bool, batch: Seq<J>, events: Seq<WorkerEvent<J>>) -> (
    bool,
    Seq<J>,
    Seq<J>,
)
    decreases events.len(),
{
    if events.len() == 0 {
        (draining, batch, Seq::empty())
    } else {
        let (d, b, out) = run_worker(occlusion, draining, batch, events.drop_last());
        let (d2, b2, draw, _, _) = spec_worker_step(occlusion, d, b, events.last());
        (d2, b2, out + draw)
    }
}

/// Draws run in the order they were submitted, across batches, boundaries and flushes: what
/// was drawn, followed by what is still batched, is what was batched at the start followed by
/// every draw submitted; and a well-formed worker stays well-formed.
pub proof fn law_jobs_run_in_submission_order<J>(
    occlusion: bool,
    draining: bool,
    batch: Seq<J>,
    events: Seq<WorkerEvent<J>>,
)
    requires
        worker_wf(occlusion, draining, batch),
    ensures
        ({
            let (d, b, out) = run_worker(occlusion, draining, batch, events);
            &&& worker_wf(occlusion, d, b)
            &&& out + b == batch + submitted(events)
        }),
    decreases events.len(),
{
    if events.len() > 0 {
        let rest = events.drop_last();
        law_jobs_run_in_submission_order(occlusion, draining, batch, rest);
        let (d, b, out) = run_worker(occlusion, draining, batch, rest);
        let e = events.last();
        let (d2, b2, draw, _, _) = spec_worker_step(occlusion, d, b, e);
        let fresh: Seq<J> = match e {
            WorkerEvent::Draw(job) => seq![job],
            _ => Seq::empty(),
        };
        assert(draw + b2 =~= b + fresh);
        assert(out + draw + b2 =~= out + (draw + b2));
        assert(batch + submitted(events) =~= batch + submitted(rest) + fresh);
        assert(out + b + fresh =~= out + (b + fresh));
    }
}

} // verus!
