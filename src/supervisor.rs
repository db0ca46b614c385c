//! The render supervisor: the decisions of running renders off the
//! interactive path. The caller runs each job on a worker and hands its
//! outcome back through `poll`; the supervisor keeps the published result.
use crate::canvas::{canvas_bytes, canvas_height, canvas_width, canvas_wf, finalized, Canvas};
use crate::engine::{fractalize, is_budget_render};
use vstd::prelude::*;

verus! {

/// A canvas together with the parameters that it was rendered with.
pub struct Fractal<Q> {
    pub fractal: Canvas,
    pub params: Q,
}

/// A unit of work handed to a worker: a cleared canvas and a copy of the
/// parameters, under the id that its outcome is reported with.
pub struct RenderJob<Q> {
    pub id: u64,
    pub fractal: Fractal<Q>,
}

/// What a non-blocking look at a job found.
pub enum TaskPoll<Q> {
    Pending,
    Done(Fractal<Q>),
}

/// Where the supervisor stands.
#[derive(Clone, Copy, Debug, PartialEq, Eq, Structural)]
pub enum SupervisorState {
    /// Nothing in flight and nothing published since the last start.
    Idle,
    /// At least one job in flight.
    Rendering,
    /// Nothing in flight, and a result was published since the last start.
    Ready,
}

/// Keeps the published result and the ids of the jobs in flight.
pub struct RenderSupervisor<Q> {
    /// The most recently published result.
    pub current: Fractal<Q>,
    /// The ids of the jobs started and not yet seen to complete, oldest first.
    pub in_flight: Vec<u64>,
    /// The id that the next job gets.
    pub next_id: u64,
    /// Whether a result was published since the last start.
    pub ready: bool,
}

/// Holds of every id but `id`.
pub open spec fn other_than(id: u64) -> spec_fn(u64) -> bool {
    |t: u64| t != id
}

/// `after` is `before` once the job `id` was seen to complete with `result`:
/// the result is published, its coverage channels made opaque, and the job
/// is no longer in flight.
pub open spec fn publishes<Q>(
    before: RenderSupervisor<Q>,
    after: RenderSupervisor<Q>,
    id: u64,
    result: Fractal<Q>,
) -> bool {
    &&& after.current.params == result.params
    &&& canvas_width(after.current.fractal) == canvas_width(result.fractal)
    &&& canvas_height(after.current.fractal) == canvas_height(result.fractal)
    &&& canvas_bytes(after.current.fractal) == finalized(canvas_bytes(result.fractal))
    &&& after.in_flight@ == before.in_flight@.filter(other_than(id))
    &&& after.next_id == before.next_id
    &&& after.ready
}

/// Whatever the order in which two jobs were started, once the completion of
/// one and then of the other has been observed, the one observed last is
/// the published result, and neither is in flight any more.
pub proof fn lemma_last_observed_wins<Q>(
    s0: RenderSupervisor<Q>,
    s1: RenderSupervisor<Q>,
    s2: RenderSupervisor<Q>,
    first: u64,
    first_result: Fractal<Q>,
    second: u64,
    second_result: Fractal<Q>,
)
    requires
        publishes(s0, s1, first, first_result),
        publishes(s1, s2, second, second_result),
    ensures
        s2.current.params == second_result.params,
        canvas_bytes(s2.current.fractal) == finalized(canvas_bytes(second_result.fractal)),
        !s2.in_flight@.contains(first),
        !s2.in_flight@.contains(second),
{
    lemma_filter_drops(s0.in_flight@, first);
    lemma_filter_drops(s1.in_flight@, second);
    if s2.in_flight@.contains(first) {
        s1.in_flight@.lemma_filter_contains_rev(other_than(second), first);
    }
}

proof fn lemma_filter_drops(s: Seq<u64>, id: u64)
    ensures
        !s.filter(other_than(id)).contains(id),
{
    let f = s.filter(other_than(id));
    if f.contains(id) {
        let k = choose|k: int| 0 <= k < f.len() && f[k] == id;
        s.lemma_filter_pred(other_than(id), k);
    }
}

impl<Q> RenderSupervisor<Q> {
    /// A supervisor publishing `fractal` rendered with `params`, with nothing in flight.
    pub fn new(fractal: Canvas, params: Q) -> (r: RenderSupervisor<Q>)
        ensures
            r.current == (Fractal { fractal, params }),
            r.in_flight@ == Seq::<u64>::empty(),
            r.next_id == 0,
            !r.ready,
    {
        RenderSupervisor { current: Fractal { fractal, params }, in_flight: Vec::new(), next_id: 0, ready: false }
    }

    /// Where the supervisor stands: rendering while a job is in flight, else
    /// ready once a result was published since the last start, else idle.
    pub fn state(&self) -> (r: SupervisorState)
        ensures
            r == (if self.in_flight@.len() > 0 {
                SupervisorState::Rendering
            } else if self.ready {
                SupervisorState::Ready
            } else {
                SupervisorState::Idle
            }),
    {
        if self.in_flight.len() > 0 {
            SupervisorState::Rendering
        } else if self.ready {
            SupervisorState::Ready
        } else {
            SupervisorState::Idle
        }
    }

    /// Starts a render with `params`, in any state: a job with a cleared canvas
    /// of the published size and a copy of the parameters, under a new id. A
    /// job already in flight is neither cancelled nor merged with the new one.
    /// The published result stays as it is.
    pub fn start_render(&mut self, params: Q) -> (job: RenderJob<Q>)
        requires
            old(self).next_id < u64::MAX,
            canvas_wf(old(self).current.fractal),
        ensures
            job.id == old(self).next_id,
            job.fractal.params == params,
            canvas_wf(job.fractal.fractal),
            canvas_width(job.fractal.fractal) == canvas_width(old(self).current.fractal),
            canvas_height(job.fractal.fractal) == canvas_height(old(self).current.fractal),
            canvas_bytes(job.fractal.fractal) == Seq::new(
                canvas_bytes(old(self).current.fractal).len(),
                |i: int| 0u8,
            ),
            final(self).current == old(self).current,
            final(self).in_flight@ == old(self).in_flight@.push(job.id),
            final(self).next_id == old(self).next_id + 1,
            !final(self).ready,
    {
        let width = self.current.fractal.width();
        let height = self.current.fractal.height();
        let canvas = Canvas::new(width, height);
        let id = self.next_id;
        self.in_flight.push(id);
        self.next_id = id + 1;
        self.ready = false;
        RenderJob { id, fractal: Fractal { fractal: canvas, params } }
    }

    /// Takes in what a non-blocking look at job `id` found. While it is
    /// pending nothing changes. Once it is done its result becomes the
    /// published one, with every coverage channel made opaque, whatever was
    /// published before and whenever the job was started; the job leaves the
    /// set in flight, and the result is `true`: a finished render to display.
    pub fn poll(&mut self, id: u64, outcome: TaskPoll<Q>) -> (displayed: bool)
        requires
            old(self).in_flight@.contains(id),
            outcome matches TaskPoll::Done(result) ==> canvas_wf(result.fractal),
        ensures
            outcome matches TaskPoll::Pending ==> {
                &&& *final(self) == *old(self)
                &&& !displayed
            },
            outcome matches TaskPoll::Done(result) ==> {
                &&& publishes(*old(self), *final(self), id, result)
                &&& canvas_wf(final(self).current.fractal)
                &&& displayed
            },
    {
        match outcome {
            TaskPoll::Pending => false,
            TaskPoll::Done(result) => {
                let mut published = result;
                published.fractal.finalize();
                self.current = published;
                let mut remaining: Vec<u64> = Vec::new();
                let mut k: usize = 0;
                while k < self.in_flight.len()
                    invariant
                        k <= self.in_flight@.len(),
                        self.in_flight@ == old(self).in_flight@,
                        remaining@ == self.in_flight@.subrange(0, k as int).filter(other_than(id)),
                    decreases self.in_flight@.len() - k,
                {
                    let t = self.in_flight[k];
                    proof {
                        let s = self.in_flight@.subrange(0, k as int + 1);
                        assert(s.drop_last() =~= self.in_flight@.subrange(0, k as int));
                        self.in_flight@.subrange(0, k as int).lemma_filter_push(t, other_than(id));
                        assert(s =~= self.in_flight@.subrange(0, k as int).push(t));
                    }
                    if t != id {
                        remaining.push(t);
                    }
                    k = k + 1;
                }
                assert(self.in_flight@.subrange(0, self.in_flight@.len() as int) =~= self.in_flight@);
                self.in_flight = remaining;
                self.ready = true;
                true
            },
        }
    }

    /// The most recently published result.
    pub fn current_result(&self) -> (r: &Fractal<Q>)
        ensures
            *r == self.current,
    {
        &self.current
    }
}

impl<Q> RenderJob<Q> {
    /// The work of a job: the chaos game on its canvas from `start` for the
    /// iteration budget `budget`, with `step` and `locate` as its transform
    /// and cell mapping. The result carries the job's parameters.
    pub fn run<P: Copy, S: Fn(P, bool) -> P, L: Fn(P, u32, u32) -> (i64, i64)>(
        self,
        start: P,
        budget: u32,
        step: S,
        locate: L,
    ) -> (r: Fractal<Q>)
        requires
            canvas_wf(self.fractal.fractal),
            forall|p: P, rotate: bool| call_requires(step, (p, rotate)),
            forall|p: P, height: u32, width: u32| call_requires(locate, (p, height, width)),
        ensures
            r.params == self.fractal.params,
            canvas_wf(r.fractal),
            canvas_width(r.fractal) == canvas_width(self.fractal.fractal),
            canvas_height(r.fractal) == canvas_height(self.fractal.fractal),
            exists|last: P|
                is_budget_render(
                    step,
                    locate,
                    start,
                    budget,
                    canvas_height(self.fractal.fractal),
                    canvas_width(self.fractal.fractal),
                    canvas_bytes(self.fractal.fractal),
                    canvas_bytes(r.fractal),
                    last,
                ),
    {
        let mut fractal = self.fractal;
        let _last = fractalize(&mut fractal.fractal, start, budget, step, locate);
        fractal
    }
}

} // verus!
