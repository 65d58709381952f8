//! One connection of the proxy to an agent: jobs go out under fresh ids, and
//! each result goes to whoever waits for its id.

use std::collections::HashMap;

use vstd::prelude::*;

use crate::wire::{req, request_fits, request_frame, AgentResult, RequestJob};

verus! {

/// The state of a connection. `S` is what a result is sent to.
pub struct AgentSession<S> {
    next_id: u32,
    working_buffer: HashMap<u32, S>,
    is_error: bool,
}

/// The contents of an [`AgentSession`]: the id of the next job, who waits under
/// which id, and whether reading has failed.
#[verifier::ext_equal]
#[verifier::reject_recursive_types(S)]
pub struct SessionView<S> {
    pub next_id: u32,
    pub waiting: Map<u32, S>,
    pub is_error: bool,
}

impl<S> View for AgentSession<S> {
    type V = SessionView<S>;

    closed spec fn view(&self) -> SessionView<S> {
        SessionView {
            next_id: self.next_id,
            waiting: self.working_buffer@,
            is_error: self.is_error,
        }
    }
}

/// What the queue of jobs gave.
pub enum QueueEvent<S> {
    Job(RequestJob, Option<S>),
    Empty,
    Disconnected,
}

/// What to do about the queue of jobs: write a frame, look again after a while,
/// or end the session.
pub enum QueueNext {
    Write(Vec<u8>),
    Sleep,
    Exit,
}

/// What to do once a frame was written, or was not: go on, or shut the
/// connection down first, so that reading fails and ends the session.
pub enum AfterWrite {
    Proceed,
    Shutdown,
}

/// Decides what to do once a frame was written, or was not.
pub fn on_written(written: bool) -> (next: AfterWrite)
    ensures
        next == (if written {
            AfterWrite::Proceed
        } else {
            AfterWrite::Shutdown
        }),
{
    if written {
        AfterWrite::Proceed
    } else {
        AfterWrite::Shutdown
    }
}

/// Where a result goes: to who waits for it, or nowhere.
pub enum Delivery<S> {
    Send(S, AgentResult),
    Drop(u32),
}

/// The id after an id.
pub open spec fn id_after(id: u32) -> u32 {
    if id == u32::MAX {
        0
    } else {
        (id + 1) as u32
    }
}

/// The session before any job.
pub open spec fn fresh_session<S>() -> SessionView<S> {
    SessionView { next_id: 0, waiting: Map::empty(), is_error: false }
}

/// The session after a job was sent, with who waits for the result, if anyone.
pub open spec fn after_job<S>(session: SessionView<S>, result: Option<S>) -> SessionView<S> {
    SessionView {
        next_id: id_after(session.next_id),
        waiting: match result {
            Some(s) => session.waiting.insert(session.next_id, s),
            None => session.waiting,
        },
        ..session
    }
}

/// The session after a result came in under an id.
pub open spec fn after_result<S>(session: SessionView<S>, id: u32) -> SessionView<S> {
    SessionView { waiting: session.waiting.remove(id), ..session }
}

impl<S> AgentSession<S> {
    /// A session before any job.
    pub fn new() -> (session: AgentSession<S>)
        ensures
            session@ == fresh_session::<S>(),
            session@.next_id == 0,
            session@.waiting.dom() == Set::<u32>::empty(),
            !session@.is_error,
    {
        AgentSession { next_id: 0, working_buffer: HashMap::new(), is_error: false }
    }

    /// Takes a job in: whoever waits for the result is noted under a fresh id
    /// before the frame is written.
    pub fn submit(&mut self, job: &RequestJob, result: Option<S>) -> (frame: Vec<u8>)
        requires
            request_fits(job@),
        ensures
            final(self)@ == after_job(old(self)@, result),
            frame@ == request_frame(job@, old(self)@.next_id),
            final(self)@.next_id == (old(self)@.next_id + 1) % 0x1_0000_0000,
            final(self)@.is_error == old(self)@.is_error,
            result matches Some(s) ==> final(self)@.waiting == old(self)@.waiting.insert(
                old(self)@.next_id,
                s,
            ),
            result is None ==> final(self)@.waiting == old(self)@.waiting,
    {
        broadcast use vstd::std_specs::hash::group_hash_axioms;

        let id = self.next_id;
        self.next_id = id.wrapping_add(1);
        if let Some(s) = result {
            self.working_buffer.insert(id, s);
        }
        req(job, id)
    }

    /// Whether the session goes on looking for jobs: not once reading failed.
    pub fn is_open(&self) -> (r: bool)
        ensures
            r == !self@.is_error,
    {
        !self.is_error
    }

    /// Decides what to do with what the queue of jobs gave.
    pub fn on_queue(&mut self, event: QueueEvent<S>) -> (next: QueueNext)
        requires
            event matches QueueEvent::Job(job, _) ==> request_fits(job@),
        ensures
            match event {
                QueueEvent::Job(job, result) => {
                    &&& final(self)@.next_id == (old(self)@.next_id + 1) % 0x1_0000_0000
                    &&& final(self)@.is_error == old(self)@.is_error
                    &&& final(self)@.waiting == (match result {
                        Some(s) => old(self)@.waiting.insert(old(self)@.next_id, s),
                        None => old(self)@.waiting,
                    })
                    &&& final(self)@ == after_job(old(self)@, result)
                    &&& next matches QueueNext::Write(frame)
                    &&& frame@ == request_frame(job@, old(self)@.next_id)
                },
                QueueEvent::Empty => final(self)@ == old(self)@ && next == QueueNext::Sleep,
                QueueEvent::Disconnected => final(self)@ == old(self)@ && next == QueueNext::Exit,
            },
    {
        match event {
            QueueEvent::Job(job, result) => QueueNext::Write(self.submit(&job, result)),
            QueueEvent::Empty => QueueNext::Sleep,
            QueueEvent::Disconnected => QueueNext::Exit,
        }
    }

    /// Takes a result in: it goes to who waits for its id, who waits no longer.
    pub fn deliver(&mut self, res: AgentResult) -> (delivery: Delivery<S>)
        ensures
            final(self)@ == after_result(old(self)@, res.id),
            final(self)@.next_id == old(self)@.next_id,
            final(self)@.is_error == old(self)@.is_error,
            final(self)@.waiting == old(self)@.waiting.remove(res.id),
            if old(self)@.waiting.contains_key(res.id) {
                delivery == Delivery::Send(old(self)@.waiting[res.id], res)
            } else {
                delivery == Delivery::<S>::Drop(res.id)
            },
    {
        broadcast use vstd::std_specs::hash::group_hash_axioms;

        let id = res.id;
        match self.working_buffer.remove(&id) {
            Some(s) => Delivery::Send(s, res),
            None => {
                assert(self.working_buffer@ =~= old(self).working_buffer@.remove(id));
                Delivery::Drop(id)
            },
        }
    }

    /// Notes that reading has failed.
    pub fn fail(&mut self)
        ensures
            final(self)@ == (SessionView { is_error: true, ..old(self)@ }),
    {
        self.is_error = true;
    }
}

/// Something that happens to a session: a job goes out, a result comes in under
/// an id, or reading fails.
pub enum Step<S> {
    Job(Option<S>),
    Result(u32),
    Failure,
}

/// The session after a step.
pub open spec fn after_step<S>(session: SessionView<S>, step: Step<S>) -> SessionView<S> {
    match step {
        Step::Job(result) => after_job(session, result),
        Step::Result(id) => after_result(session, id),
        Step::Failure => SessionView { is_error: true, ..session },
    }
}

/// The session after steps.
pub open spec fn after_steps<S>(session: SessionView<S>, steps: Seq<Step<S>>) -> SessionView<S>
    decreases steps.len(),
{
    if steps.len() == 0 {
        session
    } else {
        after_step(after_steps(session, steps.drop_last()), steps.last())
    }
}

/// How many jobs go out in steps.
pub open spec fn job_count<S>(steps: Seq<Step<S>>) -> int
    decreases steps.len(),
{
    if steps.len() == 0 {
        0
    } else {
        job_count(steps.drop_last()) + if steps.last() is Job {
            1int
        } else {
            0int
        }
    }
}

proof fn lemma_job_count<S>(steps: Seq<Step<S>>)
    ensures
        0 <= job_count(steps) <= steps.len(),
    decreases steps.len(),
{
    if steps.len() > 0 {
        lemma_job_count(steps.drop_last());
    }
}

/// Ids count the jobs of a session, and start over after all 32-bit numbers
/// were used: two jobs bear the same id only where that many lie between.
pub proof fn law_ids_count_jobs<S>(session: SessionView<S>, steps: Seq<Step<S>>)
    ensures
        after_steps(session, steps).next_id == (session.next_id + job_count(steps)) % 0x1_0000_0000,
    decreases steps.len(),
{
    if steps.len() > 0 {
        law_ids_count_jobs(session, steps.drop_last());
        lemma_job_count(steps.drop_last());
    }
}

/// Whoever waits for the result of a job is there when it comes, whatever
/// happens in between: other jobs, up to as many as there are other ids,
/// results under other ids, or a failure.
pub proof fn law_result_finds_its_waiter<S>(
    session: SessionView<S>,
    waiter: S,
    steps: Seq<Step<S>>,
)
    requires
        job_count(steps) < 0x1_0000_0000,
        forall|i: int|
            0 <= i < steps.len() ==> #[trigger] steps[i] != Step::<S>::Result(session.next_id),
    ensures
        ({
            let later = after_steps(after_job(session, Some(waiter)), steps);
            later.waiting.contains_key(session.next_id) && later.waiting[session.next_id] == waiter
        }),
    decreases steps.len(),
{
    let start = after_job(session, Some(waiter));
    if steps.len() > 0 {
        let before = steps.drop_last();
        lemma_job_count(before);
        assert forall|i: int| 0 <= i < before.len() implies #[trigger] before[i]
            != Step::<S>::Result(session.next_id) by {
            assert(before[i] == steps[i]);
        }
        law_result_finds_its_waiter(session, waiter, before);
        law_ids_count_jobs(start, before);
        assert(steps[steps.len() - 1] == steps.last());
        if steps.last() is Job {
            let n = job_count(before);
            assert(start.next_id == (session.next_id + 1) % 0x1_0000_0000);
            assert((start.next_id + n) % 0x1_0000_0000 != session.next_id);
        }
    }
}

/// A session is over once reading has failed, and before that it goes on.
pub proof fn law_failure_is_final<S>(session: SessionView<S>, steps: Seq<Step<S>>)
    ensures
        after_steps(session, steps).is_error <==> session.is_error || exists|i: int|
            0 <= i < steps.len() && #[trigger] steps[i] is Failure,
    decreases steps.len(),
{
    if steps.len() > 0 {
        let before = steps.drop_last();
        law_failure_is_final(session, before);
        assert(steps[steps.len() - 1] == steps.last());
        if exists|i: int| 0 <= i < before.len() && #[trigger] before[i] is Failure {
            let i = choose|i: int| 0 <= i < before.len() && #[trigger] before[i] is Failure;
            assert(steps[i] is Failure);
        }
        if exists|i: int| 0 <= i < steps.len() && #[trigger] steps[i] is Failure {
            let i = choose|i: int| 0 <= i < steps.len() && #[trigger] steps[i] is Failure;
            if i < before.len() {
                assert(before[i] is Failure);
            }
        }
    }
}

/// A result under an id leaves nobody waiting there, and everybody else as they
/// were.
pub proof fn law_result_leaves_other_waiters<S>(session: SessionView<S>, id: u32)
    ensures
        !after_result(session, id).waiting.contains_key(id),
        forall|other: u32|
            other != id ==> (#[trigger] after_result(session, id).waiting.contains_key(other)
                == session.waiting.contains_key(other)),
        forall|other: u32|
            other != id && session.waiting.contains_key(other) ==> #[trigger] after_result(
                session,
                id,
            ).waiting[other] == session.waiting[other],
{
}

/// A result is taken once: in a session of no more jobs than there are ids,
/// once a result came in for a job that had gone out, nobody waits under its id
/// any more, whatever happens later.
pub proof fn law_result_is_taken_once<S>(before: Seq<Step<S>>, id: u32, later: Seq<Step<S>>)
    requires
        id < job_count(before),
        job_count(before) + job_count(later) <= 0x1_0000_0000,
    ensures
        !after_steps(
            after_result(after_steps(fresh_session::<S>(), before), id),
            later,
        ).waiting.contains_key(id),
    decreases later.len(),
{
    let taken = after_result(after_steps(fresh_session::<S>(), before), id);
    if later.len() > 0 {
        let earlier = later.drop_last();
        lemma_job_count(earlier);
        law_result_is_taken_once(before, id, earlier);
        if later.last() is Job {
            law_ids_count_jobs(fresh_session::<S>(), before);
            law_ids_count_jobs(taken, earlier);
            let n = job_count(before) + job_count(earlier);
            assert(job_count(later) == job_count(earlier) + 1);
            assert(after_steps(taken, earlier).next_id == n);
        }
    }
}

/// Nobody gets a result of a job that was not theirs: who waits under an id in
/// a session came with a job that went out under that id.
pub proof fn law_waiters_came_with_their_job<S>(steps: Seq<Step<S>>, id: u32)
    requires
        after_steps(fresh_session::<S>(), steps).waiting.contains_key(id),
    ensures
        exists|i: int|
            0 <= i < steps.len() && #[trigger] steps[i] == Step::Job(
                Some(after_steps(fresh_session::<S>(), steps).waiting[id]),
            ) && after_steps(fresh_session::<S>(), steps.take(i)).next_id == id,
    decreases steps.len(),
{
    let fresh = fresh_session::<S>();
    if steps.len() > 0 {
        let before = steps.drop_last();
        let waiter = after_steps(fresh, steps).waiting[id];
        let session = after_steps(fresh, before);
        let last = steps.len() - 1;
        if session.next_id == id && steps.last() == Step::Job(Some(waiter)) {
            assert(steps.take(last) =~= before);
            assert(steps[last] == Step::Job(Some(waiter)));
        } else {
            assert(session.waiting.contains_key(id) && session.waiting[id] == waiter);
            law_waiters_came_with_their_job(before, id);
            let i = choose|i: int|
                0 <= i < before.len() && #[trigger] before[i] == Step::Job(Some(waiter))
                    && after_steps(fresh, before.take(i)).next_id == id;
            assert(steps[i] == before[i]);
            assert(steps.take(i) =~= before.take(i));
        }
    }
}

/// A job takes the next id, which counts on and starts over after the last one,
/// and leaves everybody waiting who waited, but for one under that very id.
pub proof fn law_job_keeps_other_waiters<S>(session: SessionView<S>, result: Option<S>, other: u32)
    requires
        other != session.next_id,
    ensures
        ({
            let later = after_job(session, result);
            &&& later.next_id == (session.next_id + 1) % 0x1_0000_0000
            &&& later.waiting.contains_key(other) == session.waiting.contains_key(other)
            &&& session.waiting.contains_key(other) ==> later.waiting[other]
                == session.waiting[other]
            &&& result is None ==> later.waiting == session.waiting
            &&& later.is_error == session.is_error
        }),
{
}

} // verus!
