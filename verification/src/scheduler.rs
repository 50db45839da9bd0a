//! The FIFO scheduler core: work enters at the tail with a fresh ticket, the
//! single worker takes work from the head and runs it against the registry.
//!
//! The outside shell owns the reply channels and the worker thread: it maps
//! each ticket to a one-shot reply channel, parks the enqueuer on its
//! receiver, and drives `worker_step` in a loop, delivering each answer to
//! the ticket it belongs to. The decisions — order, execution, and how a
//! reply or a dropped channel turns into the caller's result — stand here.

use std::sync::Arc;

use vstd::prelude::*;

use crate::engine::TorchEngine;
use crate::errors::{LightrayModelExecutionError, LightraySchedulerError};
use crate::executor::{InMemorySimpleLightrayExecutor, LightrayExecutedExample};
use crate::model::LightrayModelId;
use crate::statistics::SchedulerStatistics;
use crate::value::TorchScriptInput;

verus! {

/// One queued request: the ticket its reply belongs to, the input, and the
/// model to run it against.
#[derive(Debug)]
pub struct ChannelBasedWork {
    pub ticket: u64,
    pub payload: TorchScriptInput,
    pub model_id: LightrayModelId,
}

/// A completed request handed back to an awaiting caller, with the
/// scheduler's measurements.
#[derive(Debug)]
pub struct LightrayScheduledExecutionResult {
    pub execution_result: Option<Result<LightrayExecutedExample, LightrayModelExecutionError>>,
    pub scheduler_error: Option<LightraySchedulerError>,
    pub scheduler_metrics: SchedulerStatistics,
}

/// Work wrapped for a caller that holds a shared handle to it.
#[derive(Debug)]
pub struct ResultWork<T> {
    pub payload: Arc<T>,
}

/// The scheduler: a FIFO queue of work, the executor the worker feeds, and
/// the validation flag applied to every execution.
#[verifier::reject_recursive_types(E)]
pub struct LightrayFIFOWorkQueue<E: TorchEngine> {
    pub worker_queue: Vec<ChannelBasedWork>,
    pub worker_executor: InMemorySimpleLightrayExecutor<E>,
    pub verify_model_input: bool,
    pub next_ticket: u64,
}

impl<E: TorchEngine> LightrayFIFOWorkQueue<E> {
    /// Well-formedness: the executor's lock is set up, tickets in the queue
    /// grow strictly from head to tail, and every ticket is below the next
    /// one to be handed out.
    pub open spec fn wf(&self) -> bool {
        &&& self.worker_executor.wf()
        &&& forall|i: int, j: int|
            0 <= i < j < self.worker_queue@.len() ==> (#[trigger] self.worker_queue@[i]).ticket
                < (#[trigger] self.worker_queue@[j]).ticket
        &&& forall|i: int|
            0 <= i < self.worker_queue@.len() ==> (#[trigger] self.worker_queue@[i]).ticket
                < self.next_ticket
    }

    /// A scheduler over the given executor, with an empty queue.
    pub fn new(worker_executor: InMemorySimpleLightrayExecutor<E>, verify_model_input: bool) -> (r:
        LightrayFIFOWorkQueue<E>)
        requires
            worker_executor.wf(),
        ensures
            r.wf(),
            r.worker_queue@.len() == 0,
            r.worker_executor == worker_executor,
            r.verify_model_input == verify_model_input,
    {
        LightrayFIFOWorkQueue {
            worker_queue: Vec::new(),
            worker_executor,
            verify_model_input,
            next_ticket: 0,
        }
    }

    /// Put one request at the tail of the queue and hand out its ticket. The
    /// shell pairs the ticket with a fresh one-shot reply channel.
    pub fn enqueue_work(&mut self, payload: TorchScriptInput, model_id: LightrayModelId) -> (t:
        u64)
        requires
            old(self).wf(),
            old(self).next_ticket < u64::MAX,
        ensures
            final(self).wf(),
            t == old(self).next_ticket,
            final(self).worker_queue@ == old(self).worker_queue@.push(
                ChannelBasedWork { ticket: t, payload, model_id },
            ),
            final(self).next_ticket == old(self).next_ticket + 1,
            final(self).worker_executor == old(self).worker_executor,
            final(self).verify_model_input == old(self).verify_model_input,
    {
        let t = self.next_ticket;
        self.worker_queue.push(ChannelBasedWork { ticket: t, payload, model_id });
        self.next_ticket = t + 1;
        proof {
            assert forall|i: int, j: int|
                0 <= i < j < self.worker_queue@.len() implies (
            #[trigger] self.worker_queue@[i]).ticket < (
            #[trigger] self.worker_queue@[j]).ticket by {
                if j < self.worker_queue@.len() - 1 {
                    assert(self.worker_queue@[i] == old(self).worker_queue@[i]);
                    assert(self.worker_queue@[j] == old(self).worker_queue@[j]);
                } else {
                    if i < self.worker_queue@.len() - 1 {
                        assert(self.worker_queue@[i] == old(self).worker_queue@[i]);
                    }
                }
            }
        }
        t
    }

    /// Take the request at the head of the queue, run it against the
    /// registry, and hand back its ticket with the result to deliver; with
    /// an empty queue there is nothing to do and the shell should yield its
    /// thread instead of spinning.
    pub fn worker_step(&mut self) -> (r: Option<
        (u64, Result<LightrayExecutedExample, LightrayModelExecutionError>),
    >)
        requires
            old(self).wf(),
        ensures
            final(self).wf(),
            final(self).worker_executor == old(self).worker_executor,
            final(self).verify_model_input == old(self).verify_model_input,
            final(self).next_ticket == old(self).next_ticket,
            old(self).worker_queue@.len() == 0 ==> r is None && final(self).worker_queue@ == old(
                self,
            ).worker_queue@,
            old(self).worker_queue@.len() > 0 ==> (r matches Some((t, res))
                && t == old(self).worker_queue@[0].ticket
                && final(self).worker_queue@ == old(self).worker_queue@.drop_first()
                && InMemorySimpleLightrayExecutor::<E>::spec_execute_post(
                res,
                old(self).worker_queue@[0].model_id,
                old(self).worker_queue@[0].payload.deep_view(),
                old(self).verify_model_input,
            )),
    {
        if self.worker_queue.len() == 0 {
            return None;
        }
        let work = self.worker_queue.remove(0);
        proof {
            assert(self.worker_queue@ =~= old(self).worker_queue@.drop_first());
            assert forall|i: int, j: int|
                0 <= i < j < self.worker_queue@.len() implies (
            #[trigger] self.worker_queue@[i]).ticket < (
            #[trigger] self.worker_queue@[j]).ticket by {
                assert(self.worker_queue@[i] == old(self).worker_queue@[i + 1]);
                assert(self.worker_queue@[j] == old(self).worker_queue@[j + 1]);
            }
            assert forall|i: int|
                0 <= i < self.worker_queue@.len() implies (
            #[trigger] self.worker_queue@[i]).ticket < self.next_ticket by {
                assert(self.worker_queue@[i] == old(self).worker_queue@[i + 1]);
            }
        }
        let executed = self.worker_executor.execute(
            &work.model_id,
            &work.payload,
            self.verify_model_input,
        );
        Some((work.ticket, executed))
    }

    /// The executor the worker feeds.
    pub fn get_executor(&self) -> (r: &InMemorySimpleLightrayExecutor<E>)
        ensures
            r == self.worker_executor,
    {
        &self.worker_executor
    }
}

/// Wrap what came back over a reply channel as the caller's scheduled
/// result: a delivered answer is handed through; a channel closed without
/// one reports a scheduler error. The measurements ride along either way.
pub fn finish_enqueue(
    reply: Option<Result<LightrayExecutedExample, LightrayModelExecutionError>>,
    scheduler_metrics: SchedulerStatistics,
) -> (r: LightrayScheduledExecutionResult)
    ensures
        reply is Some ==> r.execution_result == reply && r.scheduler_error is None,
        reply is None ==> r.execution_result is None && (r.scheduler_error matches Some(
            LightraySchedulerError::SchedulerError,
        )),
        r.scheduler_metrics == scheduler_metrics,
{
    match reply {
        Some(executor_result) => LightrayScheduledExecutionResult {
            execution_result: Some(executor_result),
            scheduler_error: None,
            scheduler_metrics,
        },
        None => LightrayScheduledExecutionResult {
            execution_result: None,
            scheduler_error: Some(LightraySchedulerError::SchedulerError),
            scheduler_metrics,
        },
    }
}

/// FIFO discipline: in a well-formed queue the head carries the least
/// ticket, and whatever was enqueued earlier stands closer to the head.
/// Since `enqueue_work` hands out strictly growing tickets at the tail and
/// `worker_step` always takes the head, the single worker starts engine
/// calls in exactly the order the enqueues succeeded.
pub proof fn lemma_scheduler_fifo<E: TorchEngine>(q: LightrayFIFOWorkQueue<E>, i: int, j: int)
    requires
        q.wf(),
        0 <= i < j < q.worker_queue@.len(),
    ensures
        q.worker_queue@[i].ticket < q.worker_queue@[j].ticket,
        q.worker_queue@[0].ticket <= q.worker_queue@[i].ticket,
{
    if i > 0 {
        assert(q.worker_queue@[0].ticket < q.worker_queue@[i].ticket);
    }
}

} // verus!
