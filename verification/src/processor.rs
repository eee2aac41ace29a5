//! The processor itself: per-destination configuration, metric counters,
//! and the per-iteration logic of the intake, prepare, submit and confirm
//! stages.
//!
//! Each stage runs as a loop in the surrounding runtime. The runtime makes
//! the chain and storage calls (`prepare()`, `submit()`, `confirm()`, the
//! dispatcher and the payload-UUID store) and hands their results to the
//! functions here, which route every operation to its next queue, keep the
//! counters, and say how long the loop should pause.

use vstd::prelude::*;

use crate::op::{
    sat_add_u64, ConfirmReason, Domain, Operation, PendingOperationResult, PendingOperationStatus,
    ReprepareReason,
};
use crate::op_queue::{spec_pop, spec_push, spec_push_all, OpQueue};

verus! {

/// Number of queues each processor owns (prepare, submit, confirm); callers
/// that allocate per-queue state size their arrays with it.
pub const MESSAGE_PROCESSOR_QUEUE_COUNT: usize = 3;

/// Pause while the submit queue is over the backpressure threshold.
pub const BACKPRESSURE_SLEEP_MS: u64 = 150;

/// Pause after an empty pop from the prepare or submit queue.
pub const EMPTY_QUEUE_SLEEP_MS: u64 = 100;

/// Pause after an empty pop from the confirm queue.
pub const CONFIRM_EMPTY_QUEUE_SLEEP_MS: u64 = 200;

/// Pause after a batch in which no operation made progress.
pub const ALL_NOT_READY_SLEEP_MS: u64 = 500;

/// Pause after each submission to a Cosmos-family chain, which needs
/// inter-transaction spacing to keep account sequence numbers monotone.
pub const COSMOS_PACING_SLEEP_MS: u64 = 1000;

/// Minimum wait between submission and the first confirmation poll.
pub const CONFIRM_DELAY_MS: u64 = 600_000;

/// Counters for one processor: how many operations each stage resolved, by
/// outcome. The surrounding runtime exports them to its metrics sink.
#[derive(Clone, Copy, Debug, PartialEq, Eq, Structural)]
pub struct MessageProcessorMetrics {
    pub prepared: u64,
    pub submitted: u64,
    pub confirmed: u64,
    pub failed: u64,
    pub dropped: u64,
}

impl MessageProcessorMetrics {
    pub fn new() -> (m: MessageProcessorMetrics)
        ensures
            m == (MessageProcessorMetrics {
                prepared: 0,
                submitted: 0,
                confirmed: 0,
                failed: 0,
                dropped: 0,
            }),
    {
        MessageProcessorMetrics { prepared: 0, submitted: 0, confirmed: 0, failed: 0, dropped: 0 }
    }

    pub fn inc_prepared(&mut self)
        requires
            old(self).prepared < u64::MAX,
        ensures
            *final(self) == (MessageProcessorMetrics {
                prepared: (old(self).prepared + 1) as u64,
                ..*old(self)
            }),
    {
        self.prepared = self.prepared + 1;
    }

    pub fn inc_submitted(&mut self)
        requires
            old(self).submitted < u64::MAX,
        ensures
            *final(self) == (MessageProcessorMetrics {
                submitted: (old(self).submitted + 1) as u64,
                ..*old(self)
            }),
    {
        self.submitted = self.submitted + 1;
    }

    pub fn inc_confirmed(&mut self)
        requires
            old(self).confirmed < u64::MAX,
        ensures
            *final(self) == (MessageProcessorMetrics {
                confirmed: (old(self).confirmed + 1) as u64,
                ..*old(self)
            }),
    {
        self.confirmed = self.confirmed + 1;
    }

    pub fn inc_failed(&mut self)
        requires
            old(self).failed < u64::MAX,
        ensures
            *final(self) == (MessageProcessorMetrics {
                failed: (old(self).failed + 1) as u64,
                ..*old(self)
            }),
    {
        self.failed = self.failed + 1;
    }

    pub fn inc_dropped(&mut self)
        requires
            old(self).dropped < u64::MAX,
        ensures
            *final(self) == (MessageProcessorMetrics {
                dropped: (old(self).dropped + 1) as u64,
                ..*old(self)
            }),
    {
        self.dropped = self.dropped + 1;
    }
}

/// One processor: the destination it serves, its tunables, its three
/// queues and its counters. The surrounding runtime shares the queues
/// between its stage tasks.
pub struct MessageProcessor {
    /// Domain this processor delivers to.
    pub domain: Domain,
    /// Upper bound on how many operations one stage iteration handles.
    pub max_batch_size: u32,
    /// Prepare-side backpressure threshold on the submit queue.
    pub max_submit_queue_len: Option<u32>,
    /// Whether submission is delegated to the external dispatcher.
    pub lander_mode: bool,
    pub prepare_queue: OpQueue,
    pub submit_queue: OpQueue,
    pub confirm_queue: OpQueue,
    pub metrics: MessageProcessorMetrics,
}

impl MessageProcessor {
    pub fn new(
        domain: Domain,
        max_batch_size: u32,
        max_submit_queue_len: Option<u32>,
        lander_mode: bool,
    ) -> (p: MessageProcessor)
        ensures
            p.domain == domain,
            p.max_batch_size == max_batch_size,
            p.max_submit_queue_len == max_submit_queue_len,
            p.lander_mode == lander_mode,
            p.prepare_queue.wf() && p.prepare_queue@ == Seq::<crate::op_queue::QueueEntry>::empty()
                && p.prepare_queue.next_seq() == 0,
            p.submit_queue.wf() && p.submit_queue@ == Seq::<crate::op_queue::QueueEntry>::empty()
                && p.submit_queue.next_seq() == 0,
            p.confirm_queue.wf() && p.confirm_queue@ == Seq::<crate::op_queue::QueueEntry>::empty()
                && p.confirm_queue.next_seq() == 0,
            p.metrics == (MessageProcessorMetrics {
                prepared: 0,
                submitted: 0,
                confirmed: 0,
                failed: 0,
                dropped: 0,
            }),
    {
        MessageProcessor {
            domain,
            max_batch_size,
            max_submit_queue_len,
            lander_mode,
            prepare_queue: OpQueue::new(),
            submit_queue: OpQueue::new(),
            confirm_queue: OpQueue::new(),
            metrics: MessageProcessorMetrics::new(),
        }
    }

    /// The intake queue, for callers that observe or prime it.
    pub fn prepare_queue(&self) -> (q: &OpQueue)
        ensures
            q == &self.prepare_queue,
    {
        &self.prepare_queue
    }
}

/// Intake: accept one newly-discovered operation and enqueue it for
/// preparation under its current status. An operation bound for another
/// domain is a programming error upstream and is refused here.
pub fn receive_op(domain: Domain, op: Operation, prepare_queue: &mut OpQueue)
    requires
        op.destination_domain == domain,
        old(prepare_queue).wf(),
        old(prepare_queue).next_seq() < u64::MAX,
    ensures
        final(prepare_queue).wf(),
        final(prepare_queue)@ == spec_push(
            old(prepare_queue)@,
            op,
            Some(op.status),
            old(prepare_queue).next_seq(),
        ),
        final(prepare_queue).next_seq() == old(prepare_queue).next_seq() + 1,
{
    let status = op.status;
    prepare_queue.push(op, Some(status));
}

/// Backpressure gate for the prepare stage: report whether the submit
/// queue has reached the configured threshold, in which case the prepare
/// loop pauses instead of popping a batch.
pub fn apply_backpressure(submit_queue: &OpQueue, max_len: &Option<u32>) -> (r: bool)
    ensures
        r == match *max_len {
            Some(k) => submit_queue@.len() >= k,
            None => false,
        },
{
    match max_len {
        Some(k) => submit_queue.len() >= *k as usize,
        None => false,
    }
}

/// Pop a batch of up to `batch_size` eligible operations, or report that
/// the queue had none and the loop should pause for
/// `EMPTY_QUEUE_SLEEP_MS` (`CONFIRM_EMPTY_QUEUE_SLEEP_MS` in confirm).
pub fn get_batch_or_wait(queue: &mut OpQueue, batch_size: u32, now: u64) -> (r: Option<
    Vec<Operation>,
>)
    requires
        old(queue).wf(),
    ensures
        final(queue).wf(),
        final(queue).next_seq() == old(queue).next_seq(),
        final(queue)@ == spec_pop(old(queue)@, batch_size as nat, now).1,
        match r {
            Some(batch) => batch@ == spec_pop(old(queue)@, batch_size as nat, now).0.map_values(
                |e: crate::op_queue::QueueEntry| e.op,
            ) && batch@.len() > 0,
            None => spec_pop(old(queue)@, batch_size as nat, now).0.len() == 0,
        },
{
    let batch = queue.pop_many(batch_size as usize, now);
    if batch.len() == 0 {
        None
    } else {
        Some(batch)
    }
}

/// Operations the prepare stage promotes, in batch order: each `Success`
/// goes to the submit queue stamped `ReadyToSubmit`.
pub open spec fn prepare_routed_to_submit(
    batch: Seq<Operation>,
    results: Seq<PendingOperationResult>,
) -> Seq<Operation>
    decreases batch.len(),
{
    if batch.len() == 0 {
        Seq::empty()
    } else {
        let rest = prepare_routed_to_submit(batch.drop_first(), results.drop_first());
        if results[0] is Success {
            seq![Operation { status: PendingOperationStatus::ReadyToSubmit, ..batch[0] }] + rest
        } else {
            rest
        }
    }
}

/// Operations the prepare stage retains, in batch order: `NotReady` goes
/// back unchanged, `Reprepare(reason)` goes back stamped `Retry(reason)`.
pub open spec fn prepare_routed_back(
    batch: Seq<Operation>,
    results: Seq<PendingOperationResult>,
) -> Seq<Operation>
    decreases batch.len(),
{
    if batch.len() == 0 {
        Seq::empty()
    } else {
        let rest = prepare_routed_back(batch.drop_first(), results.drop_first());
        match results[0] {
            PendingOperationResult::NotReady => seq![batch[0]] + rest,
            PendingOperationResult::Reprepare(reason) => seq![
                Operation { status: PendingOperationStatus::Retry(reason), ..batch[0] },
            ] + rest,
            _ => rest,
        }
    }
}

/// Operations the prepare stage hands straight to confirmation, stamped
/// with the reason the operation reported.
pub open spec fn prepare_routed_to_confirm(
    batch: Seq<Operation>,
    results: Seq<PendingOperationResult>,
) -> Seq<Operation>
    decreases batch.len(),
{
    if batch.len() == 0 {
        Seq::empty()
    } else {
        let rest = prepare_routed_to_confirm(batch.drop_first(), results.drop_first());
        match results[0] {
            PendingOperationResult::Confirm(reason) => seq![
                Operation { status: PendingOperationStatus::Confirm(reason), ..batch[0] },
            ] + rest,
            _ => rest,
        }
    }
}

pub open spec fn count_reprepare(results: Seq<PendingOperationResult>) -> int
    decreases results.len(),
{
    if results.len() == 0 {
        0
    } else {
        (if results[0] is Reprepare {
            1int
        } else {
            0int
        }) + count_reprepare(results.drop_first())
    }
}

pub open spec fn count_dropped(results: Seq<PendingOperationResult>) -> int
    decreases results.len(),
{
    if results.len() == 0 {
        0
    } else {
        (if results[0] is Drop {
            1int
        } else {
            0int
        }) + count_dropped(results.drop_first())
    }
}

/// How many results made no progress: `NotReady` or `Reprepare`.
pub open spec fn count_no_progress(results: Seq<PendingOperationResult>) -> int
    decreases results.len(),
{
    if results.len() == 0 {
        0
    } else {
        (if results[0] is NotReady || results[0] is Reprepare {
            1int
        } else {
            0int
        }) + count_no_progress(results.drop_first())
    }
}

proof fn lemma_prepare_routed_snoc(
    batch: Seq<Operation>,
    results: Seq<PendingOperationResult>,
    b: Operation,
    r: PendingOperationResult,
)
    requires
        batch.len() == results.len(),
    ensures
        prepare_routed_to_submit(batch.push(b), results.push(r)) == if r is Success {
            prepare_routed_to_submit(batch, results).push(
                Operation { status: PendingOperationStatus::ReadyToSubmit, ..b },
            )
        } else {
            prepare_routed_to_submit(batch, results)
        },
        prepare_routed_back(batch.push(b), results.push(r)) == match r {
            PendingOperationResult::NotReady => prepare_routed_back(batch, results).push(b),
            PendingOperationResult::Reprepare(reason) => prepare_routed_back(batch, results).push(
                Operation { status: PendingOperationStatus::Retry(reason), ..b },
            ),
            _ => prepare_routed_back(batch, results),
        },
        prepare_routed_to_confirm(batch.push(b), results.push(r)) == match r {
            PendingOperationResult::Confirm(reason) => prepare_routed_to_confirm(
                batch,
                results,
            ).push(Operation { status: PendingOperationStatus::Confirm(reason), ..b }),
            _ => prepare_routed_to_confirm(batch, results),
        },
    decreases batch.len(),
{
    if batch.len() == 0 {
        assert(batch.push(b)[0] == b && results.push(r)[0] == r);
        assert(batch.push(b).drop_first() =~= Seq::<Operation>::empty());
        assert(results.push(r).drop_first() =~= Seq::<PendingOperationResult>::empty());
        assert(prepare_routed_to_submit(batch.push(b).drop_first(), results.push(r).drop_first())
            =~= Seq::<Operation>::empty());
        assert(prepare_routed_back(batch.push(b).drop_first(), results.push(r).drop_first())
            =~= Seq::<Operation>::empty());
        assert(prepare_routed_to_confirm(batch.push(b).drop_first(), results.push(r).drop_first())
            =~= Seq::<Operation>::empty());
        assert(prepare_routed_to_submit(batch.push(b), results.push(r)) =~= (if r is Success {
            prepare_routed_to_submit(batch, results).push(
                Operation { status: PendingOperationStatus::ReadyToSubmit, ..b },
            )
        } else {
            prepare_routed_to_submit(batch, results)
        }));
        assert(prepare_routed_back(batch.push(b), results.push(r)) =~= (match r {
            PendingOperationResult::NotReady => prepare_routed_back(batch, results).push(b),
            PendingOperationResult::Reprepare(reason) => prepare_routed_back(batch, results).push(
                Operation { status: PendingOperationStatus::Retry(reason), ..b },
            ),
            _ => prepare_routed_back(batch, results),
        }));
        assert(prepare_routed_to_confirm(batch.push(b), results.push(r)) =~= (match r {
            PendingOperationResult::Confirm(reason) => prepare_routed_to_confirm(
                batch,
                results,
            ).push(Operation { status: PendingOperationStatus::Confirm(reason), ..b }),
            _ => prepare_routed_to_confirm(batch, results),
        }));
    } else {
        assert(batch.push(b)[0] == batch[0] && results.push(r)[0] == results[0]);
        assert(batch.push(b).drop_first() =~= batch.drop_first().push(b));
        assert(results.push(r).drop_first() =~= results.drop_first().push(r));
        lemma_prepare_routed_snoc(batch.drop_first(), results.drop_first(), b, r);
        assert(prepare_routed_to_submit(batch.push(b), results.push(r)) =~= (if r is Success {
            prepare_routed_to_submit(batch, results).push(
                Operation { status: PendingOperationStatus::ReadyToSubmit, ..b },
            )
        } else {
            prepare_routed_to_submit(batch, results)
        }));
        assert(prepare_routed_back(batch.push(b), results.push(r)) =~= (match r {
            PendingOperationResult::NotReady => prepare_routed_back(batch, results).push(b),
            PendingOperationResult::Reprepare(reason) => prepare_routed_back(batch, results).push(
                Operation { status: PendingOperationStatus::Retry(reason), ..b },
            ),
            _ => prepare_routed_back(batch, results),
        }));
        assert(prepare_routed_to_confirm(batch.push(b), results.push(r)) =~= (match r {
            PendingOperationResult::Confirm(reason) => prepare_routed_to_confirm(
                batch,
                results,
            ).push(Operation { status: PendingOperationStatus::Confirm(reason), ..b }),
            _ => prepare_routed_to_confirm(batch, results),
        }));
    }
}

proof fn lemma_counts_snoc(results: Seq<PendingOperationResult>, r: PendingOperationResult)
    ensures
        count_reprepare(results.push(r)) == count_reprepare(results) + if r is Reprepare {
            1int
        } else {
            0int
        },
        count_dropped(results.push(r)) == count_dropped(results) + if r is Drop {
            1int
        } else {
            0int
        },
        count_no_progress(results.push(r)) == count_no_progress(results) + if r is NotReady
            || r is Reprepare {
            1int
        } else {
            0int
        },
    decreases results.len(),
{
    if results.len() == 0 {
        assert(results.push(r)[0] == r);
        assert(results.push(r).drop_first() =~= Seq::<PendingOperationResult>::empty());
        assert(count_reprepare(results.push(r).drop_first()) == 0);
        assert(count_dropped(results.push(r).drop_first()) == 0);
        assert(count_no_progress(results.push(r).drop_first()) == 0);
    } else {
        assert(results.push(r)[0] == results[0]);
        assert(results.push(r).drop_first() =~= results.drop_first().push(r));
        lemma_counts_snoc(results.drop_first(), r);
    }
}

/// Prepare fan-out dispatch: route every operation of the batch according
/// to the result its `prepare()` call produced, count the outcomes, and
/// report whether no operation made progress (in which case the loop
/// pauses for `ALL_NOT_READY_SLEEP_MS`).
///
/// `Success` goes to the submit queue as `ReadyToSubmit` and counts as
/// prepared; `NotReady` goes back unchanged; `Reprepare(reason)` goes back
/// as `Retry(reason)` and counts as failed; `Confirm(reason)` goes to the
/// confirm queue; `Drop` leaves the system and counts as dropped.
pub fn process_batch(
    domain: Domain,
    batch: Vec<Operation>,
    results: &Vec<PendingOperationResult>,
    prepare_queue: &mut OpQueue,
    submit_queue: &mut OpQueue,
    confirm_queue: &mut OpQueue,
    metrics: &mut MessageProcessorMetrics,
) -> (all_not_ready: bool)
    requires
        batch@.len() == results@.len(),
        forall|i: int| 0 <= i < batch@.len() ==> (#[trigger] batch@[i]).destination_domain == domain,
        old(prepare_queue).wf(),
        old(submit_queue).wf(),
        old(confirm_queue).wf(),
        old(prepare_queue).next_seq() + batch@.len() <= u64::MAX,
        old(submit_queue).next_seq() + batch@.len() <= u64::MAX,
        old(confirm_queue).next_seq() + batch@.len() <= u64::MAX,
        old(metrics).prepared + batch@.len() <= u64::MAX,
        old(metrics).failed + batch@.len() <= u64::MAX,
        old(metrics).dropped + batch@.len() <= u64::MAX,
    ensures
        final(prepare_queue).wf(),
        final(submit_queue).wf(),
        final(confirm_queue).wf(),
        final(submit_queue)@ == spec_push_all(
            old(submit_queue)@,
            prepare_routed_to_submit(batch@, results@),
            old(submit_queue).next_seq() as int,
        ),
        final(submit_queue).next_seq() == old(submit_queue).next_seq()
            + prepare_routed_to_submit(batch@, results@).len(),
        final(prepare_queue)@ == spec_push_all(
            old(prepare_queue)@,
            prepare_routed_back(batch@, results@),
            old(prepare_queue).next_seq() as int,
        ),
        final(prepare_queue).next_seq() == old(prepare_queue).next_seq()
            + prepare_routed_back(batch@, results@).len(),
        final(confirm_queue)@ == spec_push_all(
            old(confirm_queue)@,
            prepare_routed_to_confirm(batch@, results@),
            old(confirm_queue).next_seq() as int,
        ),
        final(confirm_queue).next_seq() == old(confirm_queue).next_seq()
            + prepare_routed_to_confirm(batch@, results@).len(),
        final(metrics).prepared == old(metrics).prepared + prepare_routed_to_submit(
            batch@,
            results@,
        ).len(),
        final(metrics).failed == old(metrics).failed + count_reprepare(results@),
        final(metrics).dropped == old(metrics).dropped + count_dropped(results@),
        final(metrics).submitted == old(metrics).submitted,
        final(metrics).confirmed == old(metrics).confirmed,
        all_not_ready == (count_no_progress(results@) == results@.len()),
{
    let ghost b = batch@;
    let ghost rs = results@;
    let ghost prepare0 = old(prepare_queue)@;
    let ghost submit0 = old(submit_queue)@;
    let ghost confirm0 = old(confirm_queue)@;
    let ghost prepare_ns0 = old(prepare_queue).next_seq();
    let ghost submit_ns0 = old(submit_queue).next_seq();
    let ghost confirm_ns0 = old(confirm_queue).next_seq();
    let ghost m0 = *old(metrics);

    let batch_len = batch.len();
    let mut no_progress: usize = 0;
    let mut i: usize = 0;
    proof {
        assert(b.take(0) =~= Seq::<Operation>::empty());
        assert(rs.take(0) =~= Seq::<PendingOperationResult>::empty());
    }
    while i < batch_len
        invariant
            batch_len == b.len() == rs.len(),
            0 <= i <= batch_len,
            batch@ == b,
            results@ == rs,
            forall|k: int| 0 <= k < b.len() ==> (#[trigger] b[k]).destination_domain == domain,
            prepare_ns0 + b.len() <= u64::MAX,
            submit_ns0 + b.len() <= u64::MAX,
            confirm_ns0 + b.len() <= u64::MAX,
            m0.prepared + b.len() <= u64::MAX,
            m0.failed + b.len() <= u64::MAX,
            m0.dropped + b.len() <= u64::MAX,
            prepare_queue.wf(),
            submit_queue.wf(),
            confirm_queue.wf(),
            submit_queue@ == spec_push_all(
                submit0,
                prepare_routed_to_submit(b.take(i as int), rs.take(i as int)),
                submit_ns0 as int,
            ),
            submit_queue.next_seq() == submit_ns0 + prepare_routed_to_submit(
                b.take(i as int),
                rs.take(i as int),
            ).len(),
            prepare_queue@ == spec_push_all(
                prepare0,
                prepare_routed_back(b.take(i as int), rs.take(i as int)),
                prepare_ns0 as int,
            ),
            prepare_queue.next_seq() == prepare_ns0 + prepare_routed_back(
                b.take(i as int),
                rs.take(i as int),
            ).len(),
            confirm_queue@ == spec_push_all(
                confirm0,
                prepare_routed_to_confirm(b.take(i as int), rs.take(i as int)),
                confirm_ns0 as int,
            ),
            confirm_queue.next_seq() == confirm_ns0 + prepare_routed_to_confirm(
                b.take(i as int),
                rs.take(i as int),
            ).len(),
            prepare_routed_to_submit(b.take(i as int), rs.take(i as int)).len() <= i,
            prepare_routed_back(b.take(i as int), rs.take(i as int)).len() <= i,
            prepare_routed_to_confirm(b.take(i as int), rs.take(i as int)).len() <= i,
            metrics.prepared == m0.prepared + prepare_routed_to_submit(
                b.take(i as int),
                rs.take(i as int),
            ).len(),
            metrics.failed == m0.failed + count_reprepare(rs.take(i as int)),
            metrics.dropped == m0.dropped + count_dropped(rs.take(i as int)),
            metrics.submitted == m0.submitted,
            metrics.confirmed == m0.confirmed,
            0 <= count_reprepare(rs.take(i as int)) <= i,
            0 <= count_dropped(rs.take(i as int)) <= i,
            no_progress == count_no_progress(rs.take(i as int)),
            0 <= count_no_progress(rs.take(i as int)) <= i,
        decreases batch_len - i,
    {
        let op = batch[i];
        let result = results[i];
        proof {
            assert(b.take(i + 1) =~= b.take(i as int).push(b[i as int]));
            assert(rs.take(i + 1) =~= rs.take(i as int).push(rs[i as int]));
            lemma_prepare_routed_snoc(b.take(i as int), rs.take(i as int), b[i as int], rs[i as int]);
            lemma_counts_snoc(rs.take(i as int), rs[i as int]);
        }
        match result {
            PendingOperationResult::Success => {
                proof {
                    crate::op_queue::lemma_push_all_snoc(
                        submit0,
                        prepare_routed_to_submit(b.take(i as int), rs.take(i as int)),
                        Operation { status: PendingOperationStatus::ReadyToSubmit, ..b[i as int] },
                        submit_ns0 as int,
                    );
                }
                metrics.inc_prepared();
                submit_queue.push(op, Some(PendingOperationStatus::ReadyToSubmit));
            },
            PendingOperationResult::NotReady => {
                proof {
                    crate::op_queue::lemma_push_all_snoc(
                        prepare0,
                        prepare_routed_back(b.take(i as int), rs.take(i as int)),
                        b[i as int],
                        prepare_ns0 as int,
                    );
                }
                no_progress = no_progress + 1;
                prepare_queue.push(op, None);
            },
            PendingOperationResult::Reprepare(reason) => {
                proof {
                    crate::op_queue::lemma_push_all_snoc(
                        prepare0,
                        prepare_routed_back(b.take(i as int), rs.take(i as int)),
                        Operation {
                            status: PendingOperationStatus::Retry(reason),
                            ..b[i as int]
                        },
                        prepare_ns0 as int,
                    );
                }
                no_progress = no_progress + 1;
                metrics.inc_failed();
                prepare_queue.push(op, Some(PendingOperationStatus::Retry(reason)));
            },
            PendingOperationResult::Drop => {
                metrics.inc_dropped();
            },
            PendingOperationResult::Confirm(reason) => {
                proof {
                    crate::op_queue::lemma_push_all_snoc(
                        confirm0,
                        prepare_routed_to_confirm(b.take(i as int), rs.take(i as int)),
                        Operation {
                            status: PendingOperationStatus::Confirm(reason),
                            ..b[i as int]
                        },
                        confirm_ns0 as int,
                    );
                }
                confirm_queue.push(op, Some(PendingOperationStatus::Confirm(reason)));
            },
        }
        i = i + 1;
    }
    proof {
        assert(b.take(batch_len as int) =~= b);
        assert(rs.take(batch_len as int) =~= rs);
    }
    no_progress == batch_len
}

/// The operation as `confirm_op` enqueues it: its next attempt is pushed
/// out by the confirmation delay.
pub open spec fn delayed_for_confirm(op: Operation, now: u64) -> Operation {
    Operation { next_attempt_after: sat_add_u64(now, CONFIRM_DELAY_MS), ..op }
}

/// Hand a submitted operation over to confirmation: delay its next attempt
/// by `CONFIRM_DELAY_MS`, enqueue it as `Confirm(SubmittedBySelf)` and
/// count it as submitted.
///
/// Returns whether the caller must pause for `COSMOS_PACING_SLEEP_MS`
/// before the next submission: exactly on Cosmos-family destinations.
pub fn confirm_op(
    op: Operation,
    confirm_queue: &mut OpQueue,
    metrics: &mut MessageProcessorMetrics,
    now: u64,
) -> (pace: bool)
    requires
        old(confirm_queue).wf(),
        old(confirm_queue).next_seq() < u64::MAX,
        old(metrics).submitted < u64::MAX,
    ensures
        final(confirm_queue).wf(),
        final(confirm_queue)@ == spec_push(
            old(confirm_queue)@,
            delayed_for_confirm(op, now),
            Some(PendingOperationStatus::Confirm(ConfirmReason::SubmittedBySelf)),
            old(confirm_queue).next_seq(),
        ),
        final(confirm_queue).next_seq() == old(confirm_queue).next_seq() + 1,
        *final(metrics) == (MessageProcessorMetrics {
            submitted: (old(metrics).submitted + 1) as u64,
            ..*old(metrics)
        }),
        pace == op.destination_domain.protocol.spec_is_cosmos_family(),
{
    let mut delayed = op;
    delayed.set_next_attempt_after(now, CONFIRM_DELAY_MS);
    confirm_queue.push(
        delayed,
        Some(PendingOperationStatus::Confirm(ConfirmReason::SubmittedBySelf)),
    );
    metrics.inc_submitted();
    op.destination_domain.protocol.is_cosmos_family()
}

/// The operation as `prepare_op` re-enqueues it: one more recorded retry.
pub open spec fn reprepared(op: Operation) -> Operation {
    Operation { num_retries: (op.num_retries + 1) as u32, ..op }
}

/// Send an operation back to preparation after a lander-stage failure: let
/// it record the failed attempt, enqueue it as `Retry(reason)` and count
/// the failure.
pub fn prepare_op(
    op: Operation,
    prepare_queue: &mut OpQueue,
    metrics: &mut MessageProcessorMetrics,
    reason: ReprepareReason,
)
    requires
        op.num_retries < u32::MAX,
        old(prepare_queue).wf(),
        old(prepare_queue).next_seq() < u64::MAX,
        old(metrics).failed < u64::MAX,
    ensures
        final(prepare_queue).wf(),
        final(prepare_queue)@ == spec_push(
            old(prepare_queue)@,
            reprepared(op),
            Some(PendingOperationStatus::Retry(reason)),
            old(prepare_queue).next_seq(),
        ),
        final(prepare_queue).next_seq() == old(prepare_queue).next_seq() + 1,
        *final(metrics) == (MessageProcessorMetrics {
            failed: (old(metrics).failed + 1) as u64,
            ..*old(metrics)
        }),
{
    let mut retried = op;
    retried.on_reprepare();
    prepare_queue.push(retried, Some(PendingOperationStatus::Retry(reason)));
    metrics.inc_failed();
}

/// The retry reason a failed submission is recorded under: the one given,
/// or `ErrorSubmitting` when the stage has none better.
pub open spec fn failed_submission_reason(maybe_reason: Option<ReprepareReason>) -> ReprepareReason {
    match maybe_reason {
        Some(reason) => reason,
        None => ReprepareReason::ErrorSubmitting,
    }
}

/// Return an operation whose submission could not be verified to the
/// prepare queue and count the failure. The retry count is not touched:
/// the operation itself did not report a failed attempt.
pub fn send_back_on_failed_submission(
    op: Operation,
    prepare_queue: &mut OpQueue,
    metrics: &mut MessageProcessorMetrics,
    maybe_reason: Option<ReprepareReason>,
)
    requires
        old(prepare_queue).wf(),
        old(prepare_queue).next_seq() < u64::MAX,
        old(metrics).failed < u64::MAX,
    ensures
        final(prepare_queue).wf(),
        final(prepare_queue)@ == spec_push(
            old(prepare_queue)@,
            op,
            Some(PendingOperationStatus::Retry(failed_submission_reason(maybe_reason))),
            old(prepare_queue).next_seq(),
        ),
        final(prepare_queue).next_seq() == old(prepare_queue).next_seq() + 1,
        *final(metrics) == (MessageProcessorMetrics {
            failed: (old(metrics).failed + 1) as u64,
            ..*old(metrics)
        }),
{
    let reason = match maybe_reason {
        Some(reason) => reason,
        None => ReprepareReason::ErrorSubmitting,
    };
    metrics.inc_failed();
    prepare_queue.push(op, Some(PendingOperationStatus::Retry(reason)));
}

/// Route a single operation after its `submit()` call.
///
/// `Reprepare` and the unexpected `NotReady` go back to preparation as
/// retries; `Drop` (also unexpected here) leaves every queue untouched;
/// `Success` and `Confirm` hand the operation to `confirm_op`. Returns the
/// Cosmos pacing flag of `confirm_op`, `false` when nothing was submitted.
pub fn submit_single_operation(
    op: Operation,
    result: PendingOperationResult,
    prepare_queue: &mut OpQueue,
    confirm_queue: &mut OpQueue,
    metrics: &mut MessageProcessorMetrics,
    now: u64,
) -> (pace: bool)
    requires
        old(prepare_queue).wf(),
        old(confirm_queue).wf(),
        old(prepare_queue).next_seq() < u64::MAX,
        old(confirm_queue).next_seq() < u64::MAX,
        old(metrics).submitted < u64::MAX,
    ensures
        final(prepare_queue).wf(),
        final(confirm_queue).wf(),
        result matches PendingOperationResult::Reprepare(reason) ==> {
            &&& final(prepare_queue)@ == spec_push(
                old(prepare_queue)@,
                op,
                Some(PendingOperationStatus::Retry(reason)),
                old(prepare_queue).next_seq(),
            )
            &&& final(confirm_queue)@ == old(confirm_queue)@
            &&& *final(metrics) == *old(metrics)
        },
        result is NotReady ==> {
            &&& final(prepare_queue)@ == spec_push(
                old(prepare_queue)@,
                op,
                Some(PendingOperationStatus::Retry(ReprepareReason::ErrorSubmitting)),
                old(prepare_queue).next_seq(),
            )
            &&& final(confirm_queue)@ == old(confirm_queue)@
            &&& *final(metrics) == *old(metrics)
        },
        result is Drop ==> {
            &&& final(prepare_queue)@ == old(prepare_queue)@
            &&& final(confirm_queue)@ == old(confirm_queue)@
            &&& *final(metrics) == *old(metrics)
        },
        (result is Success || result is Confirm) ==> {
            &&& final(prepare_queue)@ == old(prepare_queue)@
            &&& final(confirm_queue)@ == spec_push(
                old(confirm_queue)@,
                delayed_for_confirm(op, now),
                Some(PendingOperationStatus::Confirm(ConfirmReason::SubmittedBySelf)),
                old(confirm_queue).next_seq(),
            )
            &&& *final(metrics) == (MessageProcessorMetrics {
                submitted: (old(metrics).submitted + 1) as u64,
                ..*old(metrics)
            })
        },
        pace == ((result is Success || result is Confirm)
            && op.destination_domain.protocol.spec_is_cosmos_family()),
{
    match result {
        PendingOperationResult::Reprepare(reason) => {
            prepare_queue.push(op, Some(PendingOperationStatus::Retry(reason)));
            false
        },
        PendingOperationResult::NotReady => {
            prepare_queue.push(
                op,
                Some(PendingOperationStatus::Retry(ReprepareReason::ErrorSubmitting)),
            );
            false
        },
        PendingOperationResult::Drop => false,
        PendingOperationResult::Success => confirm_op(op, confirm_queue, metrics, now),
        PendingOperationResult::Confirm(_) => confirm_op(op, confirm_queue, metrics, now),
    }
}

/// A confirm-stage result that removes the operation from the system.
pub open spec fn is_terminal(r: PendingOperationResult) -> bool {
    r is Success || r is Drop
}

pub open spec fn confirmed_delta(r: PendingOperationResult) -> int {
    if r is Success {
        1
    } else {
        0
    }
}

pub open spec fn dropped_delta(r: PendingOperationResult) -> int {
    if r is Drop {
        1
    } else {
        0
    }
}

pub open spec fn failed_delta(r: PendingOperationResult) -> int {
    if r is Reprepare {
        1
    } else {
        0
    }
}

/// For every terminal confirm-stage result exactly one of the `confirmed`
/// and `dropped` counters moves, and by exactly one; for every other
/// result neither moves.
pub proof fn lemma_terminal_counts_exclusive(r: PendingOperationResult)
    ensures
        confirmed_delta(r) + dropped_delta(r) == if is_terminal(r) {
            1int
        } else {
            0int
        },
        !(confirmed_delta(r) == 1 && dropped_delta(r) == 1),
{
}

/// Route a single operation after its `confirm()` call.
///
/// `Success` finalizes the delivery and `Drop` abandons it: both remove
/// the operation from every queue for good and move exactly one counter.
/// `NotReady` and `Confirm(reason)` keep it in the confirm queue;
/// `Reprepare(reason)` sends it back to preparation as a failure.
pub fn process_confirm_result(
    op: Operation,
    result: PendingOperationResult,
    prepare_queue: &mut OpQueue,
    confirm_queue: &mut OpQueue,
    metrics: &mut MessageProcessorMetrics,
)
    requires
        old(prepare_queue).wf(),
        old(confirm_queue).wf(),
        old(prepare_queue).next_seq() < u64::MAX,
        old(confirm_queue).next_seq() < u64::MAX,
        old(metrics).confirmed < u64::MAX,
        old(metrics).dropped < u64::MAX,
        old(metrics).failed < u64::MAX,
    ensures
        final(prepare_queue).wf(),
        final(confirm_queue).wf(),
        final(metrics).confirmed == old(metrics).confirmed + confirmed_delta(result),
        final(metrics).dropped == old(metrics).dropped + dropped_delta(result),
        final(metrics).failed == old(metrics).failed + failed_delta(result),
        final(metrics).prepared == old(metrics).prepared,
        final(metrics).submitted == old(metrics).submitted,
        is_terminal(result) ==> final(prepare_queue)@ == old(prepare_queue)@
            && final(confirm_queue)@ == old(confirm_queue)@,
        result is NotReady ==> final(confirm_queue)@ == spec_push(
            old(confirm_queue)@,
            op,
            None,
            old(confirm_queue).next_seq(),
        ) && final(prepare_queue)@ == old(prepare_queue)@,
        result matches PendingOperationResult::Confirm(reason) ==> final(confirm_queue)@
            == spec_push(
            old(confirm_queue)@,
            op,
            Some(PendingOperationStatus::Confirm(reason)),
            old(confirm_queue).next_seq(),
        ) && final(prepare_queue)@ == old(prepare_queue)@,
        result matches PendingOperationResult::Reprepare(reason) ==> final(prepare_queue)@
            == spec_push(
            old(prepare_queue)@,
            op,
            Some(PendingOperationStatus::Retry(reason)),
            old(prepare_queue).next_seq(),
        ) && final(confirm_queue)@ == old(confirm_queue)@,
        final(prepare_queue).next_seq() == old(prepare_queue).next_seq() + failed_delta(result),
        final(confirm_queue).next_seq() == old(confirm_queue).next_seq() + (if result is NotReady
            || result is Confirm {
            1int
        } else {
            0int
        }),
{
    match result {
        PendingOperationResult::Success => {
            metrics.inc_confirmed();
        },
        PendingOperationResult::NotReady => {
            confirm_queue.push(op, None);
        },
        PendingOperationResult::Confirm(reason) => {
            confirm_queue.push(op, Some(PendingOperationStatus::Confirm(reason)));
        },
        PendingOperationResult::Reprepare(reason) => {
            send_back_on_failed_submission(op, prepare_queue, metrics, Some(reason));
        },
        PendingOperationResult::Drop => {
            metrics.inc_dropped();
        },
    }
}

/// Operations the confirm stage keeps polling, in batch order: `NotReady`
/// unchanged, `Confirm(reason)` re-stamped.
pub open spec fn confirm_routed_back(
    batch: Seq<Operation>,
    results: Seq<PendingOperationResult>,
) -> Seq<Operation>
    decreases batch.len(),
{
    if batch.len() == 0 {
        Seq::empty()
    } else {
        let rest = confirm_routed_back(batch.drop_first(), results.drop_first());
        match results[0] {
            PendingOperationResult::NotReady => seq![batch[0]] + rest,
            PendingOperationResult::Confirm(reason) => seq![
                Operation { status: PendingOperationStatus::Confirm(reason), ..batch[0] },
            ] + rest,
            _ => rest,
        }
    }
}

/// Operations the confirm stage sends back to preparation, in batch order.
pub open spec fn confirm_routed_to_prepare(
    batch: Seq<Operation>,
    results: Seq<PendingOperationResult>,
) -> Seq<Operation>
    decreases batch.len(),
{
    if batch.len() == 0 {
        Seq::empty()
    } else {
        let rest = confirm_routed_to_prepare(batch.drop_first(), results.drop_first());
        match results[0] {
            PendingOperationResult::Reprepare(reason) => seq![
                Operation { status: PendingOperationStatus::Retry(reason), ..batch[0] },
            ] + rest,
            _ => rest,
        }
    }
}

pub open spec fn count_confirmed(results: Seq<PendingOperationResult>) -> int
    decreases results.len(),
{
    if results.len() == 0 {
        0
    } else {
        (if results[0] is Success {
            1int
        } else {
            0int
        }) + count_confirmed(results.drop_first())
    }
}

/// How many confirm results made no progress: `NotReady` or `Confirm`.
pub open spec fn count_confirm_pending(results: Seq<PendingOperationResult>) -> int
    decreases results.len(),
{
    if results.len() == 0 {
        0
    } else {
        (if results[0] is NotReady || results[0] is Confirm {
            1int
        } else {
            0int
        }) + count_confirm_pending(results.drop_first())
    }
}

proof fn lemma_confirm_routed_snoc(
    batch: Seq<Operation>,
    results: Seq<PendingOperationResult>,
    b: Operation,
    r: PendingOperationResult,
)
    requires
        batch.len() == results.len(),
    ensures
        confirm_routed_back(batch.push(b), results.push(r)) == match r {
            PendingOperationResult::NotReady => confirm_routed_back(batch, results).push(b),
            PendingOperationResult::Confirm(reason) => confirm_routed_back(batch, results).push(
                Operation { status: PendingOperationStatus::Confirm(reason), ..b },
            ),
            _ => confirm_routed_back(batch, results),
        },
        confirm_routed_to_prepare(batch.push(b), results.push(r)) == match r {
            PendingOperationResult::Reprepare(reason) => confirm_routed_to_prepare(
                batch,
                results,
            ).push(Operation { status: PendingOperationStatus::Retry(reason), ..b }),
            _ => confirm_routed_to_prepare(batch, results),
        },
        count_confirmed(results.push(r)) == count_confirmed(results) + confirmed_delta(r),
        count_dropped(results.push(r)) == count_dropped(results) + dropped_delta(r),
        count_reprepare(results.push(r)) == count_reprepare(results) + failed_delta(r),
        count_confirm_pending(results.push(r)) == count_confirm_pending(results) + if r is NotReady
            || r is Confirm {
            1int
        } else {
            0int
        },
    decreases batch.len(),
{
    lemma_counts_snoc(results, r);
    if batch.len() == 0 {
        assert(batch.push(b)[0] == b && results.push(r)[0] == r);
        assert(batch.push(b).drop_first() =~= Seq::<Operation>::empty());
        assert(results.push(r).drop_first() =~= Seq::<PendingOperationResult>::empty());
        assert(confirm_routed_back(batch.push(b).drop_first(), results.push(r).drop_first())
            =~= Seq::<Operation>::empty());
        assert(confirm_routed_to_prepare(batch.push(b).drop_first(), results.push(r).drop_first())
            =~= Seq::<Operation>::empty());
        assert(count_confirmed(results.push(r).drop_first()) == 0);
        assert(count_confirm_pending(results.push(r).drop_first()) == 0);
        assert(confirm_routed_back(batch.push(b), results.push(r)) =~= (match r {
            PendingOperationResult::NotReady => confirm_routed_back(batch, results).push(b),
            PendingOperationResult::Confirm(reason) => confirm_routed_back(batch, results).push(
                Operation { status: PendingOperationStatus::Confirm(reason), ..b },
            ),
            _ => confirm_routed_back(batch, results),
        }));
        assert(confirm_routed_to_prepare(batch.push(b), results.push(r)) =~= (match r {
            PendingOperationResult::Reprepare(reason) => confirm_routed_to_prepare(
                batch,
                results,
            ).push(Operation { status: PendingOperationStatus::Retry(reason), ..b }),
            _ => confirm_routed_to_prepare(batch, results),
        }));
    } else {
        assert(batch.push(b)[0] == batch[0] && results.push(r)[0] == results[0]);
        assert(batch.push(b).drop_first() =~= batch.drop_first().push(b));
        assert(results.push(r).drop_first() =~= results.drop_first().push(r));
        lemma_confirm_routed_snoc(batch.drop_first(), results.drop_first(), b, r);
        assert(confirm_routed_back(batch.push(b), results.push(r)) =~= (match r {
            PendingOperationResult::NotReady => confirm_routed_back(batch, results).push(b),
            PendingOperationResult::Confirm(reason) => confirm_routed_back(batch, results).push(
                Operation { status: PendingOperationStatus::Confirm(reason), ..b },
            ),
            _ => confirm_routed_back(batch, results),
        }));
        assert(confirm_routed_to_prepare(batch.push(b), results.push(r)) =~= (match r {
            PendingOperationResult::Reprepare(reason) => confirm_routed_to_prepare(
                batch,
                results,
            ).push(Operation { status: PendingOperationStatus::Retry(reason), ..b }),
            _ => confirm_routed_to_prepare(batch, results),
        }));
    }
}

/// Confirm fan-out dispatch: route every operation of a confirm batch
/// according to the result its `confirm()` call produced.
///
/// Returns whether no operation was newly finalized or failed — every
/// result was `NotReady` or `Confirm` — in which case the loop pauses for
/// `ALL_NOT_READY_SLEEP_MS` before polling again.
pub fn process_confirm_results(
    batch: Vec<Operation>,
    results: &Vec<PendingOperationResult>,
    prepare_queue: &mut OpQueue,
    confirm_queue: &mut OpQueue,
    metrics: &mut MessageProcessorMetrics,
) -> (all_pending: bool)
    requires
        batch@.len() == results@.len(),
        old(prepare_queue).wf(),
        old(confirm_queue).wf(),
        old(prepare_queue).next_seq() + batch@.len() <= u64::MAX,
        old(confirm_queue).next_seq() + batch@.len() <= u64::MAX,
        old(metrics).confirmed + batch@.len() <= u64::MAX,
        old(metrics).dropped + batch@.len() <= u64::MAX,
        old(metrics).failed + batch@.len() <= u64::MAX,
    ensures
        final(prepare_queue).wf(),
        final(confirm_queue).wf(),
        final(confirm_queue)@ == spec_push_all(
            old(confirm_queue)@,
            confirm_routed_back(batch@, results@),
            old(confirm_queue).next_seq() as int,
        ),
        final(confirm_queue).next_seq() == old(confirm_queue).next_seq() + confirm_routed_back(
            batch@,
            results@,
        ).len(),
        final(prepare_queue)@ == spec_push_all(
            old(prepare_queue)@,
            confirm_routed_to_prepare(batch@, results@),
            old(prepare_queue).next_seq() as int,
        ),
        final(prepare_queue).next_seq() == old(prepare_queue).next_seq()
            + confirm_routed_to_prepare(batch@, results@).len(),
        final(metrics).confirmed == old(metrics).confirmed + count_confirmed(results@),
        final(metrics).dropped == old(metrics).dropped + count_dropped(results@),
        final(metrics).failed == old(metrics).failed + count_reprepare(results@),
        final(metrics).prepared == old(metrics).prepared,
        final(metrics).submitted == old(metrics).submitted,
        all_pending == (count_confirm_pending(results@) == results@.len()),
{
    let ghost b = batch@;
    let ghost rs = results@;
    let ghost prepare0 = old(prepare_queue)@;
    let ghost confirm0 = old(confirm_queue)@;
    let ghost prepare_ns0 = old(prepare_queue).next_seq();
    let ghost confirm_ns0 = old(confirm_queue).next_seq();
    let ghost m0 = *old(metrics);

    let batch_len = batch.len();
    let mut pending: usize = 0;
    let mut i: usize = 0;
    proof {
        assert(b.take(0) =~= Seq::<Operation>::empty());
        assert(rs.take(0) =~= Seq::<PendingOperationResult>::empty());
    }
    while i < batch_len
        invariant
            batch_len == b.len() == rs.len(),
            0 <= i <= batch_len,
            batch@ == b,
            results@ == rs,
            prepare_ns0 + b.len() <= u64::MAX,
            confirm_ns0 + b.len() <= u64::MAX,
            m0.confirmed + b.len() <= u64::MAX,
            m0.dropped + b.len() <= u64::MAX,
            m0.failed + b.len() <= u64::MAX,
            prepare_queue.wf(),
            confirm_queue.wf(),
            confirm_queue@ == spec_push_all(
                confirm0,
                confirm_routed_back(b.take(i as int), rs.take(i as int)),
                confirm_ns0 as int,
            ),
            confirm_queue.next_seq() == confirm_ns0 + confirm_routed_back(
                b.take(i as int),
                rs.take(i as int),
            ).len(),
            prepare_queue@ == spec_push_all(
                prepare0,
                confirm_routed_to_prepare(b.take(i as int), rs.take(i as int)),
                prepare_ns0 as int,
            ),
            prepare_queue.next_seq() == prepare_ns0 + confirm_routed_to_prepare(
                b.take(i as int),
                rs.take(i as int),
            ).len(),
            confirm_routed_back(b.take(i as int), rs.take(i as int)).len() <= i,
            confirm_routed_to_prepare(b.take(i as int), rs.take(i as int)).len() <= i,
            metrics.confirmed == m0.confirmed + count_confirmed(rs.take(i as int)),
            metrics.dropped == m0.dropped + count_dropped(rs.take(i as int)),
            metrics.failed == m0.failed + count_reprepare(rs.take(i as int)),
            metrics.prepared == m0.prepared,
            metrics.submitted == m0.submitted,
            0 <= count_confirmed(rs.take(i as int)) <= i,
            0 <= count_dropped(rs.take(i as int)) <= i,
            0 <= count_reprepare(rs.take(i as int)) <= i,
            pending == count_confirm_pending(rs.take(i as int)),
            0 <= count_confirm_pending(rs.take(i as int)) <= i,
        decreases batch_len - i,
    {
        let op = batch[i];
        let result = results[i];
        proof {
            assert(b.take(i + 1) =~= b.take(i as int).push(b[i as int]));
            assert(rs.take(i + 1) =~= rs.take(i as int).push(rs[i as int]));
            lemma_confirm_routed_snoc(b.take(i as int), rs.take(i as int), b[i as int], rs[i as int]);
            if rs[i as int] is NotReady || rs[i as int] is Confirm {
                crate::op_queue::lemma_push_all_snoc(
                    confirm0,
                    confirm_routed_back(b.take(i as int), rs.take(i as int)),
                    match rs[i as int] {
                        PendingOperationResult::Confirm(reason) => Operation {
                            status: PendingOperationStatus::Confirm(reason),
                            ..b[i as int]
                        },
                        _ => b[i as int],
                    },
                    confirm_ns0 as int,
                );
            }
            match rs[i as int] {
                PendingOperationResult::Reprepare(reason) => {
                    crate::op_queue::lemma_push_all_snoc(
                        prepare0,
                        confirm_routed_to_prepare(b.take(i as int), rs.take(i as int)),
                        Operation { status: PendingOperationStatus::Retry(reason), ..b[i as int] },
                        prepare_ns0 as int,
                    );
                },
                _ => {},
            }
        }
        if matches!(result, PendingOperationResult::NotReady | PendingOperationResult::Confirm(_)) {
            pending = pending + 1;
        }
        process_confirm_result(op, result, prepare_queue, confirm_queue, metrics);
        i = i + 1;
    }
    proof {
        assert(b.take(batch_len as int) =~= b);
        assert(rs.take(batch_len as int) =~= rs);
    }
    pending == batch_len
}

/// Prepare dispatch neither loses nor duplicates operations: every
/// operation of the batch goes to exactly one queue, except the dropped
/// ones, which go nowhere.
pub proof fn lemma_prepare_routing_conserves(
    batch: Seq<Operation>,
    results: Seq<PendingOperationResult>,
)
    requires
        batch.len() == results.len(),
    ensures
        prepare_routed_to_submit(batch, results).len() + prepare_routed_back(batch, results).len()
            + prepare_routed_to_confirm(batch, results).len() + count_dropped(results)
            == batch.len(),
    decreases batch.len(),
{
    if batch.len() > 0 {
        lemma_prepare_routing_conserves(batch.drop_first(), results.drop_first());
    }
}

/// Confirm dispatch conservation: every operation of the batch stays in
/// the confirm queue, goes back to preparation, or leaves the system as
/// exactly one confirmation or drop.
pub proof fn lemma_confirm_routing_conserves(
    batch: Seq<Operation>,
    results: Seq<PendingOperationResult>,
)
    requires
        batch.len() == results.len(),
    ensures
        confirm_routed_back(batch, results).len() + confirm_routed_to_prepare(batch, results).len()
            + count_confirmed(results) + count_dropped(results) == batch.len(),
    decreases batch.len(),
{
    if batch.len() > 0 {
        lemma_confirm_routing_conserves(batch.drop_first(), results.drop_first());
    }
}

/// A batch of operations bound for one domain is routed onward to that
/// domain alone: with the intake check, every queue only ever holds
/// operations for the processor's own destination.
pub proof fn lemma_routed_ops_domain(
    batch: Seq<Operation>,
    results: Seq<PendingOperationResult>,
    d: Domain,
)
    requires
        batch.len() == results.len(),
        forall|i: int| 0 <= i < batch.len() ==> (#[trigger] batch[i]).destination_domain == d,
    ensures
        forall|k: int|
            0 <= k < prepare_routed_to_submit(batch, results).len() ==> (#[trigger]
            prepare_routed_to_submit(batch, results)[k]).destination_domain == d,
        forall|k: int|
            0 <= k < prepare_routed_back(batch, results).len() ==> (#[trigger] prepare_routed_back(
                batch,
                results,
            )[k]).destination_domain == d,
        forall|k: int|
            0 <= k < prepare_routed_to_confirm(batch, results).len() ==> (#[trigger]
            prepare_routed_to_confirm(batch, results)[k]).destination_domain == d,
        forall|k: int|
            0 <= k < confirm_routed_back(batch, results).len() ==> (#[trigger] confirm_routed_back(
                batch,
                results,
            )[k]).destination_domain == d,
        forall|k: int|
            0 <= k < confirm_routed_to_prepare(batch, results).len() ==> (#[trigger]
            confirm_routed_to_prepare(batch, results)[k]).destination_domain == d,
    decreases batch.len(),
{
    if batch.len() > 0 {
        assert forall|i: int|
            0 <= i < batch.drop_first().len() implies (#[trigger] batch.drop_first()[i]).destination_domain
            == d by {
            assert(batch.drop_first()[i] == batch[i + 1]);
        }
        lemma_routed_ops_domain(batch.drop_first(), results.drop_first(), d);
    }
}

/// No routed operation carries an identifier that is absent from the batch.
proof fn lemma_routed_id_excluded(
    batch: Seq<Operation>,
    results: Seq<PendingOperationResult>,
    id: u64,
)
    requires
        batch.len() == results.len(),
        forall|j: int| 0 <= j < batch.len() ==> (#[trigger] batch[j]).id != id,
    ensures
        forall|k: int|
            0 <= k < prepare_routed_to_submit(batch, results).len() ==> (#[trigger]
            prepare_routed_to_submit(batch, results)[k]).id != id,
        forall|k: int|
            0 <= k < prepare_routed_back(batch, results).len() ==> (#[trigger] prepare_routed_back(
                batch,
                results,
            )[k]).id != id,
        forall|k: int|
            0 <= k < prepare_routed_to_confirm(batch, results).len() ==> (#[trigger]
            prepare_routed_to_confirm(batch, results)[k]).id != id,
        forall|k: int|
            0 <= k < confirm_routed_back(batch, results).len() ==> (#[trigger] confirm_routed_back(
                batch,
                results,
            )[k]).id != id,
        forall|k: int|
            0 <= k < confirm_routed_to_prepare(batch, results).len() ==> (#[trigger]
            confirm_routed_to_prepare(batch, results)[k]).id != id,
    decreases batch.len(),
{
    if batch.len() > 0 {
        assert forall|j: int|
            0 <= j < batch.drop_first().len() implies (#[trigger] batch.drop_first()[j]).id
            != id by {
            assert(batch.drop_first()[j] == batch[j + 1]);
        }
        lemma_routed_id_excluded(batch.drop_first(), results.drop_first(), id);
    }
}

/// An operation whose result is `Drop` re-enters no queue: neither stage
/// routes its identifier anywhere (provided the batch carries each message
/// once, which intake guarantees for live messages).
pub proof fn lemma_dropped_never_rerouted(
    batch: Seq<Operation>,
    results: Seq<PendingOperationResult>,
    i: int,
)
    requires
        batch.len() == results.len(),
        0 <= i < batch.len(),
        results[i] is Drop,
        forall|j: int| 0 <= j < batch.len() && j != i ==> (#[trigger] batch[j]).id != batch[i].id,
    ensures
        forall|k: int|
            0 <= k < prepare_routed_to_submit(batch, results).len() ==> (#[trigger]
            prepare_routed_to_submit(batch, results)[k]).id != batch[i].id,
        forall|k: int|
            0 <= k < prepare_routed_back(batch, results).len() ==> (#[trigger] prepare_routed_back(
                batch,
                results,
            )[k]).id != batch[i].id,
        forall|k: int|
            0 <= k < prepare_routed_to_confirm(batch, results).len() ==> (#[trigger]
            prepare_routed_to_confirm(batch, results)[k]).id != batch[i].id,
        forall|k: int|
            0 <= k < confirm_routed_back(batch, results).len() ==> (#[trigger] confirm_routed_back(
                batch,
                results,
            )[k]).id != batch[i].id,
        forall|k: int|
            0 <= k < confirm_routed_to_prepare(batch, results).len() ==> (#[trigger]
            confirm_routed_to_prepare(batch, results)[k]).id != batch[i].id,
    decreases batch.len(),
{
    let id = batch[i].id;
    if i == 0 {
        assert forall|j: int|
            0 <= j < batch.drop_first().len() implies (#[trigger] batch.drop_first()[j]).id
            != id by {
            assert(batch.drop_first()[j] == batch[j + 1]);
        }
        lemma_routed_id_excluded(batch.drop_first(), results.drop_first(), id);
    } else {
        assert(batch.drop_first()[i - 1] == batch[i]);
        assert forall|j: int|
            0 <= j < batch.drop_first().len() && j != i - 1 implies (#[trigger]
        batch.drop_first()[j]).id != id by {
            assert(batch.drop_first()[j] == batch[j + 1]);
        }
        lemma_dropped_never_rerouted(batch.drop_first(), results.drop_first(), i - 1);
        assert(batch[0].id != id);
    }
}

} // verus!
