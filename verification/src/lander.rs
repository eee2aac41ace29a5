//! The lander (external dispatcher) paths of the processor.
//!
//! In lander mode the submit stage hands a payload to an external
//! dispatcher and persists a `message id -> payload uuids` mapping, and the
//! confirm stage polls the dispatcher for per-payload finality. The
//! dispatcher and store calls themselves are made by the surrounding
//! runtime; the decisions between and after them are taken here.

use vstd::prelude::*;

use crate::op::{
    ConfirmReason, LanderError, Operation, PayloadStatus, PayloadUuid, PendingOperationStatus,
    ReprepareReason, StoreError,
};
use crate::op_queue::{spec_push_all, OpQueue};

verus! {

/// The work unit handed to the external dispatcher: one payload per
/// message, addressed to the destination mailbox.
pub struct FullPayload {
    pub uuid: PayloadUuid,
    /// The message this payload delivers; used as the dispatcher metadata.
    pub message_id: u64,
    /// Chain calldata, built by the operation itself.
    pub data: Vec<u8>,
    /// What the dispatcher checks to call the payload delivered.
    pub success_criteria: Vec<u8>,
    /// Mailbox address on the destination chain.
    pub mailbox: u64,
}

/// Assemble the payload for one operation. An operation that reaches
/// lander submission carries its mailbox address by construction.
pub fn build_full_payload(
    op: &Operation,
    uuid: PayloadUuid,
    data: Vec<u8>,
    success_criteria: Vec<u8>,
) -> (p: FullPayload)
    requires
        op.mailbox is Some,
    ensures
        p.uuid == uuid,
        p.message_id == op.id,
        p.data@ == data@,
        p.success_criteria@ == success_criteria@,
        Some(p.mailbox) == op.mailbox,
{
    FullPayload { uuid, message_id: op.id, data, success_criteria, mailbox: op.mailbox.unwrap() }
}

/// Where a lander submission stands: which collaborator call comes next,
/// or how it ended.
#[derive(Clone, Copy, Debug, PartialEq, Eq, Structural)]
pub enum LanderSubmitState {
    /// Ask the operation for its payload.
    NeedPayload,
    /// Ask the operation for its success criteria.
    NeedSuccessCriteria,
    /// Send the assembled payload to the dispatcher.
    NeedSend,
    /// Persist the `message id -> payload uuids` mapping.
    NeedStore,
    /// Submission complete: hand the operation to `confirm_op`.
    Confirmable,
    /// Submission failed: hand the operation to `prepare_op` with this
    /// reason.
    Repreparing(ReprepareReason),
}

/// What the last collaborator call reported.
#[derive(Clone, Copy, Debug, PartialEq, Eq, Structural)]
pub enum LanderSubmitEvent {
    PayloadBuilt,
    PayloadFailed,
    CriteriaBuilt,
    CriteriaFailed,
    PayloadSent,
    SendFailed,
    MappingStored,
    StoreFailed,
}

/// The lander submission protocol: payload, then success criteria, then
/// send, then store, each failure turning into its retry reason. `None`
/// means the event cannot occur in that state.
pub open spec fn spec_lander_submit_step(
    s: LanderSubmitState,
    e: LanderSubmitEvent,
) -> Option<LanderSubmitState> {
    match (s, e) {
        (LanderSubmitState::NeedPayload, LanderSubmitEvent::PayloadBuilt) => Some(
            LanderSubmitState::NeedSuccessCriteria,
        ),
        (LanderSubmitState::NeedPayload, LanderSubmitEvent::PayloadFailed) => Some(
            LanderSubmitState::Repreparing(ReprepareReason::ErrorCreatingPayload),
        ),
        (LanderSubmitState::NeedSuccessCriteria, LanderSubmitEvent::CriteriaBuilt) => Some(
            LanderSubmitState::NeedSend,
        ),
        (LanderSubmitState::NeedSuccessCriteria, LanderSubmitEvent::CriteriaFailed) => Some(
            LanderSubmitState::Repreparing(ReprepareReason::ErrorCreatingPayloadSuccessCriteria),
        ),
        (LanderSubmitState::NeedSend, LanderSubmitEvent::PayloadSent) => Some(
            LanderSubmitState::NeedStore,
        ),
        (LanderSubmitState::NeedSend, LanderSubmitEvent::SendFailed) => Some(
            LanderSubmitState::Repreparing(ReprepareReason::ErrorSubmitting),
        ),
        (LanderSubmitState::NeedStore, LanderSubmitEvent::MappingStored) => Some(
            LanderSubmitState::Confirmable,
        ),
        (LanderSubmitState::NeedStore, LanderSubmitEvent::StoreFailed) => Some(
            LanderSubmitState::Repreparing(ReprepareReason::ErrorStoringPayloadUuidsByMessageId),
        ),
        _ => None,
    }
}

/// Advance the lander submission by one collaborator result.
pub fn lander_submit_step(s: LanderSubmitState, e: LanderSubmitEvent) -> (next: LanderSubmitState)
    requires
        spec_lander_submit_step(s, e) is Some,
    ensures
        Some(next) == spec_lander_submit_step(s, e),
{
    match (s, e) {
        (LanderSubmitState::NeedPayload, LanderSubmitEvent::PayloadBuilt) => {
            LanderSubmitState::NeedSuccessCriteria
        },
        (LanderSubmitState::NeedPayload, LanderSubmitEvent::PayloadFailed) => {
            LanderSubmitState::Repreparing(ReprepareReason::ErrorCreatingPayload)
        },
        (LanderSubmitState::NeedSuccessCriteria, LanderSubmitEvent::CriteriaBuilt) => {
            LanderSubmitState::NeedSend
        },
        (LanderSubmitState::NeedSuccessCriteria, LanderSubmitEvent::CriteriaFailed) => {
            LanderSubmitState::Repreparing(ReprepareReason::ErrorCreatingPayloadSuccessCriteria)
        },
        (LanderSubmitState::NeedSend, LanderSubmitEvent::PayloadSent) => {
            LanderSubmitState::NeedStore
        },
        (LanderSubmitState::NeedSend, LanderSubmitEvent::SendFailed) => {
            LanderSubmitState::Repreparing(ReprepareReason::ErrorSubmitting)
        },
        (LanderSubmitState::NeedStore, LanderSubmitEvent::MappingStored) => {
            LanderSubmitState::Confirmable
        },
        (LanderSubmitState::NeedStore, LanderSubmitEvent::StoreFailed) => {
            LanderSubmitState::Repreparing(ReprepareReason::ErrorStoringPayloadUuidsByMessageId)
        },
        _ => LanderSubmitState::NeedPayload,
    }
}

/// An operation becomes confirmable only by storing its mapping: if a sent
/// payload's uuid mapping cannot be persisted, the operation goes back to
/// preparation instead of to the confirm queue. So every operation the
/// lander submit path hands to confirmation has its mapping stored first.
pub proof fn lemma_confirmable_only_after_store(s: LanderSubmitState, e: LanderSubmitEvent)
    ensures
        (spec_lander_submit_step(s, e) == Some(LanderSubmitState::Confirmable)) <==> (
        s is NeedStore && e is MappingStored),
{
}

/// The dispatcher is only asked to send in the `NeedSend` state, which is
/// reachable solely through a built payload and built success criteria.
pub proof fn lemma_send_needs_payload_and_criteria(s: LanderSubmitState, e: LanderSubmitEvent)
    ensures
        (spec_lander_submit_step(s, e) == Some(LanderSubmitState::NeedSend)) <==> (
        s is NeedSuccessCriteria && e is CriteriaBuilt),
        (spec_lander_submit_step(s, e) == Some(LanderSubmitState::NeedStore)) <==> (s is NeedSend
            && e is PayloadSent),
{
}

/// The first stored payload uuid of a message, if its lookup succeeded and
/// found a non-empty list.
pub open spec fn spec_first_uuid(lookup: Result<Option<Vec<PayloadUuid>>, StoreError>) -> Option<
    PayloadUuid,
> {
    match lookup {
        Ok(Some(uuids)) => if uuids@.len() > 0 {
            Some(uuids@[0])
        } else {
            None
        },
        _ => None,
    }
}

/// The uuid whose dispatcher status decides the prepare-stage submission
/// shortcut; `None` when the operation has no usable mapping and must be
/// prepared normally.
pub fn first_payload_uuid(lookup: &Result<Option<Vec<PayloadUuid>>, StoreError>) -> (r: Option<
    PayloadUuid,
>)
    ensures
        r == spec_first_uuid(*lookup),
{
    match lookup {
        Ok(Some(uuids)) => {
            if uuids.len() > 0 {
                Some(uuids[0])
            } else {
                None
            }
        },
        _ => None,
    }
}

/// Whether a prior submission of this message is still in flight: a
/// payload uuid mapping exists and the dispatcher reports its status as
/// anything but dropped. Any other outcome — no mapping, empty mapping,
/// storage error, status-fetch error, dropped — counts as not submitted.
pub open spec fn spec_has_been_submitted(
    lookup: Result<Option<Vec<PayloadUuid>>, StoreError>,
    status: Option<Result<PayloadStatus, LanderError>>,
) -> bool {
    spec_first_uuid(lookup) is Some && match status {
        Some(Ok(st)) => !(st is Dropped),
        _ => false,
    }
}

/// The prepare-stage shortcut decision, from the store lookup and the
/// dispatcher status of the first mapped uuid (`None` when no status was
/// fetched because there was no usable mapping).
pub fn has_operation_been_submitted(
    lookup: &Result<Option<Vec<PayloadUuid>>, StoreError>,
    status: &Option<Result<PayloadStatus, LanderError>>,
) -> (r: bool)
    ensures
        r == spec_has_been_submitted(*lookup, *status),
{
    if first_payload_uuid(lookup).is_some() {
        match status {
            Some(Ok(st)) => !matches!(st, PayloadStatus::Dropped),
            _ => false,
        }
    } else {
        false
    }
}

/// The operations of a batch that must still be prepared: those without a
/// live prior submission, in batch order, untouched.
pub open spec fn ops_kept_for_prepare(batch: Seq<Operation>, submitted: Seq<bool>) -> Seq<Operation>
    decreases batch.len(),
{
    if batch.len() == 0 {
        Seq::empty()
    } else {
        let rest = ops_kept_for_prepare(batch.drop_first(), submitted.drop_first());
        if submitted[0] {
            rest
        } else {
            seq![batch[0]] + rest
        }
    }
}

/// The operations of a batch with a live prior submission, in batch order,
/// stamped `Confirm(AlreadySubmitted)` for the confirm queue.
pub open spec fn ops_already_submitted(batch: Seq<Operation>, submitted: Seq<bool>) -> Seq<
    Operation,
>
    decreases batch.len(),
{
    if batch.len() == 0 {
        Seq::empty()
    } else {
        let rest = ops_already_submitted(batch.drop_first(), submitted.drop_first());
        if submitted[0] {
            seq![
                Operation {
                    status: PendingOperationStatus::Confirm(ConfirmReason::AlreadySubmitted),
                    ..batch[0]
                },
            ] + rest
        } else {
            rest
        }
    }
}

proof fn lemma_already_submitted_snoc(
    batch: Seq<Operation>,
    submitted: Seq<bool>,
    b: Operation,
    f: bool,
)
    requires
        batch.len() == submitted.len(),
    ensures
        ops_kept_for_prepare(batch.push(b), submitted.push(f)) == if f {
            ops_kept_for_prepare(batch, submitted)
        } else {
            ops_kept_for_prepare(batch, submitted).push(b)
        },
        ops_already_submitted(batch.push(b), submitted.push(f)) == if f {
            ops_already_submitted(batch, submitted).push(
                Operation {
                    status: PendingOperationStatus::Confirm(ConfirmReason::AlreadySubmitted),
                    ..b
                },
            )
        } else {
            ops_already_submitted(batch, submitted)
        },
    decreases batch.len(),
{
    if batch.len() == 0 {
        assert(batch.push(b)[0] == b && submitted.push(f)[0] == f);
        assert(batch.push(b).drop_first() =~= Seq::<Operation>::empty());
        assert(submitted.push(f).drop_first() =~= Seq::<bool>::empty());
        assert(ops_kept_for_prepare(batch.push(b).drop_first(), submitted.push(f).drop_first())
            =~= Seq::<Operation>::empty());
        assert(ops_already_submitted(batch.push(b).drop_first(), submitted.push(f).drop_first())
            =~= Seq::<Operation>::empty());
        assert(ops_kept_for_prepare(batch.push(b), submitted.push(f)) =~= (if f {
            ops_kept_for_prepare(batch, submitted)
        } else {
            ops_kept_for_prepare(batch, submitted).push(b)
        }));
        assert(ops_already_submitted(batch.push(b), submitted.push(f)) =~= (if f {
            ops_already_submitted(batch, submitted).push(
                Operation {
                    status: PendingOperationStatus::Confirm(ConfirmReason::AlreadySubmitted),
                    ..b
                },
            )
        } else {
            ops_already_submitted(batch, submitted)
        }));
    } else {
        assert(batch.push(b)[0] == batch[0] && submitted.push(f)[0] == submitted[0]);
        assert(batch.push(b).drop_first() =~= batch.drop_first().push(b));
        assert(submitted.push(f).drop_first() =~= submitted.drop_first().push(f));
        lemma_already_submitted_snoc(batch.drop_first(), submitted.drop_first(), b, f);
        assert(ops_kept_for_prepare(batch.push(b), submitted.push(f)) =~= (if f {
            ops_kept_for_prepare(batch, submitted)
        } else {
            ops_kept_for_prepare(batch, submitted).push(b)
        }));
        assert(ops_already_submitted(batch.push(b), submitted.push(f)) =~= (if f {
            ops_already_submitted(batch, submitted).push(
                Operation {
                    status: PendingOperationStatus::Confirm(ConfirmReason::AlreadySubmitted),
                    ..b
                },
            )
        } else {
            ops_already_submitted(batch, submitted)
        }));
    }
}

/// The prepare-stage submission shortcut: operations whose prior payload
/// is still in flight (per their shortcut decision) go straight to the
/// confirm queue as `Confirm(AlreadySubmitted)` — a restart does not
/// re-submit them — and the rest come back to be prepared normally.
pub fn confirm_already_submitted_operations(
    batch: Vec<Operation>,
    submitted_flags: &Vec<bool>,
    confirm_queue: &mut OpQueue,
) -> (kept: Vec<Operation>)
    requires
        batch@.len() == submitted_flags@.len(),
        old(confirm_queue).wf(),
        old(confirm_queue).next_seq() + batch@.len() <= u64::MAX,
    ensures
        final(confirm_queue).wf(),
        kept@ == ops_kept_for_prepare(batch@, submitted_flags@),
        final(confirm_queue)@ == spec_push_all(
            old(confirm_queue)@,
            ops_already_submitted(batch@, submitted_flags@),
            old(confirm_queue).next_seq() as int,
        ),
        final(confirm_queue).next_seq() == old(confirm_queue).next_seq() + ops_already_submitted(
            batch@,
            submitted_flags@,
        ).len(),
{
    let ghost b = batch@;
    let ghost fs = submitted_flags@;
    let ghost confirm0 = old(confirm_queue)@;
    let ghost confirm_ns0 = old(confirm_queue).next_seq();

    let batch_len = batch.len();
    let mut kept: Vec<Operation> = Vec::new();
    let mut i: usize = 0;
    proof {
        assert(b.take(0) =~= Seq::<Operation>::empty());
        assert(fs.take(0) =~= Seq::<bool>::empty());
    }
    while i < batch_len
        invariant
            batch_len == b.len() == fs.len(),
            0 <= i <= batch_len,
            batch@ == b,
            submitted_flags@ == fs,
            confirm_ns0 + b.len() <= u64::MAX,
            confirm_queue.wf(),
            kept@ == ops_kept_for_prepare(b.take(i as int), fs.take(i as int)),
            confirm_queue@ == spec_push_all(
                confirm0,
                ops_already_submitted(b.take(i as int), fs.take(i as int)),
                confirm_ns0 as int,
            ),
            confirm_queue.next_seq() == confirm_ns0 + ops_already_submitted(
                b.take(i as int),
                fs.take(i as int),
            ).len(),
            ops_already_submitted(b.take(i as int), fs.take(i as int)).len() <= i,
        decreases batch_len - i,
    {
        let op = batch[i];
        proof {
            assert(b.take(i + 1) =~= b.take(i as int).push(b[i as int]));
            assert(fs.take(i + 1) =~= fs.take(i as int).push(fs[i as int]));
            lemma_already_submitted_snoc(b.take(i as int), fs.take(i as int), b[i as int], fs[i as int]);
        }
        if submitted_flags[i] {
            proof {
                crate::op_queue::lemma_push_all_snoc(
                    confirm0,
                    ops_already_submitted(b.take(i as int), fs.take(i as int)),
                    Operation {
                        status: PendingOperationStatus::Confirm(ConfirmReason::AlreadySubmitted),
                        ..b[i as int]
                    },
                    confirm_ns0 as int,
                );
            }
            confirm_queue.push(
                op,
                Some(PendingOperationStatus::Confirm(ConfirmReason::AlreadySubmitted)),
            );
        } else {
            kept.push(op);
        }
        i = i + 1;
    }
    proof {
        assert(b.take(batch_len as int) =~= b);
        assert(fs.take(batch_len as int) =~= fs);
    }
    kept
}

/// No kept operation carries an identifier that is absent from the batch.
proof fn lemma_kept_id_excluded(batch: Seq<Operation>, submitted: Seq<bool>, id: u64)
    requires
        batch.len() == submitted.len(),
        forall|j: int| 0 <= j < batch.len() ==> (#[trigger] batch[j]).id != id,
    ensures
        forall|k: int|
            0 <= k < ops_kept_for_prepare(batch, submitted).len() ==> (#[trigger]
            ops_kept_for_prepare(batch, submitted)[k]).id != id,
    decreases batch.len(),
{
    if batch.len() > 0 {
        assert forall|j: int|
            0 <= j < batch.drop_first().len() implies (#[trigger] batch.drop_first()[j]).id
            != id by {
            assert(batch.drop_first()[j] == batch[j + 1]);
        }
        lemma_kept_id_excluded(batch.drop_first(), submitted.drop_first(), id);
    }
}

/// Restart idempotence: a message whose earlier payload is still in
/// flight is not prepared — and so not submitted — again. Its operation
/// goes to the confirm queue and is absent from what the shortcut hands
/// back for preparation (provided the batch carries each message once).
pub proof fn lemma_submitted_op_skips_prepare(batch: Seq<Operation>, submitted: Seq<bool>, i: int)
    requires
        batch.len() == submitted.len(),
        0 <= i < batch.len(),
        submitted[i],
        forall|j: int| 0 <= j < batch.len() && j != i ==> (#[trigger] batch[j]).id != batch[i].id,
    ensures
        forall|k: int|
            0 <= k < ops_kept_for_prepare(batch, submitted).len() ==> (#[trigger]
            ops_kept_for_prepare(batch, submitted)[k]).id != batch[i].id,
        exists|k: int|
            0 <= k < ops_already_submitted(batch, submitted).len() && (#[trigger]
            ops_already_submitted(batch, submitted)[k]).id == batch[i].id,
    decreases batch.len(),
{
    let id = batch[i].id;
    if i == 0 {
        assert forall|j: int|
            0 <= j < batch.drop_first().len() implies (#[trigger] batch.drop_first()[j]).id
            != id by {
            assert(batch.drop_first()[j] == batch[j + 1]);
        }
        lemma_kept_id_excluded(batch.drop_first(), submitted.drop_first(), id);
        assert(ops_already_submitted(batch, submitted)[0].id == id);
    } else {
        assert(batch.drop_first()[i - 1] == batch[i]);
        assert forall|j: int|
            0 <= j < batch.drop_first().len() && j != i - 1 implies (#[trigger]
        batch.drop_first()[j]).id != id by {
            assert(batch.drop_first()[j] == batch[j + 1]);
        }
        lemma_submitted_op_skips_prepare(batch.drop_first(), submitted.drop_first(), i - 1);
        assert(batch[0].id != id);
        let tail = ops_already_submitted(batch.drop_first(), submitted.drop_first());
        let k0 = choose|k: int| 0 <= k < tail.len() && (#[trigger] tail[k]).id == id;
        if submitted[0] {
            assert(ops_already_submitted(batch, submitted)[k0 + 1].id == id);
        } else {
            assert(ops_already_submitted(batch, submitted)[k0].id == id);
        }
    }
}

/// The dispatcher statuses that were fetched successfully, in order.
pub open spec fn spec_filter_statuses(
    status_results: Seq<(PayloadUuid, Result<PayloadStatus, LanderError>)>,
) -> Seq<(PayloadUuid, PayloadStatus)>
    decreases status_results.len(),
{
    if status_results.len() == 0 {
        Seq::empty()
    } else {
        let rest = spec_filter_statuses(status_results.drop_first());
        match status_results[0].1 {
            Ok(st) => seq![(status_results[0].0, st)] + rest,
            Err(_) => rest,
        }
    }
}

proof fn lemma_filter_statuses_snoc(
    status_results: Seq<(PayloadUuid, Result<PayloadStatus, LanderError>)>,
    x: (PayloadUuid, Result<PayloadStatus, LanderError>),
)
    ensures
        spec_filter_statuses(status_results.push(x)) == match x.1 {
            Ok(st) => spec_filter_statuses(status_results).push((x.0, st)),
            Err(_) => spec_filter_statuses(status_results),
        },
    decreases status_results.len(),
{
    if status_results.len() == 0 {
        assert(status_results.push(x)[0] == x);
        assert(status_results.push(x).drop_first() =~= Seq::<
            (PayloadUuid, Result<PayloadStatus, LanderError>),
        >::empty());
        assert(spec_filter_statuses(status_results.push(x).drop_first()) =~= Seq::<
            (PayloadUuid, PayloadStatus),
        >::empty());
        assert(spec_filter_statuses(status_results.push(x)) =~= (match x.1 {
            Ok(st) => spec_filter_statuses(status_results).push((x.0, st)),
            Err(_) => spec_filter_statuses(status_results),
        }));
    } else {
        assert(status_results.push(x)[0] == status_results[0]);
        assert(status_results.push(x).drop_first() =~= status_results.drop_first().push(x));
        lemma_filter_statuses_snoc(status_results.drop_first(), x);
        assert(spec_filter_statuses(status_results.push(x)) =~= (match x.1 {
            Ok(st) => spec_filter_statuses(status_results).push((x.0, st)),
            Err(_) => spec_filter_statuses(status_results),
        }));
    }
}

/// Keep the status fetches that succeeded, with their uuids, in order.
pub fn filter_status_results(
    status_results: Vec<(PayloadUuid, Result<PayloadStatus, LanderError>)>,
) -> (successes: Vec<(PayloadUuid, PayloadStatus)>)
    ensures
        successes@ == spec_filter_statuses(status_results@),
        successes@.len() <= status_results@.len(),
{
    let ghost s = status_results@;
    let mut successes: Vec<(PayloadUuid, PayloadStatus)> = Vec::new();
    let mut i: usize = 0;
    proof {
        assert(s.take(0) =~= Seq::<(PayloadUuid, Result<PayloadStatus, LanderError>)>::empty());
    }
    while i < status_results.len()
        invariant
            0 <= i <= s.len(),
            status_results@ == s,
            successes@ == spec_filter_statuses(s.take(i as int)),
            successes@.len() <= i,
        decreases s.len() - i,
    {
        let (uuid, result) = status_results[i];
        proof {
            assert(s.take(i + 1) =~= s.take(i as int).push(s[i as int]));
            lemma_filter_statuses_snoc(s.take(i as int), s[i as int]);
        }
        match result {
            Ok(st) => {
                successes.push((uuid, st));
            },
            Err(_) => {},
        }
        i = i + 1;
    }
    proof {
        assert(s.take(s.len() as int) =~= s);
    }
    successes
}

/// Whether any status fetch for this operation failed.
pub open spec fn spec_any_status_error(
    status_results: Seq<(PayloadUuid, Result<PayloadStatus, LanderError>)>,
) -> bool {
    exists|i: int| 0 <= i < status_results.len() && (#[trigger] status_results[i]).1 is Err
}

/// Whether every fetched status reports the payload finalized.
pub open spec fn spec_all_finalized(
    status_results: Seq<(PayloadUuid, Result<PayloadStatus, LanderError>)>,
) -> bool {
    forall|i: int|
        0 <= i < status_results.len() ==> match (#[trigger] status_results[i]).1 {
            Ok(st) => st is Finalized,
            Err(_) => true,
        }
}

/// What the lander confirm stage does with one operation.
#[derive(Clone, Copy, Debug, PartialEq, Eq, Structural)]
pub enum LanderConfirmDecision {
    /// A status fetch failed: back to preparation with
    /// `ErrorRetrievingPayloadStatus`.
    RetryStatusFetch,
    /// Every payload of the operation is finalized: confirm it.
    Finalized,
    /// Not finalized yet: keep polling, as `Confirm(SubmittedBySelf)`.
    NotYetFinalized,
}

/// Decide the fate of one confirm-queue operation from the dispatcher
/// statuses of all its payloads. Any fetch error sends it back to
/// preparation even if the other payloads look fine; it is finalized only
/// when every payload is.
pub fn lander_confirm_decision(
    status_results: &Vec<(PayloadUuid, Result<PayloadStatus, LanderError>)>,
) -> (d: LanderConfirmDecision)
    ensures
        d is RetryStatusFetch <==> spec_any_status_error(status_results@),
        d is Finalized <==> (!spec_any_status_error(status_results@) && spec_all_finalized(
            status_results@,
        )),
        d is NotYetFinalized <==> (!spec_any_status_error(status_results@) && !spec_all_finalized(
            status_results@,
        )),
{
    let mut any_error: bool = false;
    let mut all_finalized: bool = true;
    let mut i: usize = 0;
    while i < status_results.len()
        invariant
            0 <= i <= status_results@.len(),
            any_error == spec_any_status_error(status_results@.take(i as int)),
            all_finalized == spec_all_finalized(status_results@.take(i as int)),
        decreases status_results@.len() - i,
    {
        let ghost s = status_results@;
        proof {
            assert(s.take(i + 1) =~= s.take(i as int).push(s[i as int]));
        }
        match &status_results[i].1 {
            Ok(st) => {
                if !st.is_finalized() {
                    all_finalized = false;
                }
            },
            Err(_) => {
                any_error = true;
            },
        }
        proof {
            let t = s.take(i + 1);
            assert forall|k: int| 0 <= k < t.len() implies t[k] == if k < i {
                s.take(i as int)[k]
            } else {
                s[i as int]
            } by {}
            if spec_any_status_error(t) && !spec_any_status_error(s.take(i as int)) {
                let k = choose|k: int| 0 <= k < t.len() && (#[trigger] t[k]).1 is Err;
                assert(k == i);
            }
            if s[i as int].1 is Err {
                assert(t[i as int].1 is Err);
            }
        }
        i = i + 1;
    }
    proof {
        assert(status_results@.take(status_results@.len() as int) =~= status_results@);
    }
    if any_error {
        LanderConfirmDecision::RetryStatusFetch
    } else if all_finalized {
        LanderConfirmDecision::Finalized
    } else {
        LanderConfirmDecision::NotYetFinalized
    }
}

/// Whether a store lookup yielded payload uuids the confirm stage can poll.
pub open spec fn spec_lookup_usable(lookup: Result<Option<Vec<PayloadUuid>>, StoreError>) -> bool {
    match lookup {
        Ok(Some(uuids)) => uuids@.len() > 0,
        _ => false,
    }
}

/// The uuids a usable lookup yielded.
pub open spec fn spec_lookup_uuids(lookup: Result<Option<Vec<PayloadUuid>>, StoreError>) -> Seq<
    PayloadUuid,
> {
    match lookup {
        Ok(Some(uuids)) => uuids@,
        _ => Seq::empty(),
    }
}

/// Gate of the lander confirm stage: the payload uuids to poll, or `None`
/// when the lookup errored or found nothing — the operation then goes back
/// to preparation with `ErrorRetrievingPayloadUuids`.
pub fn lander_confirm_uuids(lookup: Result<Option<Vec<PayloadUuid>>, StoreError>) -> (r: Option<
    Vec<PayloadUuid>,
>)
    ensures
        r is Some <==> spec_lookup_usable(lookup),
        r matches Some(uuids) ==> uuids@ == spec_lookup_uuids(lookup),
{
    match lookup {
        Ok(Some(uuids)) => {
            if uuids.len() > 0 {
                Some(uuids)
            } else {
                None
            }
        },
        _ => None,
    }
}

} // verus!
