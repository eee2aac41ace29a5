//! End-to-end scenarios, driven the way the runtime loops drive the
//! library: pop a batch, simulate the collaborator calls, feed the results
//! back.

use message_processor::lander::{
    confirm_already_submitted_operations, has_operation_been_submitted, lander_confirm_decision,
    lander_confirm_uuids, lander_submit_step, LanderConfirmDecision, LanderSubmitEvent,
    LanderSubmitState,
};
use message_processor::op::{
    ConfirmReason, Domain, DomainProtocol, LanderError, Operation, PayloadStatus,
    PendingOperationResult, PendingOperationStatus, ReprepareReason, StoreError,
};
use message_processor::op_queue::OpQueue;
use message_processor::processor::{
    confirm_op, prepare_op, process_batch, process_confirm_results, receive_op,
    send_back_on_failed_submission,
    submit_single_operation, MessageProcessorMetrics, ALL_NOT_READY_SLEEP_MS,
    BACKPRESSURE_SLEEP_MS, CONFIRM_DELAY_MS, CONFIRM_EMPTY_QUEUE_SLEEP_MS, COSMOS_PACING_SLEEP_MS,
    EMPTY_QUEUE_SLEEP_MS,
};

fn domain() -> Domain {
    Domain { id: 1, protocol: DomainProtocol::Ethereum }
}

fn op(id: u64) -> Operation {
    Operation {
        id,
        destination_domain: domain(),
        status: PendingOperationStatus::FirstPrepareAttempt,
        app_context: None,
        next_attempt_after: 0,
        num_retries: 0,
        mailbox: Some(1),
    }
}

#[test]
fn sleep_durations_are_the_documented_ones() {
    assert_eq!(BACKPRESSURE_SLEEP_MS, 150);
    assert_eq!(EMPTY_QUEUE_SLEEP_MS, 100);
    assert_eq!(CONFIRM_EMPTY_QUEUE_SLEEP_MS, 200);
    assert_eq!(ALL_NOT_READY_SLEEP_MS, 500);
    assert_eq!(COSMOS_PACING_SLEEP_MS, 1_000);
}

#[test]
fn happy_direct_mode_single_message() {
    let mut prepare = OpQueue::new();
    let mut submit = OpQueue::new();
    let mut confirm = OpQueue::new();
    let mut metrics = MessageProcessorMetrics::new();
    let mut now: u64 = 0;

    // intake
    receive_op(domain(), op(0xA), &mut prepare);

    // prepare iteration: prepare() -> Success
    let batch = prepare.pop_many(1, now);
    assert_eq!(batch.len(), 1);
    let results = vec![PendingOperationResult::Success];
    process_batch(domain(), batch, &results, &mut prepare, &mut submit, &mut confirm, &mut metrics);

    // submit iteration (batch size 1): submit() -> Success
    let mut batch = submit.pop_many(1, now);
    assert_eq!(batch.len(), 1);
    let o = batch.pop().unwrap();
    submit_single_operation(
        o,
        PendingOperationResult::Success,
        &mut prepare,
        &mut confirm,
        &mut metrics,
        now,
    );

    // the operation waits out the confirmation delay
    assert!(confirm.pop_many(1, now).is_empty());
    now += CONFIRM_DELAY_MS;
    let batch = confirm.pop_many(1, now);
    assert_eq!(batch.len(), 1);
    assert_eq!(
        batch[0].status,
        PendingOperationStatus::Confirm(ConfirmReason::SubmittedBySelf)
    );

    // confirm iteration: confirm() -> Success
    let results = vec![PendingOperationResult::Success];
    process_confirm_results(batch, &results, &mut prepare, &mut confirm, &mut metrics);

    assert_eq!(metrics.prepared, 1);
    assert_eq!(metrics.submitted, 1);
    assert_eq!(metrics.confirmed, 1);
    assert_eq!(metrics.failed, 0);
    assert_eq!(metrics.dropped, 0);
    assert_eq!(prepare.len() + submit.len() + confirm.len(), 0);
}

#[test]
fn prepare_retry_then_success() {
    let mut prepare = OpQueue::new();
    let mut submit = OpQueue::new();
    let mut confirm = OpQueue::new();
    let mut metrics = MessageProcessorMetrics::new();
    let now: u64 = 0;

    receive_op(domain(), op(0xB), &mut prepare);

    // first prepare attempt fails
    let batch = prepare.pop_many(4, now);
    let results = vec![PendingOperationResult::Reprepare(ReprepareReason::CouldNotFetchMetadata)];
    process_batch(domain(), batch, &results, &mut prepare, &mut submit, &mut confirm, &mut metrics);
    assert_eq!(prepare.len(), 1);
    assert_eq!(
        prepare.entry_at(0).op.status,
        PendingOperationStatus::Retry(ReprepareReason::CouldNotFetchMetadata)
    );
    assert_eq!(submit.len(), 0);

    // a later cycle prepares it successfully, submits and confirms it
    let batch = prepare.pop_many(4, now);
    let results = vec![PendingOperationResult::Success];
    process_batch(domain(), batch, &results, &mut prepare, &mut submit, &mut confirm, &mut metrics);
    assert_eq!(submit.len(), 1);

    let mut batch = submit.pop_many(4, now);
    let o = batch.pop().unwrap();
    submit_single_operation(
        o,
        PendingOperationResult::Success,
        &mut prepare,
        &mut confirm,
        &mut metrics,
        now,
    );
    assert_eq!(confirm.len(), 1);

    let batch = confirm.pop_many(4, now + CONFIRM_DELAY_MS);
    let results = vec![PendingOperationResult::Success];
    process_confirm_results(batch, &results, &mut prepare, &mut confirm, &mut metrics);

    assert_eq!(metrics.prepared, 1);
    assert_eq!(metrics.submitted, 1);
    assert_eq!(metrics.confirmed, 1);
    assert_eq!(metrics.failed, 1);
    assert_eq!(metrics.dropped, 0);
    assert_eq!(prepare.len() + submit.len() + confirm.len(), 0);
}

#[test]
fn lander_restart_does_not_resubmit() {
    let mut prepare = OpQueue::new();
    let mut confirm = OpQueue::new();
    let mut metrics = MessageProcessorMetrics::new();
    let now: u64 = 0;

    // storage pre-populated with this message's payload uuid; the
    // dispatcher reports it finalized
    let payload_uuid: u64 = 0xC0;
    let lookup: Result<Option<Vec<u64>>, StoreError> = Ok(Some(vec![payload_uuid]));
    let send_payload_calls: u32 = 0;

    // intake re-emits the message after the restart
    receive_op(domain(), op(0xC), &mut prepare);

    // prepare iteration, lander mode: the shortcut fires
    let batch = prepare.pop_many(4, now);
    let status = Some(Ok(PayloadStatus::Finalized));
    let submitted = vec![has_operation_been_submitted(&lookup, &status)];
    assert_eq!(submitted, vec![true]);
    let kept = confirm_already_submitted_operations(batch, &submitted, &mut confirm);
    assert!(kept.is_empty());
    assert_eq!(confirm.len(), 1);
    assert_eq!(
        confirm.entry_at(0).op.status,
        PendingOperationStatus::Confirm(ConfirmReason::AlreadySubmitted)
    );

    // nothing was left for the submit machine, so send_payload never ran
    assert_eq!(send_payload_calls, 0);

    // lander confirm iteration: all payloads finalized
    let batch = confirm.pop_many(4, now);
    let uuids = lander_confirm_uuids(lookup).unwrap();
    let status_results: Vec<(u64, Result<PayloadStatus, LanderError>)> =
        uuids.into_iter().map(|u| (u, Ok(PayloadStatus::Finalized))).collect();
    match lander_confirm_decision(&status_results) {
        LanderConfirmDecision::Finalized => {
            // the operation's own confirm() reports success
            let results = vec![PendingOperationResult::Success];
            process_confirm_results(batch, &results, &mut prepare, &mut confirm, &mut metrics);
        }
        _ => panic!("expected a finalized decision"),
    }
    assert_eq!(send_payload_calls, 0);
    assert_eq!(metrics.confirmed, 1);
    assert_eq!(prepare.len() + confirm.len(), 0);
}

#[test]
fn lander_submission_failure_reprepares_without_storing() {
    let mut prepare = OpQueue::new();
    let mut metrics = MessageProcessorMetrics::new();
    let mut mapping_stored = false;

    // the submit machine runs until the dispatcher rejects the payload
    let s = LanderSubmitState::NeedPayload;
    let s = lander_submit_step(s, LanderSubmitEvent::PayloadBuilt);
    let s = lander_submit_step(s, LanderSubmitEvent::CriteriaBuilt);
    let s = lander_submit_step(s, LanderSubmitEvent::SendFailed);
    match s {
        LanderSubmitState::Repreparing(reason) => {
            assert_eq!(reason, ReprepareReason::ErrorSubmitting);
            prepare_op(op(0xD), &mut prepare, &mut metrics, reason);
        }
        LanderSubmitState::NeedStore => {
            mapping_stored = true;
        }
        _ => panic!("unexpected submit state"),
    }

    assert!(!mapping_stored);
    assert_eq!(metrics.failed, 1);
    assert_eq!(prepare.len(), 1);
    let entry = prepare.entry_at(0);
    assert_eq!(entry.op.status, PendingOperationStatus::Retry(ReprepareReason::ErrorSubmitting));
    assert_eq!(entry.op.num_retries, 1);
}

#[test]
fn lander_confirm_error_paths_reprepare_with_their_reasons() {
    let mut prepare = OpQueue::new();
    let mut metrics = MessageProcessorMetrics::new();

    // the uuid lookup errored: back to preparation
    let lookup: Result<Option<Vec<u64>>, StoreError> = Err(StoreError);
    assert!(lander_confirm_uuids(lookup).is_none());
    send_back_on_failed_submission(
        op(0xE),
        &mut prepare,
        &mut metrics,
        Some(ReprepareReason::ErrorRetrievingPayloadUuids),
    );
    assert_eq!(
        prepare.entry_at(0).op.status,
        PendingOperationStatus::Retry(ReprepareReason::ErrorRetrievingPayloadUuids)
    );

    // one status fetch errored, even beside a finalized payload
    let status_results: Vec<(u64, Result<PayloadStatus, LanderError>)> =
        vec![(1, Ok(PayloadStatus::Finalized)), (2, Err(LanderError))];
    assert_eq!(
        lander_confirm_decision(&status_results),
        LanderConfirmDecision::RetryStatusFetch
    );
    send_back_on_failed_submission(
        op(0xF),
        &mut prepare,
        &mut metrics,
        Some(ReprepareReason::ErrorRetrievingPayloadStatus),
    );
    assert_eq!(
        prepare.entry_at(1).op.status,
        PendingOperationStatus::Retry(ReprepareReason::ErrorRetrievingPayloadStatus)
    );
    assert_eq!(metrics.failed, 2);
}

#[test]
fn cosmos_pacing_after_each_submission() {
    let mut confirm = OpQueue::new();
    let mut metrics = MessageProcessorMetrics::new();
    let cosmos = Domain { id: 7, protocol: DomainProtocol::Cosmos };
    let first = Operation { destination_domain: cosmos, ..op(1) };
    let second = Operation { destination_domain: cosmos, ..op(2) };
    // both submissions demand the pacing pause before the loop goes on
    assert!(confirm_op(first, &mut confirm, &mut metrics, 0));
    assert!(confirm_op(second, &mut confirm, &mut metrics, 0));
    assert_eq!(COSMOS_PACING_SLEEP_MS, 1_000);
    assert_eq!(metrics.submitted, 2);
}
