use message_processor::op::{
    ConfirmReason, Domain, DomainProtocol, Operation, PendingOperationResult,
    PendingOperationStatus, ReprepareReason,
};
use message_processor::op_queue::OpQueue;
use message_processor::processor::{
    apply_backpressure, confirm_op, get_batch_or_wait, prepare_op, process_batch,
    process_confirm_result, process_confirm_results, receive_op, send_back_on_failed_submission,
    submit_single_operation, MessageProcessor, MessageProcessorMetrics, CONFIRM_DELAY_MS,
    MESSAGE_PROCESSOR_QUEUE_COUNT,
};

fn domain() -> Domain {
    Domain { id: 1, protocol: DomainProtocol::Ethereum }
}

fn op(id: u64) -> Operation {
    Operation {
        id,
        destination_domain: domain(),
        status: PendingOperationStatus::FirstPrepareAttempt,
        app_context: None,
        next_attempt_after: 0,
        num_retries: 0,
        mailbox: None,
    }
}

#[test]
fn queue_count_is_three() {
    assert_eq!(MESSAGE_PROCESSOR_QUEUE_COUNT, 3);
}

#[test]
fn new_processor_starts_empty() {
    let p = MessageProcessor::new(domain(), 8, Some(100), false);
    assert_eq!(p.prepare_queue().len(), 0);
    assert_eq!(p.submit_queue.len(), 0);
    assert_eq!(p.confirm_queue.len(), 0);
    assert_eq!(p.metrics, MessageProcessorMetrics::new());
    assert!(!p.lander_mode);
}

#[test]
fn receive_keeps_current_status() {
    let mut prepare = OpQueue::new();
    let mut o = op(5);
    o.status = PendingOperationStatus::Retry(ReprepareReason::ErrorSubmitting);
    receive_op(domain(), o, &mut prepare);
    assert_eq!(prepare.len(), 1);
    assert_eq!(
        prepare.entry_at(0).op.status,
        PendingOperationStatus::Retry(ReprepareReason::ErrorSubmitting)
    );
}

#[test]
fn backpressure_blocks_at_threshold_and_unblocks_below() {
    let mut submit = OpQueue::new();
    for id in 0..3u64 {
        submit.push(op(id), None);
    }
    // exactly k entries: blocked
    assert!(apply_backpressure(&submit, &Some(3)));
    // one below k: unblocked
    submit.pop_many(1, 0);
    assert!(!apply_backpressure(&submit, &Some(3)));
    // no threshold configured: never blocked
    assert!(!apply_backpressure(&submit, &None));
}

#[test]
fn get_batch_or_wait_reports_empty_queue() {
    let mut q = OpQueue::new();
    assert!(get_batch_or_wait(&mut q, 4, 0).is_none());
    q.push(op(1), None);
    let batch = get_batch_or_wait(&mut q, 4, 0).unwrap();
    assert_eq!(batch.len(), 1);
    // only ineligible entries: also a wait
    q.push(
        Operation { next_attempt_after: 1_000, ..op(2) },
        None,
    );
    assert!(get_batch_or_wait(&mut q, 4, 0).is_none());
    assert_eq!(q.len(), 1);
}

#[test]
fn process_batch_routes_every_result() {
    let mut prepare = OpQueue::new();
    let mut submit = OpQueue::new();
    let mut confirm = OpQueue::new();
    let mut metrics = MessageProcessorMetrics::new();
    let batch = vec![op(1), op(2), op(3), op(4), op(5)];
    let results = vec![
        PendingOperationResult::Success,
        PendingOperationResult::NotReady,
        PendingOperationResult::Reprepare(ReprepareReason::ErrorEstimatingGas),
        PendingOperationResult::Drop,
        PendingOperationResult::Confirm(ConfirmReason::AlreadySubmitted),
    ];
    let all_not_ready = process_batch(
        domain(),
        batch,
        &results,
        &mut prepare,
        &mut submit,
        &mut confirm,
        &mut metrics,
    );
    assert!(!all_not_ready);
    assert_eq!(submit.len(), 1);
    assert_eq!(submit.entry_at(0).op.id, 1);
    assert_eq!(submit.entry_at(0).op.status, PendingOperationStatus::ReadyToSubmit);
    assert_eq!(prepare.len(), 2);
    assert_eq!(prepare.entry_at(0).op.id, 2);
    assert_eq!(prepare.entry_at(0).op.status, PendingOperationStatus::FirstPrepareAttempt);
    assert_eq!(prepare.entry_at(1).op.id, 3);
    assert_eq!(
        prepare.entry_at(1).op.status,
        PendingOperationStatus::Retry(ReprepareReason::ErrorEstimatingGas)
    );
    assert_eq!(confirm.len(), 1);
    assert_eq!(confirm.entry_at(0).op.id, 5);
    assert_eq!(
        confirm.entry_at(0).op.status,
        PendingOperationStatus::Confirm(ConfirmReason::AlreadySubmitted)
    );
    assert_eq!(metrics.prepared, 1);
    assert_eq!(metrics.failed, 1);
    assert_eq!(metrics.dropped, 1);
    assert_eq!(metrics.submitted, 0);
    assert_eq!(metrics.confirmed, 0);
}

#[test]
fn batch_of_only_not_ready_triggers_one_backoff() {
    let mut prepare = OpQueue::new();
    let mut submit = OpQueue::new();
    let mut confirm = OpQueue::new();
    let mut metrics = MessageProcessorMetrics::new();
    let batch = vec![op(1), op(2)];
    let results = vec![PendingOperationResult::NotReady, PendingOperationResult::NotReady];
    let all_not_ready = process_batch(
        domain(),
        batch,
        &results,
        &mut prepare,
        &mut submit,
        &mut confirm,
        &mut metrics,
    );
    assert!(all_not_ready);
    assert_eq!(prepare.len(), 2);
    // a reprepare also counts as no progress
    let batch = prepare.pop_many(10, 0);
    let results = vec![
        PendingOperationResult::NotReady,
        PendingOperationResult::Reprepare(ReprepareReason::CouldNotFetchMetadata),
    ];
    assert!(process_batch(
        domain(),
        batch,
        &results,
        &mut prepare,
        &mut submit,
        &mut confirm,
        &mut metrics,
    ));
    // one success is progress
    let batch = prepare.pop_many(10, 0);
    let results = vec![PendingOperationResult::Success, PendingOperationResult::NotReady];
    assert!(!process_batch(
        domain(),
        batch,
        &results,
        &mut prepare,
        &mut submit,
        &mut confirm,
        &mut metrics,
    ));
}

#[test]
fn drop_in_prepare_leaves_no_queue_holding_it() {
    let mut prepare = OpQueue::new();
    let mut submit = OpQueue::new();
    let mut confirm = OpQueue::new();
    let mut metrics = MessageProcessorMetrics::new();
    let batch = vec![op(9)];
    let results = vec![PendingOperationResult::Drop];
    process_batch(domain(), batch, &results, &mut prepare, &mut submit, &mut confirm, &mut metrics);
    assert_eq!(metrics.dropped, 1);
    assert_eq!(metrics.confirmed, 0);
    assert_eq!(prepare.len() + submit.len() + confirm.len(), 0);
}

#[test]
fn submit_reprepare_goes_back_with_its_reason() {
    let mut prepare = OpQueue::new();
    let mut confirm = OpQueue::new();
    let mut metrics = MessageProcessorMetrics::new();
    let pace = submit_single_operation(
        op(1),
        PendingOperationResult::Reprepare(ReprepareReason::ErrorEstimatingGas),
        &mut prepare,
        &mut confirm,
        &mut metrics,
        0,
    );
    assert!(!pace);
    assert_eq!(prepare.len(), 1);
    assert_eq!(
        prepare.entry_at(0).op.status,
        PendingOperationStatus::Retry(ReprepareReason::ErrorEstimatingGas)
    );
    assert_eq!(confirm.len(), 0);
    assert_eq!(metrics.submitted, 0);
}

#[test]
fn submit_not_ready_is_treated_as_submission_error() {
    let mut prepare = OpQueue::new();
    let mut confirm = OpQueue::new();
    let mut metrics = MessageProcessorMetrics::new();
    submit_single_operation(
        op(1),
        PendingOperationResult::NotReady,
        &mut prepare,
        &mut confirm,
        &mut metrics,
        0,
    );
    assert_eq!(
        prepare.entry_at(0).op.status,
        PendingOperationStatus::Retry(ReprepareReason::ErrorSubmitting)
    );
}

#[test]
fn submit_drop_touches_nothing() {
    let mut prepare = OpQueue::new();
    let mut confirm = OpQueue::new();
    let mut metrics = MessageProcessorMetrics::new();
    submit_single_operation(
        op(1),
        PendingOperationResult::Drop,
        &mut prepare,
        &mut confirm,
        &mut metrics,
        0,
    );
    assert_eq!(prepare.len() + confirm.len(), 0);
    assert_eq!(metrics, MessageProcessorMetrics::new());
}

#[test]
fn submit_success_hands_over_to_confirmation_with_delay() {
    let mut prepare = OpQueue::new();
    let mut confirm = OpQueue::new();
    let mut metrics = MessageProcessorMetrics::new();
    let now = 42;
    let pace = submit_single_operation(
        op(1),
        PendingOperationResult::Success,
        &mut prepare,
        &mut confirm,
        &mut metrics,
        now,
    );
    assert!(!pace);
    assert_eq!(confirm.len(), 1);
    let entry = confirm.entry_at(0);
    assert_eq!(
        entry.op.status,
        PendingOperationStatus::Confirm(ConfirmReason::SubmittedBySelf)
    );
    assert_eq!(entry.op.next_attempt_after, now + CONFIRM_DELAY_MS);
    assert_eq!(metrics.submitted, 1);
}

#[test]
fn cosmos_submission_requires_pacing() {
    let mut confirm = OpQueue::new();
    let mut metrics = MessageProcessorMetrics::new();
    let cosmos = Domain { id: 2, protocol: DomainProtocol::Cosmos };
    let o = Operation { destination_domain: cosmos, ..op(1) };
    assert!(confirm_op(o, &mut confirm, &mut metrics, 0));
    let native = Domain { id: 3, protocol: DomainProtocol::CosmosNative };
    let o = Operation { destination_domain: native, ..op(2) };
    assert!(confirm_op(o, &mut confirm, &mut metrics, 0));
    assert!(!confirm_op(op(3), &mut confirm, &mut metrics, 0));
}

#[test]
fn prepare_op_records_the_attempt() {
    let mut prepare = OpQueue::new();
    let mut metrics = MessageProcessorMetrics::new();
    prepare_op(op(1), &mut prepare, &mut metrics, ReprepareReason::ErrorCreatingPayload);
    let entry = prepare.entry_at(0);
    assert_eq!(entry.op.num_retries, 1);
    assert_eq!(
        entry.op.status,
        PendingOperationStatus::Retry(ReprepareReason::ErrorCreatingPayload)
    );
    assert_eq!(metrics.failed, 1);
}

#[test]
fn send_back_defaults_to_error_submitting() {
    let mut prepare = OpQueue::new();
    let mut metrics = MessageProcessorMetrics::new();
    send_back_on_failed_submission(op(1), &mut prepare, &mut metrics, None);
    assert_eq!(
        prepare.entry_at(0).op.status,
        PendingOperationStatus::Retry(ReprepareReason::ErrorSubmitting)
    );
    assert_eq!(metrics.failed, 1);
    send_back_on_failed_submission(
        op(2),
        &mut prepare,
        &mut metrics,
        Some(ReprepareReason::ErrorRetrievingPayloadUuids),
    );
    assert_eq!(
        prepare.entry_at(1).op.status,
        PendingOperationStatus::Retry(ReprepareReason::ErrorRetrievingPayloadUuids)
    );
}

#[test]
fn confirm_success_and_drop_move_exactly_one_counter() {
    let mut prepare = OpQueue::new();
    let mut confirm = OpQueue::new();
    let mut metrics = MessageProcessorMetrics::new();
    process_confirm_result(
        op(1),
        PendingOperationResult::Success,
        &mut prepare,
        &mut confirm,
        &mut metrics,
    );
    assert_eq!((metrics.confirmed, metrics.dropped), (1, 0));
    process_confirm_result(
        op(2),
        PendingOperationResult::Drop,
        &mut prepare,
        &mut confirm,
        &mut metrics,
    );
    assert_eq!((metrics.confirmed, metrics.dropped), (1, 1));
    // terminal results leave every queue untouched
    assert_eq!(prepare.len() + confirm.len(), 0);
}

#[test]
fn confirm_routes_pending_and_failed_results() {
    let mut prepare = OpQueue::new();
    let mut confirm = OpQueue::new();
    let mut metrics = MessageProcessorMetrics::new();
    let batch = vec![op(1), op(2), op(3)];
    let results = vec![
        PendingOperationResult::NotReady,
        PendingOperationResult::Confirm(ConfirmReason::SubmittedBySelf),
        PendingOperationResult::Reprepare(ReprepareReason::ErrorSubmitting),
    ];
    let all_pending =
        process_confirm_results(batch, &results, &mut prepare, &mut confirm, &mut metrics);
    assert!(!all_pending);
    assert_eq!(confirm.len(), 2);
    assert_eq!(confirm.entry_at(0).op.id, 1);
    assert_eq!(confirm.entry_at(0).op.status, PendingOperationStatus::FirstPrepareAttempt);
    assert_eq!(
        confirm.entry_at(1).op.status,
        PendingOperationStatus::Confirm(ConfirmReason::SubmittedBySelf)
    );
    assert_eq!(prepare.len(), 1);
    assert_eq!(prepare.entry_at(0).op.id, 3);
    assert_eq!(metrics.failed, 1);
}

#[test]
fn confirm_batch_with_no_progress_asks_for_backoff() {
    let mut prepare = OpQueue::new();
    let mut confirm = OpQueue::new();
    let mut metrics = MessageProcessorMetrics::new();
    let batch = vec![op(1), op(2)];
    let results = vec![
        PendingOperationResult::NotReady,
        PendingOperationResult::Confirm(ConfirmReason::SubmittedBySelf),
    ];
    assert!(process_confirm_results(batch, &results, &mut prepare, &mut confirm, &mut metrics));
}
