use message_processor::lander::{
    build_full_payload, confirm_already_submitted_operations, filter_status_results,
    first_payload_uuid, has_operation_been_submitted, lander_confirm_decision,
    lander_confirm_uuids, lander_submit_step, LanderConfirmDecision, LanderSubmitEvent,
    LanderSubmitState,
};
use message_processor::op::{
    ConfirmReason, Domain, DomainProtocol, LanderError, Operation, PayloadStatus,
    PendingOperationStatus, ReprepareReason, StoreError,
};
use message_processor::op_queue::OpQueue;

fn op(id: u64) -> Operation {
    Operation {
        id,
        destination_domain: Domain { id: 1, protocol: DomainProtocol::Ethereum },
        status: PendingOperationStatus::FirstPrepareAttempt,
        app_context: None,
        next_attempt_after: 0,
        num_retries: 0,
        mailbox: Some(0xAB),
    }
}

#[test]
fn submit_machine_happy_path_stores_before_confirming() {
    let s = LanderSubmitState::NeedPayload;
    let s = lander_submit_step(s, LanderSubmitEvent::PayloadBuilt);
    assert_eq!(s, LanderSubmitState::NeedSuccessCriteria);
    let s = lander_submit_step(s, LanderSubmitEvent::CriteriaBuilt);
    assert_eq!(s, LanderSubmitState::NeedSend);
    let s = lander_submit_step(s, LanderSubmitEvent::PayloadSent);
    assert_eq!(s, LanderSubmitState::NeedStore);
    let s = lander_submit_step(s, LanderSubmitEvent::MappingStored);
    assert_eq!(s, LanderSubmitState::Confirmable);
}

#[test]
fn submit_machine_maps_each_failure_to_its_reason() {
    assert_eq!(
        lander_submit_step(LanderSubmitState::NeedPayload, LanderSubmitEvent::PayloadFailed),
        LanderSubmitState::Repreparing(ReprepareReason::ErrorCreatingPayload)
    );
    assert_eq!(
        lander_submit_step(
            LanderSubmitState::NeedSuccessCriteria,
            LanderSubmitEvent::CriteriaFailed
        ),
        LanderSubmitState::Repreparing(ReprepareReason::ErrorCreatingPayloadSuccessCriteria)
    );
    assert_eq!(
        lander_submit_step(LanderSubmitState::NeedSend, LanderSubmitEvent::SendFailed),
        LanderSubmitState::Repreparing(ReprepareReason::ErrorSubmitting)
    );
    assert_eq!(
        lander_submit_step(LanderSubmitState::NeedStore, LanderSubmitEvent::StoreFailed),
        LanderSubmitState::Repreparing(ReprepareReason::ErrorStoringPayloadUuidsByMessageId)
    );
}

#[test]
fn payload_is_built_from_the_operation() {
    let o = op(77);
    let p = build_full_payload(&o, 5, vec![1, 2, 3], vec![9]);
    assert_eq!(p.uuid, 5);
    assert_eq!(p.message_id, 77);
    assert_eq!(p.data, vec![1, 2, 3]);
    assert_eq!(p.success_criteria, vec![9]);
    assert_eq!(p.mailbox, 0xAB);
}

#[test]
fn first_uuid_requires_a_non_empty_mapping() {
    assert_eq!(first_payload_uuid(&Ok(Some(vec![4, 5]))), Some(4));
    assert_eq!(first_payload_uuid(&Ok(Some(vec![]))), None);
    assert_eq!(first_payload_uuid(&Ok(None)), None);
    assert_eq!(first_payload_uuid(&Err(StoreError)), None);
}

#[test]
fn submitted_means_mapped_and_not_dropped() {
    let mapped: Result<Option<Vec<u64>>, StoreError> = Ok(Some(vec![4]));
    assert!(has_operation_been_submitted(&mapped, &Some(Ok(PayloadStatus::Finalized))));
    assert!(has_operation_been_submitted(&mapped, &Some(Ok(PayloadStatus::Pending))));
    assert!(has_operation_been_submitted(&mapped, &Some(Ok(PayloadStatus::InTransaction))));
    assert!(!has_operation_been_submitted(&mapped, &Some(Ok(PayloadStatus::Dropped))));
    assert!(!has_operation_been_submitted(&mapped, &Some(Err(LanderError))));
    assert!(!has_operation_been_submitted(&mapped, &None));
    let unmapped: Result<Option<Vec<u64>>, StoreError> = Ok(None);
    assert!(!has_operation_been_submitted(&unmapped, &Some(Ok(PayloadStatus::Finalized))));
    let empty: Result<Option<Vec<u64>>, StoreError> = Ok(Some(vec![]));
    assert!(!has_operation_been_submitted(&empty, &Some(Ok(PayloadStatus::Finalized))));
    let errored: Result<Option<Vec<u64>>, StoreError> = Err(StoreError);
    assert!(!has_operation_been_submitted(&errored, &Some(Ok(PayloadStatus::Finalized))));
}

#[test]
fn shortcut_sends_submitted_operations_to_confirm() {
    let mut confirm = OpQueue::new();
    let batch = vec![op(1), op(2), op(3)];
    let flags = vec![true, false, true];
    let kept = confirm_already_submitted_operations(batch, &flags, &mut confirm);
    assert_eq!(kept.len(), 1);
    assert_eq!(kept[0].id, 2);
    assert_eq!(kept[0].status, PendingOperationStatus::FirstPrepareAttempt);
    assert_eq!(confirm.len(), 2);
    assert_eq!(confirm.entry_at(0).op.id, 1);
    assert_eq!(
        confirm.entry_at(0).op.status,
        PendingOperationStatus::Confirm(ConfirmReason::AlreadySubmitted)
    );
    assert_eq!(confirm.entry_at(1).op.id, 3);
}

#[test]
fn filter_keeps_successful_status_fetches_in_order() {
    let results = vec![
        (1u64, Ok(PayloadStatus::Finalized)),
        (2u64, Err(LanderError)),
        (3u64, Ok(PayloadStatus::Pending)),
    ];
    let successes = filter_status_results(results);
    assert_eq!(
        successes,
        vec![(1u64, PayloadStatus::Finalized), (3u64, PayloadStatus::Pending)]
    );
    assert_eq!(filter_status_results(vec![]), vec![]);
}

#[test]
fn confirm_decision_finalized_only_when_every_payload_is() {
    let all_final = vec![
        (1u64, Ok::<PayloadStatus, LanderError>(PayloadStatus::Finalized)),
        (2u64, Ok(PayloadStatus::Finalized)),
    ];
    assert_eq!(lander_confirm_decision(&all_final), LanderConfirmDecision::Finalized);
    let one_pending = vec![
        (1u64, Ok::<PayloadStatus, LanderError>(PayloadStatus::Finalized)),
        (2u64, Ok(PayloadStatus::Pending)),
    ];
    assert_eq!(lander_confirm_decision(&one_pending), LanderConfirmDecision::NotYetFinalized);
    // an empty list has every payload finalized, vacuously
    let none: Vec<(u64, Result<PayloadStatus, LanderError>)> = vec![];
    assert_eq!(lander_confirm_decision(&none), LanderConfirmDecision::Finalized);
}

#[test]
fn confirm_decision_any_fetch_error_wins() {
    let with_error = vec![
        (1u64, Ok::<PayloadStatus, LanderError>(PayloadStatus::Finalized)),
        (2u64, Err(LanderError)),
    ];
    assert_eq!(lander_confirm_decision(&with_error), LanderConfirmDecision::RetryStatusFetch);
}

#[test]
fn confirm_uuid_gate_rejects_missing_and_empty_lookups() {
    assert_eq!(lander_confirm_uuids(Ok(Some(vec![7, 8]))), Some(vec![7, 8]));
    assert_eq!(lander_confirm_uuids(Ok(Some(vec![]))), None);
    assert_eq!(lander_confirm_uuids(Ok(None)), None);
    assert_eq!(lander_confirm_uuids(Err(StoreError)), None);
}
