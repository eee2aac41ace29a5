//! The data model of an in-flight operation: its identity, destination,
//! scheduling state, and the result and status sums that the stage loops
//! exchange.

use vstd::prelude::*;

verus! {

/// Identifier of a payload handed to the external dispatcher.
pub type PayloadUuid = u64;

/// Addition on instants, saturating at the largest representable one.
pub open spec fn sat_add_u64(a: u64, b: u64) -> u64 {
    if a + b <= u64::MAX {
        (a + b) as u64
    } else {
        u64::MAX
    }
}

/// Chain protocol family of a destination domain.
#[derive(Clone, Copy, Debug, PartialEq, Eq, Structural)]
pub enum DomainProtocol {
    Ethereum,
    Fuel,
    Sealevel,
    Cosmos,
    Starknet,
    CosmosNative,
}

impl DomainProtocol {
    /// Cosmos-family chains need inter-transaction pacing to keep account
    /// sequence numbers monotone.
    pub open spec fn spec_is_cosmos_family(self) -> bool {
        self is Cosmos || self is CosmosNative
    }

    pub fn is_cosmos_family(self) -> (r: bool)
        ensures
            r == self.spec_is_cosmos_family(),
    {
        match self {
            DomainProtocol::Cosmos => true,
            DomainProtocol::CosmosNative => true,
            _ => false,
        }
    }
}

/// A destination chain: its domain identifier and protocol family.
#[derive(Clone, Copy, Debug, PartialEq, Eq, Structural)]
pub struct Domain {
    pub id: u32,
    pub protocol: DomainProtocol,
}

/// Why an operation is sent back to the prepare queue.
#[derive(Clone, Copy, Debug, PartialEq, Eq, Structural)]
pub enum ReprepareReason {
    CouldNotFetchMetadata,
    ErrorEstimatingGas,
    ErrorCreatingPayload,
    ErrorCreatingPayloadSuccessCriteria,
    ErrorSubmitting,
    ErrorStoringPayloadUuidsByMessageId,
    ErrorRetrievingPayloadUuids,
    ErrorRetrievingPayloadStatus,
}

/// Why an operation sits in the confirm queue.
#[derive(Clone, Copy, Debug, PartialEq, Eq, Structural)]
pub enum ConfirmReason {
    SubmittedBySelf,
    AlreadySubmitted,
}

/// Status stamped onto an operation when it is enqueued.
#[derive(Clone, Copy, Debug, PartialEq, Eq, Structural)]
pub enum PendingOperationStatus {
    FirstPrepareAttempt,
    Retry(ReprepareReason),
    ReadyToSubmit,
    Confirm(ConfirmReason),
}

/// Outcome of asking an operation to prepare, submit or confirm itself.
#[derive(Clone, Copy, Debug, PartialEq, Eq, Structural)]
pub enum PendingOperationResult {
    Success,
    NotReady,
    Reprepare(ReprepareReason),
    Confirm(ConfirmReason),
    Drop,
}

/// One message plus its in-flight scheduling state.
///
/// The chain-facing capabilities of an operation (prepare, submit, confirm,
/// payload construction) are performed by the surrounding runtime; the
/// scheduler routes on the results it is handed.
#[derive(Clone, Copy, Debug, PartialEq, Eq, Structural)]
pub struct Operation {
    /// Stable message identifier.
    pub id: u64,
    /// The chain this processor serves; invariant across the lifecycle.
    pub destination_domain: Domain,
    /// Latest status, stamped on enqueue.
    pub status: PendingOperationStatus,
    /// Optional label used for metric partitioning.
    pub app_context: Option<u64>,
    /// Earliest instant (monotonic milliseconds) this operation may be
    /// popped for processing.
    pub next_attempt_after: u64,
    /// Monotonically non-decreasing count of retries; used for priority.
    pub num_retries: u32,
    /// Mailbox address, present on any operation that reaches lander submit.
    pub mailbox: Option<u64>,
}

impl Operation {
    /// Record a failed attempt: the retry count rises, relegating the
    /// operation behind fresher ones when it is re-enqueued.
    pub fn on_reprepare(&mut self)
        requires
            old(self).num_retries < u32::MAX,
        ensures
            *final(self) == (Operation { num_retries: (old(self).num_retries + 1) as u32, ..*old(self) }),
    {
        self.num_retries = self.num_retries + 1;
    }

    /// Delay the next processing attempt until `now + delay_ms`, saturating
    /// at the largest representable instant.
    pub fn set_next_attempt_after(&mut self, now: u64, delay_ms: u64)
        ensures
            *final(self) == (Operation {
                next_attempt_after: sat_add_u64(now, delay_ms),
                ..*old(self)
            }),
    {
        if delay_ms <= u64::MAX - now {
            self.next_attempt_after = now + delay_ms;
        } else {
            self.next_attempt_after = u64::MAX;
        }
    }
}

/// Status of a payload as reported by the external dispatcher.
#[derive(Clone, Copy, Debug, PartialEq, Eq, Structural)]
pub enum PayloadStatus {
    Pending,
    InTransaction,
    Finalized,
    Dropped,
}

impl PayloadStatus {
    pub open spec fn spec_is_finalized(self) -> bool {
        self is Finalized
    }

    pub fn is_finalized(self) -> (r: bool)
        ensures
            r == self.spec_is_finalized(),
    {
        match self {
            PayloadStatus::Finalized => true,
            _ => false,
        }
    }
}

/// Error reported by the external dispatcher.
#[derive(Clone, Copy, Debug, PartialEq, Eq, Structural)]
pub struct LanderError;

/// Error reported by the payload-UUID store.
#[derive(Clone, Copy, Debug, PartialEq, Eq, Structural)]
pub struct StoreError;

/// Out-of-band request to make matching operations immediately eligible.
#[derive(Clone, Copy, Debug, PartialEq, Eq, Structural)]
pub enum MessageRetryRequest {
    All,
    MessageId(u64),
    DestinationDomain(u32),
}

impl MessageRetryRequest {
    pub open spec fn spec_matches(self, op: Operation) -> bool {
        match self {
            MessageRetryRequest::All => true,
            MessageRetryRequest::MessageId(id) => op.id == id,
            MessageRetryRequest::DestinationDomain(d) => op.destination_domain.id == d,
        }
    }

    pub fn matches_operation(self, op: &Operation) -> (r: bool)
        ensures
            r == self.spec_matches(*op),
    {
        match self {
            MessageRetryRequest::All => true,
            MessageRetryRequest::MessageId(id) => op.id == id,
            MessageRetryRequest::DestinationDomain(d) => op.destination_domain.id == d,
        }
    }
}

} // verus!
