//! What the relay refuses, and the words for it.
use vstd::prelude::*;

verus! {

/// Why the relay refuses an operation or a stored snapshot.
#[derive(Debug, Clone, Copy, PartialEq, Eq, Structural)]
pub enum RelayError {
    LaneGrammar,
    ContentTooLarge,
    ReplyToBlank,
    Unavailable,
    QueueFull,
    QueueByteLimit,
    SequenceExhausted,
    AfterBoundary,
    ThroughBoundary,
    SequenceBoundary,
    LatestBoundary,
    NoSequence,
    TooManySequences,
    ZeroSequence,
    DuplicateSequence,
    LedgerFull,
    LedgerByteLimit,
    ResultIdOverflow,
    ResultIdMismatch,
    RetiredTooLarge,
    RequestLane,
    RequestMessage,
    MissingMessageId,
    EventLaneNotText,
    EventLaneInvalid,
    MessageIdInvalid,
    MessageIdConflict,
    GenerationExhausted,
    RecordTooLarge,
    InboundQueueFull,
    InboundQueueByteLimit,
    InboundAckMismatch,
    TombstoneTooLarge,
    NoGateway,
    DeliveryOrder,
    ChatIdRequired,
    ContentRequired,
    NextSeqTooLow,
    NextSeqTooHigh,
    InvalidResult,
    ResultIdTooHigh,
    DuplicateResult,
    RetiredLedgerFull,
    RetiredLedgerByteLimit,
    InvalidRetired,
    DuplicateRetired,
    ActiveAndRetired,
    RequestLedgerFull,
    GenerationTooHigh,
    TombstoneLedgerFull,
    TombstoneLedgerByteLimit,
    InvalidInboundIdentity,
    FrameIdentity,
    InvalidTombstone,
}

impl RelayError {
    /// The refusal in words. What made durable state uncertain is not in them:
    /// the relay keeps it, and adds it for a caller.
    pub open spec fn words(self) -> Seq<char> {
        match self {
            RelayError::LaneGrammar => "lane_id must match the lane ID grammar"@,
            RelayError::ContentTooLarge => "delivery content exceeds 512 KiB UTF-8 limit"@,
            RelayError::ReplyToBlank => "reply_to must not be blank"@,
            RelayError::Unavailable => "relay durable state is unavailable after an uncertain commit"@,
            RelayError::QueueFull => "durable queue full"@,
            RelayError::QueueByteLimit => "durable queue byte limit reached"@,
            RelayError::SequenceExhausted => "delivery sequence limit reached; start a new durable relay snapshot"@,
            RelayError::AfterBoundary => "after exceeds the maximum safe delivery sequence"@,
            RelayError::ThroughBoundary => "through_seq exceeds the maximum safe delivery sequence"@,
            RelayError::SequenceBoundary => "sequence exceeds the maximum safe delivery sequence"@,
            RelayError::LatestBoundary => "latest exceeds the maximum safe delivery sequence"@,
            RelayError::NoSequence => "at least one delivery sequence is required"@,
            RelayError::TooManySequences => "too many delivery sequences"@,
            RelayError::ZeroSequence => "delivery sequence must be non-zero"@,
            RelayError::DuplicateSequence => "delivery sequences must be distinct"@,
            RelayError::LedgerFull => "durable request ledger full"@,
            RelayError::LedgerByteLimit => "durable request ledger byte limit reached"@,
            RelayError::ResultIdOverflow => "outbound result ID overflow"@,
            RelayError::ResultIdMismatch => "resultId does not match outstanding request"@,
            RelayError::RetiredTooLarge => "retired outbound result exceeds durable tombstone byte limit"@,
            RelayError::RequestLane => "pending request contains an invalid lane id"@,
            RelayError::RequestMessage => "pending request contains an invalid message id"@,
            RelayError::MissingMessageId => "inbound event missing message_id"@,
            RelayError::EventLaneNotText => "inbound event lane id must be a string"@,
            RelayError::EventLaneInvalid => "inbound event contains an invalid lane id"@,
            RelayError::MessageIdInvalid => "inbound message_id is empty or exceeds maximum length"@,
            RelayError::MessageIdConflict => "message_id is already queued with different event content"@,
            RelayError::GenerationExhausted => "inbound generation limit reached"@,
            RelayError::RecordTooLarge => "inbound durable record exceeds its serialized size limit"@,
            RelayError::InboundQueueFull => "inbound relay queue is full"@,
            RelayError::InboundQueueByteLimit => "inbound relay queue byte limit reached"@,
            RelayError::InboundAckMismatch => "inbound acknowledgement does not match a pending message"@,
            RelayError::TombstoneTooLarge => "inbound acknowledgement tombstone exceeds byte limit"@,
            RelayError::NoGateway => "no gateway connected"@,
            RelayError::DeliveryOrder => "delivery sequences must be strictly increasing and non-zero"@,
            RelayError::ChatIdRequired => "chat_id is required"@,
            RelayError::ContentRequired => "content is required"@,
            RelayError::NextSeqTooLow => "next_seq is below the highest persisted delivery sequence"@,
            RelayError::NextSeqTooHigh => "next_seq exceeds the JSON exact-integer range"@,
            RelayError::InvalidResult => "invalid outbound request-result record"@,
            RelayError::ResultIdTooHigh => "outbound result ID exceeds JSON exact-integer range"@,
            RelayError::DuplicateResult => "duplicate outbound request-result record"@,
            RelayError::RetiredLedgerFull => "retired outbound request ledger full"@,
            RelayError::RetiredLedgerByteLimit => "retired outbound request ledger byte limit reached"@,
            RelayError::InvalidRetired => "invalid retired outbound request-result record"@,
            RelayError::DuplicateRetired => "duplicate retired outbound request-result record"@,
            RelayError::ActiveAndRetired => "outbound request-result record is both active and retired"@,
            RelayError::RequestLedgerFull => "pending request ledger full"@,
            RelayError::GenerationTooHigh => "inbound generation exceeds JSON exact-integer range"@,
            RelayError::TombstoneLedgerFull => "inbound acknowledgement ledger full"@,
            RelayError::TombstoneLedgerByteLimit => "inbound acknowledgement ledger byte limit reached"@,
            RelayError::InvalidInboundIdentity => "invalid inbound message identity"@,
            RelayError::FrameIdentity => "inbound frame identity does not match durable record"@,
            RelayError::InvalidTombstone => "invalid inbound acknowledgement tombstone"@,
        }
    }

    /// The refusal in words.
    pub fn message(&self) -> (r: String)
        ensures
            r@ == self.words(),
    {
        match self {
            RelayError::LaneGrammar => "lane_id must match the lane ID grammar".to_string(),
            RelayError::ContentTooLarge => "delivery content exceeds 512 KiB UTF-8 limit".to_string(),
            RelayError::ReplyToBlank => "reply_to must not be blank".to_string(),
            RelayError::Unavailable => "relay durable state is unavailable after an uncertain commit".to_string(),
            RelayError::QueueFull => "durable queue full".to_string(),
            RelayError::QueueByteLimit => "durable queue byte limit reached".to_string(),
            RelayError::SequenceExhausted => "delivery sequence limit reached; start a new durable relay snapshot".to_string(),
            RelayError::AfterBoundary => "after exceeds the maximum safe delivery sequence".to_string(),
            RelayError::ThroughBoundary => "through_seq exceeds the maximum safe delivery sequence".to_string(),
            RelayError::SequenceBoundary => "sequence exceeds the maximum safe delivery sequence".to_string(),
            RelayError::LatestBoundary => "latest exceeds the maximum safe delivery sequence".to_string(),
            RelayError::NoSequence => "at least one delivery sequence is required".to_string(),
            RelayError::TooManySequences => "too many delivery sequences".to_string(),
            RelayError::ZeroSequence => "delivery sequence must be non-zero".to_string(),
            RelayError::DuplicateSequence => "delivery sequences must be distinct".to_string(),
            RelayError::LedgerFull => "durable request ledger full".to_string(),
            RelayError::LedgerByteLimit => "durable request ledger byte limit reached".to_string(),
            RelayError::ResultIdOverflow => "outbound result ID overflow".to_string(),
            RelayError::ResultIdMismatch => "resultId does not match outstanding request".to_string(),
            RelayError::RetiredTooLarge => "retired outbound result exceeds durable tombstone byte limit".to_string(),
            RelayError::RequestLane => "pending request contains an invalid lane id".to_string(),
            RelayError::RequestMessage => "pending request contains an invalid message id".to_string(),
            RelayError::MissingMessageId => "inbound event missing message_id".to_string(),
            RelayError::EventLaneNotText => "inbound event lane id must be a string".to_string(),
            RelayError::EventLaneInvalid => "inbound event contains an invalid lane id".to_string(),
            RelayError::MessageIdInvalid => "inbound message_id is empty or exceeds maximum length".to_string(),
            RelayError::MessageIdConflict => "message_id is already queued with different event content".to_string(),
            RelayError::GenerationExhausted => "inbound generation limit reached".to_string(),
            RelayError::RecordTooLarge => "inbound durable record exceeds its serialized size limit".to_string(),
            RelayError::InboundQueueFull => "inbound relay queue is full".to_string(),
            RelayError::InboundQueueByteLimit => "inbound relay queue byte limit reached".to_string(),
            RelayError::InboundAckMismatch => "inbound acknowledgement does not match a pending message".to_string(),
            RelayError::TombstoneTooLarge => "inbound acknowledgement tombstone exceeds byte limit".to_string(),
            RelayError::NoGateway => "no gateway connected".to_string(),
            RelayError::DeliveryOrder => "delivery sequences must be strictly increasing and non-zero".to_string(),
            RelayError::ChatIdRequired => "chat_id is required".to_string(),
            RelayError::ContentRequired => "content is required".to_string(),
            RelayError::NextSeqTooLow => "next_seq is below the highest persisted delivery sequence".to_string(),
            RelayError::NextSeqTooHigh => "next_seq exceeds the JSON exact-integer range".to_string(),
            RelayError::InvalidResult => "invalid outbound request-result record".to_string(),
            RelayError::ResultIdTooHigh => "outbound result ID exceeds JSON exact-integer range".to_string(),
            RelayError::DuplicateResult => "duplicate outbound request-result record".to_string(),
            RelayError::RetiredLedgerFull => "retired outbound request ledger full".to_string(),
            RelayError::RetiredLedgerByteLimit => "retired outbound request ledger byte limit reached".to_string(),
            RelayError::InvalidRetired => "invalid retired outbound request-result record".to_string(),
            RelayError::DuplicateRetired => "duplicate retired outbound request-result record".to_string(),
            RelayError::ActiveAndRetired => "outbound request-result record is both active and retired".to_string(),
            RelayError::RequestLedgerFull => "pending request ledger full".to_string(),
            RelayError::GenerationTooHigh => "inbound generation exceeds JSON exact-integer range".to_string(),
            RelayError::TombstoneLedgerFull => "inbound acknowledgement ledger full".to_string(),
            RelayError::TombstoneLedgerByteLimit => "inbound acknowledgement ledger byte limit reached".to_string(),
            RelayError::InvalidInboundIdentity => "invalid inbound message identity".to_string(),
            RelayError::FrameIdentity => "inbound frame identity does not match durable record".to_string(),
            RelayError::InvalidTombstone => "invalid inbound acknowledgement tombstone".to_string(),
        }
    }
}

/// Whether the refusal is the permanent one of a record that is too large.
pub fn is_inbound_record_too_large(error: &RelayError) -> (r: bool)
    ensures
        r == (*error == RelayError::RecordTooLarge),
{
    match error {
        RelayError::RecordTooLarge => true,
        _ => false,
    }
}

} // verus!
