//! What the relay writes to disk, what it accepts from there, and why what it
//! writes is always accepted.
use vstd::prelude::*;
use vstd::string::*;

use crate::json::{array_bytes, array_exceeds};
use crate::lanes::{has_lane, LaneRegistry, LaneView};
use crate::proto::{
    is_valid_lane_id, is_valid_opaque_id, valid_lane_id, valid_opaque_id, MAX_SAFE_SEQUENCE,
};
use crate::relay::deliveries::{valid_reply_to, validate_delivery_content, validate_reply_to};
use crate::relay::errors::RelayError;
use crate::relay::inbound::{
    event_lane_fault, identity_in, identity_of, record_too_large, validate_inbound_event_lane_id,
    validate_inbound_record_size,
};
use crate::relay::records::{
    delivery_jsons, delivery_texts, delivery_views, inbound_jsons, inbound_texts, inbound_views,
    request_views, result_jsons, result_texts, result_views, retired_jsons, retired_texts,
    retired_views, tombstone_jsons, tombstone_texts, tombstone_views, Delivery, DeliveryView,
    InboundAckTombstone, InboundAckTombstoneView, InboundMessage, InboundMessageView,
    OutboundResult, OutboundResultView, PendingRequest, PendingRequestView, RetiredOutboundResult,
    RetiredOutboundResultView,
};
use crate::relay::results::answers;
use crate::relay::state::{
    INBOUND_SNAPSHOT_VERSION, MAX_DELIVERY_CONTENT_BYTES, MAX_GATEWAY_ID_BYTES,
    MAX_INBOUND_QUEUE_BYTES, MAX_INBOUND_TOMBSTONES, MAX_INBOUND_TOMBSTONE_BYTES,
    MAX_OUTBOUND_RESULTS, MAX_OUTBOUND_RESULT_LEDGER_BYTES, MAX_PENDING_DELIVERIES,
    MAX_PENDING_DELIVERY_BYTES, MAX_PENDING_REQUESTS, MAX_RETIRED_OUTBOUND_RESULTS,
    MAX_RETIRED_OUTBOUND_RESULT_BYTES,
};
use crate::text::{blank, byte_len, decimal, decimal_text, is_blank, opt_ref, same_text, utf8_len};
use crate::value::{json_parsed, parse_json};

verus! {

/// The deliveries and the ledger of responses, as one durable unit.
#[derive(Debug)]
pub struct DeliverySnapshot {
    pub version: u32,
    pub clock_high_water_ms: u64,
    pub deliveries: Vec<Delivery>,
    pub next_seq: u64,
    pub outbound_results: Vec<OutboundResult>,
    pub next_outbound_result_id: u64,
    pub retired_outbound_results: Vec<RetiredOutboundResult>,
}

/// The waiting turns and the acknowledged ones, as one durable unit.
#[derive(Debug)]
pub struct InboundSnapshot {
    pub version: u32,
    pub next_generation: u64,
    pub messages: Vec<InboundMessage>,
    pub acknowledged: Vec<InboundAckTombstone>,
}

/// Why a snapshot is not accepted.
#[derive(Debug)]
pub enum SnapshotError {
    Relay(RelayError),
    UnknownLane(String),
    Frame(String),
    DeliveryVersion(u32),
    InboundVersion(u32),
}

/// Why a snapshot is not accepted, as a value.
pub enum SnapshotFault {
    Relay(RelayError),
    UnknownLane(Seq<char>),
    Frame(Seq<char>),
    DeliveryVersion(u32),
    InboundVersion(u32),
}

impl View for SnapshotError {
    type V = SnapshotFault;

    open spec fn view(&self) -> SnapshotFault {
        match self {
            SnapshotError::Relay(e) => SnapshotFault::Relay(*e),
            SnapshotError::UnknownLane(id) => SnapshotFault::UnknownLane(id@),
            SnapshotError::Frame(e) => SnapshotFault::Frame(e@),
            SnapshotError::DeliveryVersion(v) => SnapshotFault::DeliveryVersion(*v),
            SnapshotError::InboundVersion(v) => SnapshotFault::InboundVersion(*v),
        }
    }
}

impl SnapshotFault {
    /// The fault in words.
    pub open spec fn words(self) -> Seq<char> {
        match self {
            SnapshotFault::Relay(e) => e.words(),
            SnapshotFault::UnknownLane(id) => "unknown lane "@ + id,
            SnapshotFault::Frame(e) => "invalid inbound frame JSON: "@ + e,
            SnapshotFault::DeliveryVersion(v) => "delivery snapshot version "@ + decimal(v as nat)
                + " is unsupported; expected 4"@,
            SnapshotFault::InboundVersion(v) => "inbound snapshot version "@ + decimal(v as nat)
                + " is unsupported; expected 1"@,
        }
    }
}

impl SnapshotError {
    /// The fault in words.
    pub fn message(&self) -> (r: String)
        ensures
            r@ == self@.words(),
    {
        match self {
            SnapshotError::Relay(e) => e.message(),
            SnapshotError::UnknownLane(id) => {
                let mut s = "unknown lane ".to_string();
                s.append(id.as_str());
                s
            },
            SnapshotError::Frame(e) => {
                let mut s = "invalid inbound frame JSON: ".to_string();
                s.append(e.as_str());
                s
            },
            SnapshotError::DeliveryVersion(v) => {
                let mut s = "delivery snapshot version ".to_string();
                let d = decimal_text(*v as u128);
                s.append(d.as_str());
                s.append(" is unsupported; expected 4");
                s
            },
            SnapshotError::InboundVersion(v) => {
                let mut s = "inbound snapshot version ".to_string();
                let d = decimal_text(*v as u128);
                s.append(d.as_str());
                s.append(" is unsupported; expected 1");
                s
            },
        }
    }
}

/// Whether a check came out like this.
pub open spec fn checked(r: Result<(), SnapshotError>, fault: Option<SnapshotFault>) -> bool {
    match r {
        Ok(_) => fault is None,
        Err(e) => fault == Some(e@),
    }
}

// ---- deliveries -----------------------------------------------------------------

/// The sequence before the one at `i`, zero where it is the first.
pub open spec fn seq_before(v: Seq<DeliveryView>, i: int) -> u64 {
    if i <= 0 {
        0
    } else {
        v[i - 1].seq
    }
}

/// What is wrong with the delivery at `i`.
pub open spec fn delivery_fault(
    v: Seq<DeliveryView>,
    i: int,
    lanes: Option<Seq<LaneView>>,
) -> Option<SnapshotFault> {
    let d = v[i];
    if d.seq == 0 || d.seq > MAX_SAFE_SEQUENCE || d.seq <= seq_before(v, i) {
        Some(SnapshotFault::Relay(RelayError::DeliveryOrder))
    } else if !valid_lane_id(d.chat_id) {
        Some(SnapshotFault::Relay(RelayError::ChatIdRequired))
    } else if lanes is Some && !has_lane(lanes->0, d.chat_id) {
        Some(SnapshotFault::UnknownLane(d.chat_id))
    } else if blank(d.content) {
        Some(SnapshotFault::Relay(RelayError::ContentRequired))
    } else if utf8_len(d.content) > MAX_DELIVERY_CONTENT_BYTES {
        Some(SnapshotFault::Relay(RelayError::ContentTooLarge))
    } else if !valid_reply_to(d.reply_to) {
        Some(SnapshotFault::Relay(RelayError::ReplyToBlank))
    } else {
        None
    }
}

/// What is wrong with the first faulty delivery from `i` on.
pub open spec fn first_delivery_fault(
    v: Seq<DeliveryView>,
    i: int,
    lanes: Option<Seq<LaneView>>,
) -> Option<SnapshotFault>
    decreases v.len() - i,
{
    if i < 0 || i >= v.len() {
        None
    } else if delivery_fault(v, i, lanes) is Some {
        delivery_fault(v, i, lanes)
    } else {
        first_delivery_fault(v, i + 1, lanes)
    }
}

/// The first thing that is wrong with waiting deliveries. Where lanes are
/// given, each delivery has to be for one of them.
pub open spec fn deliveries_fault(
    v: Seq<DeliveryView>,
    next_seq: u64,
    lanes: Option<Seq<LaneView>>,
) -> Option<SnapshotFault> {
    if v.len() > MAX_PENDING_DELIVERIES {
        Some(SnapshotFault::Relay(RelayError::QueueFull))
    } else if array_bytes(delivery_jsons(v)) > MAX_PENDING_DELIVERY_BYTES {
        Some(SnapshotFault::Relay(RelayError::QueueByteLimit))
    } else if first_delivery_fault(v, 0, lanes) is Some {
        first_delivery_fault(v, 0, lanes)
    } else if next_seq < seq_before(v, v.len() as int) {
        Some(SnapshotFault::Relay(RelayError::NextSeqTooLow))
    } else if next_seq > MAX_SAFE_SEQUENCE {
        Some(SnapshotFault::Relay(RelayError::NextSeqTooHigh))
    } else {
        None
    }
}

/// Checks waiting deliveries.
pub fn validate_delivery_snapshot(
    deliveries: &Vec<Delivery>,
    next_seq: u64,
    registry: Option<&LaneRegistry>,
) -> (r: Result<(), SnapshotError>)
    ensures
        checked(
            r,
            deliveries_fault(
                delivery_views(deliveries@),
                next_seq,
                match registry {
                    Some(reg) => Some(reg@.lanes),
                    None => None,
                },
            ),
        ),
{
    let ghost lanes = match registry {
        Some(reg) => Some(reg@.lanes),
        None => None,
    };
    let ghost v = delivery_views(deliveries@);
    if deliveries.len() > MAX_PENDING_DELIVERIES {
        return Err(SnapshotError::Relay(RelayError::QueueFull));
    }
    let texts = delivery_texts(deliveries);
    if array_exceeds(&texts, MAX_PENDING_DELIVERY_BYTES) {
        return Err(SnapshotError::Relay(RelayError::QueueByteLimit));
    }
    let mut previous: u64 = 0;
    for i in 0..deliveries.len()
        invariant
            v == delivery_views(deliveries@),
            lanes == (match registry {
                Some(reg) => Some(reg@.lanes),
                None => None,
            }),
            v.len() <= MAX_PENDING_DELIVERIES,
            array_bytes(delivery_jsons(v)) <= MAX_PENDING_DELIVERY_BYTES,
            previous == seq_before(v, i as int),
            first_delivery_fault(v, 0, lanes) == first_delivery_fault(v, i as int, lanes),
    {
        let d = &deliveries[i];
        assert(d@ == v[i as int]);
        if d.seq == 0 || d.seq > MAX_SAFE_SEQUENCE || d.seq <= previous {
            return Err(SnapshotError::Relay(RelayError::DeliveryOrder));
        }
        if !is_valid_lane_id(d.chat_id.as_str()) {
            return Err(SnapshotError::Relay(RelayError::ChatIdRequired));
        }
        match registry {
            Some(reg) => {
                if !reg.knows(d.chat_id.as_str()) {
                    return Err(SnapshotError::UnknownLane(d.chat_id.clone()));
                }
            },
            None => {},
        }
        if is_blank(d.content.as_str()) {
            return Err(SnapshotError::Relay(RelayError::ContentRequired));
        }
        match validate_delivery_content(d.content.as_str()) {
            Err(e) => {
                return Err(SnapshotError::Relay(e));
            },
            Ok(_) => {},
        }
        match validate_reply_to(opt_ref(&d.reply_to)) {
            Err(e) => {
                return Err(SnapshotError::Relay(e));
            },
            Ok(_) => {},
        }
        previous = d.seq;
    }
    if next_seq < previous {
        return Err(SnapshotError::Relay(RelayError::NextSeqTooLow));
    }
    if next_seq > MAX_SAFE_SEQUENCE {
        return Err(SnapshotError::Relay(RelayError::NextSeqTooHigh));
    }
    Ok(())
}

// ---- responses ------------------------------------------------------------------

/// Whether a gateway identity may be kept.
pub open spec fn valid_gateway_id(s: Seq<char>) -> bool {
    s.len() > 0 && utf8_len(s) <= MAX_GATEWAY_ID_BYTES
}

/// Whether a gateway identity may be kept.
pub fn is_valid_gateway_id(s: &str) -> (r: bool)
    ensures
        r == valid_gateway_id(s@),
{
    !s.is_empty() && byte_len(s) <= MAX_GATEWAY_ID_BYTES
}

/// Whether a response may be kept.
pub open spec fn valid_result(
    r: OutboundResultView,
    next_id: u64,
    clock_ms: u64,
    next_seq: u64,
) -> bool {
    &&& valid_gateway_id(r.gateway_id)
    &&& valid_opaque_id(r.request_id)
    &&& 0 < r.result_id <= next_id
    &&& r.result_id <= MAX_SAFE_SEQUENCE
    &&& r.last_seen_at_ms <= clock_ms
    &&& (r.delivery_seq is Some ==> 0 < r.delivery_seq->0 <= next_seq)
}

/// Whether a trace may be kept.
pub open spec fn valid_trace(r: RetiredOutboundResultView, next_id: u64) -> bool {
    &&& valid_gateway_id(r.gateway_id)
    &&& valid_opaque_id(r.request_id)
    &&& 0 < r.result_id <= next_id
    &&& r.result_id <= MAX_SAFE_SEQUENCE
}

/// No two responses are to the same request of a gateway, or share an
/// identifier.
pub open spec fn distinct_results(v: Seq<OutboundResultView>) -> bool {
    forall|i: int, j: int|
        0 <= i < j < v.len() ==> !answers(
            #[trigger] v[j],
            (#[trigger] v[i]).gateway_id,
            v[i].request_id,
        ) && v[j].result_id != v[i].result_id
}

/// No two traces share an identifier.
pub open spec fn distinct_traces(v: Seq<RetiredOutboundResultView>) -> bool {
    forall|i: int, j: int|
        0 <= i < j < v.len() ==> (#[trigger] v[j]).result_id != (#[trigger] v[i]).result_id
}

/// No response of a gateway is also among its traces.
pub open spec fn apart(
    results: Seq<OutboundResultView>,
    traces: Seq<RetiredOutboundResultView>,
) -> bool {
    forall|i: int, j: int|
        0 <= i < results.len() && 0 <= j < traces.len() ==> !((#[trigger] traces[j]).gateway_id == (
        #[trigger] results[i]).gateway_id && traces[j].result_id == results[i].result_id)
}

/// The first thing that is wrong with a ledger of responses.
pub open spec fn ledger_fault(
    results: Seq<OutboundResultView>,
    traces: Seq<RetiredOutboundResultView>,
    next_id: u64,
    clock_ms: u64,
    next_seq: u64,
) -> Option<SnapshotFault> {
    if results.len() > MAX_OUTBOUND_RESULTS {
        Some(SnapshotFault::Relay(RelayError::LedgerFull))
    } else if array_bytes(result_jsons(results)) > MAX_OUTBOUND_RESULT_LEDGER_BYTES {
        Some(SnapshotFault::Relay(RelayError::LedgerByteLimit))
    } else if !(forall|i: int|
        0 <= i < results.len() ==> valid_result(
            #[trigger] results[i],
            next_id,
            clock_ms,
            next_seq,
        )) {
        Some(SnapshotFault::Relay(RelayError::InvalidResult))
    } else if next_id > MAX_SAFE_SEQUENCE {
        Some(SnapshotFault::Relay(RelayError::ResultIdTooHigh))
    } else if !distinct_results(results) {
        Some(SnapshotFault::Relay(RelayError::DuplicateResult))
    } else if traces.len() > MAX_RETIRED_OUTBOUND_RESULTS {
        Some(SnapshotFault::Relay(RelayError::RetiredLedgerFull))
    } else if array_bytes(retired_jsons(traces)) > MAX_RETIRED_OUTBOUND_RESULT_BYTES {
        Some(SnapshotFault::Relay(RelayError::RetiredLedgerByteLimit))
    } else if !(forall|i: int|
        0 <= i < traces.len() ==> valid_trace(#[trigger] traces[i], next_id)) {
        Some(SnapshotFault::Relay(RelayError::InvalidRetired))
    } else if !distinct_traces(traces) {
        Some(SnapshotFault::Relay(RelayError::DuplicateRetired))
    } else if !apart(results, traces) {
        Some(SnapshotFault::Relay(RelayError::ActiveAndRetired))
    } else {
        None
    }
}

/// A ledger within its limit holds no gateway over its own limit.
pub proof fn law_gateway_share_is_bounded(results: Seq<OutboundResultView>, gateway_id: Seq<char>)
    requires
        results.len() <= MAX_OUTBOUND_RESULTS,
    ensures
        results.filter(crate::relay::results::of_gateway(gateway_id)).len()
            <= crate::relay::state::MAX_OUTBOUND_RESULTS_PER_GATEWAY,
{
    lemma_filter_len(results, crate::relay::results::of_gateway(gateway_id));
}

/// A selection is no longer than what it is from.
pub proof fn lemma_filter_len<A>(s: Seq<A>, p: spec_fn(A) -> bool)
    ensures
        s.filter(p).len() <= s.len(),
    decreases s.len(),
{
    reveal(Seq::filter);
    if s.len() > 0 {
        lemma_filter_len(s.drop_last(), p);
    }
}

fn results_are_valid(v: &Vec<OutboundResult>, next_id: u64, clock_ms: u64, next_seq: u64) -> (r:
    bool)
    ensures
        r == (forall|i: int|
            0 <= i < v@.len() ==> valid_result(
                #[trigger] result_views(v@)[i],
                next_id,
                clock_ms,
                next_seq,
            )),
{
    let ghost all = result_views(v@);
    for i in 0..v.len()
        invariant
            all == result_views(v@),
            forall|k: int|
                0 <= k < i ==> valid_result(#[trigger] all[k], next_id, clock_ms, next_seq),
    {
        let e = &v[i];
        assert(e@ == all[i as int]);
        let seq_ok = match e.delivery_seq {
            Some(seq) => seq != 0 && seq <= next_seq,
            None => true,
        };
        if !(is_valid_gateway_id(e.gateway_id.as_str()) && is_valid_opaque_id(
            e.request_id.as_str(),
        ) && e.result_id != 0 && e.result_id <= next_id && e.result_id <= MAX_SAFE_SEQUENCE
            && e.last_seen_at_ms <= clock_ms && seq_ok) {
            assert(!valid_result(all[i as int], next_id, clock_ms, next_seq));
            return false;
        }
    }
    true
}

fn traces_are_valid(v: &Vec<RetiredOutboundResult>, next_id: u64) -> (r: bool)
    ensures
        r == (forall|i: int|
            0 <= i < v@.len() ==> valid_trace(#[trigger] retired_views(v@)[i], next_id)),
{
    let ghost all = retired_views(v@);
    for i in 0..v.len()
        invariant
            all == retired_views(v@),
            forall|k: int| 0 <= k < i ==> valid_trace(#[trigger] all[k], next_id),
    {
        let e = &v[i];
        assert(e@ == all[i as int]);
        if !(is_valid_gateway_id(e.gateway_id.as_str()) && is_valid_opaque_id(
            e.request_id.as_str(),
        ) && e.result_id != 0 && e.result_id <= next_id && e.result_id <= MAX_SAFE_SEQUENCE) {
            assert(!valid_trace(all[i as int], next_id));
            return false;
        }
    }
    true
}

fn results_are_distinct(v: &Vec<OutboundResult>) -> (r: bool)
    ensures
        r == distinct_results(result_views(v@)),
{
    let ghost all = result_views(v@);
    for j in 0..v.len()
        invariant
            all == result_views(v@),
            forall|a: int, b: int|
                0 <= a < b < j ==> !answers(
                    #[trigger] all[b],
                    (#[trigger] all[a]).gateway_id,
                    all[a].request_id,
                ) && all[b].result_id != all[a].result_id,
    {
        for i in 0..j
            invariant
                all == result_views(v@),
                j < v@.len(),
                forall|a: int|
                    0 <= a < i ==> !answers(
                        all[j as int],
                        (#[trigger] all[a]).gateway_id,
                        all[a].request_id,
                    ) && all[j as int].result_id != all[a].result_id,
        {
            assert(all[i as int] == v@[i as int]@);
            assert(all[j as int] == v@[j as int]@);
            if (same_text(v[j].gateway_id.as_str(), v[i].gateway_id.as_str()) && same_text(
                v[j].request_id.as_str(),
                v[i].request_id.as_str(),
            )) || v[j].result_id == v[i].result_id {
                return false;
            }
        }
    }
    true
}

fn traces_are_distinct(v: &Vec<RetiredOutboundResult>) -> (r: bool)
    ensures
        r == distinct_traces(retired_views(v@)),
{
    let ghost all = retired_views(v@);
    for j in 0..v.len()
        invariant
            all == retired_views(v@),
            forall|a: int, b: int|
                0 <= a < b < j ==> (#[trigger] all[b]).result_id != (#[trigger] all[a]).result_id,
    {
        for i in 0..j
            invariant
                all == retired_views(v@),
                j < v@.len(),
                forall|a: int|
                    0 <= a < i ==> all[j as int].result_id != (#[trigger] all[a]).result_id,
        {
            assert(all[i as int] == v@[i as int]@);
            assert(all[j as int] == v@[j as int]@);
            if v[j].result_id == v[i].result_id {
                return false;
            }
        }
    }
    true
}

fn ledgers_are_apart(results: &Vec<OutboundResult>, traces: &Vec<RetiredOutboundResult>) -> (r: bool)
    ensures
        r == apart(result_views(results@), retired_views(traces@)),
{
    let ghost a = result_views(results@);
    let ghost b = retired_views(traces@);
    for i in 0..results.len()
        invariant
            a == result_views(results@),
            b == retired_views(traces@),
            forall|k: int, j: int|
                0 <= k < i && 0 <= j < b.len() ==> !((#[trigger] b[j]).gateway_id == (
                #[trigger] a[k]).gateway_id && b[j].result_id == a[k].result_id),
    {
        for j in 0..traces.len()
            invariant
                a == result_views(results@),
                b == retired_views(traces@),
                i < results@.len(),
                forall|k: int|
                    0 <= k < j ==> !((#[trigger] b[k]).gateway_id == a[i as int].gateway_id
                        && b[k].result_id == a[i as int].result_id),
        {
            assert(a[i as int] == results@[i as int]@);
            assert(b[j as int] == traces@[j as int]@);
            if same_text(traces[j].gateway_id.as_str(), results[i].gateway_id.as_str())
                && traces[j].result_id == results[i].result_id {
                return false;
            }
        }
    }
    true
}

/// Checks a ledger of responses.
pub fn validate_outbound_result_snapshot(
    results: &Vec<OutboundResult>,
    retired_results: &Vec<RetiredOutboundResult>,
    next_outbound_result_id: u64,
    clock_high_water_ms: u64,
    next_seq: u64,
) -> (r: Result<(), SnapshotError>)
    ensures
        checked(
            r,
            ledger_fault(
                result_views(results@),
                retired_views(retired_results@),
                next_outbound_result_id,
                clock_high_water_ms,
                next_seq,
            ),
        ),
{
    if results.len() > MAX_OUTBOUND_RESULTS {
        return Err(SnapshotError::Relay(RelayError::LedgerFull));
    }
    let texts = result_texts(results);
    if array_exceeds(&texts, MAX_OUTBOUND_RESULT_LEDGER_BYTES) {
        return Err(SnapshotError::Relay(RelayError::LedgerByteLimit));
    }
    if !results_are_valid(results, next_outbound_result_id, clock_high_water_ms, next_seq) {
        return Err(SnapshotError::Relay(RelayError::InvalidResult));
    }
    if next_outbound_result_id > MAX_SAFE_SEQUENCE {
        return Err(SnapshotError::Relay(RelayError::ResultIdTooHigh));
    }
    if !results_are_distinct(results) {
        return Err(SnapshotError::Relay(RelayError::DuplicateResult));
    }
    if retired_results.len() > MAX_RETIRED_OUTBOUND_RESULTS {
        return Err(SnapshotError::Relay(RelayError::RetiredLedgerFull));
    }
    let texts = retired_texts(retired_results);
    if array_exceeds(&texts, MAX_RETIRED_OUTBOUND_RESULT_BYTES) {
        return Err(SnapshotError::Relay(RelayError::RetiredLedgerByteLimit));
    }
    if !traces_are_valid(retired_results, next_outbound_result_id) {
        return Err(SnapshotError::Relay(RelayError::InvalidRetired));
    }
    if !traces_are_distinct(retired_results) {
        return Err(SnapshotError::Relay(RelayError::DuplicateRetired));
    }
    if !ledgers_are_apart(results, retired_results) {
        return Err(SnapshotError::Relay(RelayError::ActiveAndRetired));
    }
    Ok(())
}

// ---- awaited requests -----------------------------------------------------------

/// The first thing that is wrong with awaited requests.
pub open spec fn requests_fault(v: Seq<PendingRequestView>) -> Option<SnapshotFault> {
    if v.len() > MAX_PENDING_REQUESTS {
        Some(SnapshotFault::Relay(RelayError::RequestLedgerFull))
    } else if !(forall|i: int| 0 <= i < v.len() ==> valid_lane_id((#[trigger] v[i]).lane_id)) {
        Some(SnapshotFault::Relay(RelayError::RequestLane))
    } else if !(forall|i: int| 0 <= i < v.len() ==> valid_opaque_id((#[trigger] v[i]).message_id)) {
        Some(SnapshotFault::Relay(RelayError::RequestMessage))
    } else {
        None
    }
}

/// Checks awaited requests.
pub fn validate_pending_requests(requests: &Vec<PendingRequest>) -> (r: Result<(), SnapshotError>)
    ensures
        checked(r, requests_fault(request_views(requests@))),
{
    let ghost v = request_views(requests@);
    if requests.len() > MAX_PENDING_REQUESTS {
        return Err(SnapshotError::Relay(RelayError::RequestLedgerFull));
    }
    for i in 0..requests.len()
        invariant
            v == request_views(requests@),
            v.len() <= MAX_PENDING_REQUESTS,
            forall|k: int| 0 <= k < i ==> valid_lane_id((#[trigger] v[k]).lane_id),
    {
        assert(v[i as int] == requests@[i as int]@);
        if !is_valid_lane_id(requests[i].lane_id.as_str()) {
            assert(!valid_lane_id(v[i as int].lane_id));
            return Err(SnapshotError::Relay(RelayError::RequestLane));
        }
    }
    for i in 0..requests.len()
        invariant
            v == request_views(requests@),
            v.len() <= MAX_PENDING_REQUESTS,
            forall|k: int| 0 <= k < v.len() ==> valid_lane_id((#[trigger] v[k]).lane_id),
            forall|k: int| 0 <= k < i ==> valid_opaque_id((#[trigger] v[k]).message_id),
    {
        assert(v[i as int] == requests@[i as int]@);
        if !is_valid_opaque_id(requests[i].message_id.as_str()) {
            assert(!valid_opaque_id(v[i as int].message_id));
            return Err(SnapshotError::Relay(RelayError::RequestMessage));
        }
    }
    Ok(())
}

// ---- inbound turns --------------------------------------------------------------

/// Whether a turn's identity may be kept after the turns before it.
pub open spec fn valid_identity(v: Seq<InboundMessageView>, i: int, next_generation: u64) -> bool {
    &&& valid_opaque_id(v[i].message_id)
    &&& 0 < v[i].generation <= next_generation
    &&& forall|k: int| 0 <= k < i ==> (#[trigger] v[k]).message_id != v[i].message_id
}

/// What is wrong with the turn at `i`.
pub open spec fn turn_fault(v: Seq<InboundMessageView>, i: int, next_generation: u64) -> Option<
    SnapshotFault,
> {
    let frame = json_parsed(v[i].frame);
    if !valid_identity(v, i, next_generation) {
        Some(SnapshotFault::Relay(RelayError::InvalidInboundIdentity))
    } else if frame is Err {
        Some(SnapshotFault::Frame(frame->Err_0))
    } else if event_lane_fault(frame->Ok_0.field("event"@)) is Some {
        Some(SnapshotFault::Relay(event_lane_fault(frame->Ok_0.field("event"@))->0))
    } else if identity_of(v[i].frame) != Some((v[i].message_id, v[i].generation)) {
        Some(SnapshotFault::Relay(RelayError::FrameIdentity))
    } else if record_too_large(v[i]) {
        Some(SnapshotFault::Relay(RelayError::RecordTooLarge))
    } else {
        None
    }
}

/// What is wrong with the first faulty turn from `i` on.
pub open spec fn first_turn_fault(v: Seq<InboundMessageView>, i: int, next_generation: u64) ->
    Option<SnapshotFault>
    decreases v.len() - i,
{
    if i < 0 || i >= v.len() {
        None
    } else if turn_fault(v, i, next_generation) is Some {
        turn_fault(v, i, next_generation)
    } else {
        first_turn_fault(v, i + 1, next_generation)
    }
}

/// Whether the trace at `i` may be kept beside the turns and the traces before
/// it.
pub open spec fn valid_tombstone(
    v: Seq<InboundAckTombstoneView>,
    i: int,
    turns: Seq<InboundMessageView>,
    next_generation: u64,
) -> bool {
    &&& valid_opaque_id(v[i].message_id)
    &&& 0 < v[i].generation <= next_generation
    &&& forall|k: int| 0 <= k < i ==> #[trigger] v[k] != v[i]
    &&& forall|k: int|
        0 <= k < turns.len() ==> !((#[trigger] turns[k]).message_id == v[i].message_id
            && turns[k].generation == v[i].generation)
}

/// The first thing that is wrong with the inbound side.
pub open spec fn inbound_fault(
    version: u32,
    next_generation: u64,
    turns: Seq<InboundMessageView>,
    traces: Seq<InboundAckTombstoneView>,
) -> Option<SnapshotFault> {
    if version != INBOUND_SNAPSHOT_VERSION {
        Some(SnapshotFault::InboundVersion(version))
    } else if next_generation > MAX_SAFE_SEQUENCE {
        Some(SnapshotFault::Relay(RelayError::GenerationTooHigh))
    } else if turns.len() > MAX_PENDING_DELIVERIES {
        Some(SnapshotFault::Relay(RelayError::InboundQueueFull))
    } else if array_bytes(inbound_jsons(turns)) > MAX_INBOUND_QUEUE_BYTES {
        Some(SnapshotFault::Relay(RelayError::InboundQueueByteLimit))
    } else if traces.len() > MAX_INBOUND_TOMBSTONES {
        Some(SnapshotFault::Relay(RelayError::TombstoneLedgerFull))
    } else if array_bytes(tombstone_jsons(traces)) > MAX_INBOUND_TOMBSTONE_BYTES {
        Some(SnapshotFault::Relay(RelayError::TombstoneLedgerByteLimit))
    } else if first_turn_fault(turns, 0, next_generation) is Some {
        first_turn_fault(turns, 0, next_generation)
    } else if !(forall|i: int|
        0 <= i < traces.len() ==> #[trigger] valid_tombstone(traces, i, turns, next_generation)) {
        Some(SnapshotFault::Relay(RelayError::InvalidTombstone))
    } else {
        None
    }
}

fn identity_is_valid(v: &Vec<InboundMessage>, i: usize, next_generation: u64) -> (r: bool)
    requires
        i < v@.len(),
    ensures
        r == valid_identity(inbound_views(v@), i as int, next_generation),
{
    let ghost all = inbound_views(v@);
    let m = &v[i];
    assert(m@ == all[i as int]);
    if !is_valid_opaque_id(m.message_id.as_str()) || m.generation == 0 || m.generation
        > next_generation {
        return false;
    }
    for k in 0..i
        invariant
            all == inbound_views(v@),
            i < v@.len(),
            m@ == all[i as int],
            forall|a: int| 0 <= a < k ==> (#[trigger] all[a]).message_id != m@.message_id,
    {
        assert(all[k as int] == v@[k as int]@);
        if same_text(v[k].message_id.as_str(), m.message_id.as_str()) {
            return false;
        }
    }
    true
}

fn tombstone_is_valid(
    v: &Vec<InboundAckTombstone>,
    i: usize,
    turns: &Vec<InboundMessage>,
    next_generation: u64,
) -> (r: bool)
    requires
        i < v@.len(),
    ensures
        r == valid_tombstone(
            tombstone_views(v@),
            i as int,
            inbound_views(turns@),
            next_generation,
        ),
{
    let ghost all = tombstone_views(v@);
    let ghost others = inbound_views(turns@);
    let t = &v[i];
    assert(t@ == all[i as int]);
    if !is_valid_opaque_id(t.message_id.as_str()) || t.generation == 0 || t.generation
        > next_generation {
        return false;
    }
    for k in 0..i
        invariant
            all == tombstone_views(v@),
            i < v@.len(),
            t@ == all[i as int],
            forall|a: int| 0 <= a < k ==> #[trigger] all[a] != t@,
    {
        assert(all[k as int] == v@[k as int]@);
        if same_text(v[k].message_id.as_str(), t.message_id.as_str()) && v[k].generation
            == t.generation {
            assert(all[k as int] =~= t@);
            return false;
        }
    }
    for k in 0..turns.len()
        invariant
            others == inbound_views(turns@),
            all == tombstone_views(v@),
            i < v@.len(),
            t@ == all[i as int],
            forall|a: int|
                0 <= a < k ==> !((#[trigger] others[a]).message_id == t@.message_id
                    && others[a].generation == t@.generation),
    {
        assert(others[k as int] == turns@[k as int]@);
        if same_text(turns[k].message_id.as_str(), t.message_id.as_str()) && turns[k].generation
            == t.generation {
            return false;
        }
    }
    true
}

/// Checks the turn at `i`.
fn check_turn(v: &Vec<InboundMessage>, i: usize, next_generation: u64) -> (r: Result<
    (),
    SnapshotError,
>)
    requires
        i < v@.len(),
    ensures
        checked(r, turn_fault(inbound_views(v@), i as int, next_generation)),
{
    let ghost all = inbound_views(v@);
    let m = &v[i];
    assert(m@ == all[i as int]);
    if !identity_is_valid(v, i, next_generation) {
        return Err(SnapshotError::Relay(RelayError::InvalidInboundIdentity));
    }
    let frame = match parse_json(m.frame.as_str()) {
        Ok(frame) => frame,
        Err(e) => {
            return Err(SnapshotError::Frame(e));
        },
    };
    let lane = match frame.get("event") {
        Some(event) => validate_inbound_event_lane_id(event),
        None => Ok(()),
    };
    match lane {
        Err(e) => {
            return Err(SnapshotError::Relay(e));
        },
        Ok(_) => {},
    }
    match identity_in(&frame) {
        Some((id, generation)) => {
            if !same_text(id.as_str(), m.message_id.as_str()) || generation != m.generation {
                return Err(SnapshotError::Relay(RelayError::FrameIdentity));
            }
        },
        None => {
            return Err(SnapshotError::Relay(RelayError::FrameIdentity));
        },
    }
    match validate_inbound_record_size(m) {
        Err(e) => Err(SnapshotError::Relay(e)),
        Ok(_) => Ok(()),
    }
}

/// Checks the inbound side.
pub fn validate_inbound_snapshot(snapshot: &InboundSnapshot) -> (r: Result<(), SnapshotError>)
    ensures
        checked(
            r,
            inbound_fault(
                snapshot.version,
                snapshot.next_generation,
                inbound_views(snapshot.messages@),
                tombstone_views(snapshot.acknowledged@),
            ),
        ),
{
    let ghost turns = inbound_views(snapshot.messages@);
    let ghost traces = tombstone_views(snapshot.acknowledged@);
    let ghost n = snapshot.next_generation;
    if snapshot.version != INBOUND_SNAPSHOT_VERSION {
        return Err(SnapshotError::InboundVersion(snapshot.version));
    }
    if snapshot.next_generation > MAX_SAFE_SEQUENCE {
        return Err(SnapshotError::Relay(RelayError::GenerationTooHigh));
    }
    if snapshot.messages.len() > MAX_PENDING_DELIVERIES {
        return Err(SnapshotError::Relay(RelayError::InboundQueueFull));
    }
    let texts = inbound_texts(&snapshot.messages);
    if array_exceeds(&texts, MAX_INBOUND_QUEUE_BYTES) {
        return Err(SnapshotError::Relay(RelayError::InboundQueueByteLimit));
    }
    if snapshot.acknowledged.len() > MAX_INBOUND_TOMBSTONES {
        return Err(SnapshotError::Relay(RelayError::TombstoneLedgerFull));
    }
    let texts = tombstone_texts(&snapshot.acknowledged);
    if array_exceeds(&texts, MAX_INBOUND_TOMBSTONE_BYTES) {
        return Err(SnapshotError::Relay(RelayError::TombstoneLedgerByteLimit));
    }
    let ghost fault = inbound_fault(snapshot.version, n, turns, traces);
    assert(first_turn_fault(turns, 0, n) is Some ==> fault == first_turn_fault(turns, 0, n));
    let mut i: usize = 0;
    while i < snapshot.messages.len()
        invariant
            turns == inbound_views(snapshot.messages@),
            n == snapshot.next_generation,
            fault == inbound_fault(
                snapshot.version,
                n,
                inbound_views(snapshot.messages@),
                tombstone_views(snapshot.acknowledged@),
            ),
            first_turn_fault(turns, 0, n) is Some ==> fault == first_turn_fault(turns, 0, n),
            i <= turns.len(),
            first_turn_fault(turns, 0, n) == first_turn_fault(turns, i as int, n),
        decreases turns.len() - i,
    {
        match check_turn(&snapshot.messages, i, snapshot.next_generation) {
            Err(e) => {
                return Err(e);
            },
            Ok(_) => {},
        }
        i = i + 1;
    }
    let mut i: usize = 0;
    while i < snapshot.acknowledged.len()
        invariant
            turns == inbound_views(snapshot.messages@),
            traces == tombstone_views(snapshot.acknowledged@),
            n == snapshot.next_generation,
            fault == inbound_fault(snapshot.version, n, turns, traces),
            snapshot.version == INBOUND_SNAPSHOT_VERSION,
            n <= MAX_SAFE_SEQUENCE,
            turns.len() <= MAX_PENDING_DELIVERIES,
            array_bytes(inbound_jsons(turns)) <= MAX_INBOUND_QUEUE_BYTES,
            traces.len() <= MAX_INBOUND_TOMBSTONES,
            array_bytes(tombstone_jsons(traces)) <= MAX_INBOUND_TOMBSTONE_BYTES,
            first_turn_fault(turns, 0, n) is None,
            i <= traces.len(),
            forall|k: int| 0 <= k < i ==> #[trigger] valid_tombstone(traces, k, turns, n),
        decreases traces.len() - i,
    {
        if !tombstone_is_valid(
            &snapshot.acknowledged,
            i,
            &snapshot.messages,
            snapshot.next_generation,
        ) {
            assert(!valid_tombstone(traces, i as int, turns, n));
            return Err(SnapshotError::Relay(RelayError::InvalidTombstone));
        }
        i = i + 1;
    }
    Ok(())
}

} // verus!
