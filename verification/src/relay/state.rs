//! The relay's state: its queues, its ledgers, and the socket that may write.
use vstd::prelude::*;

use crate::relay::errors::RelayError;
use crate::relay::records::{
    delivery_views, inbound_views, request_views, result_views, retired_views, tombstone_views,
    Delivery, DeliveryView, InboundAckTombstone, InboundAckTombstoneView, InboundMessage,
    InboundMessageView, OutboundResult, OutboundResultView, PendingRequest, PendingRequestView,
    RetiredOutboundResult, RetiredOutboundResultView,
};
use crate::text::{opt_view, same_text};

verus! {

/// Most deliveries that wait at one time.
pub const MAX_PENDING_DELIVERIES: usize = 200;

/// Longest content of one delivery, in bytes.
pub const MAX_DELIVERY_CONTENT_BYTES: usize = 524288;

/// Most bytes of the JSON array of waiting deliveries.
pub const MAX_PENDING_DELIVERY_BYTES: usize = 8388608;

/// Most responses that wait for the gateway's confirmation.
pub const MAX_OUTBOUND_RESULTS: usize = 200;

/// Most responses of one gateway that wait for its confirmation.
pub const MAX_OUTBOUND_RESULTS_PER_GATEWAY: usize = 200;

/// Most bytes of the JSON array of waiting responses.
pub const MAX_OUTBOUND_RESULT_LEDGER_BYTES: usize = 1048576;

/// Most retired receipts that are remembered.
pub const MAX_RETIRED_OUTBOUND_RESULTS: usize = 200;

/// Most bytes of the JSON array of retired receipts.
pub const MAX_RETIRED_OUTBOUND_RESULT_BYTES: usize = 32768;

/// The format of the delivery snapshot.
pub const DELIVERY_SNAPSHOT_VERSION: u32 = 4;

/// How long a disconnected gateway keeps its responses, in milliseconds.
pub const OUTBOUND_RESULT_RETENTION_MS: u64 = 86_400_000;

/// The identity of unauthenticated development traffic.
pub const DEV_GATEWAY_ID: &'static str = "unauthenticated";

/// Longest operation name of a gateway action, in bytes.
pub const MAX_OUTBOUND_OPERATION_BYTES: usize = 256;

/// Longest request identifier of a gateway action, in bytes.
pub const MAX_OUTBOUND_REQUEST_ID_BYTES: usize = 256;

/// Longest gateway identity, in bytes.
pub const MAX_GATEWAY_ID_BYTES: usize = 256;

/// Most bytes of one inbound record.
pub const MAX_INBOUND_RECORD_BYTES: usize = 1048576;

/// Most bytes of one line from the gateway.
pub const MAX_INBOUND_LINE_BYTES: usize = 1048576;

/// Most bytes of the JSON array of waiting inbound records.
pub const MAX_INBOUND_QUEUE_BYTES: usize = 8388608;

/// The format of the inbound snapshot.
pub const INBOUND_SNAPSHOT_VERSION: u32 = 1;

/// The format of the inbound frames.
pub const INBOUND_HANDOFF_VERSION: u32 = 2;

/// Most acknowledged inbound turns that are remembered.
pub const MAX_INBOUND_TOMBSTONES: usize = 200;

/// Most bytes of the JSON array of acknowledged inbound turns.
pub const MAX_INBOUND_TOMBSTONE_BYTES: usize = 32768;

/// Most requests whose reply is awaited.
pub const MAX_PENDING_REQUESTS: usize = 200;

/// The live socket that may write inbound turns.
#[derive(Debug)]
pub struct ActiveConnection {
    pub id: u64,
    pub gateway_id: String,
}

/// Which sockets have come and which one writes.
#[derive(Debug)]
pub struct ConnectionState {
    pub next_id: u64,
    /// The newest connection that finished its handshake.
    pub latest_id: u64,
    pub outbound: Option<ActiveConnection>,
}

/// A connection as a value.
pub struct ActiveConnectionView {
    pub id: u64,
    pub gateway_id: Seq<char>,
}

/// The connections as a value.
#[verifier::ext_equal]
pub struct ConnectionsView {
    pub next_id: u64,
    pub latest_id: u64,
    pub outbound: Option<ActiveConnectionView>,
}

impl View for ConnectionState {
    type V = ConnectionsView;

    open spec fn view(&self) -> ConnectionsView {
        ConnectionsView {
            next_id: self.next_id,
            latest_id: self.latest_id,
            outbound: match self.outbound {
                Some(c) => Some(ActiveConnectionView { id: c.id, gateway_id: c.gateway_id@ }),
                None => None,
            },
        }
    }
}

/// The relay's state.
#[derive(Debug)]
pub struct RelayState {
    /// Replies that wait for the handset, oldest first.
    pub deliveries: Vec<Delivery>,
    /// The sequence of the newest delivery ever queued.
    pub next_seq: u64,
    /// Responses that wait for the gateway's confirmation.
    pub outbound_results: Vec<OutboundResult>,
    /// The identifier of the newest response ever recorded.
    pub next_outbound_result_id: u64,
    /// Receipts that were retired, oldest first.
    pub retired_outbound_results: Vec<RetiredOutboundResult>,
    /// The latest instant that the clock has shown.
    pub clock_high_water_ms: u64,
    /// Requests whose reply is awaited, oldest first.
    pub pending_requests: Vec<PendingRequest>,
    /// Turns that wait for the gateway's acknowledgement, oldest first.
    pub inbound: Vec<InboundMessage>,
    /// The generation of the newest inbound turn ever queued.
    pub next_inbound_generation: u64,
    /// Turns that were acknowledged, oldest first.
    pub acknowledged_inbound: Vec<InboundAckTombstone>,
    pub connections: ConnectionState,
    /// Set once a write may or may not have happened; nothing is written or
    /// changed after that.
    pub persistence_failure: Option<String>,
}

/// The relay's state as a value.
#[verifier::ext_equal]
pub struct RelayView {
    pub deliveries: Seq<DeliveryView>,
    pub next_seq: u64,
    pub outbound_results: Seq<OutboundResultView>,
    pub next_outbound_result_id: u64,
    pub retired_outbound_results: Seq<RetiredOutboundResultView>,
    pub clock_high_water_ms: u64,
    pub pending_requests: Seq<PendingRequestView>,
    pub inbound: Seq<InboundMessageView>,
    pub next_inbound_generation: u64,
    pub acknowledged_inbound: Seq<InboundAckTombstoneView>,
    pub connections: ConnectionsView,
    pub persistence_failure: Option<Seq<char>>,
}

impl View for RelayState {
    type V = RelayView;

    open spec fn view(&self) -> RelayView {
        RelayView {
            deliveries: delivery_views(self.deliveries@),
            next_seq: self.next_seq,
            outbound_results: result_views(self.outbound_results@),
            next_outbound_result_id: self.next_outbound_result_id,
            retired_outbound_results: retired_views(self.retired_outbound_results@),
            clock_high_water_ms: self.clock_high_water_ms,
            pending_requests: request_views(self.pending_requests@),
            inbound: inbound_views(self.inbound@),
            next_inbound_generation: self.next_inbound_generation,
            acknowledged_inbound: tombstone_views(self.acknowledged_inbound@),
            connections: self.connections@,
            persistence_failure: opt_view(self.persistence_failure),
        }
    }
}

/// The state of a relay that has seen nothing.
pub open spec fn fresh_relay() -> RelayView {
    RelayView {
        deliveries: Seq::empty(),
        next_seq: 0,
        outbound_results: Seq::empty(),
        next_outbound_result_id: 0,
        retired_outbound_results: Seq::empty(),
        clock_high_water_ms: 0,
        pending_requests: Seq::empty(),
        inbound: Seq::empty(),
        next_inbound_generation: 0,
        acknowledged_inbound: Seq::empty(),
        connections: ConnectionsView { next_id: 0, latest_id: 0, outbound: None },
        persistence_failure: None,
    }
}

impl Default for RelayState {
    fn default() -> (r: Self)
        ensures
            r@ == fresh_relay(),
    {
        let r = RelayState {
            deliveries: Vec::new(),
            next_seq: 0,
            outbound_results: Vec::new(),
            next_outbound_result_id: 0,
            retired_outbound_results: Vec::new(),
            clock_high_water_ms: 0,
            pending_requests: Vec::new(),
            inbound: Vec::new(),
            next_inbound_generation: 0,
            acknowledged_inbound: Vec::new(),
            connections: ConnectionState { next_id: 0, latest_id: 0, outbound: None },
            persistence_failure: None,
        };
        assert(r@ =~= fresh_relay());
        r
    }
}

/// What an operation may have to undo: the durable part of the state and the
/// awaited requests.
pub struct Checkpoint {
    pub deliveries: Vec<Delivery>,
    pub next_seq: u64,
    pub outbound_results: Vec<OutboundResult>,
    pub next_outbound_result_id: u64,
    pub retired_outbound_results: Vec<RetiredOutboundResult>,
    pub clock_high_water_ms: u64,
    pub pending_requests: Vec<PendingRequest>,
    pub inbound: Vec<InboundMessage>,
    pub next_inbound_generation: u64,
    pub acknowledged_inbound: Vec<InboundAckTombstone>,
}

/// A checkpoint as a value.
#[verifier::ext_equal]
pub struct CheckpointView {
    pub deliveries: Seq<DeliveryView>,
    pub next_seq: u64,
    pub outbound_results: Seq<OutboundResultView>,
    pub next_outbound_result_id: u64,
    pub retired_outbound_results: Seq<RetiredOutboundResultView>,
    pub clock_high_water_ms: u64,
    pub pending_requests: Seq<PendingRequestView>,
    pub inbound: Seq<InboundMessageView>,
    pub next_inbound_generation: u64,
    pub acknowledged_inbound: Seq<InboundAckTombstoneView>,
}

impl View for Checkpoint {
    type V = CheckpointView;

    open spec fn view(&self) -> CheckpointView {
        CheckpointView {
            deliveries: delivery_views(self.deliveries@),
            next_seq: self.next_seq,
            outbound_results: result_views(self.outbound_results@),
            next_outbound_result_id: self.next_outbound_result_id,
            retired_outbound_results: retired_views(self.retired_outbound_results@),
            clock_high_water_ms: self.clock_high_water_ms,
            pending_requests: request_views(self.pending_requests@),
            inbound: inbound_views(self.inbound@),
            next_inbound_generation: self.next_inbound_generation,
            acknowledged_inbound: tombstone_views(self.acknowledged_inbound@),
        }
    }
}

/// The checkpoint of a state.
pub open spec fn durable(s: RelayView) -> CheckpointView {
    CheckpointView {
        deliveries: s.deliveries,
        next_seq: s.next_seq,
        outbound_results: s.outbound_results,
        next_outbound_result_id: s.next_outbound_result_id,
        retired_outbound_results: s.retired_outbound_results,
        clock_high_water_ms: s.clock_high_water_ms,
        pending_requests: s.pending_requests,
        inbound: s.inbound,
        next_inbound_generation: s.next_inbound_generation,
        acknowledged_inbound: s.acknowledged_inbound,
    }
}

/// How the attempt to write a snapshot ended.
#[derive(Debug, Clone, Copy, PartialEq, Eq, Structural)]
pub enum WriteOutcome {
    /// The new snapshot is in place, for good.
    Committed,
    /// The old snapshot is still in place.
    NotReplaced,
    /// Either may be found after a crash.
    Uncertain,
}

/// `current` with what a checkpoint holds.
pub open spec fn restored(current: RelayView, c: CheckpointView) -> RelayView {
    RelayView {
        deliveries: c.deliveries,
        next_seq: c.next_seq,
        outbound_results: c.outbound_results,
        next_outbound_result_id: c.next_outbound_result_id,
        retired_outbound_results: c.retired_outbound_results,
        clock_high_water_ms: c.clock_high_water_ms,
        pending_requests: c.pending_requests,
        inbound: c.inbound,
        next_inbound_generation: c.next_inbound_generation,
        acknowledged_inbound: c.acknowledged_inbound,
        connections: current.connections,
        persistence_failure: current.persistence_failure,
    }
}

/// `current` after an attempt to write it, begun from `before`. A write that
/// did not happen undoes the change, unless durable state was uncertain
/// already. An uncertain one keeps the durable part of the change, fences the
/// relay, and answers no request.
pub open spec fn settled(
    current: RelayView,
    before: CheckpointView,
    outcome: WriteOutcome,
    failure: Seq<char>,
) -> RelayView {
    match outcome {
        WriteOutcome::Committed => current,
        WriteOutcome::NotReplaced => if current.persistence_failure is None {
            restored(current, before)
        } else {
            current
        },
        WriteOutcome::Uncertain => if current.persistence_failure is None {
            RelayView {
                pending_requests: before.pending_requests,
                persistence_failure: Some(failure),
                ..current
            }
        } else {
            current
        },
    }
}

/// A later instant never moves the clock back.
pub open spec fn clock_after(high_water: u64, now: u64) -> u64 {
    if now > high_water {
        now
    } else {
        high_water
    }
}

/// Whether this connection is the one that writes.
pub open spec fn is_active(c: ConnectionsView, id: u64) -> bool {
    c.latest_id == id && c.outbound is Some && c.outbound->0.id == id
}

/// Whether this connection writes for this gateway.
pub open spec fn owns(c: ConnectionsView, id: u64, gateway_id: Seq<char>) -> bool {
    c.outbound is Some && c.outbound->0.id == id && c.outbound->0.gateway_id == gateway_id
}

/// The gateway of the connection that writes.
pub open spec fn active_gateway(c: ConnectionsView) -> Option<Seq<char>> {
    match c.outbound {
        Some(a) => Some(a.gateway_id),
        None => None,
    }
}

/// The connections after a handshake.
pub open spec fn begun(c: ConnectionsView) -> ConnectionsView {
    let id = (c.next_id + 1) as u64;
    ConnectionsView { next_id: id, latest_id: id, outbound: None }
}

/// Whether a connection may start to write.
pub open spec fn may_activate(c: ConnectionsView, id: u64) -> bool {
    c.latest_id == id && c.outbound is None
}

/// The connections after one starts to write.
pub open spec fn activated(c: ConnectionsView, id: u64, gateway_id: Seq<char>) -> ConnectionsView {
    ConnectionsView { outbound: Some(ActiveConnectionView { id, gateway_id }), ..c }
}

/// The connections after one stops writing.
pub open spec fn cleared(c: ConnectionsView, id: u64) -> ConnectionsView {
    if c.outbound is Some && c.outbound->0.id == id {
        ConnectionsView { outbound: None, ..c }
    } else {
        c
    }
}

/// What a caller is told of a refusal. Once durable state is uncertain, the
/// words end in the failure that made it so.
pub open spec fn refusal_words(s: RelayView, e: RelayError) -> Seq<char> {
    match s.persistence_failure {
        Some(failure) => if e == RelayError::Unavailable {
            e.words() + ": "@ + failure
        } else {
            e.words()
        },
        None => e.words(),
    }
}

impl RelayState {
    /// What a caller is told of a refusal.
    pub fn refusal_text(&self, e: RelayError) -> (r: String)
        ensures
            r@ == refusal_words(self@, e),
    {
        let mut words = e.message();
        match &self.persistence_failure {
            Some(failure) => {
                if e == RelayError::Unavailable {
                    words.append(": ");
                    words.append(failure.as_str());
                }
            },
            None => {},
        }
        words
    }

    /// Fails once durable state is uncertain.
    pub fn ensure_persistence_healthy(&self) -> (r: Result<(), RelayError>)
        ensures
            r == (if self@.persistence_failure is None {
                Ok::<(), RelayError>(())
            } else {
                Err(RelayError::Unavailable)
            }),
    {
        match &self.persistence_failure {
            Some(_) => Err(RelayError::Unavailable),
            None => Ok(()),
        }
    }

    /// The checkpoint of the present state.
    pub fn checkpoint(&self) -> (r: Checkpoint)
        ensures
            r@ == durable(self@),
    {
        let r = Checkpoint {
            deliveries: self.deliveries.clone(),
            next_seq: self.next_seq,
            outbound_results: self.outbound_results.clone(),
            next_outbound_result_id: self.next_outbound_result_id,
            retired_outbound_results: self.retired_outbound_results.clone(),
            clock_high_water_ms: self.clock_high_water_ms,
            pending_requests: self.pending_requests.clone(),
            inbound: self.inbound.clone(),
            next_inbound_generation: self.next_inbound_generation,
            acknowledged_inbound: self.acknowledged_inbound.clone(),
        };
        proof {
            assert(delivery_views(r.deliveries@) =~= self@.deliveries);
            assert(result_views(r.outbound_results@) =~= self@.outbound_results);
            assert(retired_views(r.retired_outbound_results@) =~= self@.retired_outbound_results);
            assert(request_views(r.pending_requests@) =~= self@.pending_requests);
            assert(inbound_views(r.inbound@) =~= self@.inbound);
            assert(tombstone_views(r.acknowledged_inbound@) =~= self@.acknowledged_inbound);
        }
        r
    }

    /// Fences the relay after a write that may or may not have happened. The
    /// first failure is the one that is kept.
    pub fn fail_persistence(&mut self, failure: &str)
        ensures
            final(self)@ == (if old(self)@.persistence_failure is None {
                RelayView { persistence_failure: Some(failure@), ..old(self)@ }
            } else {
                old(self)@
            }),
    {
        if self.persistence_failure.is_none() {
            self.persistence_failure = Some(failure.to_string());
        }
    }

    /// Takes in how the write of the present state ended. Says whether the
    /// change that was written stands.
    pub fn settle(&mut self, before: Checkpoint, outcome: WriteOutcome, failure: &str) -> (r: bool)
        ensures
            r == (outcome == WriteOutcome::Committed),
            final(self)@ == settled(old(self)@, before@, outcome, failure@),
    {
        match outcome {
            WriteOutcome::Committed => true,
            WriteOutcome::NotReplaced => {
                if self.persistence_failure.is_none() {
                    self.deliveries = before.deliveries;
                    self.next_seq = before.next_seq;
                    self.outbound_results = before.outbound_results;
                    self.next_outbound_result_id = before.next_outbound_result_id;
                    self.retired_outbound_results = before.retired_outbound_results;
                    self.clock_high_water_ms = before.clock_high_water_ms;
                    self.pending_requests = before.pending_requests;
                    self.inbound = before.inbound;
                    self.next_inbound_generation = before.next_inbound_generation;
                    self.acknowledged_inbound = before.acknowledged_inbound;
                }
                false
            },
            WriteOutcome::Uncertain => {
                if self.persistence_failure.is_none() {
                    self.pending_requests = before.pending_requests;
                    self.persistence_failure = Some(failure.to_string());
                }
                false
            },
        }
    }

    /// The clock that never goes back, moved on to `now_ms`.
    pub fn effective_clock_millis(&mut self, now_ms: u64) -> (r: u64)
        ensures
            r == clock_after(old(self)@.clock_high_water_ms, now_ms),
            final(self)@ == (RelayView { clock_high_water_ms: r, ..old(self)@ }),
    {
        if now_ms > self.clock_high_water_ms {
            self.clock_high_water_ms = now_ms;
        }
        self.clock_high_water_ms
    }

    /// Reserves the next generation for a socket that finished its handshake.
    /// Whoever wrote before has to stop.
    pub fn begin_connection(&mut self) -> (id: u64)
        requires
            old(self)@.connections.next_id < u64::MAX,
        ensures
            id == old(self)@.connections.next_id + 1,
            final(self)@ == (RelayView { connections: begun(old(self)@.connections), ..old(self)@ }),
    {
        self.connections.next_id = self.connections.next_id + 1;
        self.connections.latest_id = self.connections.next_id;
        self.connections.outbound = None;
        assert(self@.connections =~= begun(old(self)@.connections));
        self.connections.next_id
    }

    /// Makes a connection the one that writes, unless a newer one came.
    pub fn activate_connection(&mut self, id: u64, gateway_id: &str) -> (r: bool)
        ensures
            r == may_activate(old(self)@.connections, id),
            final(self)@ == (if r {
                RelayView {
                    connections: activated(old(self)@.connections, id, gateway_id@),
                    ..old(self)@
                }
            } else {
                old(self)@
            }),
    {
        if self.connections.latest_id != id || self.connections.outbound.is_some() {
            return false;
        }
        self.connections.outbound =
        Some(ActiveConnection { id, gateway_id: gateway_id.to_string() });
        assert(self@.connections =~= activated(old(self)@.connections, id, gateway_id@));
        true
    }

    /// Whether this connection is the one that writes.
    pub fn is_active_connection(&self, id: u64) -> (r: bool)
        ensures
            r == is_active(self@.connections, id),
    {
        match &self.connections.outbound {
            Some(c) => self.connections.latest_id == id && c.id == id,
            None => false,
        }
    }

    /// Whether this connection writes for this gateway.
    pub fn owns_gateway(&self, id: u64, gateway_id: &str) -> (r: bool)
        ensures
            r == owns(self@.connections, id, gateway_id@),
    {
        match &self.connections.outbound {
            Some(c) => c.id == id && same_text(c.gateway_id.as_str(), gateway_id),
            None => false,
        }
    }

    /// Stops a connection from writing.
    pub fn clear_outbound_if(&mut self, id: u64)
        ensures
            final(self)@ == (RelayView {
                connections: cleared(old(self)@.connections, id),
                ..old(self)@
            }),
    {
        let stop = match &self.connections.outbound {
            Some(c) => c.id == id,
            None => false,
        };
        if stop {
            self.connections.outbound = None;
        }
        assert(self@.connections =~= cleared(old(self)@.connections, id));
    }

    /// The gateway of the connection that writes.
    pub fn active_gateway_id(&self) -> (r: Option<String>)
        ensures
            opt_view(r) == active_gateway(self@.connections),
    {
        match &self.connections.outbound {
            Some(c) => Some(c.gateway_id.clone()),
            None => None,
        }
    }
}

// ---- what holds of every relay ------------------------------------------------

/// A connection that began before another never writes again: it is not
/// active, and it cannot be activated.
pub proof fn law_superseded_connection_never_writes(c: ConnectionsView, old_id: u64)
    requires
        c.next_id < u64::MAX,
        old_id <= c.next_id,
    ensures
        !is_active(begun(c), old_id),
        !may_activate(begun(c), old_id),
        forall|g: Seq<char>| !(#[trigger] owns(begun(c), old_id, g)),
{
}

/// The newest connection can be activated once, and then it alone is active.
pub proof fn law_newest_connection_writes_alone(
    c: ConnectionsView,
    gateway_id: Seq<char>,
    other: u64,
)
    requires
        c.next_id < u64::MAX,
    ensures
        ({
            let id = begun(c).latest_id;
            let a = activated(begun(c), id, gateway_id);
            &&& may_activate(begun(c), id)
            &&& is_active(a, id)
            &&& owns(a, id, gateway_id)
            &&& !may_activate(a, other)
            &&& other != id ==> !is_active(a, other)
            &&& is_active(cleared(a, other), id) == (other != id)
        }),
{
}

/// A write that did not happen leaves no trace of the change.
pub proof fn law_failed_write_changes_nothing(
    current: RelayView,
    before: RelayView,
    failure: Seq<char>,
)
    requires
        current.persistence_failure is None,
        before.persistence_failure is None,
        current.connections == before.connections,
    ensures
        settled(current, durable(before), WriteOutcome::NotReplaced, failure) == before,
{
    assert(settled(current, durable(before), WriteOutcome::NotReplaced, failure) =~= before);
}

/// An uncertain write keeps the durable change, and the fence it sets stays,
/// with the failure that came first, whatever later writes do.
pub proof fn law_uncertain_write_fences_the_relay(
    current: RelayView,
    before: CheckpointView,
    failure: Seq<char>,
    later: CheckpointView,
    outcome: WriteOutcome,
    other: Seq<char>,
)
    requires
        current.persistence_failure is None,
    ensures
        ({
            let s = settled(current, before, WriteOutcome::Uncertain, failure);
            &&& s.deliveries == current.deliveries
            &&& s.next_seq == current.next_seq
            &&& s.outbound_results == current.outbound_results
            &&& s.retired_outbound_results == current.retired_outbound_results
            &&& s.inbound == current.inbound
            &&& s.acknowledged_inbound == current.acknowledged_inbound
            &&& s.persistence_failure == Some(failure)
            &&& settled(s, later, outcome, other) == s
        }),
{
}

/// The clock never goes back.
pub proof fn law_clock_never_goes_back(high_water: u64, first: u64, second: u64)
    ensures
        clock_after(high_water, first) >= high_water,
        clock_after(clock_after(high_water, first), second) >= clock_after(high_water, first),
{
}

} // verus!
