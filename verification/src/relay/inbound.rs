//! The queue of voice turns for the gateway: each waits until the gateway
//! acknowledges exactly it.
use vstd::prelude::*;
use vstd::string::*;

use crate::json::{array_bytes, array_would_exceed, field_views, object_of, push_number, push_text};
use crate::proto::{
    is_valid_lane_id, is_valid_opaque_id, valid_lane_id, valid_opaque_id, MAX_SAFE_SEQUENCE,
};
use crate::relay::deliveries::latest_requests;
use crate::relay::errors::RelayError;
use crate::relay::records::{
    inbound_json, inbound_jsons, inbound_text, inbound_texts, inbound_views, tombstone_json,
    tombstone_jsons, tombstone_text, tombstone_texts, tombstone_views, InboundAckTombstone,
    InboundAckTombstoneView, InboundMessage, InboundMessageView, PendingRequestView,
};
use crate::relay::results::lemma_filter_push;
use crate::relay::state::{
    RelayState, RelayView, INBOUND_HANDOFF_VERSION, MAX_INBOUND_QUEUE_BYTES,
    MAX_INBOUND_RECORD_BYTES, MAX_INBOUND_TOMBSTONES, MAX_INBOUND_TOMBSTONE_BYTES,
    MAX_PENDING_DELIVERIES,
};
use crate::text::{byte_len, decimal, decimal_text, opt_str_view, same_text, utf8_len, views};
use crate::value::{
    field_texts, json_read, json_same, json_text, natural_value, read_json, same_json, Json,
    JsonView,
};

verus! {

/// What became of an acknowledgement.
#[derive(Debug, Clone, Copy, PartialEq, Eq, Structural)]
pub enum InboundAckResult {
    Acknowledged,
    AlreadyAcknowledged,
}

// ---- events and frames ----------------------------------------------------------

/// An utterance as the gateway takes it.
pub open spec fn event_value(
    lane_id: Seq<char>,
    lane_name: Seq<char>,
    text: Seq<char>,
    msg_seq: u64,
) -> JsonView {
    JsonView::Object(
        seq![
            ("message_id"@, JsonView::Text("tp-"@ + decimal(msg_seq as nat))),
            ("message_type"@, JsonView::Text("text"@)),
            (
                "source"@,
                JsonView::Object(
                    seq![
                        ("chat_id"@, JsonView::Text(lane_id)),
                        ("chat_name"@, JsonView::Text(lane_name)),
                        ("chat_topic"@, JsonView::Null),
                        ("chat_type"@, JsonView::Text("dm"@)),
                        ("platform"@, JsonView::Text("relay"@)),
                        ("thread_id"@, JsonView::Null),
                        ("user_id"@, JsonView::Text("telepathy-user"@)),
                        ("user_name"@, JsonView::Null),
                    ],
                ),
            ),
            ("text"@, JsonView::Text(text)),
            ("user_id"@, JsonView::Text("telepathy-user"@)),
            ("user_name"@, JsonView::Null),
        ],
    )
}

/// An utterance as the gateway takes it.
pub fn message_event(lane_id: &str, lane_name: &str, text: &str, msg_seq: u64) -> (r: Json)
    ensures
        r@ == event_value(lane_id@, lane_name@, text@, msg_seq),
{
    let mut source: Vec<(&'static str, Json)> = Vec::new();
    source.push(("chat_id", Json::string(lane_id)));
    source.push(("chat_name", Json::string(lane_name)));
    source.push(("chat_topic", Json::Null));
    source.push(("chat_type", Json::string("dm")));
    source.push(("platform", Json::string("relay")));
    source.push(("thread_id", Json::Null));
    source.push(("user_id", Json::string("telepathy-user")));
    source.push(("user_name", Json::Null));
    let ghost whole = event_value(lane_id@, lane_name@, text@, msg_seq)->Object_0;
    assert(crate::value::tree_fields(source@) =~= whole[2].1->Object_0);
    let source = Json::object(source);
    let mut id = "tp-".to_string();
    let n = decimal_text(msg_seq as u128);
    id.append(n.as_str());
    let mut fields: Vec<(&'static str, Json)> = Vec::new();
    fields.push(("message_id", Json::Text(id)));
    fields.push(("message_type", Json::string("text")));
    fields.push(("source", source));
    fields.push(("text", Json::string(text)));
    fields.push(("user_id", Json::string("telepathy-user")));
    fields.push(("user_name", Json::Null));
    assert(crate::value::tree_fields(fields@) =~= whole);
    Json::object(fields)
}

/// The frame that carries an event to the gateway.
pub open spec fn inbound_frame(message_id: Seq<char>, generation: u64, event: JsonView) -> JsonView {
    JsonView::Object(
        seq![
            ("event"@, event),
            ("generation"@, natural_value(generation)),
            ("handoffVersion"@, natural_value(INBOUND_HANDOFF_VERSION as u64)),
            ("messageId"@, JsonView::Text(message_id)),
            ("type"@, JsonView::Text("inbound"@)),
        ],
    )
}

/// The record of an event under this generation.
pub open spec fn inbound_record(message_id: Seq<char>, generation: u64, event: JsonView) ->
    InboundMessageView {
    InboundMessageView {
        message_id,
        generation,
        frame: json_text(inbound_frame(message_id, generation, event)),
    }
}

/// The record of an event under this generation.
pub fn build_inbound_message(message_id: &str, generation: u64, event: &Json) -> (r: InboundMessage)
    ensures
        r@ == inbound_record(message_id@, generation, event@),
{
    let text = event.to_text();
    let mut fields: Vec<(&'static str, String)> = Vec::new();
    fields.push(("event", text));
    let ghost first = seq![("event"@, json_text(event@))];
    assert(field_views(fields@) =~= first);
    push_number(&mut fields, "generation", generation);
    push_number(&mut fields, "handoffVersion", INBOUND_HANDOFF_VERSION as u64);
    push_text(&mut fields, "messageId", message_id);
    push_text(&mut fields, "type", "inbound");
    proof {
        let whole = inbound_frame(message_id@, generation, event@)->Object_0;
        reveal_with_fuel(field_texts, 6);
        reveal_with_fuel(json_text, 2);
        assert(field_views(fields@) =~= field_texts(whole, 5));
    }
    InboundMessage {
        message_id: message_id.to_string(),
        generation,
        frame: object_of(&fields),
    }
}

/// Bytes of the record of an event.
pub fn inbound_record_size(message_id: &str, generation: u64, event: &Json) -> (n: usize)
    ensures
        n == utf8_len(inbound_json(inbound_record(message_id@, generation, event@))),
{
    let m = build_inbound_message(message_id, generation, event);
    let t = inbound_text(&m);
    byte_len(t.as_str())
}

/// The identity in a frame: its message and generation, where it is an inbound
/// frame of the present format whose event names the same message.
pub open spec fn frame_identity(v: JsonView) -> Option<(Seq<char>, u64)> {
    let id = v.field("messageId"@).text();
    let generation = v.field("generation"@).natural();
    if v.field("type"@).text() != Some("inbound"@) || v.field("handoffVersion"@).natural() != Some(
        INBOUND_HANDOFF_VERSION as u64,
    ) || v.field("event"@).field("message_id"@).text() != id {
        None
    } else if id is Some && generation is Some {
        Some((id->0, generation->0))
    } else {
        None
    }
}

/// The identity in the text of a frame.
pub open spec fn identity_of(frame: Seq<char>) -> Option<(Seq<char>, u64)> {
    match json_read(frame) {
        Some(v) => frame_identity(v),
        None => None,
    }
}

/// The identity in a frame.
pub fn identity_in(v: &Json) -> (r: Option<(String, u64)>)
    ensures
        match r {
            Some((id, generation)) => frame_identity(v@) == Some((id@, generation)),
            None => frame_identity(v@) is None,
        },
{
    match v.text_field("type") {
        Some(t) => {
            if !same_text(t, "inbound") {
                return None;
            }
        },
        None => {
            return None;
        },
    }
    if v.natural_field("handoffVersion") != Some(INBOUND_HANDOFF_VERSION as u64) {
        return None;
    }
    match (v.text_field_in("event", "message_id"), v.text_field("messageId")) {
        (Some(a), Some(b)) => {
            if !same_text(a, b) {
                return None;
            }
            match v.natural_field("generation") {
                Some(generation) => Some((b.to_string(), generation)),
                None => None,
            }
        },
        _ => None,
    }
}

/// The identity in the text of a frame.
pub fn inbound_identity(frame: &str) -> (r: Option<(String, u64)>)
    ensures
        match r {
            Some((id, generation)) => identity_of(frame@) == Some((id@, generation)),
            None => identity_of(frame@) is None,
        },
{
    match read_json(frame) {
        Some(v) => identity_in(&v),
        None => None,
    }
}

/// What is wrong with the lane that an event names; it may name none.
pub open spec fn event_lane_fault(event: JsonView) -> Option<RelayError> {
    match event.get("source"@) {
        None => None,
        Some(source) => match source.get("chat_id"@) {
            None => None,
            Some(JsonView::Text(id)) => if valid_lane_id(id) {
                None
            } else {
                Some(RelayError::EventLaneInvalid)
            },
            Some(_) => Some(RelayError::EventLaneNotText),
        },
    }
}

/// Checks the lane that an event names.
pub fn validate_inbound_event_lane_id(event: &Json) -> (r: Result<(), RelayError>)
    ensures
        match r {
            Ok(_) => event_lane_fault(event@) is None,
            Err(e) => event_lane_fault(event@) == Some(e),
        },
{
    match event.get("source") {
        None => Ok(()),
        Some(source) => match source.get("chat_id") {
            None => Ok(()),
            Some(v) => match v {
                Json::Text(id) => if is_valid_lane_id(id.as_str()) {
                    Ok(())
                } else {
                    Err(RelayError::EventLaneInvalid)
                },
                _ => Err(RelayError::EventLaneNotText),
            },
        },
    }
}

// ---- queueing -------------------------------------------------------------------

/// Index of the first turn from `i` on with this message, the number of turns
/// where there is none.
pub open spec fn inbound_position(v: Seq<InboundMessageView>, message_id: Seq<char>, i: int) -> int
    decreases v.len() - i,
{
    if i < 0 || i >= v.len() {
        v.len() as int
    } else if v[i].message_id == message_id {
        i
    } else {
        inbound_position(v, message_id, i + 1)
    }
}

/// What the position of a turn says.
pub proof fn lemma_inbound_position(v: Seq<InboundMessageView>, message_id: Seq<char>, i: int)
    requires
        0 <= i <= v.len(),
    ensures
        i <= inbound_position(v, message_id, i) <= v.len(),
        inbound_position(v, message_id, i) < v.len() ==> v[inbound_position(
            v,
            message_id,
            i,
        )].message_id == message_id,
        forall|k: int|
            i <= k < inbound_position(v, message_id, i) ==> (#[trigger] v[k]).message_id
                != message_id,
    decreases v.len() - i,
{
    if i < v.len() {
        lemma_inbound_position(v, message_id, i + 1);
    }
}

/// Whether a turn's frame carries this event.
pub open spec fn carries(frame: Seq<char>, event: JsonView) -> bool {
    match json_read(frame) {
        Some(v) => match v.get("event"@) {
            Some(e) => json_same(e, event),
            None => false,
        },
        None => false,
    }
}

fn frame_carries(frame: &str, event: &Json) -> (r: bool)
    ensures
        r == carries(frame@, event@),
{
    match read_json(frame) {
        Some(v) => match v.get("event") {
            Some(e) => same_json(e, event),
            None => false,
        },
        None => false,
    }
}

/// Whether a record is over its limit in bytes.
pub open spec fn record_too_large(m: InboundMessageView) -> bool {
    utf8_len(inbound_json(m)) > MAX_INBOUND_RECORD_BYTES
}

/// Whether one more turn takes the queue over its limit in bytes.
pub open spec fn inbound_overflows(v: Seq<InboundMessageView>, m: InboundMessageView) -> bool {
    array_bytes(inbound_jsons(v).push(inbound_json(m))) > MAX_INBOUND_QUEUE_BYTES
}

/// Checks the size of a record.
pub fn validate_inbound_record_size(message: &InboundMessage) -> (r: Result<(), RelayError>)
    ensures
        r == (if record_too_large(message@) {
            Err::<(), RelayError>(RelayError::RecordTooLarge)
        } else {
            Ok(())
        }),
{
    let t = inbound_text(message);
    if byte_len(t.as_str()) > MAX_INBOUND_RECORD_BYTES {
        Err(RelayError::RecordTooLarge)
    } else {
        Ok(())
    }
}

/// The record of an event that is queued next.
pub open spec fn next_inbound(s: RelayView, message_id: Seq<char>, event: JsonView) ->
    InboundMessageView {
    inbound_record(message_id, (s.next_inbound_generation + 1) as u64, event)
}

/// Why an event can never be queued as it is. The queue itself is not looked at
/// but for the same message.
pub open spec fn preflight_refusal(s: RelayView, event: JsonView) -> Option<RelayError> {
    match event.field("message_id"@).text() {
        None => Some(RelayError::MissingMessageId),
        Some(id) => {
            let p = inbound_position(s.inbound, id, 0);
            if event_lane_fault(event) is Some {
                event_lane_fault(event)
            } else if !valid_opaque_id(id) {
                Some(RelayError::MessageIdInvalid)
            } else if p < s.inbound.len() {
                if carries(s.inbound[p].frame, event) {
                    None
                } else {
                    Some(RelayError::MessageIdConflict)
                }
            } else if s.next_inbound_generation >= MAX_SAFE_SEQUENCE {
                Some(RelayError::GenerationExhausted)
            } else if record_too_large(next_inbound(s, id, event)) {
                Some(RelayError::RecordTooLarge)
            } else {
                None
            }
        },
    }
}

/// What becomes of an event.
pub enum InboundVerdict {
    Refused(RelayError),
    /// It is queued already, at this index.
    Queued(int),
    /// It is queued now.
    Added,
}

/// What becomes of an event under this message.
pub open spec fn inbound_verdict(s: RelayView, message_id: Seq<char>, event: JsonView) ->
    InboundVerdict {
    let p = inbound_position(s.inbound, message_id, 0);
    let m = next_inbound(s, message_id, event);
    if s.persistence_failure is Some {
        InboundVerdict::Refused(RelayError::Unavailable)
    } else if event_lane_fault(event) is Some {
        InboundVerdict::Refused(event_lane_fault(event)->0)
    } else if !valid_opaque_id(message_id) {
        InboundVerdict::Refused(RelayError::MessageIdInvalid)
    } else if p < s.inbound.len() {
        if carries(s.inbound[p].frame, event) {
            InboundVerdict::Queued(p)
        } else {
            InboundVerdict::Refused(RelayError::MessageIdConflict)
        }
    } else if s.next_inbound_generation >= MAX_SAFE_SEQUENCE {
        InboundVerdict::Refused(RelayError::GenerationExhausted)
    } else if s.inbound.len() >= MAX_PENDING_DELIVERIES {
        InboundVerdict::Refused(RelayError::InboundQueueFull)
    } else if record_too_large(m) {
        InboundVerdict::Refused(RelayError::RecordTooLarge)
    } else if inbound_overflows(s.inbound, m) {
        InboundVerdict::Refused(RelayError::InboundQueueByteLimit)
    } else {
        InboundVerdict::Added
    }
}

/// The state with one more turn.
pub open spec fn inbound_added(s: RelayView, m: InboundMessageView) -> RelayView {
    RelayView { inbound: s.inbound.push(m), next_inbound_generation: m.generation, ..s }
}

/// What queueing an event does and returns: the turn, and whether it is new.
pub open spec fn inbound_enqueued(
    before: RelayView,
    after: RelayView,
    message_id: Seq<char>,
    event: JsonView,
    r: Result<(InboundMessage, bool), RelayError>,
) -> bool {
    match inbound_verdict(before, message_id, event) {
        InboundVerdict::Refused(e) => r == Err::<(InboundMessage, bool), RelayError>(e) && after
            == before,
        InboundVerdict::Queued(p) => r is Ok && r->Ok_0.0@ == before.inbound[p] && !r->Ok_0.1
            && after == before,
        InboundVerdict::Added => {
            let m = next_inbound(before, message_id, event);
            r is Ok && r->Ok_0.0@ == m && r->Ok_0.1 && after == inbound_added(before, m)
        },
    }
}

/// Why a turn is not pushed to the gateway.
pub open spec fn push_refusal(
    s: RelayView,
    event: JsonView,
    request_lane: Option<Seq<char>>,
) -> Option<RelayError> {
    if event.field("message_id"@).text() is None {
        Some(RelayError::MissingMessageId)
    } else if request_lane is Some && !valid_lane_id(request_lane->0) {
        Some(RelayError::RequestLane)
    } else if preflight_refusal(s, event) is Some {
        preflight_refusal(s, event)
    } else if s.connections.outbound is None {
        Some(RelayError::NoGateway)
    } else {
        match inbound_verdict(s, event.field("message_id"@).text()->0, event) {
            InboundVerdict::Refused(e) => Some(e),
            _ => None,
        }
    }
}

/// The state after a turn was pushed.
pub open spec fn pushed(
    s: RelayView,
    event: JsonView,
    request_lane: Option<Seq<char>>,
) -> RelayView {
    let id = event.field("message_id"@).text()->0;
    let queued = if inbound_verdict(s, id, event) is Added {
        inbound_added(s, next_inbound(s, id, event))
    } else {
        s
    };
    match request_lane {
        Some(lane_id) => RelayView {
            pending_requests: latest_requests(
                s.pending_requests.push(PendingRequestView { lane_id, message_id: id }),
            ),
            ..queued
        },
        None => queued,
    }
}

fn find_inbound(v: &Vec<InboundMessage>, message_id: &str) -> (p: usize)
    ensures
        p == inbound_position(inbound_views(v@), message_id@, 0),
        p <= v@.len(),
{
    let ghost all = inbound_views(v@);
    let mut i: usize = 0;
    while i < v.len()
        invariant
            all == inbound_views(v@),
            i <= v@.len(),
            inbound_position(all, message_id@, 0) == inbound_position(
                all,
                message_id@,
                i as int,
            ),
        decreases v@.len() - i,
    {
        assert(all[i as int] == v@[i as int]@);
        if same_text(v[i].message_id.as_str(), message_id) {
            return i;
        }
        i = i + 1;
    }
    i
}

impl RelayState {
    /// Checks whether an event can be queued, before anything is allocated for
    /// it.
    pub fn preflight_inbound(&self, event: &Json) -> (r: Result<(), RelayError>)
        ensures
            match r {
                Ok(_) => preflight_refusal(self@, event@) is None,
                Err(e) => preflight_refusal(self@, event@) == Some(e),
            },
    {
        let id = match event.text_field("message_id") {
            Some(id) => id,
            None => {
                return Err(RelayError::MissingMessageId);
            },
        };
        match validate_inbound_event_lane_id(event) {
            Err(e) => {
                return Err(e);
            },
            Ok(_) => {},
        }
        if !is_valid_opaque_id(id) {
            return Err(RelayError::MessageIdInvalid);
        }
        let p: usize = find_inbound(&self.inbound, id);
        if p < self.inbound.len() {
            assert(self@.inbound[p as int] == self.inbound@[p as int]@);
            if frame_carries(self.inbound[p].frame.as_str(), event) {
                return Ok(());
            }
            return Err(RelayError::MessageIdConflict);
        }
        if self.next_inbound_generation >= MAX_SAFE_SEQUENCE {
            return Err(RelayError::GenerationExhausted);
        }
        let candidate = build_inbound_message(id, self.next_inbound_generation + 1, event);
        validate_inbound_record_size(&candidate)
    }

    /// Queues an event under this message, unless it is queued already.
    pub fn enqueue_inbound(&mut self, message_id: &str, event: &Json) -> (r: Result<
        (InboundMessage, bool),
        RelayError,
    >)
        ensures
            inbound_enqueued(old(self)@, final(self)@, message_id@, event@, r),
    {
        match self.ensure_persistence_healthy() {
            Err(e) => {
                return Err(e);
            },
            Ok(_) => {},
        }
        match validate_inbound_event_lane_id(event) {
            Err(e) => {
                return Err(e);
            },
            Ok(_) => {},
        }
        if !is_valid_opaque_id(message_id) {
            return Err(RelayError::MessageIdInvalid);
        }
        let p: usize = find_inbound(&self.inbound, message_id);
        if p < self.inbound.len() {
            assert(self@.inbound[p as int] == self.inbound@[p as int]@);
            if frame_carries(self.inbound[p].frame.as_str(), event) {
                return Ok((self.inbound[p].clone(), false));
            }
            return Err(RelayError::MessageIdConflict);
        }
        if self.next_inbound_generation >= MAX_SAFE_SEQUENCE {
            return Err(RelayError::GenerationExhausted);
        }
        let generation: u64 = self.next_inbound_generation + 1;
        let candidate = build_inbound_message(message_id, generation, event);
        if self.inbound.len() >= MAX_PENDING_DELIVERIES {
            return Err(RelayError::InboundQueueFull);
        }
        match validate_inbound_record_size(&candidate) {
            Err(e) => {
                return Err(e);
            },
            Ok(_) => {},
        }
        let texts = inbound_texts(&self.inbound);
        let text = inbound_text(&candidate);
        if array_would_exceed(&texts, text.as_str(), MAX_INBOUND_QUEUE_BYTES) {
            return Err(RelayError::InboundQueueByteLimit);
        }
        let ghost m = candidate@;
        let copy = candidate.clone();
        self.inbound.push(candidate);
        self.next_inbound_generation = generation;
        assert(self@ =~= inbound_added(old(self)@, m));
        Ok((copy, true))
    }

    /// Takes an event for the connected gateway: queues it, and awaits its reply
    /// on `request_lane`. Hands back the turn, and whether it is new and so to
    /// be sent.
    pub fn push_inbound_inner(&mut self, event: &Json, request_lane: Option<&str>) -> (r: Result<
        (InboundMessage, bool),
        RelayError,
    >)
        ensures
            match r {
                Ok((m, new)) => {
                    let lane = opt_str_view(request_lane);
                    let id = event@.field("message_id"@).text()->0;
                    &&& push_refusal(old(self)@, event@, lane) is None
                    &&& final(self)@ == pushed(old(self)@, event@, lane)
                    &&& match inbound_verdict(old(self)@, id, event@) {
                        InboundVerdict::Added => new && m@ == next_inbound(old(self)@, id, event@),
                        InboundVerdict::Queued(p) => !new && m@ == old(self)@.inbound[p],
                        InboundVerdict::Refused(_) => false,
                    }
                },
                Err(e) => push_refusal(old(self)@, event@, opt_str_view(request_lane)) == Some(e)
                    && final(self)@ == old(self)@,
            },
    {
        let id = match event.text_field("message_id") {
            Some(id) => id,
            None => {
                return Err(RelayError::MissingMessageId);
            },
        };
        match request_lane {
            Some(lane_id) => {
                if !is_valid_lane_id(lane_id) {
                    return Err(RelayError::RequestLane);
                }
            },
            None => {},
        }
        match self.preflight_inbound(event) {
            Err(e) => {
                return Err(e);
            },
            Ok(_) => {},
        }
        if self.connections.outbound.is_none() {
            return Err(RelayError::NoGateway);
        }
        match self.enqueue_inbound(id, event) {
            Err(e) => Err(e),
            Ok((m, new)) => {
                match request_lane {
                    Some(lane_id) => {
                        let _ = self.register_request(lane_id, id);
                    },
                    None => {},
                }
                Ok((m, new))
            },
        }
    }

    /// Takes an event for the connected gateway.
    pub fn push_inbound(&mut self, event: &Json) -> (r: Result<(InboundMessage, bool), RelayError>)
        ensures
            match r {
                Ok((m, new)) => {
                    let id = event@.field("message_id"@).text()->0;
                    &&& push_refusal(old(self)@, event@, None) is None
                    &&& final(self)@ == pushed(old(self)@, event@, None)
                    &&& match inbound_verdict(old(self)@, id, event@) {
                        InboundVerdict::Added => new && m@ == next_inbound(old(self)@, id, event@),
                        InboundVerdict::Queued(p) => !new && m@ == old(self)@.inbound[p],
                        InboundVerdict::Refused(_) => false,
                    }
                },
                Err(e) => push_refusal(old(self)@, event@, None) == Some(e) && final(self)@ == old(
                    self,
                )@,
            },
    {
        self.push_inbound_inner(event, None)
    }

    /// Takes an event for the connected gateway and awaits its reply on a lane.
    pub fn push_inbound_with_request(&mut self, lane_id: &str, event: &Json) -> (r: Result<
        (InboundMessage, bool),
        RelayError,
    >)
        ensures
            match r {
                Ok((m, new)) => {
                    let id = event@.field("message_id"@).text()->0;
                    &&& push_refusal(old(self)@, event@, Some(lane_id@)) is None
                    &&& final(self)@ == pushed(old(self)@, event@, Some(lane_id@))
                    &&& match inbound_verdict(old(self)@, id, event@) {
                        InboundVerdict::Added => new && m@ == next_inbound(old(self)@, id, event@),
                        InboundVerdict::Queued(p) => !new && m@ == old(self)@.inbound[p],
                        InboundVerdict::Refused(_) => false,
                    }
                },
                Err(e) => push_refusal(old(self)@, event@, Some(lane_id@)) == Some(e) && final(self)@ == old(self)@,
            },
    {
        self.push_inbound_inner(event, Some(lane_id))
    }

    /// The turns that wait for the gateway, oldest first.
    pub fn pending_inbound(&self) -> (r: Vec<InboundMessage>)
        ensures
            inbound_views(r@) == self@.inbound,
    {
        let r = self.inbound.clone();
        assert(inbound_views(r@) =~= self@.inbound);
        r
    }

    /// How many turns wait for the gateway.
    pub fn pending_inbound_count(&self) -> (n: usize)
        ensures
            n == self@.inbound.len(),
    {
        self.inbound.len()
    }

    /// How many requests await their reply.
    pub fn pending_request_count(&self) -> (n: usize)
        ensures
            n == self@.pending_requests.len(),
    {
        self.pending_requests.len()
    }
}

// ---- acknowledging --------------------------------------------------------------

/// Whether a turn has this identity.
pub open spec fn has_identity(m: InboundMessageView, message_id: Seq<char>, generation: u64) -> bool {
    m.message_id == message_id && m.generation == generation
}

/// Whether a turn with this identity waits.
pub open spec fn waits(v: Seq<InboundMessageView>, message_id: Seq<char>, generation: u64) -> bool {
    exists|i: int| 0 <= i < v.len() && has_identity(#[trigger] v[i], message_id, generation)
}

/// Selects the turns with another identity.
pub open spec fn other_than(message_id: Seq<char>, generation: u64) -> spec_fn(
    InboundMessageView,
) -> bool {
    |m: InboundMessageView| !has_identity(m, message_id, generation)
}

/// The trace of an acknowledged turn.
pub open spec fn tombstone(message_id: Seq<char>, generation: u64) -> InboundAckTombstoneView {
    InboundAckTombstoneView { message_id, generation }
}

/// Whether one more trace takes the ledger over its limit in bytes.
pub open spec fn tombstones_overflow(
    v: Seq<InboundAckTombstoneView>,
    c: InboundAckTombstoneView,
) -> bool {
    array_bytes(tombstone_jsons(v).push(tombstone_json(c))) > MAX_INBOUND_TOMBSTONE_BYTES
}

/// Whether a trace fits the ledger at all.
pub open spec fn tombstone_fits(c: InboundAckTombstoneView) -> bool {
    !tombstones_overflow(Seq::empty(), c)
}

/// The newest traces that leave room for one more.
pub open spec fn room_for_tombstone(
    v: Seq<InboundAckTombstoneView>,
    c: InboundAckTombstoneView,
) -> Seq<InboundAckTombstoneView>
    decreases v.len(),
{
    if v.len() == 0 {
        v
    } else if v.len() >= MAX_INBOUND_TOMBSTONES || tombstones_overflow(v, c) {
        room_for_tombstone(v.drop_first(), c)
    } else {
        v
    }
}

/// The traces with one more; the oldest give way.
pub open spec fn entombed(v: Seq<InboundAckTombstoneView>, c: InboundAckTombstoneView) -> Seq<
    InboundAckTombstoneView,
> {
    room_for_tombstone(v, c).push(c)
}

/// The traces that stay are the newest ones, and with the new one they are
/// within both limits.
pub proof fn law_tombstones_are_bounded(
    v: Seq<InboundAckTombstoneView>,
    c: InboundAckTombstoneView,
)
    requires
        tombstone_fits(c),
    ensures
        room_for_tombstone(v, c).len() <= v.len(),
        room_for_tombstone(v, c) == v.skip(v.len() - room_for_tombstone(v, c).len()),
        entombed(v, c).len() <= MAX_INBOUND_TOMBSTONES,
        array_bytes(tombstone_jsons(entombed(v, c))) <= MAX_INBOUND_TOMBSTONE_BYTES,
        entombed(v, c).last() == c,
    decreases v.len(),
{
    let k = room_for_tombstone(v, c);
    assert(tombstone_jsons(entombed(v, c)) =~= tombstone_jsons(k).push(tombstone_json(c)));
    if v.len() == 0 {
        assert(k =~= v.skip(0));
        assert(tombstone_jsons(k) =~= tombstone_jsons(Seq::empty()));
    } else if v.len() >= MAX_INBOUND_TOMBSTONES || tombstones_overflow(v, c) {
        law_tombstones_are_bounded(v.drop_first(), c);
        assert(k =~= v.skip(v.len() - k.len()));
    } else {
        assert(k =~= v.skip(0));
    }
}

/// Adds a trace; the oldest give way. A trace that does not fit at all is
/// refused.
pub fn append_inbound_tombstone(
    tombstones: &mut Vec<InboundAckTombstone>,
    candidate: InboundAckTombstone,
) -> (r: Result<(), RelayError>)
    ensures
        r == (if tombstone_fits(candidate@) {
            Ok::<(), RelayError>(())
        } else {
            Err(RelayError::TombstoneTooLarge)
        }),
        tombstone_views(final(tombstones)@) == (if r is Ok {
            entombed(tombstone_views(old(tombstones)@), candidate@)
        } else {
            tombstone_views(old(tombstones)@)
        }),
{
    let text = tombstone_text(&candidate);
    let none: Vec<String> = Vec::new();
    assert(views(none@) =~= tombstone_jsons(Seq::empty()));
    if array_would_exceed(&none, text.as_str(), MAX_INBOUND_TOMBSTONE_BYTES) {
        return Err(RelayError::TombstoneTooLarge);
    }
    let ghost all = tombstone_views(tombstones@);
    let mut full: bool = true;
    while full
        invariant
            text@ == tombstone_json(candidate@),
            tombstone_fits(candidate@),
            room_for_tombstone(all, candidate@) == room_for_tombstone(
                tombstone_views(tombstones@),
                candidate@,
            ),
            !full ==> room_for_tombstone(all, candidate@) == tombstone_views(tombstones@),
        decreases
                tombstones@.len() + (if full {
                    1nat
                } else {
                    0
                }),
    {
        let texts = tombstone_texts(tombstones);
        let ghost before = tombstone_views(tombstones@);
        if tombstones.len() >= MAX_INBOUND_TOMBSTONES || array_would_exceed(
            &texts,
            text.as_str(),
            MAX_INBOUND_TOMBSTONE_BYTES,
        ) {
            if tombstones.len() == 0 {
                assert(before =~= Seq::empty());
                assert(false);
            }
            let _ = tombstones.remove(0);
            assert(tombstone_views(tombstones@) =~= before.drop_first());
        } else {
            full = false;
        }
    }
    let ghost kept = tombstone_views(tombstones@);
    let ghost c = candidate@;
    tombstones.push(candidate);
    assert(tombstone_views(tombstones@) =~= kept.push(c));
    Ok(())
}

/// What an acknowledgement is answered.
pub open spec fn acknowledgement(s: RelayView, message_id: Seq<char>, generation: u64) -> Result<
    InboundAckResult,
    RelayError,
> {
    if s.persistence_failure is Some {
        Err(RelayError::Unavailable)
    } else if s.acknowledged_inbound.contains(tombstone(message_id, generation)) {
        Ok(InboundAckResult::AlreadyAcknowledged)
    } else if !waits(s.inbound, message_id, generation) {
        Err(RelayError::InboundAckMismatch)
    } else if !tombstone_fits(tombstone(message_id, generation)) {
        Err(RelayError::TombstoneTooLarge)
    } else {
        Ok(InboundAckResult::Acknowledged)
    }
}

/// The state after an acknowledgement.
pub open spec fn after_acknowledgement(
    s: RelayView,
    message_id: Seq<char>,
    generation: u64,
) -> RelayView {
    if acknowledgement(s, message_id, generation) == Ok::<InboundAckResult, RelayError>(
        InboundAckResult::Acknowledged,
    ) {
        RelayView {
            inbound: s.inbound.filter(other_than(message_id, generation)),
            acknowledged_inbound: entombed(
                s.acknowledged_inbound,
                tombstone(message_id, generation),
            ),
            ..s
        }
    } else {
        s
    }
}

impl RelayState {
    /// Whether a turn with this identity waits.
    pub fn inbound_is_pending_identity(&self, message_id: &str, generation: u64) -> (r: bool)
        ensures
            r == waits(self@.inbound, message_id@, generation),
    {
        let ghost all = self@.inbound;
        for i in 0..self.inbound.len()
            invariant
                all == self@.inbound,
                forall|k: int|
                    0 <= k < i ==> !has_identity(#[trigger] all[k], message_id@, generation),
        {
            let m = &self.inbound[i];
            assert(m@ == all[i as int]);
            if same_text(m.message_id.as_str(), message_id) && m.generation == generation {
                assert(has_identity(all[i as int], message_id@, generation));
                return true;
            }
        }
        false
    }

    /// Removes exactly the acknowledged turn. A repeated acknowledgement is
    /// accepted; one of another generation is not.
    pub fn acknowledge_inbound(&mut self, message_id: &str, generation: u64) -> (r: Result<
        InboundAckResult,
        RelayError,
    >)
        ensures
            r == acknowledgement(old(self)@, message_id@, generation),
            final(self)@ == after_acknowledgement(old(self)@, message_id@, generation),
    {
        match self.ensure_persistence_healthy() {
            Err(e) => {
                return Err(e);
            },
            Ok(_) => {},
        }
        let ghost wanted = tombstone(message_id@, generation);
        let ghost traces = self@.acknowledged_inbound;
        for i in 0..self.acknowledged_inbound.len()
            invariant
                self@ == old(self)@,
                self@.persistence_failure is None,
                traces == self@.acknowledged_inbound,
                wanted == tombstone(message_id@, generation),
                forall|k: int| 0 <= k < i ==> #[trigger] traces[k] != wanted,
        {
            let t = &self.acknowledged_inbound[i];
            assert(t@ == traces[i as int]);
            if same_text(t.message_id.as_str(), message_id) && t.generation == generation {
                assert(traces[i as int] =~= wanted);
                return Ok(InboundAckResult::AlreadyAcknowledged);
            }
        }
        assert(!traces.contains(wanted));
        if !self.inbound_is_pending_identity(message_id, generation) {
            return Err(RelayError::InboundAckMismatch);
        }
        let t = InboundAckTombstone { message_id: message_id.to_string(), generation };
        assert(t@ =~= wanted);
        match append_inbound_tombstone(&mut self.acknowledged_inbound, t) {
            Err(e) => {
                assert(self@ =~= old(self)@);
                return Err(e);
            },
            Ok(_) => {},
        }
        let ghost all = self@.inbound;
        let ghost p = other_than(message_id@, generation);
        let ghost mid = self@;
        let mut kept: Vec<InboundMessage> = Vec::new();
        proof {
            reveal(Seq::filter);
            assert(inbound_views(kept@) =~= all.take(0).filter(p));
        }
        for i in 0..self.inbound.len()
            invariant
                self@ == mid,
                all == self@.inbound,
                p == other_than(message_id@, generation),
                inbound_views(kept@) == all.take(i as int).filter(p),
        {
            let m = &self.inbound[i];
            proof {
                assert(m@ == all[i as int]);
                lemma_filter_push(all, p, i as int);
            }
            if !(same_text(m.message_id.as_str(), message_id) && m.generation == generation) {
                let ghost before = kept@;
                kept.push(m.clone());
                assert(inbound_views(kept@) =~= inbound_views(before).push(m@));
            }
        }
        assert(all.take(all.len() as int) =~= all);
        self.inbound = kept;
        assert(self@ =~= after_acknowledgement(old(self)@, message_id@, generation));
        Ok(InboundAckResult::Acknowledged)
    }
}

} // verus!
