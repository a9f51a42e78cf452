//! What the relay does with a frame of the gateway. A frame that changes the
//! durable state is worked off in turns: each turn ends with an answer, or with
//! a snapshot that has to be written before the next turn begins.
use vstd::prelude::*;
use vstd::string::*;

use crate::proto::{is_valid_opaque_id, valid_opaque_id, MAX_SAFE_SEQUENCE};
use crate::relay::deliveries::{
    next_delivery, valid_reply_to, validate_delivery_content, validate_reply_to,
};
use crate::relay::errors::RelayError;
use crate::relay::inbound::{acknowledgement, after_acknowledgement, InboundAckResult};
use crate::relay::replies::{
    acknowledgement_error_reply, acknowledgement_reply, action_reply, descriptor_frame,
    descriptor_reply, refusal_reply, reply_gateway_action_result, reply_inbound_ack,
    reply_inbound_ack_error, reply_refusal, reply_result_retirement, reply_result_retirement_error,
    retirement_error_reply, retirement_reply,
};
use crate::relay::results::{
    after_record, after_retirement, after_send, any_expired, durable_answer, failure_json,
    failure_text, live_position, reclaimable, reclaimed, record_verdict, retirement, send_verdict,
    success_json, success_text, ticked, verdict_answer, GatewayActionResult, ResultRetirement,
};
use crate::relay::state::{
    active_gateway, durable, is_active, owns, settled, Checkpoint, CheckpointView, RelayState,
    RelayView, WriteOutcome, MAX_DELIVERY_CONTENT_BYTES, MAX_OUTBOUND_OPERATION_BYTES,
};
use crate::text::{
    blank, byte_len, is_blank, opt_ref, opt_str_view, opt_view, own_opt, same_text, utf8_len,
};
use crate::value::{Json, JsonView};

verus! {

/// What a frame asks the relay to do.
#[derive(Debug)]
pub enum GatewayAction {
    /// Confirm a response.
    Retire { request_id: String, result_id: u64 },
    /// Acknowledge a voice turn.
    Acknowledge { message_id: String, generation: u64 },
    /// Queue a delivery.
    Send { request_id: String, chat_id: String, content: String, reply_to: Option<String> },
    /// Do nothing but answer, durably.
    Record { request_id: String, result: String },
}

/// What a frame asks for, as a value.
pub enum GatewayActionView {
    Retire(Seq<char>, u64),
    Acknowledge(Seq<char>, u64),
    Send(Seq<char>, Seq<char>, Seq<char>, Option<Seq<char>>),
    Record(Seq<char>, Seq<char>),
}

impl View for GatewayAction {
    type V = GatewayActionView;

    open spec fn view(&self) -> GatewayActionView {
        match self {
            GatewayAction::Retire { request_id, result_id } => GatewayActionView::Retire(
                request_id@,
                *result_id,
            ),
            GatewayAction::Acknowledge { message_id, generation } => GatewayActionView::Acknowledge(
                message_id@,
                *generation,
            ),
            GatewayAction::Send { request_id, chat_id, content, reply_to } =>
                GatewayActionView::Send(request_id@, chat_id@, content@, opt_view(*reply_to)),
            GatewayAction::Record { request_id, result } => GatewayActionView::Record(
                request_id@,
                result@,
            ),
        }
    }
}

/// What becomes of a frame at first sight.
#[derive(Debug)]
pub enum GatewayStep {
    Ignore,
    Reply(String),
    Act(GatewayAction),
}

/// What becomes of a frame at first sight, as a value.
pub enum GatewayStepView {
    Ignore,
    Reply(Seq<char>),
    Act(GatewayActionView),
}

impl View for GatewayStep {
    type V = GatewayStepView;

    open spec fn view(&self) -> GatewayStepView {
        match self {
            GatewayStep::Ignore => GatewayStepView::Ignore,
            GatewayStep::Reply(t) => GatewayStepView::Reply(t@),
            GatewayStep::Act(a) => GatewayStepView::Act(a@),
        }
    }
}

// ---- deciding -------------------------------------------------------------------

/// A number within the exact integer range, not zero.
pub open spec fn receipt_number(v: JsonView) -> Option<u64> {
    match v.natural() {
        Some(n) => if 1 <= n <= MAX_SAFE_SEQUENCE {
            Some(n)
        } else {
            None
        },
        None => None,
    }
}

/// An action that only the socket in charge may take.
pub open spec fn guarded(allowed: bool, action: GatewayActionView) -> GatewayStepView {
    if allowed {
        GatewayStepView::Act(action)
    } else {
        GatewayStepView::Ignore
    }
}

/// Whether a frame may act for the gateway: it came over the connection in
/// charge, or over none.
pub open spec fn in_charge(s: RelayView, connection: Option<u64>, gateway_id: Seq<char>) -> bool {
    connection is Some ==> owns(s.connections, connection->0, gateway_id)
}

/// What becomes of the confirmation of a response.
pub open spec fn confirmation_step(
    s: RelayView,
    frame: JsonView,
    connection: Option<u64>,
    gateway_id: Seq<char>,
) -> GatewayStepView {
    match frame.field("requestId"@).text() {
        Some(request_id) => if !valid_opaque_id(request_id) {
            GatewayStepView::Reply(refusal_reply(Seq::empty(), "requestId is required"@))
        } else {
            match receipt_number(frame.field("resultId"@)) {
                Some(result_id) => guarded(
                    in_charge(s, connection, gateway_id),
                    GatewayActionView::Retire(request_id, result_id),
                ),
                None => GatewayStepView::Reply(
                    refusal_reply(request_id, "resultId is required"@),
                ),
            }
        },
        None => GatewayStepView::Reply(refusal_reply(Seq::empty(), "requestId is required"@)),
    }
}

/// What becomes of the acknowledgement of a turn.
pub open spec fn acknowledgement_step(
    s: RelayView,
    frame: JsonView,
    connection: Option<u64>,
) -> GatewayStepView {
    match frame.field("messageId"@).text() {
        Some(message_id) => if !valid_opaque_id(message_id) {
            GatewayStepView::Reply(
                acknowledgement_error_reply(Seq::empty(), 0, "messageId is required"@),
            )
        } else {
            match receipt_number(frame.field("generation"@)) {
                Some(generation) => guarded(
                    connection is Some ==> is_active(s.connections, connection->0),
                    GatewayActionView::Acknowledge(message_id, generation),
                ),
                None => GatewayStepView::Reply(
                    acknowledgement_error_reply(message_id, 0, "generation is required"@),
                ),
            }
        },
        None => GatewayStepView::Reply(
            acknowledgement_error_reply(Seq::empty(), 0, "messageId is required"@),
        ),
    }
}

/// The response to an operation that the relay does not know.
pub open spec fn unknown_op_json(op: Seq<char>) -> Seq<char> {
    failure_json("op "@ + op + " not implemented"@)
}

/// What becomes of a send, once its request was found new.
pub open spec fn send_step(
    s: RelayView,
    action: JsonView,
    connection: Option<u64>,
    gateway_id: Seq<char>,
    request_id: Seq<char>,
) -> GatewayStepView {
    let chat_id = action.field("chat_id"@).text();
    let content = action.field("content"@).text();
    let reply_to = action.field("reply_to"@).text();
    if chat_id is None || blank(chat_id->0) {
        GatewayStepView::Reply(refusal_reply(request_id, RelayError::ChatIdRequired.words()))
    } else if content is None || blank(content->0) {
        GatewayStepView::Reply(refusal_reply(request_id, RelayError::ContentRequired.words()))
    } else if utf8_len(content->0) > MAX_DELIVERY_CONTENT_BYTES {
        GatewayStepView::Reply(refusal_reply(request_id, RelayError::ContentTooLarge.words()))
    } else if !valid_reply_to(reply_to) {
        GatewayStepView::Reply(refusal_reply(request_id, RelayError::ReplyToBlank.words()))
    } else {
        guarded(
            in_charge(s, connection, gateway_id),
            GatewayActionView::Send(request_id, chat_id->0, content->0, reply_to),
        )
    }
}

/// What becomes of an action. A request that was answered before gets the same
/// answer, before its other fields are looked at.
pub open spec fn outbound_step(
    s: RelayView,
    frame: JsonView,
    connection: Option<u64>,
    gateway_id: Seq<char>,
    now_ms: u64,
) -> GatewayStepView {
    match frame.field("requestId"@).text() {
        Some(request_id) => if !valid_opaque_id(request_id) {
            GatewayStepView::Reply(
                refusal_reply(Seq::empty(), "requestId exceeds maximum length"@),
            )
        } else {
            let t = ticked(s, now_ms);
            let p = live_position(
                t.outbound_results,
                gateway_id,
                request_id,
                t.clock_high_water_ms,
                active_gateway(t.connections),
                0,
            );
            let action = frame.field("action"@);
            let op = match action.field("op"@).text() {
                Some(op) => op,
                None => Seq::empty(),
            };
            if p < t.outbound_results.len() {
                GatewayStepView::Reply(
                    action_reply(request_id, durable_answer(t.outbound_results[p])),
                )
            } else if utf8_len(op) > MAX_OUTBOUND_OPERATION_BYTES {
                GatewayStepView::Reply(refusal_reply(request_id, "op exceeds maximum length"@))
            } else if op == "send"@ {
                send_step(s, action, connection, gateway_id, request_id)
            } else if op == "typing"@ {
                guarded(
                    in_charge(s, connection, gateway_id),
                    GatewayActionView::Record(request_id, success_json()),
                )
            } else {
                guarded(
                    in_charge(s, connection, gateway_id),
                    GatewayActionView::Record(request_id, unknown_op_json(op)),
                )
            }
        },
        None => GatewayStepView::Reply(refusal_reply(Seq::empty(), "requestId is required"@)),
    }
}

/// What becomes of a frame at first sight.
pub open spec fn frame_step(
    s: RelayView,
    frame: JsonView,
    connection: Option<u64>,
    gateway_id: Seq<char>,
    now_ms: u64,
) -> GatewayStepView {
    let kind = frame.field("type"@).text();
    if kind == Some("hello"@) {
        GatewayStepView::Reply(descriptor_reply())
    } else if kind == Some("outbound_result_ack"@) {
        confirmation_step(s, frame, connection, gateway_id)
    } else if kind == Some("inbound_ack"@) {
        acknowledgement_step(s, frame, connection)
    } else if kind == Some("outbound"@) {
        outbound_step(s, frame, connection, gateway_id, now_ms)
    } else {
        GatewayStepView::Ignore
    }
}

/// Whether first sight of a frame looks at the clock.
pub open spec fn looks_at_clock(frame: JsonView) -> bool {
    let id = frame.field("requestId"@).text();
    frame.field("type"@).text() == Some("outbound"@) && id is Some && valid_opaque_id(id->0)
}

/// The state after first sight of a frame.
pub open spec fn after_sight(s: RelayView, frame: JsonView, now_ms: u64) -> RelayView {
    if looks_at_clock(frame) {
        ticked(s, now_ms)
    } else {
        s
    }
}

fn number_in_range(v: Option<u64>) -> (r: Option<u64>)
    ensures
        r == (match v {
            Some(n) => if 1 <= n <= MAX_SAFE_SEQUENCE {
                Some(n)
            } else {
                None
            },
            None => None,
        }),
{
    match v {
        Some(n) => if 1 <= n && n <= MAX_SAFE_SEQUENCE {
            Some(n)
        } else {
            None
        },
        None => None,
    }
}

/// The request identifier of an action, where it is valid.
pub fn valid_outbound_request_id(frame: &Json) -> (r: Option<&str>)
    ensures
        opt_str_view(r) == (match frame@.field("requestId"@).text() {
            Some(id) => if valid_opaque_id(id) {
                Some(id)
            } else {
                None
            },
            None => None,
        }),
{
    match frame.text_field("requestId") {
        Some(id) => if is_valid_opaque_id(id) {
            Some(id)
        } else {
            None
        },
        None => None,
    }
}

impl RelayState {
    fn may_act(&self, connection: Option<u64>, gateway_id: &str) -> (r: bool)
        ensures
            r == in_charge(self@, connection, gateway_id@),
    {
        match connection {
            Some(id) => self.owns_gateway(id, gateway_id),
            None => true,
        }
    }

    fn decide_confirmation(&self, frame: &Json, connection: Option<u64>, gateway_id: &str) -> (r:
        GatewayStep)
        ensures
            r@ == confirmation_step(self@, frame@, connection, gateway_id@),
    {
        match valid_outbound_request_id(frame) {
            Some(request_id) => match number_in_range(frame.natural_field("resultId")) {
                Some(result_id) => if self.may_act(connection, gateway_id) {
                    GatewayStep::Act(
                        GatewayAction::Retire { request_id: request_id.to_string(), result_id },
                    )
                } else {
                    GatewayStep::Ignore
                },
                None => GatewayStep::Reply(reply_refusal(request_id, "resultId is required")),
            },
            None => {
                let none = String::new();
                assert(none@ =~= Seq::empty());
                GatewayStep::Reply(reply_refusal(none.as_str(), "requestId is required"))
            },
        }
    }

    fn decide_acknowledgement(&self, frame: &Json, connection: Option<u64>) -> (r: GatewayStep)
        ensures
            r@ == acknowledgement_step(self@, frame@, connection),
    {
        let none = String::new();
        assert(none@ =~= Seq::empty());
        match frame.text_field("messageId") {
            Some(message_id) => {
                if !is_valid_opaque_id(message_id) {
                    return GatewayStep::Reply(
                        reply_inbound_ack_error(none.as_str(), 0, "messageId is required"),
                    );
                }
                match number_in_range(frame.natural_field("generation")) {
                    Some(generation) => {
                        let allowed = match connection {
                            Some(id) => self.is_active_connection(id),
                            None => true,
                        };
                        if allowed {
                            GatewayStep::Act(
                                GatewayAction::Acknowledge {
                                    message_id: message_id.to_string(),
                                    generation,
                                },
                            )
                        } else {
                            GatewayStep::Ignore
                        }
                    },
                    None => GatewayStep::Reply(
                        reply_inbound_ack_error(message_id, 0, "generation is required"),
                    ),
                }
            },
            None => GatewayStep::Reply(
                reply_inbound_ack_error(none.as_str(), 0, "messageId is required"),
            ),
        }
    }

    fn decide_send(
        &self,
        frame: &Json,
        connection: Option<u64>,
        gateway_id: &str,
        request_id: &str,
    ) -> (r: GatewayStep)
        ensures
            r@ == send_step(
                self@,
                frame@.field("action"@),
                connection,
                gateway_id@,
                request_id@,
            ),
    {
        let chat_id = match frame.text_field_in("action", "chat_id") {
            Some(id) => id,
            None => {
                let words = RelayError::ChatIdRequired.message();
                return GatewayStep::Reply(reply_refusal(request_id, words.as_str()));
            },
        };
        if is_blank(chat_id) {
            let words = RelayError::ChatIdRequired.message();
            return GatewayStep::Reply(reply_refusal(request_id, words.as_str()));
        }
        let content = match frame.text_field_in("action", "content") {
            Some(text) => text,
            None => {
                let words = RelayError::ContentRequired.message();
                return GatewayStep::Reply(reply_refusal(request_id, words.as_str()));
            },
        };
        if is_blank(content) {
            let words = RelayError::ContentRequired.message();
            return GatewayStep::Reply(reply_refusal(request_id, words.as_str()));
        }
        match validate_delivery_content(content) {
            Err(e) => {
                let words = e.message();
                return GatewayStep::Reply(reply_refusal(request_id, words.as_str()));
            },
            Ok(_) => {},
        }
        let reply_to = frame.text_field_in("action", "reply_to");
        match validate_reply_to(reply_to) {
            Err(e) => {
                let words = e.message();
                return GatewayStep::Reply(reply_refusal(request_id, words.as_str()));
            },
            Ok(_) => {},
        }
        if self.may_act(connection, gateway_id) {
            GatewayStep::Act(
                GatewayAction::Send {
                    request_id: request_id.to_string(),
                    chat_id: chat_id.to_string(),
                    content: content.to_string(),
                    reply_to: own_opt(reply_to),
                },
            )
        } else {
            GatewayStep::Ignore
        }
    }

    fn decide_outbound(
        &mut self,
        frame: &Json,
        connection: Option<u64>,
        gateway_id: &str,
        now_ms: u64,
    ) -> (r: GatewayStep)
        requires
            frame@.field("type"@).text() == Some("outbound"@),
        ensures
            r@ == outbound_step(old(self)@, frame@, connection, gateway_id@, now_ms),
            final(self)@ == after_sight(old(self)@, frame@, now_ms),
    {
        let none = String::new();
        assert(none@ =~= Seq::empty());
        let request_id = match frame.text_field("requestId") {
            Some(id) => id,
            None => {
                return GatewayStep::Reply(reply_refusal(none.as_str(), "requestId is required"));
            },
        };
        if !is_valid_opaque_id(request_id) {
            return GatewayStep::Reply(
                reply_refusal(none.as_str(), "requestId exceeds maximum length"),
            );
        }
        match self.live_outbound_result_for_request(gateway_id, request_id, now_ms) {
            Some(record) => {
                let answer = GatewayActionResult::durable(&record);
                return GatewayStep::Reply(reply_gateway_action_result(request_id, &answer));
            },
            None => {},
        }
        let op = match frame.text_field_in("action", "op") {
            Some(op) => op,
            None => none.as_str(),
        };
        if byte_len(op) > MAX_OUTBOUND_OPERATION_BYTES {
            return GatewayStep::Reply(reply_refusal(request_id, "op exceeds maximum length"));
        }
        if same_text(op, "send") {
            return self.decide_send(frame, connection, gateway_id, request_id);
        }
        if !self.may_act(connection, gateway_id) {
            return GatewayStep::Ignore;
        }
        let result = if same_text(op, "typing") {
            success_text()
        } else {
            let mut words = "op ".to_string();
            words.append(op);
            words.append(" not implemented");
            failure_text(words.as_str())
        };
        GatewayStep::Act(GatewayAction::Record { request_id: request_id.to_string(), result })
    }

    /// What becomes of a frame at first sight: it is ignored, answered, or asks
    /// for an action.
    pub fn decide_gateway_frame(
        &mut self,
        frame: &Json,
        connection: Option<u64>,
        gateway_id: &str,
        now_ms: u64,
    ) -> (r: GatewayStep)
        ensures
            r@ == frame_step(old(self)@, frame@, connection, gateway_id@, now_ms),
            final(self)@ == after_sight(old(self)@, frame@, now_ms),
    {
        proof {
            reveal_strlit("hello");
            reveal_strlit("outbound_result_ack");
            reveal_strlit("inbound_ack");
            reveal_strlit("outbound");
            assert("hello"@.len() == 5 && "outbound_result_ack"@.len() == 19
                && "inbound_ack"@.len() == 11 && "outbound"@.len() == 8);
        }
        match frame.text_field("type") {
            Some(kind) => {
                if same_text(kind, "hello") {
                    GatewayStep::Reply(descriptor_frame())
                } else if same_text(kind, "outbound_result_ack") {
                    self.decide_confirmation(frame, connection, gateway_id)
                } else if same_text(kind, "inbound_ack") {
                    self.decide_acknowledgement(frame, connection)
                } else if same_text(kind, "outbound") {
                    self.decide_outbound(frame, connection, gateway_id, now_ms)
                } else {
                    GatewayStep::Ignore
                }
            },
            None => GatewayStep::Ignore,
        }
    }
}

// ---- acting ---------------------------------------------------------------------

/// How far an action has come when a snapshot has to be written.
#[derive(Debug)]
pub enum Stage {
    /// Old responses were given up; the action itself comes next.
    Reclaiming,
    /// The action is done once the snapshot is written; this is its answer.
    Committing(String),
}

/// How far an action has come, as a value.
pub enum StageView {
    Reclaiming,
    Committing(Seq<char>),
}

/// An action that waits for a snapshot to be written.
pub struct PendingTurn {
    pub gateway_id: String,
    pub action: GatewayAction,
    pub arrived_at: u64,
    pub before: Checkpoint,
    pub stage: Stage,
}

/// A waiting action as a value.
pub struct TurnView {
    pub gateway_id: Seq<char>,
    pub action: GatewayActionView,
    pub arrived_at: u64,
    pub before: CheckpointView,
    pub stage: StageView,
}

impl View for PendingTurn {
    type V = TurnView;

    open spec fn view(&self) -> TurnView {
        TurnView {
            gateway_id: self.gateway_id@,
            action: self.action@,
            arrived_at: self.arrived_at,
            before: self.before@,
            stage: match self.stage {
                Stage::Reclaiming => StageView::Reclaiming,
                Stage::Committing(reply) => StageView::Committing(reply@),
            },
        }
    }
}

/// What comes next: an answer, or a snapshot to write.
pub enum Progress {
    Done(Option<String>),
    Write(PendingTurn),
}

/// What comes next, as a value.
pub enum ProgressView {
    Done(Option<Seq<char>>),
    Write(TurnView),
}

impl View for Progress {
    type V = ProgressView;

    open spec fn view(&self) -> ProgressView {
        match self {
            Progress::Done(r) => ProgressView::Done(opt_view(*r)),
            Progress::Write(t) => ProgressView::Write(t@),
        }
    }
}

impl PendingTurn {
    /// Whether the inbound snapshot is the one to write; the delivery snapshot
    /// is otherwise.
    pub fn writes_inbound(&self) -> (r: bool)
        ensures
            r == (self@.action is Acknowledge),
    {
        match self.action {
            GatewayAction::Acknowledge { .. } => true,
            _ => false,
        }
    }
}

/// The answer to an action whose snapshot could not be written.
pub open spec fn unwritten_reply(action: GatewayActionView) -> Seq<char> {
    match action {
        GatewayActionView::Retire(request_id, result_id) => retirement_error_reply(
            request_id,
            result_id,
            "result retirement persistence failed"@,
        ),
        GatewayActionView::Acknowledge(message_id, generation) => acknowledgement_error_reply(
            message_id,
            generation,
            "inbound acknowledgement persistence failed"@,
        ),
        GatewayActionView::Send(request_id, ..) => refusal_reply(
            request_id,
            "delivery persistence failed"@,
        ),
        GatewayActionView::Record(request_id, ..) => refusal_reply(
            request_id,
            "result persistence failed"@,
        ),
    }
}

/// What comes of an action whose outcome is known: an answer at once, or after
/// the change is written.
pub open spec fn conclude(
    s: RelayView,
    after: RelayView,
    changed: bool,
    reply: Seq<char>,
    gateway_id: Seq<char>,
    action: GatewayActionView,
    arrived_at: u64,
) -> (RelayView, ProgressView) {
    if changed {
        (
            after,
            ProgressView::Write(
                TurnView {
                    gateway_id,
                    action,
                    arrived_at,
                    before: durable(s),
                    stage: StageView::Committing(reply),
                },
            ),
        )
    } else {
        (s, ProgressView::Done(Some(reply)))
    }
}

/// What comes of a confirmation.
pub open spec fn retire_turn(
    s: RelayView,
    gateway_id: Seq<char>,
    request_id: Seq<char>,
    result_id: u64,
    arrived_at: u64,
) -> (RelayView, ProgressView) {
    let action = GatewayActionView::Retire(request_id, result_id);
    match retirement(s, gateway_id, request_id, result_id) {
        Ok(r) => conclude(
            s,
            after_retirement(s, gateway_id, request_id, result_id),
            r == ResultRetirement::Retired,
            retirement_reply(request_id, result_id, r),
            gateway_id,
            action,
            arrived_at,
        ),
        Err(RelayError::ResultIdMismatch) => (
            s,
            ProgressView::Done(
                Some(
                    retirement_error_reply(
                        request_id,
                        result_id,
                        RelayError::ResultIdMismatch.words(),
                    ),
                ),
            ),
        ),
        Err(_) => (s, ProgressView::Done(Some(unwritten_reply(action)))),
    }
}

/// What comes of an acknowledgement.
pub open spec fn acknowledge_turn(
    s: RelayView,
    gateway_id: Seq<char>,
    message_id: Seq<char>,
    generation: u64,
    arrived_at: u64,
) -> (RelayView, ProgressView) {
    let action = GatewayActionView::Acknowledge(message_id, generation);
    match acknowledgement(s, message_id, generation) {
        Ok(r) => conclude(
            s,
            after_acknowledgement(s, message_id, generation),
            r == InboundAckResult::Acknowledged,
            acknowledgement_reply(message_id, generation, r),
            gateway_id,
            action,
            arrived_at,
        ),
        Err(RelayError::InboundAckMismatch) => (
            s,
            ProgressView::Done(
                Some(
                    acknowledgement_error_reply(
                        message_id,
                        generation,
                        RelayError::InboundAckMismatch.words(),
                    ),
                ),
            ),
        ),
        Err(_) => (s, ProgressView::Done(Some(unwritten_reply(action)))),
    }
}

/// What comes of a send or a record, once old responses are out of the way.
pub open spec fn admission_turn(
    s: RelayView,
    gateway_id: Seq<char>,
    action: GatewayActionView,
    arrived_at: u64,
) -> (RelayView, ProgressView) {
    match action {
        GatewayActionView::Send(request_id, chat_id, content, reply_to) => {
            let d = next_delivery(s, chat_id, content, reply_to, arrived_at);
            let verdict = send_verdict(s, gateway_id, request_id, d);
            match verdict_answer(s, verdict, success_json()) {
                Ok(a) => conclude(
                    s,
                    after_send(s, gateway_id, request_id, d),
                    verdict is Recorded,
                    action_reply(request_id, a),
                    gateway_id,
                    action,
                    arrived_at,
                ),
                Err(_) => (s, ProgressView::Done(Some(unwritten_reply(action)))),
            }
        },
        GatewayActionView::Record(request_id, result) => {
            let verdict = record_verdict(s, gateway_id, request_id, result);
            match verdict_answer(s, verdict, result) {
                Ok(a) => conclude(
                    s,
                    after_record(s, gateway_id, request_id, result),
                    verdict is Recorded,
                    action_reply(request_id, a),
                    gateway_id,
                    action,
                    arrived_at,
                ),
                Err(_) => (s, ProgressView::Done(Some(unwritten_reply(action)))),
            }
        },
        _ => (s, ProgressView::Done(Some(unwritten_reply(action)))),
    }
}

/// What comes of a send or a record at `now_ms`: the clock moves on, old
/// responses are given up, which has to be written first, and then the action.
pub open spec fn durable_turn(
    s: RelayView,
    gateway_id: Seq<char>,
    action: GatewayActionView,
    protected: Option<Seq<char>>,
    now_ms: u64,
    arrived_at: u64,
) -> (RelayView, ProgressView) {
    let t = ticked(s, now_ms);
    if s.persistence_failure is Some {
        (s, ProgressView::Done(Some(unwritten_reply(action))))
    } else if !reclaimable(t.outbound_results, t.clock_high_water_ms, protected) {
        (t, ProgressView::Done(Some(unwritten_reply(action))))
    } else if any_expired(t.outbound_results, t.clock_high_water_ms, protected) {
        (
            reclaimed(t, t.clock_high_water_ms, protected),
            ProgressView::Write(
                TurnView {
                    gateway_id,
                    action,
                    arrived_at,
                    before: durable(s),
                    stage: StageView::Reclaiming,
                },
            ),
        )
    } else {
        admission_turn(
            reclaimed(t, t.clock_high_water_ms, protected),
            gateway_id,
            action,
            arrived_at,
        )
    }
}

/// The gateway whose responses are never given up: the one that acts over the
/// connection in charge, else the connected one.
pub open spec fn protected_gateway(
    s: RelayView,
    connection: Option<u64>,
    gateway_id: Seq<char>,
) -> Option<Seq<char>> {
    if connection is Some {
        Some(gateway_id)
    } else {
        active_gateway(s.connections)
    }
}

/// What comes of an action.
pub open spec fn action_turn(
    s: RelayView,
    action: GatewayActionView,
    connection: Option<u64>,
    gateway_id: Seq<char>,
    now_ms: u64,
    arrived_at: u64,
) -> (RelayView, ProgressView) {
    match action {
        GatewayActionView::Retire(request_id, result_id) => retire_turn(
            s,
            gateway_id,
            request_id,
            result_id,
            arrived_at,
        ),
        GatewayActionView::Acknowledge(message_id, generation) => acknowledge_turn(
            s,
            gateway_id,
            message_id,
            generation,
            arrived_at,
        ),
        _ => durable_turn(
            s,
            gateway_id,
            action,
            protected_gateway(s, connection, gateway_id),
            now_ms,
            arrived_at,
        ),
    }
}

/// What comes of a frame.
pub open spec fn first_turn(
    s: RelayView,
    frame: JsonView,
    connection: Option<u64>,
    gateway_id: Seq<char>,
    now_ms: u64,
    arrived_at: u64,
) -> (RelayView, ProgressView) {
    let t = after_sight(s, frame, now_ms);
    match frame_step(s, frame, connection, gateway_id, now_ms) {
        GatewayStepView::Ignore => (t, ProgressView::Done(None)),
        GatewayStepView::Reply(r) => (t, ProgressView::Done(Some(r))),
        GatewayStepView::Act(action) => action_turn(
            t,
            action,
            connection,
            gateway_id,
            now_ms,
            arrived_at,
        ),
    }
}

/// What comes of a waiting action, once it is known how the write ended.
pub open spec fn next_turn(
    s: RelayView,
    turn: TurnView,
    outcome: WriteOutcome,
    failure: Seq<char>,
) -> (RelayView, ProgressView) {
    let t = settled(s, turn.before, outcome, failure);
    if outcome != WriteOutcome::Committed {
        (t, ProgressView::Done(Some(unwritten_reply(turn.action))))
    } else {
        match turn.stage {
            StageView::Committing(reply) => (t, ProgressView::Done(Some(reply))),
            StageView::Reclaiming => admission_turn(
                t,
                turn.gateway_id,
                turn.action,
                turn.arrived_at,
            ),
        }
    }
}

fn reply_unwritten(action: &GatewayAction) -> (r: String)
    ensures
        r@ == unwritten_reply(action@),
{
    match action {
        GatewayAction::Retire { request_id, result_id } => reply_result_retirement_error(
            request_id.as_str(),
            *result_id,
            "result retirement persistence failed",
        ),
        GatewayAction::Acknowledge { message_id, generation } => reply_inbound_ack_error(
            message_id.as_str(),
            *generation,
            "inbound acknowledgement persistence failed",
        ),
        GatewayAction::Send { request_id, .. } => reply_refusal(
            request_id.as_str(),
            "delivery persistence failed",
        ),
        GatewayAction::Record { request_id, .. } => reply_refusal(
            request_id.as_str(),
            "result persistence failed",
        ),
    }
}

impl RelayState {
    fn turn_retire(
        &mut self,
        gateway_id: &str,
        request_id: String,
        result_id: u64,
        arrived_at: u64,
    ) -> (r: Progress)
        ensures
            (final(self)@, r@) == retire_turn(
                old(self)@,
                gateway_id@,
                request_id@,
                result_id,
                arrived_at,
            ),
    {
        let before = self.checkpoint();
        match self.retire_outbound_result(gateway_id, request_id.as_str(), result_id) {
            Ok(result) => {
                let reply = reply_result_retirement(request_id.as_str(), result_id, result);
                if result == ResultRetirement::Retired {
                    Progress::Write(
                        PendingTurn {
                            gateway_id: gateway_id.to_string(),
                            action: GatewayAction::Retire { request_id, result_id },
                            arrived_at,
                            before,
                            stage: Stage::Committing(reply),
                        },
                    )
                } else {
                    Progress::Done(Some(reply))
                }
            },
            Err(e) => {
                if e == RelayError::ResultIdMismatch {
                    let words = e.message();
                    Progress::Done(
                        Some(
                            reply_result_retirement_error(
                                request_id.as_str(),
                                result_id,
                                words.as_str(),
                            ),
                        ),
                    )
                } else {
                    let action = GatewayAction::Retire { request_id, result_id };
                    Progress::Done(Some(reply_unwritten(&action)))
                }
            },
        }
    }

    fn turn_acknowledge(
        &mut self,
        gateway_id: &str,
        message_id: String,
        generation: u64,
        arrived_at: u64,
    ) -> (r: Progress)
        ensures
            (final(self)@, r@) == acknowledge_turn(
                old(self)@,
                gateway_id@,
                message_id@,
                generation,
                arrived_at,
            ),
    {
        let before = self.checkpoint();
        match self.acknowledge_inbound(message_id.as_str(), generation) {
            Ok(result) => {
                let reply = reply_inbound_ack(message_id.as_str(), generation, result);
                if result == InboundAckResult::Acknowledged {
                    Progress::Write(
                        PendingTurn {
                            gateway_id: gateway_id.to_string(),
                            action: GatewayAction::Acknowledge { message_id, generation },
                            arrived_at,
                            before,
                            stage: Stage::Committing(reply),
                        },
                    )
                } else {
                    Progress::Done(Some(reply))
                }
            },
            Err(e) => {
                if e == RelayError::InboundAckMismatch {
                    let words = e.message();
                    Progress::Done(
                        Some(
                            reply_inbound_ack_error(
                                message_id.as_str(),
                                generation,
                                words.as_str(),
                            ),
                        ),
                    )
                } else {
                    let action = GatewayAction::Acknowledge { message_id, generation };
                    Progress::Done(Some(reply_unwritten(&action)))
                }
            },
        }
    }

    fn turn_admit(&mut self, gateway_id: &str, action: GatewayAction, arrived_at: u64) -> (r:
        Progress)
        ensures
            (final(self)@, r@) == admission_turn(
                old(self)@,
                gateway_id@,
                action@,
                arrived_at,
            ),
    {
        let before = self.checkpoint();
        let (reply, changed) = match &action {
            GatewayAction::Send { request_id, chat_id, content, reply_to } => {
                match self.admit_send(
                    gateway_id,
                    request_id.as_str(),
                    chat_id.as_str(),
                    content.as_str(),
                    opt_ref(reply_to),
                    arrived_at,
                ) {
                    Ok(x) => (
                        reply_gateway_action_result(request_id.as_str(), &x.answer),
                        x.changed,
                    ),
                    Err(_) => (reply_unwritten(&action), false),
                }
            },
            GatewayAction::Record { request_id, result } => {
                match self.admit_record(gateway_id, request_id.as_str(), result.as_str()) {
                    Ok(x) => (
                        reply_gateway_action_result(request_id.as_str(), &x.answer),
                        x.changed,
                    ),
                    Err(_) => (reply_unwritten(&action), false),
                }
            },
            _ => (reply_unwritten(&action), false),
        };
        if changed {
            Progress::Write(
                PendingTurn {
                    gateway_id: gateway_id.to_string(),
                    action,
                    arrived_at,
                    before,
                    stage: Stage::Committing(reply),
                },
            )
        } else {
            Progress::Done(Some(reply))
        }
    }

    fn turn_durable(
        &mut self,
        gateway_id: &str,
        action: GatewayAction,
        protected: Option<&str>,
        now_ms: u64,
        arrived_at: u64,
    ) -> (r: Progress)
        ensures
            (final(self)@, r@) == durable_turn(
                old(self)@,
                gateway_id@,
                action@,
                opt_str_view(protected),
                now_ms,
                arrived_at,
            ),
    {
        let before = self.checkpoint();
        match self.begin_action(now_ms, protected) {
            Err(_) => Progress::Done(Some(reply_unwritten(&action))),
            Ok(any) => {
                if any {
                    Progress::Write(
                        PendingTurn {
                            gateway_id: gateway_id.to_string(),
                            action,
                            arrived_at,
                            before,
                            stage: Stage::Reclaiming,
                        },
                    )
                } else {
                    self.turn_admit(gateway_id, action, arrived_at)
                }
            },
        }
    }

    /// Begins to work off a frame that arrived at `now_ms` (`arrived_at` in
    /// seconds), over a connection or over none.
    pub fn begin_gateway_frame(
        &mut self,
        frame: &Json,
        connection: Option<u64>,
        gateway_id: &str,
        now_ms: u64,
        arrived_at: u64,
    ) -> (r: Progress)
        ensures
            (final(self)@, r@) == first_turn(
                old(self)@,
                frame@,
                connection,
                gateway_id@,
                now_ms,
                arrived_at,
            ),
    {
        match self.decide_gateway_frame(frame, connection, gateway_id, now_ms) {
            GatewayStep::Ignore => Progress::Done(None),
            GatewayStep::Reply(r) => Progress::Done(Some(r)),
            GatewayStep::Act(action) => match action {
                GatewayAction::Retire { request_id, result_id } => self.turn_retire(
                    gateway_id,
                    request_id,
                    result_id,
                    arrived_at,
                ),
                GatewayAction::Acknowledge { message_id, generation } => self.turn_acknowledge(
                    gateway_id,
                    message_id,
                    generation,
                    arrived_at,
                ),
                other => {
                    let active = self.active_gateway_id();
                    let protected = match connection {
                        Some(_) => Some(gateway_id),
                        None => opt_ref(&active),
                    };
                    self.turn_durable(gateway_id, other, protected, now_ms, arrived_at)
                },
            },
        }
    }

    /// Goes on with an action once it is known how the write ended.
    pub fn resume_gateway_turn(&mut self, turn: PendingTurn, outcome: WriteOutcome, failure: &str)
        -> (r: Progress)
        ensures
            (final(self)@, r@) == next_turn(old(self)@, turn@, outcome, failure@),
    {
        if !self.settle(turn.before, outcome, failure) {
            return Progress::Done(Some(reply_unwritten(&turn.action)));
        }
        match turn.stage {
            Stage::Committing(reply) => Progress::Done(Some(reply)),
            Stage::Reclaiming => self.turn_admit(
                turn.gateway_id.as_str(),
                turn.action,
                turn.arrived_at,
            ),
        }
    }
}

} // verus!
