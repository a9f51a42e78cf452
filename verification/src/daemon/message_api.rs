//! Messages to the gateway, deliveries to the handset, and the state that the
//! handset shows.
use vstd::prelude::*;
use vstd::string::*;

use crate::daemon::meta_api::{Fork, ForkView};
use crate::daemon::responses::{
    json, json_response, plain, plain_response, unknown_lane, unknown_lane_text, Response,
    ResponseView,
};
use crate::daemon::state::{Daemon, DaemonView};
use crate::hermes_search::{bounded_title, pair_views, shown_title};
use crate::json::{
    array_of, array_text, bool_text, field_views, json_bool, json_string, object_of, object_text,
    optional_number, optional_text, push_number, push_optional_number, push_optional_text,
    push_text,
};
use crate::lanes::{
    active_lane, find_lane, has_lane, lemma_position, position, Lane, LaneRegistry, LaneView,
    RegistryView,
};
use crate::proto::{
    is_valid_lane_id, is_valid_opaque_id, valid_lane_id, valid_opaque_id, MAX_SAFE_SEQUENCE,
};
use crate::relay::errors::{is_inbound_record_too_large, RelayError};
use crate::relay::inbound::{event_value, message_event, preflight_refusal};
use crate::relay::records::{delivery_views, Delivery, DeliveryView};
use crate::relay::state::{refusal_words, RelayState, RelayView, MAX_PENDING_DELIVERIES};
use crate::text::{decimal, decimal_text, opt_view, same_text, views};
use crate::transcript::{fork_message, fork_message_text, turn_views, Turn, TurnView};
use crate::value::{json_view, Json, JsonView};

verus! {

// ---- messages -------------------------------------------------------------------

/// The lane of a message that names none.
pub const DEFAULT_MESSAGE_LANE: &'static str = "telepathos:direct";

/// A message that goes to the gateway.
#[derive(Debug)]
pub struct Outgoing {
    pub lane_id: String,
    pub event: Json,
    pub message_id: String,
}

/// What comes of a message.
#[derive(Debug)]
pub enum MessageStep {
    Done(Response),
    Push(Outgoing),
}

/// What comes of a message, as a value.
pub enum MessageStepView {
    Done(ResponseView),
    Push(Seq<char>, JsonView, Seq<char>),
}

impl View for MessageStep {
    type V = MessageStepView;

    open spec fn view(&self) -> MessageStepView {
        match self {
            MessageStep::Done(r) => MessageStepView::Done(r@),
            MessageStep::Push(o) => MessageStepView::Push(o.lane_id@, o.event@, o.message_id@),
        }
    }
}

/// The answer to a message that the relay refuses: one that can never be taken
/// is too large, any other refusal is for now.
pub open spec fn relay_refusal(s: RelayView, e: RelayError) -> ResponseView {
    plain(
        if e == RelayError::RecordTooLarge {
            413u16
        } else {
            503u16
        },
        refusal_words(s, e),
    )
}

fn relay_refusal_response(relay: &RelayState, e: RelayError) -> (r: Response)
    ensures
        r@ == relay_refusal(relay@, e),
{
    let words = relay.refusal_text(e);
    let status: u16 = if is_inbound_record_too_large(&e) {
        413
    } else {
        503
    };
    plain_response(status, words.as_str())
}

/// The lane that a message is for; nothing where it names something that is no
/// lane identifier.
pub open spec fn message_lane(body: JsonView) -> Option<Seq<char>> {
    match body.get("lane_id"@) {
        None => Some(DEFAULT_MESSAGE_LANE@),
        Some(v) => match v.text() {
            Some(id) => if valid_lane_id(id) {
                Some(id)
            } else {
                None
            },
            None => None,
        },
    }
}

/// What comes of a message. Its number is taken only once it is known that the
/// message can be queued.
pub open spec fn message_turn(d: DaemonView, relay: RelayView, body: JsonView) -> (
    DaemonView,
    MessageStepView,
) {
    let text = body.text_or_empty("text"@);
    match message_lane(body) {
        None => (
            d,
            MessageStepView::Done(plain(400, "lane_id must match the lane ID grammar"@)),
        ),
        Some(lane_id) => if text.len() == 0 {
            (d, MessageStepView::Done(plain(400, "text required"@)))
        } else if !has_lane(d.reg.lanes, lane_id) {
            (d, MessageStepView::Done(plain(404, unknown_lane(lane_id))))
        } else if d.msg_seq == u64::MAX {
            (d, MessageStepView::Done(plain(503, "message sequence limit reached"@)))
        } else {
            let name = d.reg.lanes[position(d.reg.lanes, lane_id)].name;
            let event = event_value(lane_id, name, text, d.msg_seq);
            match preflight_refusal(relay, event) {
                Some(e) => (d, MessageStepView::Done(relay_refusal(relay, e))),
                None => (
                    DaemonView { msg_seq: (d.msg_seq + 1) as u64, ..d },
                    MessageStepView::Push(
                        lane_id,
                        event,
                        "tp-"@ + decimal(d.msg_seq as nat),
                    ),
                ),
            }
        },
    }
}

/// The answer to a message after the relay took it, or did not.
pub open spec fn message_answer(
    s: RelayView,
    message_id: Seq<char>,
    refusal: Option<RelayError>,
) -> ResponseView {
    match refusal {
        Some(e) => relay_refusal(s, e),
        None => json(
            200,
            object_text(
                seq![("message_id"@, json_string(message_id)), ("ok"@, json_bool(true))],
            ),
        ),
    }
}

/// The answer to a message after the relay took it, or did not.
pub fn message_response(
    relay: &RelayState,
    message_id: &str,
    refusal: Option<RelayError>,
) -> (r: Response)
    ensures
        r@ == message_answer(relay@, message_id@, refusal),
{
    match refusal {
        Some(e) => relay_refusal_response(relay, e),
        None => {
            let mut fields: Vec<(&'static str, String)> = Vec::new();
            push_text(&mut fields, "message_id", message_id);
            let ghost before = field_views(fields@);
            fields.push(("ok", bool_text(true)));
            assert(field_views(fields@) =~= before.push(("ok"@, json_bool(true))));
            assert(field_views(fields@) =~= seq![
                ("message_id"@, json_string(message_id@)),
                ("ok"@, json_bool(true)),
            ]);
            json_response(200, object_of(&fields))
        },
    }
}

impl Daemon {
    /// A message from the handset to a lane.
    pub fn post_message(&mut self, relay: &RelayState, body: &Json) -> (r: MessageStep)
        ensures
            (final(self)@, r@) == message_turn(old(self)@, relay@, body@),
    {
        let lane_id = match body.get("lane_id") {
            None => DEFAULT_MESSAGE_LANE.to_string(),
            Some(v) => match v.as_text() {
                Some(id) => {
                    if !is_valid_lane_id(id) {
                        return MessageStep::Done(
                            plain_response(400, "lane_id must match the lane ID grammar"),
                        );
                    }
                    id.to_string()
                },
                None => {
                    return MessageStep::Done(
                        plain_response(400, "lane_id must match the lane ID grammar"),
                    );
                },
            },
        };
        let text = body.text_or_empty("text");
        if text.is_empty() {
            return MessageStep::Done(plain_response(400, "text required"));
        }
        let p: usize = find_lane(&self.reg.lanes, lane_id.as_str());
        proof {
            lemma_position(self@.reg.lanes, lane_id@);
        }
        if p == self.reg.lanes.len() {
            let words = unknown_lane_text(lane_id.as_str());
            return MessageStep::Done(plain_response(404, words.as_str()));
        }
        assert(self@.reg.lanes[p as int] == self.reg.lanes@[p as int]@);
        if self.msg_seq == u64::MAX {
            return MessageStep::Done(plain_response(503, "message sequence limit reached"));
        }
        let event = message_event(
            lane_id.as_str(),
            self.reg.lanes[p].name.as_str(),
            text,
            self.msg_seq,
        );
        match relay.preflight_inbound(&event) {
            Err(e) => {
                return MessageStep::Done(relay_refusal_response(relay, e));
            },
            Ok(_) => {},
        }
        let mut message_id = "tp-".to_string();
        let n = decimal_text(self.msg_seq as u128);
        message_id.append(n.as_str());
        self.msg_seq = self.msg_seq + 1;
        MessageStep::Push(Outgoing { lane_id, event, message_id })
    }
}

/// What the gateway is told of a fork, under the next number. After the last
/// number they begin anew.
pub open spec fn fork_turn(d: DaemonView, fork: ForkView, turns: Seq<TurnView>) -> (
    DaemonView,
    (Seq<char>, JsonView, Seq<char>),
) {
    let next: u64 = if d.msg_seq == u64::MAX {
        0
    } else {
        (d.msg_seq + 1) as u64
    };
    (
        DaemonView { msg_seq: next, ..d },
        (
            fork.lane_id,
            event_value(
                fork.lane_id,
                fork.lane_name,
                fork_message(fork.source, turns),
                d.msg_seq,
            ),
            "tp-"@ + decimal(d.msg_seq as nat),
        ),
    )
}

impl Daemon {
    /// The message that tells the gateway of a fork.
    pub fn fork_message(&mut self, fork: &Fork, turns: &Vec<Turn>) -> (r: Outgoing)
        ensures
            (final(self)@, (r.lane_id@, r.event@, r.message_id@)) == fork_turn(
                old(self)@,
                fork@,
                turn_views(turns@),
            ),
    {
        let text = fork_message_text(fork.source.as_str(), turns);
        let event = message_event(
            fork.lane_id.as_str(),
            fork.lane_name.as_str(),
            text.as_str(),
            self.msg_seq,
        );
        let mut message_id = "tp-".to_string();
        let n = decimal_text(self.msg_seq as u128);
        message_id.append(n.as_str());
        self.msg_seq = self.msg_seq.wrapping_add(1);
        Outgoing { lane_id: fork.lane_id.clone(), event, message_id }
    }
}

// ---- deliveries -----------------------------------------------------------------

/// A read of deliveries.
#[derive(Debug)]
pub struct DeliveryQuery {
    pub after: u64,
    /// Whether what is read is removed.
    pub consume: bool,
    pub lane_id: Option<String>,
    pub reply_to: Option<String>,
    pub through_seq: Option<u64>,
}

/// A read as a value.
pub struct DeliveryQueryView {
    pub after: u64,
    pub consume: bool,
    pub lane_id: Option<Seq<char>>,
    pub reply_to: Option<Seq<char>>,
    pub through_seq: Option<u64>,
}

impl View for DeliveryQuery {
    type V = DeliveryQueryView;

    open spec fn view(&self) -> DeliveryQueryView {
        DeliveryQueryView {
            after: self.after,
            consume: self.consume,
            lane_id: opt_view(self.lane_id),
            reply_to: opt_view(self.reply_to),
            through_seq: self.through_seq,
        }
    }
}

/// What is wrong with a read. Consuming needs a known lane, the request that is
/// answered, and an end beyond the start.
pub open spec fn query_fault(reg: RegistryView, q: DeliveryQueryView) -> Option<ResponseView> {
    if q.lane_id is Some && !valid_lane_id(q.lane_id->0) {
        Some(plain(400, "lane_id must match the lane ID grammar"@))
    } else if q.after > MAX_SAFE_SEQUENCE {
        Some(plain(400, "after exceeds the maximum safe sequence"@))
    } else if q.through_seq is Some && q.through_seq->0 > MAX_SAFE_SEQUENCE {
        Some(plain(400, "through_seq exceeds the maximum safe sequence"@))
    } else if q.consume && (q.lane_id is None || q.reply_to is None || q.through_seq is None) {
        Some(
            plain(400, "lane_id, reply_to, and through_seq are required when consume=true"@),
        )
    } else if q.reply_to is Some && !valid_opaque_id(q.reply_to->0) {
        Some(plain(400, "reply_to is not a valid opaque identifier"@))
    } else if q.consume && q.through_seq->0 <= q.after {
        Some(plain(400, "through_seq must be greater than after when consume=true"@))
    } else if q.consume && !has_lane(reg.lanes, q.lane_id->0) {
        Some(plain(404, unknown_lane(q.lane_id->0)))
    } else {
        None
    }
}

/// Checks a read of deliveries.
pub fn check_delivery_query(reg: &LaneRegistry, q: &DeliveryQuery) -> (r: Option<Response>)
    ensures
        match r {
            Some(x) => query_fault(reg@, q@) == Some(x@),
            None => query_fault(reg@, q@) is None,
        },
{
    match &q.lane_id {
        Some(id) => {
            if !is_valid_lane_id(id.as_str()) {
                return Some(plain_response(400, "lane_id must match the lane ID grammar"));
            }
        },
        None => {},
    }
    if q.after > MAX_SAFE_SEQUENCE {
        return Some(plain_response(400, "after exceeds the maximum safe sequence"));
    }
    match q.through_seq {
        Some(through) => {
            if through > MAX_SAFE_SEQUENCE {
                return Some(
                    plain_response(400, "through_seq exceeds the maximum safe sequence"),
                );
            }
        },
        None => {},
    }
    if q.consume && (q.lane_id.is_none() || q.reply_to.is_none() || q.through_seq.is_none()) {
        return Some(
            plain_response(
                400,
                "lane_id, reply_to, and through_seq are required when consume=true",
            ),
        );
    }
    match &q.reply_to {
        Some(id) => {
            if !is_valid_opaque_id(id.as_str()) {
                return Some(plain_response(400, "reply_to is not a valid opaque identifier"));
            }
        },
        None => {},
    }
    if q.consume {
        match (q.through_seq, &q.lane_id) {
            (Some(through), Some(lane_id)) => {
                if through <= q.after {
                    return Some(
                        plain_response(
                            400,
                            "through_seq must be greater than after when consume=true",
                        ),
                    );
                }
                if !reg.knows(lane_id.as_str()) {
                    let words = unknown_lane_text(lane_id.as_str());
                    return Some(plain_response(404, words.as_str()));
                }
            },
            _ => {},
        }
    }
    None
}

/// A delivery as the handset gets it, its members in the order of their keys.
pub open spec fn handset_delivery(d: DeliveryView) -> Seq<char> {
    object_text(
        seq![
            ("arrived_at"@, decimal(d.arrived_at as nat)),
            ("chat_id"@, json_string(d.chat_id)),
            ("content"@, json_string(d.content)),
        ] + optional_text("reply_to"@, d.reply_to) + seq![("seq"@, decimal(d.seq as nat))],
    )
}

/// Deliveries as the handset gets them.
pub open spec fn handset_deliveries(v: Seq<DeliveryView>) -> Seq<char> {
    array_text(Seq::new(v.len(), |i: int| handset_delivery(v[i])))
}

fn handset_delivery_text(d: &Delivery) -> (r: String)
    ensures
        r@ == handset_delivery(d@),
{
    let mut fields: Vec<(&'static str, String)> = Vec::new();
    push_number(&mut fields, "arrived_at", d.arrived_at);
    push_text(&mut fields, "chat_id", d.chat_id.as_str());
    push_text(&mut fields, "content", d.content.as_str());
    push_optional_text(&mut fields, "reply_to", &d.reply_to);
    push_number(&mut fields, "seq", d.seq);
    assert(field_views(fields@) =~= seq![
        ("arrived_at"@, decimal(d@.arrived_at as nat)),
        ("chat_id"@, json_string(d@.chat_id)),
        ("content"@, json_string(d@.content)),
    ] + optional_text("reply_to"@, d@.reply_to) + seq![("seq"@, decimal(d@.seq as nat))]);
    object_of(&fields)
}

fn handset_deliveries_text(v: &Vec<Delivery>) -> (r: String)
    ensures
        r@ == handset_deliveries(delivery_views(v@)),
{
    let ghost all = delivery_views(v@);
    let ghost texts = Seq::new(all.len(), |i: int| handset_delivery(all[i]));
    let mut out: Vec<String> = Vec::new();
    for i in 0..v.len()
        invariant
            all == delivery_views(v@),
            texts == Seq::new(all.len(), |i: int| handset_delivery(all[i])),
            views(out@) == texts.take(i as int),
    {
        assert(all[i as int] == v@[i as int]@);
        let t = handset_delivery_text(&v[i]);
        let ghost before = out@;
        let ghost shown = t@;
        out.push(t);
        assert(views(out@) =~= views(before).push(shown));
        assert(views(out@) =~= texts.take(i + 1));
    }
    assert(views(out@) =~= texts);
    array_of(&out)
}

/// The answer to a read of deliveries.
pub open spec fn read_answer(items: Seq<DeliveryView>, latest: u64) -> ResponseView {
    json(
        200,
        object_text(
            seq![
                ("deliveries"@, handset_deliveries(items)),
                ("latest"@, decimal(latest as nat)),
            ],
        ),
    )
}

/// The answer to a read of deliveries.
pub fn read_response(items: &Vec<Delivery>, latest: u64) -> (r: Response)
    ensures
        r@ == read_answer(delivery_views(items@), latest),
{
    let mut fields: Vec<(&'static str, String)> = Vec::new();
    fields.push(("deliveries", handset_deliveries_text(items)));
    assert(field_views(fields@) =~= seq![
        ("deliveries"@, handset_deliveries(delivery_views(items@))),
    ]);
    push_number(&mut fields, "latest", latest);
    assert(field_views(fields@) =~= seq![
        ("deliveries"@, handset_deliveries(delivery_views(items@))),
        ("latest"@, decimal(latest as nat)),
    ]);
    json_response(200, object_of(&fields))
}

/// The answer to a question for the newest sequence.
pub open spec fn head_answer(s: RelayView) -> ResponseView {
    if s.persistence_failure is Some {
        plain(500, refusal_words(s, RelayError::Unavailable))
    } else if s.next_seq > MAX_SAFE_SEQUENCE {
        plain(500, refusal_words(s, RelayError::LatestBoundary))
    } else {
        json(200, object_text(seq![("latest"@, decimal(s.next_seq as nat))]))
    }
}

/// The answer to a question for the newest sequence. No delivery is copied for
/// it.
pub fn head_response(relay: &RelayState) -> (r: Response)
    ensures
        r@ == head_answer(relay@),
{
    match relay.delivery_head() {
        Ok(n) => {
            let mut fields: Vec<(&'static str, String)> = Vec::new();
            push_number(&mut fields, "latest", n);
            assert(field_views(fields@) =~= seq![("latest"@, decimal(n as nat))]);
            json_response(200, object_of(&fields))
        },
        Err(e) => {
            let words = relay.refusal_text(e);
            plain_response(500, words.as_str())
        },
    }
}

// ---- consuming ------------------------------------------------------------------

/// What is wrong with the spoken sequence at `i`, seen after those before it.
pub open spec fn spoken_fault(v: Seq<JsonView>, i: int) -> Option<ResponseView> {
    match v[i].natural() {
        None => Some(plain(400, "sequences must be unsigned integers"@)),
        Some(n) => if n == 0 || n > MAX_SAFE_SEQUENCE {
            Some(plain(400, "sequences must be non-zero JSON-safe integers"@))
        } else if exists|k: int| 0 <= k < i && (#[trigger] v[k]).natural() == Some(n) {
            Some(plain(400, "sequences must be distinct"@))
        } else {
            None
        },
    }
}

/// What is wrong with the first faulty spoken sequence from `i` on.
pub open spec fn first_spoken_fault(v: Seq<JsonView>, i: int) -> Option<ResponseView>
    decreases v.len() - i,
{
    if i < 0 || i >= v.len() {
        None
    } else if spoken_fault(v, i) is Some {
        spoken_fault(v, i)
    } else {
        first_spoken_fault(v, i + 1)
    }
}

/// The text of a request's lane, empty where it has none.
pub open spec fn consumed_lane(body: JsonView) -> Seq<char> {
    body.text_or_empty("lane_id"@)
}

/// What is wrong with a request to consume spoken deliveries. It names each of
/// them; a range is not accepted.
pub open spec fn consume_fault(reg: RegistryView, body: JsonView) -> Option<ResponseView> {
    if !valid_lane_id(consumed_lane(body)) {
        Some(plain(400, "lane_id must match the lane ID grammar"@))
    } else {
        match body.get("sequences"@) {
            Some(JsonView::List(v)) => if v.len() == 0 {
                Some(plain(400, "at least one sequence is required"@))
            } else if v.len() > MAX_PENDING_DELIVERIES {
                Some(plain(400, "too many sequences"@))
            } else if first_spoken_fault(v, 0) is Some {
                first_spoken_fault(v, 0)
            } else if !has_lane(reg.lanes, consumed_lane(body)) {
                Some(plain(404, unknown_lane(consumed_lane(body))))
            } else {
                None
            },
            _ => Some(plain(400, "sequences array required"@)),
        }
    }
}

/// Whether numbers are the spoken sequences of a request.
pub open spec fn are_spoken(v: Seq<u64>, list: Seq<JsonView>) -> bool {
    v.len() == list.len() && forall|i: int|
        0 <= i < v.len() ==> (#[trigger] list[i]).natural() == Some(v[i])
}

/// Reads a request to consume spoken deliveries: its lane and its sequences.
pub fn read_consume_request(reg: &LaneRegistry, body: &Json) -> (r: Result<
    (String, Vec<u64>),
    Response,
>)
    ensures
        match r {
            Ok((lane_id, sequences)) => {
                &&& consume_fault(reg@, body@) is None
                &&& lane_id@ == consumed_lane(body@)
                &&& body@.get("sequences"@) is Some
                &&& body@.get("sequences"@)->0 is List
                &&& are_spoken(sequences@, body@.get("sequences"@)->0->List_0)
            },
            Err(x) => consume_fault(reg@, body@) == Some(x@),
        },
{
    let lane_id = match body.text_field("lane_id") {
        Some(id) => id.to_string(),
        None => {
            let s = String::new();
            assert(s@ =~= Seq::empty());
            s
        },
    };
    if !is_valid_lane_id(lane_id.as_str()) {
        return Err(plain_response(400, "lane_id must match the lane ID grammar"));
    }
    match body.get("sequences") {
        None => Err(plain_response(400, "sequences array required")),
        Some(v) => match v {
            Json::List(raw) => {
                let ghost list = v@->List_0;
                assert(list.len() == raw@.len());
                if raw.len() == 0 {
                    return Err(plain_response(400, "at least one sequence is required"));
                }
                if raw.len() > MAX_PENDING_DELIVERIES {
                    return Err(plain_response(400, "too many sequences"));
                }
                let mut out: Vec<u64> = Vec::new();
                let ghost fault = consume_fault(reg@, body@);
                assert(first_spoken_fault(list, 0) is Some ==> fault == first_spoken_fault(
                    list,
                    0,
                ));
                for i in 0..raw.len()
                    invariant
                        list.len() == raw@.len(),
                        forall|k: int|
                            0 <= k < list.len() ==> #[trigger] list[k] == json_view(raw@[k]),
                        fault == consume_fault(reg@, body@),
                        first_spoken_fault(list, 0) is Some ==> fault == first_spoken_fault(
                            list,
                            0,
                        ),
                        first_spoken_fault(list, 0) == first_spoken_fault(list, i as int),
                        out@.len() == i,
                        forall|k: int| 0 <= k < i ==> (#[trigger] list[k]).natural() == Some(out@[k]),
                {
                    assert(list[i as int] == json_view(raw@[i as int]));
                    let n: u64 = match raw[i].as_natural() {
                        Some(n) => n,
                        None => {
                            return Err(plain_response(400, "sequences must be unsigned integers"));
                        },
                    };
                    if n == 0 || n > MAX_SAFE_SEQUENCE {
                        return Err(
                            plain_response(400, "sequences must be non-zero JSON-safe integers"),
                        );
                    }
                    for j in 0..out.len()
                        invariant
                            i < list.len(),
                            out@.len() == i,
                            list[i as int].natural() == Some(n),
                            0 < n <= MAX_SAFE_SEQUENCE,
                            fault == consume_fault(reg@, body@),
                            first_spoken_fault(list, 0) is Some ==> fault == first_spoken_fault(
                                list,
                                0,
                            ),
                            first_spoken_fault(list, 0) == first_spoken_fault(list, i as int),
                            forall|k: int|
                                0 <= k < i ==> (#[trigger] list[k]).natural() == Some(out@[k]),
                            forall|k: int| 0 <= k < j ==> #[trigger] out@[k] != n,
                    {
                        if out[j] == n {
                            assert(list[j as int].natural() == Some(n));
                            return Err(plain_response(400, "sequences must be distinct"));
                        }
                    }
                    assert(spoken_fault(list, i as int) is None) by {
                        assert forall|k: int| 0 <= k < i implies (#[trigger] list[k]).natural()
                            != Some(n) by {
                            assert(out@[k] != n);
                        }
                    }
                    out.push(n);
                }
                if !reg.knows(lane_id.as_str()) {
                    let words = unknown_lane_text(lane_id.as_str());
                    return Err(plain_response(404, words.as_str()));
                }
                Ok((lane_id, out))
            },
            _ => Err(plain_response(400, "sequences array required")),
        },
    }
}

/// The answer to a request that consumed deliveries.
pub open spec fn consumed_answer(lane_id: Seq<char>, count: nat) -> ResponseView {
    json(
        200,
        object_text(
            seq![
                ("count"@, decimal(count)),
                ("lane_id"@, json_string(lane_id)),
                ("ok"@, json_bool(true)),
            ],
        ),
    )
}

/// The answer to a request that consumed deliveries.
pub fn consumed_response(lane_id: &str, count: usize) -> (r: Response)
    ensures
        r@ == consumed_answer(lane_id@, count as nat),
{
    let mut fields: Vec<(&'static str, String)> = Vec::new();
    push_number(&mut fields, "count", count as u64);
    push_text(&mut fields, "lane_id", lane_id);
    let ghost before = field_views(fields@);
    fields.push(("ok", bool_text(true)));
    assert(field_views(fields@) =~= before.push(("ok"@, json_bool(true))));
    assert(field_views(fields@) =~= seq![
        ("count"@, decimal(count as nat)),
        ("lane_id"@, json_string(lane_id@)),
        ("ok"@, json_bool(true)),
    ]);
    json_response(200, object_of(&fields))
}

// ---- what the handset shows -----------------------------------------------------

/// The title of a lane: the last one given for it that may be shown.
pub open spec fn title_of(titles: Seq<(Seq<char>, Seq<char>)>, id: Seq<char>) -> Option<Seq<char>>
    decreases titles.len(),
{
    if titles.len() == 0 {
        None
    } else if titles.last().0 == id && shown_title(titles.last().1) is Some {
        shown_title(titles.last().1)
    } else {
        title_of(titles.drop_last(), id)
    }
}

/// A lane as the handset shows it.
pub open spec fn shown_lane(
    lane: LaneView,
    titles: Seq<(Seq<char>, Seq<char>)>,
    relay: RelayView,
) -> Seq<char> {
    object_text(
        seq![
            ("created_at"@, json_string(lane.created_at)),
            ("id"@, json_string(lane.id)),
        ] + optional_number("interactions"@, lane.interactions) + seq![
            ("last_active"@, json_string(lane.last_active)),
            ("name"@, json_string(lane.name)),
            (
                "pending"@,
                decimal(
                    relay.deliveries.filter(crate::relay::deliveries::of_lane(lane.id)).len(),
                ),
            ),
        ] + optional_text("title"@, title_of(titles, lane.id)),
    )
}

/// The lanes and their selection as the handset shows them.
pub open spec fn shown_state(
    d: DaemonView,
    relay: RelayView,
    titles: Seq<(Seq<char>, Seq<char>)>,
) -> Seq<char> {
    object_text(
        seq![
            ("active"@, json_string(active_lane(d.reg).name)),
            ("active_id"@, json_string(d.reg.active_id)),
            (
                "lanes"@,
                array_text(
                    Seq::new(
                        d.reg.lanes.len(),
                        |i: int| shown_lane(d.reg.lanes[i], titles, relay),
                    ),
                ),
            ),
            ("previous_id"@, json_string(d.reg.previous_id)),
            ("revision"@, decimal(d.revision as nat)),
        ],
    )
}

/// The answer with the deliveries that wait for the active lane.
pub open spec fn pending_answer(d: DaemonView, relay: RelayView) -> ResponseView {
    let id = active_lane(d.reg).id;
    let items = relay.deliveries.filter(crate::relay::deliveries::of_lane(id));
    json(
        200,
        object_text(
            seq![
                ("count"@, decimal(items.len())),
                ("items"@, handset_deliveries(items)),
                ("lane_id"@, json_string(id)),
                ("revision"@, decimal(d.revision as nat)),
            ],
        ),
    )
}

fn find_title(titles: &Vec<(String, String)>, id: &str) -> (r: Option<String>)
    ensures
        opt_view(r) == title_of(pair_views(titles@), id@),
{
    let ghost all = pair_views(titles@);
    let mut i: usize = titles.len();
    assert(all.take(i as int) =~= all);
    while i > 0
        invariant
            all == pair_views(titles@),
            i <= titles@.len(),
            title_of(all, id@) == title_of(all.take(i as int), id@),
        decreases i,
    {
        let ghost t = all.take(i as int);
        assert(t.last() == all[i - 1]);
        assert(t.drop_last() =~= all.take(i - 1));
        assert(all[i - 1] == (titles@[i - 1].0@, titles@[i - 1].1@));
        if same_text(titles[i - 1].0.as_str(), id) {
            match bounded_title(titles[i - 1].1.as_str()) {
                Some(shown) => {
                    return Some(shown);
                },
                None => {},
            }
        }
        i = i - 1;
    }
    None
}

fn shown_lane_text(lane: &Lane, titles: &Vec<(String, String)>, relay: &RelayState) -> (r: String)
    ensures
        r@ == shown_lane(lane@, pair_views(titles@), relay@),
{
    let pending: usize = relay.pending_count(lane.id.as_str());
    let title = find_title(titles, lane.id.as_str());
    let mut fields: Vec<(&'static str, String)> = Vec::new();
    push_text(&mut fields, "created_at", lane.created_at.as_str());
    push_text(&mut fields, "id", lane.id.as_str());
    push_optional_number(&mut fields, "interactions", lane.interactions);
    push_text(&mut fields, "last_active", lane.last_active.as_str());
    push_text(&mut fields, "name", lane.name.as_str());
    push_number(&mut fields, "pending", pending as u64);
    push_optional_text(&mut fields, "title", &title);
    assert(field_views(fields@) =~= seq![
        ("created_at"@, json_string(lane@.created_at)),
        ("id"@, json_string(lane@.id)),
    ] + optional_number("interactions"@, lane@.interactions) + seq![
        ("last_active"@, json_string(lane@.last_active)),
        ("name"@, json_string(lane@.name)),
        ("pending"@, decimal(pending as nat)),
    ] + optional_text("title"@, title_of(pair_views(titles@), lane@.id)));
    object_of(&fields)
}

impl Daemon {
    /// The lanes and their selection as the handset shows them.
    pub fn get_state(&self, relay: &RelayState, titles: &Vec<(String, String)>) -> (r: Response)
        requires
            self@.reg.lanes.len() > 0,
        ensures
            r@ == json(200, shown_state(self@, relay@, pair_views(titles@))),
    {
        let ghost lanes = self@.reg.lanes;
        let ghost t = pair_views(titles@);
        let ghost texts = Seq::new(lanes.len(), |i: int| shown_lane(lanes[i], t, relay@));
        let mut out: Vec<String> = Vec::new();
        for i in 0..self.reg.lanes.len()
            invariant
                lanes == self@.reg.lanes,
                t == pair_views(titles@),
                texts == Seq::new(lanes.len(), |i: int| shown_lane(lanes[i], t, relay@)),
                views(out@) == texts.take(i as int),
        {
            assert(lanes[i as int] == self.reg.lanes@[i as int]@);
            let s = shown_lane_text(&self.reg.lanes[i], titles, relay);
            let ghost before = out@;
            let ghost shown = s@;
            out.push(s);
            assert(views(out@) =~= views(before).push(shown));
            assert(views(out@) =~= texts.take(i + 1));
        }
        assert(views(out@) =~= texts);
        let mut fields: Vec<(&'static str, String)> = Vec::new();
        push_text(&mut fields, "active", self.reg.active().name.as_str());
        push_text(&mut fields, "active_id", self.reg.active_id.as_str());
        let ghost before = field_views(fields@);
        fields.push(("lanes", array_of(&out)));
        assert(field_views(fields@) =~= before.push(("lanes"@, array_text(texts))));
        push_text(&mut fields, "previous_id", self.reg.previous_id.as_str());
        push_number(&mut fields, "revision", self.registry_revision);
        assert(texts =~= Seq::new(
            self@.reg.lanes.len(),
            |i: int| shown_lane(self@.reg.lanes[i], t, relay@),
        ));
        assert(field_views(fields@) =~= seq![
            ("active"@, json_string(active_lane(self@.reg).name)),
            ("active_id"@, json_string(self@.reg.active_id)),
            ("lanes"@, array_text(texts)),
            ("previous_id"@, json_string(self@.reg.previous_id)),
            ("revision"@, decimal(self@.revision as nat)),
        ]);
        json_response(200, object_of(&fields))
    }

    /// The deliveries that wait for the active lane.
    pub fn get_pending(&self, relay: &RelayState) -> (r: Response)
        requires
            self@.reg.lanes.len() > 0,
        ensures
            r@ == pending_answer(self@, relay@),
    {
        let id = self.reg.active().id.clone();
        let items = relay.pending_for(id.as_str());
        let ghost v = delivery_views(items@);
        assert(v.len() == items@.len());
        let mut fields: Vec<(&'static str, String)> = Vec::new();
        push_number(&mut fields, "count", items.len() as u64);
        let ghost before = field_views(fields@);
        fields.push(("items", handset_deliveries_text(&items)));
        assert(field_views(fields@) =~= before.push(("items"@, handset_deliveries(v))));
        push_text(&mut fields, "lane_id", id.as_str());
        push_number(&mut fields, "revision", self.registry_revision);
        assert(field_views(fields@) =~= seq![
            ("count"@, decimal(v.len())),
            ("items"@, handset_deliveries(v)),
            ("lane_id"@, json_string(id@)),
            ("revision"@, decimal(self@.revision as nat)),
        ]);
        json_response(200, object_of(&fields))
    }
}

/// A message that is refused takes no number.
pub proof fn law_refused_message_takes_no_number(d: DaemonView, relay: RelayView, body: JsonView)
    ensures
        message_turn(d, relay, body).1 is Done ==> message_turn(d, relay, body).0 == d,
        message_turn(d, relay, body).1 is Push ==> message_turn(d, relay, body).0.msg_seq
            == d.msg_seq + 1,
{
}

} // verus!
