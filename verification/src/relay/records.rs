//! The records that the relay keeps, their values, and their JSON texts.
use vstd::prelude::*;

use crate::json::{
    field_views, json_string, object_of, object_text, optional_text, push_number,
    push_optional_text, push_text,
};
use crate::text::{decimal, decimal_text, opt_view, views};

verus! {

/// The text of an optional number, `null` where there is none.
pub open spec fn number_or_null(n: Option<u64>) -> Seq<char> {
    match n {
        Some(n) => decimal(n as nat),
        None => "null"@,
    }
}

/// A reply that the gateway sent for a lane, waiting for the handset.
#[derive(Debug, PartialEq)]
pub struct Delivery {
    pub seq: u64,
    pub chat_id: String,
    pub content: String,
    pub reply_to: Option<String>,
    /// Epoch seconds when the delivery was queued; the handset speaks its age from
    /// this.
    pub arrived_at: u64,
}

/// A `Delivery` as a value.
#[verifier::ext_equal]
pub struct DeliveryView {
    pub seq: u64,
    pub chat_id: Seq<char>,
    pub content: Seq<char>,
    pub reply_to: Option<Seq<char>>,
    pub arrived_at: u64,
}

impl View for Delivery {
    type V = DeliveryView;

    open spec fn view(&self) -> DeliveryView {
        DeliveryView {
            seq: self.seq,
            chat_id: self.chat_id@,
            content: self.content@,
            reply_to: opt_view(self.reply_to),
            arrived_at: self.arrived_at,
        }
    }
}

impl Clone for Delivery {
    fn clone(&self) -> (r: Self)
        ensures
            r@ == self@,
    {
        Delivery {
            seq: self.seq,
            chat_id: self.chat_id.clone(),
            content: self.content.clone(),
            reply_to: self.reply_to.clone(),
            arrived_at: self.arrived_at,
        }
    }
}

/// The values of a run of `Delivery` records.
pub open spec fn delivery_views(v: Seq<Delivery>) -> Seq<DeliveryView> {
    Seq::new(v.len(), |i: int| v[i]@)
}

/// The members of the record's JSON object.
pub open spec fn delivery_members(r: DeliveryView) -> Seq<(Seq<char>, Seq<char>)> {
    seq![
        ("seq"@, decimal(r.seq as nat)),
        ("chat_id"@, json_string(r.chat_id)),
        ("content"@, json_string(r.content)),
    ] + optional_text("reply_to"@, r.reply_to) + seq![
        ("arrived_at"@, decimal(r.arrived_at as nat)),
    ]
}

/// The record as a JSON text.
pub open spec fn delivery_json(r: DeliveryView) -> Seq<char> {
    object_text(delivery_members(r))
}

/// The JSON texts of a run of records.
pub open spec fn delivery_jsons(v: Seq<DeliveryView>) -> Seq<Seq<char>> {
    Seq::new(v.len(), |i: int| delivery_json(v[i]))
}

/// The record as a JSON text.
pub fn delivery_text(r: &Delivery) -> (t: String)
    ensures
        t@ == delivery_json(r@),
{
    let mut fields: Vec<(&'static str, String)> = Vec::new();
    push_number(&mut fields, "seq", r.seq);
    push_text(&mut fields, "chat_id", r.chat_id.as_str());
    push_text(&mut fields, "content", r.content.as_str());
    push_optional_text(&mut fields, "reply_to", &r.reply_to);
    push_number(&mut fields, "arrived_at", r.arrived_at);
    assert(field_views(fields@) =~= delivery_members(r@));
    object_of(&fields)
}

/// The JSON texts of a run of records.
pub fn delivery_texts(v: &Vec<Delivery>) -> (t: Vec<String>)
    ensures
        views(t@) == delivery_jsons(delivery_views(v@)),
{
    let mut out: Vec<String> = Vec::new();
    for i in 0..v.len()
        invariant
            views(out@) == delivery_jsons(delivery_views(v@)).take(i as int),
    {
        let t = delivery_text(&v[i]);
        let ghost before = out@;
        let ghost last = t@;
        out.push(t);
        assert(views(out@) =~= views(before).push(last));
        assert(views(out@) =~= delivery_jsons(delivery_views(v@)).take(i + 1));
    }
    assert(views(out@) =~= delivery_jsons(delivery_views(v@)));
    out
}

/// The durable response to a gateway action. It stays until the gateway confirms
/// that it received it, so that a retry finds the first response.
#[derive(Debug, PartialEq)]
pub struct OutboundResult {
    /// Request identifiers are unique within one gateway.
    pub gateway_id: String,
    pub request_id: String,
    pub result_id: u64,
    /// The response as a JSON text.
    pub result: String,
    /// The delivery that a successful send created.
    pub delivery_seq: Option<u64>,
    /// When the response was made.
    pub last_seen_at_ms: u64,
}

/// A `OutboundResult` as a value.
#[verifier::ext_equal]
pub struct OutboundResultView {
    pub gateway_id: Seq<char>,
    pub request_id: Seq<char>,
    pub result_id: u64,
    pub result: Seq<char>,
    pub delivery_seq: Option<u64>,
    pub last_seen_at_ms: u64,
}

impl View for OutboundResult {
    type V = OutboundResultView;

    open spec fn view(&self) -> OutboundResultView {
        OutboundResultView {
            gateway_id: self.gateway_id@,
            request_id: self.request_id@,
            result_id: self.result_id,
            result: self.result@,
            delivery_seq: self.delivery_seq,
            last_seen_at_ms: self.last_seen_at_ms,
        }
    }
}

impl Clone for OutboundResult {
    fn clone(&self) -> (r: Self)
        ensures
            r@ == self@,
    {
        OutboundResult {
            gateway_id: self.gateway_id.clone(),
            request_id: self.request_id.clone(),
            result_id: self.result_id,
            result: self.result.clone(),
            delivery_seq: self.delivery_seq,
            last_seen_at_ms: self.last_seen_at_ms,
        }
    }
}

/// The values of a run of `OutboundResult` records.
pub open spec fn result_views(v: Seq<OutboundResult>) -> Seq<OutboundResultView> {
    Seq::new(v.len(), |i: int| v[i]@)
}

/// The members of the record's JSON object.
pub open spec fn result_members(r: OutboundResultView) -> Seq<(Seq<char>, Seq<char>)> {
    seq![
        ("gateway_id"@, json_string(r.gateway_id)),
        ("request_id"@, json_string(r.request_id)),
        ("result_id"@, decimal(r.result_id as nat)),
        ("result"@, r.result),
        ("delivery_seq"@, number_or_null(r.delivery_seq)),
        ("last_seen_at_ms"@, decimal(r.last_seen_at_ms as nat)),
    ]
}

/// The record as a JSON text.
pub open spec fn result_json(r: OutboundResultView) -> Seq<char> {
    object_text(result_members(r))
}

/// The JSON texts of a run of records.
pub open spec fn result_jsons(v: Seq<OutboundResultView>) -> Seq<Seq<char>> {
    Seq::new(v.len(), |i: int| result_json(v[i]))
}

/// The record as a JSON text.
pub fn result_text(r: &OutboundResult) -> (t: String)
    ensures
        t@ == result_json(r@),
{
    let mut fields: Vec<(&'static str, String)> = Vec::new();
    push_text(&mut fields, "gateway_id", r.gateway_id.as_str());
    push_text(&mut fields, "request_id", r.request_id.as_str());
    push_number(&mut fields, "result_id", r.result_id);
    let ghost before = field_views(fields@);
    fields.push(("result", r.result.clone()));
    assert(field_views(fields@) =~= before.push(("result"@, r.result@)));
    let delivery_seq = match r.delivery_seq {
        Some(n) => decimal_text(n as u128),
        None => "null".to_string(),
    };
    let ghost before = field_views(fields@);
    fields.push(("delivery_seq", delivery_seq));
    assert(field_views(fields@) =~= before.push(("delivery_seq"@, number_or_null(r.delivery_seq))));
    push_number(&mut fields, "last_seen_at_ms", r.last_seen_at_ms);
    assert(field_views(fields@) =~= result_members(r@));
    object_of(&fields)
}

/// The JSON texts of a run of records.
pub fn result_texts(v: &Vec<OutboundResult>) -> (t: Vec<String>)
    ensures
        views(t@) == result_jsons(result_views(v@)),
{
    let mut out: Vec<String> = Vec::new();
    for i in 0..v.len()
        invariant
            views(out@) == result_jsons(result_views(v@)).take(i as int),
    {
        let t = result_text(&v[i]);
        let ghost before = out@;
        let ghost last = t@;
        out.push(t);
        assert(views(out@) =~= views(before).push(last));
        assert(views(out@) =~= result_jsons(result_views(v@)).take(i + 1));
    }
    assert(views(out@) =~= result_jsons(result_views(v@)));
    out
}

/// Proof that one exact receipt was retired.
#[derive(Debug, PartialEq)]
pub struct RetiredOutboundResult {
    pub gateway_id: String,
    pub request_id: String,
    pub result_id: u64,
}

/// A `RetiredOutboundResult` as a value.
#[verifier::ext_equal]
pub struct RetiredOutboundResultView {
    pub gateway_id: Seq<char>,
    pub request_id: Seq<char>,
    pub result_id: u64,
}

impl View for RetiredOutboundResult {
    type V = RetiredOutboundResultView;

    open spec fn view(&self) -> RetiredOutboundResultView {
        RetiredOutboundResultView {
            gateway_id: self.gateway_id@,
            request_id: self.request_id@,
            result_id: self.result_id,
        }
    }
}

impl Clone for RetiredOutboundResult {
    fn clone(&self) -> (r: Self)
        ensures
            r@ == self@,
    {
        RetiredOutboundResult {
            gateway_id: self.gateway_id.clone(),
            request_id: self.request_id.clone(),
            result_id: self.result_id,
        }
    }
}

/// The values of a run of `RetiredOutboundResult` records.
pub open spec fn retired_views(v: Seq<RetiredOutboundResult>) -> Seq<RetiredOutboundResultView> {
    Seq::new(v.len(), |i: int| v[i]@)
}

/// The members of the record's JSON object.
pub open spec fn retired_members(r: RetiredOutboundResultView) -> Seq<(Seq<char>, Seq<char>)> {
    seq![
        ("gateway_id"@, json_string(r.gateway_id)),
        ("request_id"@, json_string(r.request_id)),
        ("result_id"@, decimal(r.result_id as nat)),
    ]
}

/// The record as a JSON text.
pub open spec fn retired_json(r: RetiredOutboundResultView) -> Seq<char> {
    object_text(retired_members(r))
}

/// The JSON texts of a run of records.
pub open spec fn retired_jsons(v: Seq<RetiredOutboundResultView>) -> Seq<Seq<char>> {
    Seq::new(v.len(), |i: int| retired_json(v[i]))
}

/// The record as a JSON text.
pub fn retired_text(r: &RetiredOutboundResult) -> (t: String)
    ensures
        t@ == retired_json(r@),
{
    let mut fields: Vec<(&'static str, String)> = Vec::new();
    push_text(&mut fields, "gateway_id", r.gateway_id.as_str());
    push_text(&mut fields, "request_id", r.request_id.as_str());
    push_number(&mut fields, "result_id", r.result_id);
    assert(field_views(fields@) =~= retired_members(r@));
    object_of(&fields)
}

/// The JSON texts of a run of records.
pub fn retired_texts(v: &Vec<RetiredOutboundResult>) -> (t: Vec<String>)
    ensures
        views(t@) == retired_jsons(retired_views(v@)),
{
    let mut out: Vec<String> = Vec::new();
    for i in 0..v.len()
        invariant
            views(out@) == retired_jsons(retired_views(v@)).take(i as int),
    {
        let t = retired_text(&v[i]);
        let ghost before = out@;
        let ghost last = t@;
        out.push(t);
        assert(views(out@) =~= views(before).push(last));
        assert(views(out@) =~= retired_jsons(retired_views(v@)).take(i + 1));
    }
    assert(views(out@) =~= retired_jsons(retired_views(v@)));
    out
}

/// An inbound message whose reply is awaited.
#[derive(Debug, PartialEq)]
pub struct PendingRequest {
    pub lane_id: String,
    pub message_id: String,
}

/// A `PendingRequest` as a value.
#[verifier::ext_equal]
pub struct PendingRequestView {
    pub lane_id: Seq<char>,
    pub message_id: Seq<char>,
}

impl View for PendingRequest {
    type V = PendingRequestView;

    open spec fn view(&self) -> PendingRequestView {
        PendingRequestView {
            lane_id: self.lane_id@,
            message_id: self.message_id@,
        }
    }
}

impl Clone for PendingRequest {
    fn clone(&self) -> (r: Self)
        ensures
            r@ == self@,
    {
        PendingRequest {
            lane_id: self.lane_id.clone(),
            message_id: self.message_id.clone(),
        }
    }
}

/// The values of a run of `PendingRequest` records.
pub open spec fn request_views(v: Seq<PendingRequest>) -> Seq<PendingRequestView> {
    Seq::new(v.len(), |i: int| v[i]@)
}

/// An inbound voice turn that waits for the gateway's acknowledgement.
#[derive(Debug, PartialEq)]
pub struct InboundMessage {
    pub message_id: String,
    pub generation: u64,
    pub frame: String,
}

/// A `InboundMessage` as a value.
#[verifier::ext_equal]
pub struct InboundMessageView {
    pub message_id: Seq<char>,
    pub generation: u64,
    pub frame: Seq<char>,
}

impl View for InboundMessage {
    type V = InboundMessageView;

    open spec fn view(&self) -> InboundMessageView {
        InboundMessageView {
            message_id: self.message_id@,
            generation: self.generation,
            frame: self.frame@,
        }
    }
}

impl Clone for InboundMessage {
    fn clone(&self) -> (r: Self)
        ensures
            r@ == self@,
    {
        InboundMessage {
            message_id: self.message_id.clone(),
            generation: self.generation,
            frame: self.frame.clone(),
        }
    }
}

/// The values of a run of `InboundMessage` records.
pub open spec fn inbound_views(v: Seq<InboundMessage>) -> Seq<InboundMessageView> {
    Seq::new(v.len(), |i: int| v[i]@)
}

/// The members of the record's JSON object.
pub open spec fn inbound_members(r: InboundMessageView) -> Seq<(Seq<char>, Seq<char>)> {
    seq![
        ("message_id"@, json_string(r.message_id)),
        ("generation"@, decimal(r.generation as nat)),
        ("frame"@, json_string(r.frame)),
    ]
}

/// The record as a JSON text.
pub open spec fn inbound_json(r: InboundMessageView) -> Seq<char> {
    object_text(inbound_members(r))
}

/// The JSON texts of a run of records.
pub open spec fn inbound_jsons(v: Seq<InboundMessageView>) -> Seq<Seq<char>> {
    Seq::new(v.len(), |i: int| inbound_json(v[i]))
}

/// The record as a JSON text.
pub fn inbound_text(r: &InboundMessage) -> (t: String)
    ensures
        t@ == inbound_json(r@),
{
    let mut fields: Vec<(&'static str, String)> = Vec::new();
    push_text(&mut fields, "message_id", r.message_id.as_str());
    push_number(&mut fields, "generation", r.generation);
    push_text(&mut fields, "frame", r.frame.as_str());
    assert(field_views(fields@) =~= inbound_members(r@));
    object_of(&fields)
}

/// The JSON texts of a run of records.
pub fn inbound_texts(v: &Vec<InboundMessage>) -> (t: Vec<String>)
    ensures
        views(t@) == inbound_jsons(inbound_views(v@)),
{
    let mut out: Vec<String> = Vec::new();
    for i in 0..v.len()
        invariant
            views(out@) == inbound_jsons(inbound_views(v@)).take(i as int),
    {
        let t = inbound_text(&v[i]);
        let ghost before = out@;
        let ghost last = t@;
        out.push(t);
        assert(views(out@) =~= views(before).push(last));
        assert(views(out@) =~= inbound_jsons(inbound_views(v@)).take(i + 1));
    }
    assert(views(out@) =~= inbound_jsons(inbound_views(v@)));
    out
}

/// Proof that one exact inbound turn was acknowledged.
#[derive(Debug, PartialEq)]
pub struct InboundAckTombstone {
    pub message_id: String,
    pub generation: u64,
}

/// A `InboundAckTombstone` as a value.
#[verifier::ext_equal]
pub struct InboundAckTombstoneView {
    pub message_id: Seq<char>,
    pub generation: u64,
}

impl View for InboundAckTombstone {
    type V = InboundAckTombstoneView;

    open spec fn view(&self) -> InboundAckTombstoneView {
        InboundAckTombstoneView {
            message_id: self.message_id@,
            generation: self.generation,
        }
    }
}

impl Clone for InboundAckTombstone {
    fn clone(&self) -> (r: Self)
        ensures
            r@ == self@,
    {
        InboundAckTombstone {
            message_id: self.message_id.clone(),
            generation: self.generation,
        }
    }
}

/// The values of a run of `InboundAckTombstone` records.
pub open spec fn tombstone_views(v: Seq<InboundAckTombstone>) -> Seq<InboundAckTombstoneView> {
    Seq::new(v.len(), |i: int| v[i]@)
}

/// The members of the record's JSON object.
pub open spec fn tombstone_members(r: InboundAckTombstoneView) -> Seq<(Seq<char>, Seq<char>)> {
    seq![
        ("message_id"@, json_string(r.message_id)),
        ("generation"@, decimal(r.generation as nat)),
    ]
}

/// The record as a JSON text.
pub open spec fn tombstone_json(r: InboundAckTombstoneView) -> Seq<char> {
    object_text(tombstone_members(r))
}

/// The JSON texts of a run of records.
pub open spec fn tombstone_jsons(v: Seq<InboundAckTombstoneView>) -> Seq<Seq<char>> {
    Seq::new(v.len(), |i: int| tombstone_json(v[i]))
}

/// The record as a JSON text.
pub fn tombstone_text(r: &InboundAckTombstone) -> (t: String)
    ensures
        t@ == tombstone_json(r@),
{
    let mut fields: Vec<(&'static str, String)> = Vec::new();
    push_text(&mut fields, "message_id", r.message_id.as_str());
    push_number(&mut fields, "generation", r.generation);
    assert(field_views(fields@) =~= tombstone_members(r@));
    object_of(&fields)
}

/// The JSON texts of a run of records.
pub fn tombstone_texts(v: &Vec<InboundAckTombstone>) -> (t: Vec<String>)
    ensures
        views(t@) == tombstone_jsons(tombstone_views(v@)),
{
    let mut out: Vec<String> = Vec::new();
    for i in 0..v.len()
        invariant
            views(out@) == tombstone_jsons(tombstone_views(v@)).take(i as int),
    {
        let t = tombstone_text(&v[i]);
        let ghost before = out@;
        let ghost last = t@;
        out.push(t);
        assert(views(out@) =~= views(before).push(last));
        assert(views(out@) =~= tombstone_jsons(tombstone_views(v@)).take(i + 1));
    }
    assert(views(out@) =~= tombstone_jsons(tombstone_views(v@)));
    out
}

} // verus!
