//! Whole actions of a relay that keeps nothing on disk: every change stands at
//! once.
use vstd::prelude::*;

use crate::json::{array_bytes, count_array_bytes};
use crate::relay::deliveries::{
    next_delivery, valid_reply_to, validate_delivery_content, validate_reply_to,
};
use crate::relay::errors::RelayError;
use crate::relay::records::{
    delivery_jsons, delivery_texts, delivery_views, inbound_jsons, inbound_texts, inbound_views,
    result_jsons, result_texts, result_views, retired_jsons, retired_texts, retired_views,
    tombstone_jsons, tombstone_texts, tombstone_views, Delivery, InboundAckTombstone,
    InboundMessage, OutboundResult, RetiredOutboundResult,
};
use crate::relay::results::{
    after_record, after_retirement, after_send, answer_is, reclaimable, reclaimed, record_verdict,
    result_position, retirement, send_verdict, success_json, ticked, verdict_answer,
    ActionResultView, GatewayActionResult, ResultRetirement,
};
use crate::relay::state::{
    active_gateway, owns, RelayState, RelayView, MAX_DELIVERY_CONTENT_BYTES,
};
use crate::text::{opt_ref, opt_str_view, same_text, utf8_len};

verus! {

/// Why an action does not begin.
pub open spec fn action_refusal(s: RelayView, now_ms: u64, protected: Option<Seq<char>>) -> Option<
    RelayError,
> {
    let t = ticked(s, now_ms);
    if s.persistence_failure is Some {
        Some(RelayError::Unavailable)
    } else if !reclaimable(t.outbound_results, t.clock_high_water_ms, protected) {
        Some(RelayError::RetiredTooLarge)
    } else {
        None
    }
}

/// The state in which an action is admitted: the clock moved on, old responses
/// given up.
pub open spec fn ready(s: RelayView, now_ms: u64, protected: Option<Seq<char>>) -> RelayView {
    let t = ticked(s, now_ms);
    reclaimed(t, t.clock_high_water_ms, protected)
}

/// The state after an action that does not begin.
pub open spec fn not_begun(s: RelayView, now_ms: u64) -> RelayView {
    if s.persistence_failure is Some {
        s
    } else {
        ticked(s, now_ms)
    }
}

/// What is wrong with a send before it begins.
pub open spec fn send_fault(content: Seq<char>, reply_to: Option<Seq<char>>) -> Option<RelayError> {
    if utf8_len(content) > MAX_DELIVERY_CONTENT_BYTES {
        Some(RelayError::ContentTooLarge)
    } else if !valid_reply_to(reply_to) {
        Some(RelayError::ReplyToBlank)
    } else {
        None
    }
}

/// Whether an answer was given and has this value.
pub open spec fn some_answer_is(
    r: Result<Option<GatewayActionResult>, RelayError>,
    a: Result<ActionResultView, RelayError>,
) -> bool {
    match (r, a) {
        (Ok(Some(x)), Ok(y)) => x@ == y,
        (Err(x), Err(y)) => x == y,
        _ => false,
    }
}

/// What comes of a gateway's send, and what it is answered.
pub open spec fn send_turn(
    s: RelayView,
    gateway_id: Seq<char>,
    request_id: Seq<char>,
    chat_id: Seq<char>,
    content: Seq<char>,
    reply_to: Option<Seq<char>>,
    protected: Option<Seq<char>>,
    now_ms: u64,
    arrived_at: u64,
) -> (RelayView, Result<ActionResultView, RelayError>) {
    let t = ready(s, now_ms, protected);
    let d = next_delivery(t, chat_id, content, reply_to, arrived_at);
    match (send_fault(content, reply_to), action_refusal(s, now_ms, protected)) {
        (Some(e), _) => (s, Err(e)),
        (None, Some(e)) => (not_begun(s, now_ms), Err(e)),
        (None, None) => (
            after_send(t, gateway_id, request_id, d),
            verdict_answer(t, send_verdict(t, gateway_id, request_id, d), success_json()),
        ),
    }
}

/// What comes of an action that does nothing but answer.
pub open spec fn record_turn(
    s: RelayView,
    gateway_id: Seq<char>,
    request_id: Seq<char>,
    result: Seq<char>,
    protected: Option<Seq<char>>,
    now_ms: u64,
) -> (RelayView, Result<ActionResultView, RelayError>) {
    let t = ready(s, now_ms, protected);
    match action_refusal(s, now_ms, protected) {
        Some(e) => (not_begun(s, now_ms), Err(e)),
        None => (
            after_record(t, gateway_id, request_id, result),
            verdict_answer(t, record_verdict(t, gateway_id, request_id, result), result),
        ),
    }
}

impl RelayState {
    /// Queues the delivery of a gateway's send at `now_ms` and records its
    /// response. The protected gateway's responses are never given up for it.
    pub fn queue_gateway_delivery_for_request_with_protection(
        &mut self,
        gateway_id: &str,
        request_id: &str,
        chat_id: &str,
        content: &str,
        reply_to: Option<&str>,
        protected: Option<&str>,
        now_ms: u64,
        arrived_at: u64,
    ) -> (r: Result<GatewayActionResult, RelayError>)
        ensures
            ({
                let (after, answer) = send_turn(
                    old(self)@,
                    gateway_id@,
                    request_id@,
                    chat_id@,
                    content@,
                    opt_str_view(reply_to),
                    opt_str_view(protected),
                    now_ms,
                    arrived_at,
                );
                final(self)@ == after && answer_is(r, answer)
            }),
    {
        match validate_delivery_content(content) {
            Err(e) => {
                return Err(e);
            },
            Ok(_) => {},
        }
        match validate_reply_to(reply_to) {
            Err(e) => {
                return Err(e);
            },
            Ok(_) => {},
        }
        match self.begin_action(now_ms, protected) {
            Err(e) => {
                return Err(e);
            },
            Ok(_) => {},
        }
        match self.admit_send(gateway_id, request_id, chat_id, content, reply_to, arrived_at) {
            Ok(x) => Ok(x.answer),
            Err(e) => Err(e),
        }
    }

    /// Queues the delivery of a gateway's send; the connected gateway is
    /// protected.
    pub fn queue_gateway_delivery_for_request(
        &mut self,
        gateway_id: &str,
        request_id: &str,
        chat_id: &str,
        content: &str,
        reply_to: Option<&str>,
        now_ms: u64,
        arrived_at: u64,
    ) -> (r: Result<GatewayActionResult, RelayError>)
        ensures
            ({
                let (after, answer) = send_turn(
                    old(self)@,
                    gateway_id@,
                    request_id@,
                    chat_id@,
                    content@,
                    opt_str_view(reply_to),
                    active_gateway(old(self)@.connections),
                    now_ms,
                    arrived_at,
                );
                final(self)@ == after && answer_is(r, answer)
            }),
    {
        let active = self.active_gateway_id();
        self.queue_gateway_delivery_for_request_with_protection(
            gateway_id,
            request_id,
            chat_id,
            content,
            reply_to,
            opt_ref(&active),
            now_ms,
            arrived_at,
        )
    }

    /// Queues the delivery of a gateway's send, where the connection is in
    /// charge of its gateway.
    pub fn queue_gateway_delivery_for_request_if_active(
        &mut self,
        connection_id: u64,
        gateway_id: &str,
        request_id: &str,
        chat_id: &str,
        content: &str,
        reply_to: Option<&str>,
        now_ms: u64,
        arrived_at: u64,
    ) -> (r: Result<Option<GatewayActionResult>, RelayError>)
        ensures
            if owns(old(self)@.connections, connection_id, gateway_id@) {
                let (after, answer) = send_turn(
                    old(self)@,
                    gateway_id@,
                    request_id@,
                    chat_id@,
                    content@,
                    opt_str_view(reply_to),
                    Some(gateway_id@),
                    now_ms,
                    arrived_at,
                );
                final(self)@ == after && some_answer_is(r, answer)
            } else {
                r == Ok::<Option<GatewayActionResult>, RelayError>(None) && final(self)@ == old(
                    self,
                )@
            },
    {
        if !self.owns_gateway(connection_id, gateway_id) {
            return Ok(None);
        }
        match self.queue_gateway_delivery_for_request_with_protection(
            gateway_id,
            request_id,
            chat_id,
            content,
            reply_to,
            Some(gateway_id),
            now_ms,
            arrived_at,
        ) {
            Ok(x) => Ok(Some(x)),
            Err(e) => Err(e),
        }
    }

    /// Records the response of an action that does nothing else, at `now_ms`.
    pub fn record_outbound_result_with_protection(
        &mut self,
        gateway_id: &str,
        request_id: &str,
        result: &str,
        protected: Option<&str>,
        now_ms: u64,
    ) -> (r: Result<GatewayActionResult, RelayError>)
        ensures
            ({
                let (after, answer) = record_turn(
                    old(self)@,
                    gateway_id@,
                    request_id@,
                    result@,
                    opt_str_view(protected),
                    now_ms,
                );
                final(self)@ == after && answer_is(r, answer)
            }),
    {
        match self.begin_action(now_ms, protected) {
            Err(e) => {
                return Err(e);
            },
            Ok(_) => {},
        }
        match self.admit_record(gateway_id, request_id, result) {
            Ok(x) => Ok(x.answer),
            Err(e) => Err(e),
        }
    }

    /// Records the response of an action that does nothing else; the connected
    /// gateway is protected.
    pub fn record_outbound_result(
        &mut self,
        gateway_id: &str,
        request_id: &str,
        result: &str,
        now_ms: u64,
    ) -> (r: Result<GatewayActionResult, RelayError>)
        ensures
            ({
                let (after, answer) = record_turn(
                    old(self)@,
                    gateway_id@,
                    request_id@,
                    result@,
                    active_gateway(old(self)@.connections),
                    now_ms,
                );
                final(self)@ == after && answer_is(r, answer)
            }),
    {
        let active = self.active_gateway_id();
        self.record_outbound_result_with_protection(
            gateway_id,
            request_id,
            result,
            opt_ref(&active),
            now_ms,
        )
    }

    /// Records the response of an action that does nothing else, where the
    /// connection is in charge of its gateway.
    pub fn record_outbound_result_if_active(
        &mut self,
        connection_id: u64,
        gateway_id: &str,
        request_id: &str,
        result: &str,
        now_ms: u64,
    ) -> (r: Result<Option<GatewayActionResult>, RelayError>)
        ensures
            if owns(old(self)@.connections, connection_id, gateway_id@) {
                let (after, answer) = record_turn(
                    old(self)@,
                    gateway_id@,
                    request_id@,
                    result@,
                    Some(gateway_id@),
                    now_ms,
                );
                final(self)@ == after && some_answer_is(r, answer)
            } else {
                r == Ok::<Option<GatewayActionResult>, RelayError>(None) && final(self)@ == old(
                    self,
                )@
            },
    {
        if !self.owns_gateway(connection_id, gateway_id) {
            return Ok(None);
        }
        match self.record_outbound_result_with_protection(
            gateway_id,
            request_id,
            result,
            Some(gateway_id),
            now_ms,
        ) {
            Ok(x) => Ok(Some(x)),
            Err(e) => Err(e),
        }
    }

    /// Confirms a response, where the connection is in charge of its gateway.
    pub fn retire_outbound_result_if_active(
        &mut self,
        connection_id: u64,
        gateway_id: &str,
        request_id: &str,
        result_id: u64,
    ) -> (r: Result<Option<ResultRetirement>, RelayError>)
        ensures
            if owns(old(self)@.connections, connection_id, gateway_id@) {
                &&& r == (match retirement(old(self)@, gateway_id@, request_id@, result_id) {
                    Ok(x) => Ok::<Option<ResultRetirement>, RelayError>(Some(x)),
                    Err(e) => Err(e),
                })
                &&& final(self)@ == after_retirement(
                    old(self)@,
                    gateway_id@,
                    request_id@,
                    result_id,
                )
            } else {
                r == Ok::<Option<ResultRetirement>, RelayError>(None) && final(self)@ == old(self)@
            },
    {
        if !self.owns_gateway(connection_id, gateway_id) {
            return Ok(None);
        }
        match self.retire_outbound_result(gateway_id, request_id, result_id) {
            Ok(x) => Ok(Some(x)),
            Err(e) => Err(e),
        }
    }

    /// The response to a request, however old.
    pub fn outbound_result_for_request(&self, gateway_id: &str, request_id: &str) -> (r: Option<
        OutboundResult,
    >)
        ensures
            ({
                let p = result_position(
                    self@.outbound_results,
                    gateway_id@,
                    request_id@,
                    0,
                );
                match r {
                    Some(x) => p < self@.outbound_results.len() && x@ == self@.outbound_results[p],
                    None => p == self@.outbound_results.len(),
                }
            }),
    {
        let ghost all = self@.outbound_results;
        let mut i: usize = 0;
        while i < self.outbound_results.len()
            invariant
                all == self@.outbound_results,
                i <= all.len(),
                result_position(all, gateway_id@, request_id@, 0) == result_position(
                    all,
                    gateway_id@,
                    request_id@,
                    i as int,
                ),
            decreases all.len() - i,
        {
            let e = &self.outbound_results[i];
            assert(e@ == all[i as int]);
            if same_text(e.gateway_id.as_str(), gateway_id) && same_text(
                e.request_id.as_str(),
                request_id,
            ) {
                return Some(e.clone());
            }
            i = i + 1;
        }
        None
    }
}

// ---- sizes ----------------------------------------------------------------------

/// Whether a count of bytes is this one; a count that does not fit a machine
/// word is none.
pub open spec fn counts(r: Option<usize>, bytes: nat) -> bool {
    match r {
        Some(n) => n == bytes,
        None => bytes > usize::MAX,
    }
}

/// Bytes of the JSON array of these deliveries.
pub fn pending_delivery_bytes(v: &Vec<Delivery>) -> (r: Option<usize>)
    ensures
        counts(r, array_bytes(delivery_jsons(delivery_views(v@)))),
{
    let texts = delivery_texts(v);
    count_array_bytes(&texts)
}

/// Bytes of the JSON array of these responses.
pub fn outbound_result_bytes(v: &Vec<OutboundResult>) -> (r: Option<usize>)
    ensures
        counts(r, array_bytes(result_jsons(result_views(v@)))),
{
    let texts = result_texts(v);
    count_array_bytes(&texts)
}

/// Bytes of the JSON array of these traces.
pub fn retired_outbound_result_bytes(v: &Vec<RetiredOutboundResult>) -> (r: Option<usize>)
    ensures
        counts(r, array_bytes(retired_jsons(retired_views(v@)))),
{
    let texts = retired_texts(v);
    count_array_bytes(&texts)
}

/// Bytes of the JSON array of these turns.
pub fn inbound_message_bytes(v: &Vec<InboundMessage>) -> (r: Option<usize>)
    ensures
        counts(r, array_bytes(inbound_jsons(inbound_views(v@)))),
{
    let texts = inbound_texts(v);
    count_array_bytes(&texts)
}

/// Bytes of the JSON array of these traces.
pub fn inbound_tombstone_bytes(v: &Vec<InboundAckTombstone>) -> (r: Option<usize>)
    ensures
        counts(r, array_bytes(tombstone_jsons(tombstone_views(v@)))),
{
    let texts = tombstone_texts(v);
    count_array_bytes(&texts)
}

} // verus!
