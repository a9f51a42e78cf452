use serde_json::Value;
use telepathy::relay::actions::{outbound_result_bytes, retired_outbound_result_bytes};
use telepathy::relay::errors::RelayError;
use telepathy::relay::inbound::{message_event, InboundAckResult};
use telepathy::relay::records::RetiredOutboundResult;
use telepathy::relay::replies::capability_descriptor;
use telepathy::relay::results::append_retired_outbound_result;
use telepathy::relay::state::{
    RelayState, DEV_GATEWAY_ID, INBOUND_HANDOFF_VERSION, MAX_OUTBOUND_OPERATION_BYTES,
    MAX_OUTBOUND_REQUEST_ID_BYTES, MAX_OUTBOUND_RESULTS, MAX_OUTBOUND_RESULT_LEDGER_BYTES,
    MAX_RETIRED_OUTBOUND_RESULTS, MAX_RETIRED_OUTBOUND_RESULT_BYTES, OUTBOUND_RESULT_RETENTION_MS,
};
use telepathy::text::truncate;
use telepathy::value::{read_json, Json};

const NOW: u64 = 1_700_000_000_000;
const ARRIVED: u64 = 1_700_000_000;
const SUCCESS: &str = r#"{"success":true}"#;

fn parsed(text: &str) -> Value {
    serde_json::from_str(text).unwrap()
}

fn answer(state: &mut RelayState, raw: &str) -> Option<String> {
    state.handle_gateway_frame(raw, NOW, ARRIVED)
}

fn answer_for(state: &mut RelayState, gateway: &str, raw: &str) -> Value {
    parsed(
        &state
            .handle_gateway_frame_for_gateway(gateway, raw, NOW, ARRIVED)
            .unwrap(),
    )
}

fn operation(request: &str, op: &str) -> String {
    format!(r#"{{"type":"outbound","requestId":"{request}","action":{{"op":"{op}"}}}}"#)
}

fn confirmation(request: &str, result_id: u64) -> String {
    format!(r#"{{"type":"outbound_result_ack","requestId":"{request}","resultId":{result_id}}}"#)
}

#[test]
fn inbound_ack_malformed_unknown_and_stale_identities_do_not_mutate_queue() {
    let mut state = RelayState::default();
    state
        .enqueue_inbound("tp-safe", &read_json(r#"{"message_id":"tp-safe"}"#).unwrap())
        .unwrap();
    for raw in [
        r#"{"type":"inbound_ack"}"#,
        r#"{"type":"inbound_ack","messageId":"tp-safe","generation":0}"#,
        r#"{"type":"inbound_ack","messageId":"other","generation":1}"#,
        r#"not-json"#,
    ] {
        if let Some(reply) = answer(&mut state, raw) {
            assert_eq!(parsed(&reply)["result"]["success"], false);
        }
        assert_eq!(state.pending_inbound().len(), 1);
    }
}

#[test]
fn newer_handshake_supersedes_the_active_writer() {
    let mut state = RelayState::default();
    let first = state.begin_connection();
    assert!(state.activate_connection(first, DEV_GATEWAY_ID));
    assert!(state.is_active_connection(first));

    let second = state.begin_connection();
    assert!(!state.is_active_connection(first));

    // A socket that was queued behind its predecessor cannot become live
    // once a newer handshake has won the generation race.
    assert!(!state.activate_connection(first, DEV_GATEWAY_ID));

    assert!(state.activate_connection(second, DEV_GATEWAY_ID));
    assert!(state.is_active_connection(second));
}

#[test]
fn duplicate_outbound_request_id_returns_original_result_without_second_delivery() {
    let mut state = RelayState::default();
    let first = answer(
        &mut state,
        r#"{"type":"outbound","requestId":"req-duplicate","action":{"op":"send","chat_id":"telepathy:direct","content":"first"}}"#,
    )
    .unwrap();
    let retry = answer(
        &mut state,
        r#"{"type":"outbound","requestId":"req-duplicate","action":{"op":"send","chat_id":"telepathy:direct","content":" \t\n"}}"#,
    )
    .unwrap();

    assert_eq!(retry, first);
    let pending = state.pending_for("telepathy:direct");
    assert_eq!(pending.len(), 1);
    assert_eq!(pending[0].content, "first");
    assert_eq!(state.outbound_results.len(), 1);
}

#[test]
fn oversized_unknown_operation_is_rejected_before_result_ledger_insertion() {
    let mut state = RelayState::default();
    let oversized_op = "x".repeat(MAX_OUTBOUND_OPERATION_BYTES + 1);
    let reply = parsed(
        &answer(&mut state, &operation("req-oversized-op", &oversized_op)).unwrap(),
    );

    assert_eq!(reply["result"]["success"], false);
    assert_eq!(reply["result"]["error"], "op exceeds maximum length");
    assert!(reply.get("resultId").is_none());
    assert!(state.outbound_results.is_empty());
}

#[test]
fn outbound_result_byte_limit_rejects_before_mutating_ledger() {
    let mut state = RelayState::default();
    let oversized_result = format!(
        r#"{{"error":"{}","success":false}}"#,
        "x".repeat(MAX_OUTBOUND_RESULT_LEDGER_BYTES)
    );
    let result = state
        .record_outbound_result(
            DEV_GATEWAY_ID,
            "req-result-byte-limit",
            &oversized_result,
            NOW,
        )
        .unwrap();

    let value = parsed(&result.result);
    assert_eq!(value["success"], false);
    assert_eq!(value["error"], "durable request ledger byte limit reached");
    assert!(result.result_id.is_none());
    assert!(state.outbound_results.is_empty());
    assert_eq!(state.next_outbound_result_id, 0);
}

#[test]
fn consumed_delivery_does_not_release_outbound_request_result() {
    let mut state = RelayState::default();
    let first = answer(
        &mut state,
        r#"{"type":"outbound","requestId":"req-after-consume","action":{"op":"send","chat_id":"telepathy:direct","content":"speak once"}}"#,
    )
    .unwrap();

    let (spoken, _) = state
        .deliveries_after(0, true, Some("telepathy:direct"), None, None)
        .unwrap();
    assert_eq!(spoken.len(), 1);
    assert_eq!(spoken[0].content, "speak once");
    assert!(state.pending_for("telepathy:direct").is_empty());

    let retry = answer(
        &mut state,
        r#"{"type":"outbound","requestId":"req-after-consume","action":{"op":"send","chat_id":"telepathy:direct","content":"must not speak twice"}}"#,
    )
    .unwrap();

    assert_eq!(retry, first);
    assert!(state.pending_for("telepathy:direct").is_empty());
    assert_eq!(state.outbound_results.len(), 1);
}

#[test]
fn gateway_result_namespace_prevents_cross_gateway_observe_or_retire() {
    let mut state = RelayState::default();
    let request = "shared-request-id";
    let gateway_a = "gateway-a";
    let gateway_b = "gateway-b";

    let a_reply = answer_for(&mut state, gateway_a, &operation(request, "gateway-a-only"));
    let a_result_id = a_reply["resultId"].as_u64().unwrap();
    assert_eq!(a_reply["result"]["success"], false);
    assert_eq!(
        a_reply["result"]["error"],
        "op gateway-a-only not implemented"
    );

    // The same request ID is a new namespace entry for B, rather than a
    // retry of A's failed action.
    let b_reply = answer_for(&mut state, gateway_b, &operation(request, "typing"));
    let b_result_id = b_reply["resultId"].as_u64().unwrap();
    assert_eq!(b_reply["result"]["success"], true);
    assert_ne!(a_result_id, b_result_id);
    assert_eq!(state.outbound_results.len(), 2);

    // B cannot retire A's live generation. A's first result remains
    // visible only in A's namespace and is returned on its retry.
    let b_wrong_ack = answer_for(&mut state, gateway_b, &confirmation(request, a_result_id));
    assert_eq!(b_wrong_ack["result"]["success"], false);
    assert_eq!(
        b_wrong_ack["result"]["error"],
        "resultId does not match outstanding request"
    );
    assert_eq!(state.outbound_results.len(), 2);

    let a_retry = answer_for(&mut state, gateway_a, &operation(request, "typing"));
    assert_eq!(
        a_retry["result"]["error"],
        "op gateway-a-only not implemented"
    );
    assert_eq!(a_retry["resultId"].as_u64(), Some(a_result_id));
}

#[test]
fn disconnected_gateway_results_are_abandoned_for_the_next_gateway() {
    let mut state = RelayState::default();
    let start = 1_000_000;
    for index in 0..MAX_OUTBOUND_RESULTS {
        state
            .record_outbound_result("gateway-a", &format!("a-{index}"), SUCCESS, start)
            .unwrap();
    }
    let b = state
        .record_outbound_result(
            "gateway-b",
            "b-after-a-disappeared",
            SUCCESS,
            start + OUTBOUND_RESULT_RETENTION_MS,
        )
        .unwrap();

    assert_eq!(b.result_id, Some(MAX_OUTBOUND_RESULTS as u64 + 1));
    assert_eq!(
        state
            .outbound_results
            .iter()
            .filter(|result| result.gateway_id == "gateway-a")
            .count(),
        0
    );
    assert_eq!(state.outbound_results.len(), 1);
    assert!(state
        .retired_outbound_results
        .iter()
        .all(|tombstone| tombstone.gateway_id == "gateway-a"));
    assert!(
        outbound_result_bytes(&state.outbound_results).unwrap() <= MAX_OUTBOUND_RESULT_LEDGER_BYTES
    );
    assert!(
        retired_outbound_result_bytes(&state.retired_outbound_results).unwrap()
            <= MAX_RETIRED_OUTBOUND_RESULT_BYTES
    );
}

#[test]
fn active_gateway_results_are_never_abandoned_for_another_identity() {
    let mut state = RelayState::default();
    let connection_id = state.begin_connection();
    assert!(state.activate_connection(connection_id, "gateway-a"));
    let start = 2_000_000;
    for index in 0..MAX_OUTBOUND_RESULTS {
        state
            .record_outbound_result("gateway-a", &format!("a-active-{index}"), SUCCESS, start)
            .unwrap();
    }
    let b = state
        .record_outbound_result(
            "gateway-b",
            "b-must-wait",
            SUCCESS,
            start + OUTBOUND_RESULT_RETENTION_MS,
        )
        .unwrap();

    assert_eq!(b.result_id, None);
    assert_eq!(parsed(&b.result)["error"], "durable request ledger full");
    assert_eq!(state.outbound_results.len(), MAX_OUTBOUND_RESULTS);
    assert!(state.retired_outbound_results.is_empty());
}

#[test]
fn clock_high_water_prevents_expiry_after_rollback() {
    let mut state = RelayState::default();
    let start = 4_000_000;
    state
        .record_outbound_result("gateway-a", "clock-safe", SUCCESS, start)
        .unwrap();
    assert_eq!(
        state.effective_clock_millis(start + OUTBOUND_RESULT_RETENTION_MS - 1),
        start + OUTBOUND_RESULT_RETENTION_MS - 1
    );
    let b = state
        .record_outbound_result("gateway-b", "clock-rollback", SUCCESS, start + 1)
        .unwrap();

    assert!(b.result_id.is_some());
    assert!(state
        .outbound_results
        .iter()
        .any(|result| result.gateway_id == "gateway-a"));
}

#[test]
fn result_retirement_reclaims_capacity_and_guards_request_id_reuse() {
    let mut state = RelayState::default();
    let mut retired_result_id = None;
    for index in 0..MAX_OUTBOUND_RESULTS {
        let reply = parsed(
            &answer(&mut state, &operation(&format!("typing-{index}"), "typing")).unwrap(),
        );
        assert_eq!(reply["result"]["success"], true);
        assert!(reply["resultId"].is_u64());
        if index == 0 {
            retired_result_id = reply["resultId"].as_u64();
        }
    }
    let retired_result_id = retired_result_id.unwrap();

    let overflow = parsed(
        &answer(
            &mut state,
            r#"{"type":"outbound","requestId":"send-after-ledger-full","action":{"op":"send","chat_id":"telepathy:direct","content":"must not queue"}}"#,
        )
        .unwrap(),
    );
    assert_eq!(overflow["result"]["success"], false);
    assert_eq!(overflow["result"]["error"], "durable request ledger full");
    assert!(state.pending_for("telepathy:direct").is_empty());
    assert_eq!(state.outbound_results.len(), MAX_OUTBOUND_RESULTS);

    let retired = parsed(
        &answer(&mut state, &confirmation("typing-0", retired_result_id)).unwrap(),
    );
    assert_eq!(retired["type"], "outbound_result_retired");
    assert_eq!(retired["result"]["success"], true);
    assert_eq!(retired["result"]["alreadyRetired"], false);
    assert_eq!(state.outbound_results.len(), MAX_OUTBOUND_RESULTS - 1);

    // The old request ID is reusable only after its matching result has
    // been durably retired. The new generation protects it from delayed
    // acknowledgements for the old action.
    let reused = parsed(&answer(&mut state, &operation("typing-0", "typing")).unwrap());
    let reused_result_id = reused["resultId"].as_u64().unwrap();
    assert_eq!(reused["result"]["success"], true);
    assert!(reused_result_id > retired_result_id);
    assert_eq!(state.outbound_results.len(), MAX_OUTBOUND_RESULTS);

    let delayed = parsed(
        &answer(&mut state, &confirmation("typing-0", retired_result_id)).unwrap(),
    );
    assert_eq!(delayed["result"]["success"], false);
    assert_eq!(
        delayed["result"]["error"],
        "resultId does not match outstanding request"
    );
    assert_eq!(
        state
            .outbound_result_for_request(DEV_GATEWAY_ID, "typing-0")
            .unwrap()
            .result_id,
        reused_result_id
    );
}

#[test]
fn retired_outbound_tombstones_evict_oldest_entries_at_the_byte_bound() {
    let mut tombstones = Vec::new();
    let attempts = MAX_RETIRED_OUTBOUND_RESULTS as u64 * 2;
    for result_id in 1..=attempts {
        let prefix = format!("retired-byte-{result_id:020}-");
        let request_id = format!(
            "{prefix}{}",
            "x".repeat(MAX_OUTBOUND_REQUEST_ID_BYTES - prefix.len())
        );
        assert_eq!(request_id.len(), MAX_OUTBOUND_REQUEST_ID_BYTES);
        append_retired_outbound_result(
            &mut tombstones,
            RetiredOutboundResult {
                gateway_id: DEV_GATEWAY_ID.into(),
                request_id,
                result_id,
            },
        )
        .unwrap();
    }

    assert!(tombstones.len() < MAX_RETIRED_OUTBOUND_RESULTS);
    assert!(tombstones.first().unwrap().result_id > 1);
    assert_eq!(tombstones.last().unwrap().result_id, attempts);
    assert!(
        retired_outbound_result_bytes(&tombstones).unwrap() <= MAX_RETIRED_OUTBOUND_RESULT_BYTES
    );
}

#[test]
fn consuming_one_lane_preserves_other_lane_deliveries() {
    let mut state = RelayState::default();
    state
        .queue_delivery("telepathy:direct", "direct reply")
        .unwrap();
    state.queue_delivery("telepathy:repo:x", "x reply").unwrap();

    let (picked, latest) = state
        .deliveries_after(0, true, Some("telepathy:direct"), None, None)
        .unwrap();
    assert_eq!(picked.len(), 1);
    assert_eq!(latest, 2);
    assert_eq!(state.pending_count("telepathy:direct"), 0);
    assert_eq!(state.pending_count("telepathy:repo:x"), 1);
}

#[test]
fn exact_pending_consume_preserves_unspoken_correlated_and_generic_rows() {
    let mut state = RelayState::default();
    let spoken = state
        .queue_delivery("telepathy:direct", "spoken generic reply")
        .unwrap();
    let receipt_owned = state
        .queue_gateway_delivery(
            "telepathy:direct",
            "receipt-owned correlated reply",
            Some("tp-owned"),
        )
        .unwrap();
    let unspoken_generic = state
        .queue_delivery("telepathy:direct", "unspoken generic reply")
        .unwrap();

    assert_eq!(
        state
            .consume_lane_sequences("telepathy:direct", &[spoken])
            .unwrap(),
        1
    );
    let pending = state.pending_for("telepathy:direct");
    assert_eq!(pending.len(), 2);
    assert_eq!(pending[0].seq, receipt_owned);
    assert_eq!(pending[0].reply_to.as_deref(), Some("tp-owned"));
    assert_eq!(pending[1].seq, unspoken_generic);
}

#[test]
fn bounded_reply_ack_preserves_later_reply_for_the_same_request() {
    let mut state = RelayState::default();
    let first = state
        .queue_gateway_delivery("telepathy:direct", "first", Some("tp-1"))
        .unwrap();
    let second = state
        .queue_gateway_delivery("telepathy:direct", "second", Some("tp-1"))
        .unwrap();

    let (spoken, _) = state
        .deliveries_after(0, true, Some("telepathy:direct"), Some("tp-1"), Some(first))
        .unwrap();
    assert_eq!(spoken.len(), 1);
    assert_eq!(spoken[0].seq, first);
    assert_eq!(state.pending_for("telepathy:direct")[0].seq, second);
}

#[test]
fn uncorrelated_gateway_delivery_stays_pending() {
    let mut state = RelayState::default();
    let _ = state.register_request("telepathy:direct", "tp-1");
    state
        .queue_gateway_delivery("telepathy:direct", "cron", None)
        .unwrap();

    let (synchronous, _) = state
        .deliveries_after(0, false, Some("telepathy:direct"), Some("tp-1"), None)
        .unwrap();
    assert!(synchronous.is_empty());
    assert_eq!(state.pending_for("telepathy:direct")[0].content, "cron");

    let mut single = RelayState::default();
    let _ = single.register_request("telepathy:direct", "tp-3");
    single
        .queue_gateway_delivery("telepathy:direct", "reply", Some("tp-3"))
        .unwrap();
    let (reply, _) = single
        .deliveries_after(0, false, Some("telepathy:direct"), Some("tp-3"), None)
        .unwrap();
    assert_eq!(reply[0].content, "reply");
}

#[test]
fn truncation_never_splits_utf8() {
    let text = "🧠".repeat(100);
    let shortened = truncate(&text);
    assert!(shortened.len() <= 120);
    assert!(shortened.is_char_boundary(shortened.len()));
}

#[test]
fn descriptor_matches_contract_fields() {
    let d = parsed(&capability_descriptor().to_text());
    assert_eq!(d["contract_version"], 3);
    assert_eq!(d["platform"], "relay");
    assert_eq!(d["markdown_dialect"], "plain");
    assert_eq!(d["supports_edit"], false);
    assert_eq!(d["outbound_result_ack_required"], true);
    assert_eq!(d["outbound_result_ack_type"], "outbound_result_ack");
    assert_eq!(d["inbound_handoff_version"], INBOUND_HANDOFF_VERSION);
    assert_eq!(d["inbound_ack_required"], true);
    assert_eq!(d["inbound_ack_type"], "inbound_ack");
}

#[test]
fn message_event_payload_shape() {
    let ev = parsed(&message_event("telepathy:direct", "direct", "hello", 7).to_text());
    assert_eq!(ev["text"], "hello");
    assert_eq!(ev["source"]["platform"], "relay");
    assert_eq!(ev["source"]["chat_id"], "telepathy:direct");
    assert_eq!(ev["source"]["chat_type"], "dm");
    assert_eq!(ev["message_id"], "tp-7");
}

fn event(message_id: &str, text: &str) -> Json {
    read_json(&format!(
        r#"{{"message_id":"{message_id}","text":"{text}","source":{{"chat_id":"telepathy:direct"}}}}"#
    ))
    .unwrap()
}

#[test]
fn a_queued_turn_goes_only_once_and_is_acknowledged_exactly() {
    let mut state = RelayState::default();
    let (first, new) = state.enqueue_inbound("tp-1", &event("tp-1", "hi")).unwrap();
    assert!(new);
    assert_eq!(first.generation, 1);
    let (again, new) = state.enqueue_inbound("tp-1", &event("tp-1", "hi")).unwrap();
    assert!(!new);
    assert_eq!(again, first);
    assert_eq!(
        state.enqueue_inbound("tp-1", &event("tp-1", "other")),
        Err(RelayError::MessageIdConflict)
    );
    assert_eq!(
        state.acknowledge_inbound("tp-1", 2),
        Err(RelayError::InboundAckMismatch)
    );
    assert_eq!(state.pending_inbound_count(), 1);
    assert_eq!(
        state.acknowledge_inbound("tp-1", 1),
        Ok(InboundAckResult::Acknowledged)
    );
    assert_eq!(state.pending_inbound_count(), 0);
    assert_eq!(
        state.acknowledge_inbound("tp-1", 1),
        Ok(InboundAckResult::AlreadyAcknowledged)
    );
    let (later, new) = state.enqueue_inbound("tp-2", &event("tp-2", "hi")).unwrap();
    assert!(new);
    assert_eq!(later.generation, 2);
}

#[test]
fn a_turn_needs_a_gateway_and_a_lane() {
    let mut state = RelayState::default();
    assert_eq!(
        state.push_inbound(&event("tp-1", "hi")),
        Err(RelayError::NoGateway)
    );
    let connection = state.begin_connection();
    assert!(state.activate_connection(connection, "gateway-a"));
    assert_eq!(state.active_gateway_id(), Some("gateway-a".to_string()));
    assert_eq!(
        state.push_inbound_with_request("bad lane", &event("tp-1", "hi")),
        Err(RelayError::RequestLane)
    );
    assert_eq!(
        state.push_inbound(&read_json(r#"{"text":"hi"}"#).unwrap()),
        Err(RelayError::MissingMessageId)
    );
    assert_eq!(
        state.push_inbound(
            &read_json(r#"{"message_id":"tp-1","source":{"chat_id":"bad lane"}}"#).unwrap()
        ),
        Err(RelayError::EventLaneInvalid)
    );
    assert_eq!(
        state.push_inbound(
            &read_json(r#"{"message_id":"tp-1","source":{"chat_id":7}}"#).unwrap()
        ),
        Err(RelayError::EventLaneNotText)
    );
    let (turn, new) = state
        .push_inbound_with_request("telepathy:direct", &event("tp-1", "hi"))
        .unwrap();
    assert!(new);
    assert_eq!(turn.message_id, "tp-1");
    assert_eq!(state.pending_request_count(), 1);
    assert_eq!(
        state.take_specific_request("telepathy:direct", "tp-1"),
        Some("tp-1".to_string())
    );
    assert_eq!(state.take_specific_request("telepathy:direct", "tp-1"), None);
    state.clear_outbound_if(connection);
    assert!(!state.is_active_connection(connection));
}

#[test]
fn a_delivery_names_its_arrival_and_bounds_its_content() {
    let mut state = RelayState::default();
    assert_eq!(state.queue_delivery_at("telepathy:direct", "x", 77), Ok(1));
    assert_eq!(state.pending_for("telepathy:direct")[0].arrived_at, 77);
    assert_eq!(
        state.queue_delivery_at("telepathy:direct", &"x".repeat(524_289), 77),
        Err(RelayError::ContentTooLarge)
    );
    assert_eq!(
        state.queue_delivery_at("bad lane", "x", 77),
        Err(RelayError::LaneGrammar)
    );
    assert_eq!(
        state.queue_gateway_delivery_at("telepathy:direct", "x", Some(" "), 77),
        Err(RelayError::ReplyToBlank)
    );
    assert_eq!(state.delivery_head(), Ok(1));
}

#[test]
fn the_queue_refuses_what_does_not_fit() {
    let mut state = RelayState::default();
    for _ in 0..200 {
        state.queue_delivery_at("telepathy:direct", "x", 1).unwrap();
    }
    assert_eq!(
        state.queue_delivery_at("telepathy:direct", "x", 1),
        Err(RelayError::QueueFull)
    );
    let mut bytes = RelayState::default();
    let large = "x".repeat(524_288);
    for _ in 0..15 {
        bytes.queue_delivery_at("telepathy:direct", &large, 1).unwrap();
    }
    assert_eq!(
        bytes.queue_delivery_at("telepathy:direct", &large, 1),
        Err(RelayError::QueueByteLimit)
    );
    let mut last = RelayState::default();
    last.next_seq = 9_007_199_254_740_991;
    assert_eq!(
        last.queue_delivery_at("telepathy:direct", "x", 1),
        Err(RelayError::SequenceExhausted)
    );
}

#[test]
fn sequences_to_consume_are_checked_first() {
    let mut state = RelayState::default();
    state.queue_delivery_at("telepathy:direct", "x", 1).unwrap();
    assert_eq!(
        state.consume_lane_sequences("telepathy:direct", &[]),
        Err(RelayError::NoSequence)
    );
    assert_eq!(
        state.consume_lane_sequences("telepathy:direct", &[0]),
        Err(RelayError::ZeroSequence)
    );
    assert_eq!(
        state.consume_lane_sequences("telepathy:direct", &[1, 1]),
        Err(RelayError::DuplicateSequence)
    );
    assert_eq!(
        state.consume_lane_sequences("telepathy:direct", &[9_007_199_254_740_992]),
        Err(RelayError::SequenceBoundary)
    );
    assert_eq!(state.pending_count("telepathy:direct"), 1);
    assert_eq!(
        state.deliveries_after(9_007_199_254_740_992, false, None, None, None),
        Err(RelayError::AfterBoundary)
    );
    assert_eq!(
        state.deliveries_after(0, false, None, None, Some(9_007_199_254_740_992)),
        Err(RelayError::ThroughBoundary)
    );
}
