use serde_json::Value;
use telepathy::daemon::delivery_api::{
    commit_relay_change, consume_pending, get_delivery, push_message, RelayProgress,
};
use telepathy::daemon::message_api::{head_response, DeliveryQuery, MessageStep};
use telepathy::daemon::meta_api::Fork;
use telepathy::daemon::responses::{Body, Response};
use telepathy::daemon::state::{recover_lanes, Daemon};
use telepathy::interactions::InteractionLedger;
use telepathy::lanes::{LaneRegistry, LaneRegistrySaveError};
use telepathy::relay::errors::RelayError;
use telepathy::relay::gateway::Progress;
use telepathy::relay::records::{
    InboundAckTombstone, OutboundResult, PendingRequest, RetiredOutboundResult,
};
use telepathy::relay::replies::descriptor_frame;
use telepathy::relay::session::{append_gateway_text, handshake_reply, next_gateway_line};
use telepathy::relay::snapshots::{
    is_valid_gateway_id, validate_delivery_snapshot, validate_outbound_result_snapshot,
    validate_pending_requests, SnapshotError,
};
use telepathy::relay::state::{
    RelayState, WriteOutcome, MAX_GATEWAY_ID_BYTES, MAX_INBOUND_LINE_BYTES,
    OUTBOUND_RESULT_RETENTION_MS,
};
use telepathy::transcript::TranscriptStore;
use telepathy::value::read_json;

const NOW: u64 = 1_700_000_000_000;
const ARRIVED: u64 = 1_700_000_000;
const SUCCESS: &str = r#"{"success":true}"#;

fn parsed(text: &str) -> Value {
    serde_json::from_str(text).unwrap()
}

fn send(request: &str, content: &str) -> String {
    format!(
        r#"{{"type":"outbound","requestId":"{request}","action":{{"op":"send","chat_id":"telepathy:direct","content":"{content}"}}}}"#
    )
}

fn connected(gateway: &str) -> (RelayState, u64) {
    let mut state = RelayState::default();
    let id = state.begin_connection();
    assert!(state.activate_connection(id, gateway));
    (state, id)
}

fn registry() -> LaneRegistry {
    LaneRegistry::default_direct_at("epoch-ms:1000")
}

fn begin(state: &mut RelayState, id: u64, raw: &str) -> Progress {
    state.begin_connection_frame(id, "gateway-a", raw, Some(&registry()), NOW, ARRIVED)
}

fn reply(progress: Progress) -> Option<Value> {
    match progress {
        Progress::Done(text) => text.map(|t| parsed(&t)),
        Progress::Write(_) => panic!("a write is not expected"),
    }
}

#[test]
fn a_send_is_answered_only_once_it_is_written() {
    let (mut state, id) = connected("gateway-a");
    let turn = match begin(&mut state, id, &send("r-1", "hi")) {
        Progress::Write(turn) => turn,
        Progress::Done(text) => panic!("{text:?}"),
    };
    assert!(!turn.writes_inbound());
    let answer = reply(state.resume_gateway_turn(turn, WriteOutcome::Committed, "")).unwrap();
    assert_eq!(answer["result"]["success"], true);
    assert_eq!(answer["resultId"], 1);
    assert_eq!(state.pending_for("telepathy:direct")[0].arrived_at, ARRIVED);
}

#[test]
fn a_send_that_was_not_written_leaves_no_trace() {
    let (mut state, id) = connected("gateway-a");
    let turn = match begin(&mut state, id, &send("r-1", "hi")) {
        Progress::Write(turn) => turn,
        Progress::Done(text) => panic!("{text:?}"),
    };
    let answer =
        reply(state.resume_gateway_turn(turn, WriteOutcome::NotReplaced, "disk full")).unwrap();
    assert_eq!(answer["result"]["success"], false);
    assert!(answer.get("resultId").is_none());
    assert!(state.deliveries.is_empty());
    assert!(state.outbound_results.is_empty());
    assert_eq!(state.next_seq, 0);
    assert_eq!(state.ensure_persistence_healthy(), Ok(()));
}

#[test]
fn an_uncertain_write_fences_the_relay() {
    let (mut state, id) = connected("gateway-a");
    let turn = match begin(&mut state, id, &send("r-1", "hi")) {
        Progress::Write(turn) => turn,
        Progress::Done(text) => panic!("{text:?}"),
    };
    let answer =
        reply(state.resume_gateway_turn(turn, WriteOutcome::Uncertain, "sync failed")).unwrap();
    assert_eq!(answer["result"]["success"], false);
    assert_eq!(state.pending_count("telepathy:direct"), 1);
    assert_eq!(
        state.ensure_persistence_healthy(),
        Err(RelayError::Unavailable)
    );
    assert_eq!(state.persistence_failure.as_deref(), Some("sync failed"));
    assert_eq!(
        state.queue_delivery_at("telepathy:direct", "later", 1),
        Err(RelayError::Unavailable)
    );
    let later = reply(begin(&mut state, id, &send("r-2", "later"))).unwrap();
    assert_eq!(later["result"]["success"], false);
}

#[test]
fn a_superseded_connection_does_nothing() {
    let (mut state, first) = connected("gateway-a");
    let second = state.begin_connection();
    assert!(reply(begin(&mut state, first, &send("r-1", "hi"))).is_none());
    assert!(state.deliveries.is_empty());
    assert!(state.activate_connection(second, "gateway-a"));
    assert_eq!(
        state.record_outbound_result_if_active(first, "gateway-a", "r", SUCCESS, NOW),
        Ok(None)
    );
    assert_eq!(
        state.retire_outbound_result_if_active(first, "gateway-a", "r", 1),
        Ok(None)
    );
    let recorded = state
        .record_outbound_result_if_active(second, "gateway-a", "r", SUCCESS, NOW)
        .unwrap()
        .unwrap();
    assert_eq!(recorded.result_id, Some(1));
    let sent = state
        .queue_gateway_delivery_for_request_if_active(
            second,
            "gateway-a",
            "s",
            "telepathy:direct",
            "hi",
            None,
            NOW,
            ARRIVED,
        )
        .unwrap()
        .unwrap();
    assert_eq!(sent.result_id, Some(2));
    assert_eq!(state.pending_count("telepathy:direct"), 1);
}

#[test]
fn a_send_to_a_lane_that_nobody_knows_is_refused() {
    let (mut state, id) = connected("gateway-a");
    let raw = send("r-1", "hi").replace("telepathy:direct", "telepathy:missing");
    let answer = reply(begin(&mut state, id, &raw)).unwrap();
    assert_eq!(answer["result"]["error"], "unknown lane telepathy:missing");
    let blind = state
        .handle_gateway_frame_for_connection(id, "gateway-a", &send("r-1", "hi"), None, NOW, ARRIVED)
        .unwrap();
    assert_eq!(
        parsed(&blind)["result"]["error"],
        "lane registry is unavailable"
    );
    assert!(state.outbound_results.is_empty());
}

#[test]
fn malformed_actions_are_answered_and_not_recorded() {
    let mut state = RelayState::default();
    for (raw, error) in [
        (
            r#"{"type":"outbound","action":{"op":"send"}}"#,
            "requestId is required",
        ),
        (
            r#"{"type":"outbound","requestId":"r","action":{"op":"send","content":"x"}}"#,
            "chat_id is required",
        ),
        (
            r#"{"type":"outbound","requestId":"r","action":{"op":"send","chat_id":"telepathy:direct","content":" "}}"#,
            "content is required",
        ),
        (
            r#"{"type":"outbound","requestId":"r","action":{"op":"send","chat_id":"telepathy:direct","content":"x","reply_to":" "}}"#,
            "reply_to must not be blank",
        ),
        (
            r#"{"type":"outbound_result_ack","requestId":"r"}"#,
            "resultId is required",
        ),
        (
            r#"{"type":"inbound_ack"}"#,
            "messageId is required",
        ),
        (
            r#"{"type":"inbound_ack","messageId":"m"}"#,
            "generation is required",
        ),
    ] {
        let answer = parsed(&state.handle_gateway_frame(raw, NOW, ARRIVED).unwrap());
        assert_eq!(answer["result"]["success"], false, "{raw}");
        assert_eq!(answer["result"]["error"], error, "{raw}");
    }
    assert!(state.outbound_results.is_empty());
    assert!(state.deliveries.is_empty());
    assert!(state
        .handle_gateway_frame(r#"{"type":"other"}"#, NOW, ARRIVED)
        .is_none());
    assert!(state.handle_gateway_frame("not json", NOW, ARRIVED).is_none());
}

#[test]
fn a_late_confirmation_spares_the_new_response() {
    let mut state = RelayState::default();
    let first = state
        .record_outbound_result("gateway-a", "r", SUCCESS, NOW)
        .unwrap();
    let old_id = first.result_id.unwrap();
    state.retire_outbound_result("gateway-a", "r", old_id).unwrap();
    let again = state
        .record_outbound_result("gateway-a", "r", SUCCESS, NOW)
        .unwrap();
    assert_eq!(
        state.retire_outbound_result("gateway-a", "r", old_id),
        Err(RelayError::ResultIdMismatch)
    );
    assert_eq!(
        state
            .live_outbound_result_for_request("gateway-a", "r", NOW)
            .unwrap()
            .result_id,
        again.result_id.unwrap()
    );
    assert!(state
        .live_outbound_result_for_request("gateway-b", "r", NOW)
        .is_none());
}

#[test]
fn an_expired_response_is_given_up_and_its_receipt_kept() {
    let mut state = RelayState::default();
    state
        .record_outbound_result("gateway-a", "r", SUCCESS, NOW)
        .unwrap();
    assert_eq!(
        state.reclaim_expired_outbound_results(NOW + OUTBOUND_RESULT_RETENTION_MS - 1, None),
        Ok(false)
    );
    assert_eq!(
        state.reclaim_expired_outbound_results(
            NOW + OUTBOUND_RESULT_RETENTION_MS,
            Some("gateway-a")
        ),
        Ok(false)
    );
    assert_eq!(
        state.reclaim_expired_outbound_results(NOW + OUTBOUND_RESULT_RETENTION_MS, None),
        Ok(true)
    );
    assert!(state.outbound_results.is_empty());
    assert_eq!(state.retired_outbound_results.len(), 1);
}

#[test]
fn a_restart_restores_what_was_written() {
    let (mut state, _) = connected("gateway-a");
    state
        .queue_gateway_delivery_for_request(
            "gateway-a",
            "r-1",
            "telepathy:direct",
            "hi",
            Some("tp-1"),
            NOW,
            ARRIVED,
        )
        .unwrap();
    state
        .push_inbound_with_request(
            "telepathy:direct",
            &read_json(r#"{"message_id":"tp-2","source":{"chat_id":"telepathy:direct"}}"#).unwrap(),
        )
        .unwrap();
    let mut fresh = RelayState::default();
    fresh
        .load_delivery_snapshot(state.delivery_snapshot().unwrap(), Some(&registry()))
        .unwrap();
    fresh.load_pending_requests(state.pending_requests.clone()).unwrap();
    fresh
        .load_inbound_snapshot(state.inbound_snapshot().unwrap())
        .unwrap();
    assert_eq!(fresh.deliveries, state.deliveries);
    assert_eq!(fresh.outbound_results, state.outbound_results);
    assert_eq!(fresh.inbound, state.inbound);
    assert_eq!(fresh.pending_requests, state.pending_requests);
    assert_eq!(fresh.next_seq, 1);
    assert_eq!(fresh.next_outbound_result_id, 1);
    assert_eq!(fresh.next_inbound_generation, 1);
    assert_eq!(fresh.clock_high_water_ms, NOW);
    assert!(fresh.connections.outbound.is_none());
    let retry = fresh
        .queue_gateway_delivery_for_request(
            "gateway-a",
            "r-1",
            "telepathy:direct",
            "again",
            None,
            NOW + 1,
            ARRIVED,
        )
        .unwrap();
    assert_eq!(retry.result_id, Some(1));
    assert_eq!(fresh.pending_count("telepathy:direct"), 1);
}

#[test]
fn snapshots_of_another_format_or_lane_are_refused() {
    let mut state = RelayState::default();
    state.queue_delivery_at("telepathy:lost", "x", 1).unwrap();
    let mut fresh = RelayState::default();
    assert!(matches!(
        fresh.load_delivery_snapshot(state.delivery_snapshot().unwrap(), Some(&registry())),
        Err(SnapshotError::UnknownLane(_))
    ));
    let mut old = state.delivery_snapshot().unwrap();
    old.version = 3;
    assert!(matches!(
        fresh.load_delivery_snapshot(old, None),
        Err(SnapshotError::DeliveryVersion(3))
    ));
    let mut inbound = state.inbound_snapshot().unwrap();
    inbound.version = 0;
    let error = fresh.load_inbound_snapshot(inbound).unwrap_err();
    assert!(matches!(error, SnapshotError::InboundVersion(0)));
    assert!(!error.message().is_empty());
    assert!(fresh.deliveries.is_empty());
}

fn relay_error(r: Result<(), SnapshotError>) -> Option<RelayError> {
    match r {
        Ok(()) => None,
        Err(SnapshotError::Relay(e)) => Some(e),
        Err(other) => panic!("{other:?}"),
    }
}

#[test]
fn each_fault_of_a_snapshot_has_its_name() {
    let mut state = RelayState::default();
    state.queue_delivery_at("telepathy:direct", "a", 1).unwrap();
    state.queue_delivery_at("telepathy:direct", "b", 1).unwrap();
    let good = state.deliveries.clone();
    assert_eq!(relay_error(validate_delivery_snapshot(&good, 2, None)), None);
    assert_eq!(
        relay_error(validate_delivery_snapshot(&good, 1, None)),
        Some(RelayError::NextSeqTooLow)
    );
    assert_eq!(
        relay_error(validate_delivery_snapshot(&good, 9_007_199_254_740_992, None)),
        Some(RelayError::NextSeqTooHigh)
    );
    let mut order = good.clone();
    order[1].seq = 1;
    assert_eq!(
        relay_error(validate_delivery_snapshot(&order, 2, None)),
        Some(RelayError::DeliveryOrder)
    );
    let mut content = good.clone();
    content[0].content = "x".repeat(524_289);
    assert_eq!(
        relay_error(validate_delivery_snapshot(&content, 2, None)),
        Some(RelayError::ContentTooLarge)
    );
    let result = OutboundResult {
        gateway_id: "g".into(),
        request_id: "r".into(),
        result_id: 1,
        result: SUCCESS.into(),
        delivery_seq: None,
        last_seen_at_ms: 5,
    };
    let retired = RetiredOutboundResult {
        gateway_id: "g".into(),
        request_id: "q".into(),
        result_id: 2,
    };
    let check = |results: &Vec<OutboundResult>, gone: &Vec<RetiredOutboundResult>, next: u64| {
        relay_error(validate_outbound_result_snapshot(results, gone, next, 5, 2))
    };
    assert_eq!(check(&vec![result.clone()], &vec![retired.clone()], 2), None);
    assert!(check(&vec![result.clone()], &vec![], 0).is_some());
    assert_eq!(
        check(&vec![result.clone(), result.clone()], &vec![], 2),
        Some(RelayError::DuplicateResult)
    );
    assert_eq!(
        check(&vec![], &vec![retired.clone(), retired.clone()], 2),
        Some(RelayError::DuplicateRetired)
    );
    assert_eq!(
        check(
            &vec![result.clone()],
            &vec![RetiredOutboundResult {
                gateway_id: "g".into(),
                request_id: "r".into(),
                result_id: 1
            }],
            2
        ),
        Some(RelayError::ActiveAndRetired)
    );
    assert_eq!(
        check(&vec![], &vec![], 9_007_199_254_740_992),
        Some(RelayError::ResultIdTooHigh)
    );
    assert_eq!(
        relay_error(validate_pending_requests(&vec![PendingRequest {
            lane_id: "bad lane".into(),
            message_id: "m".into()
        }])),
        Some(RelayError::RequestLane)
    );
    let crowd: Vec<PendingRequest> = (0..201)
        .map(|n| PendingRequest {
            lane_id: "telepathy:direct".into(),
            message_id: format!("m-{n}"),
        })
        .collect();
    assert_eq!(
        relay_error(validate_pending_requests(&crowd)),
        Some(RelayError::RequestLedgerFull)
    );
    assert!(is_valid_gateway_id("g"));
    assert!(!is_valid_gateway_id(""));
    assert!(!is_valid_gateway_id(&"g".repeat(MAX_GATEWAY_ID_BYTES + 1)));
}

#[test]
fn inbound_snapshots_are_checked_frame_by_frame() {
    let mut state = RelayState::default();
    state
        .enqueue_inbound(
            "tp-1",
            &read_json(r#"{"message_id":"tp-1","source":{"chat_id":"telepathy:direct"}}"#).unwrap(),
        )
        .unwrap();
    let mut fresh = RelayState::default();
    let mut frame = state.inbound_snapshot().unwrap();
    frame.messages[0].frame = "{".into();
    let why = serde_json::from_str::<Value>("{").unwrap_err();
    assert_eq!(
        fresh.load_inbound_snapshot(frame).unwrap_err().message(),
        format!("invalid inbound frame JSON: {why}")
    );
    let mut identity = state.inbound_snapshot().unwrap();
    identity.messages[0].message_id = "tp-9".into();
    assert_eq!(
        relay_error(fresh.load_inbound_snapshot(identity)),
        Some(RelayError::FrameIdentity)
    );
    let mut generation = state.inbound_snapshot().unwrap();
    generation.next_generation = 9_007_199_254_740_992;
    assert_eq!(
        relay_error(fresh.load_inbound_snapshot(generation)),
        Some(RelayError::GenerationTooHigh)
    );
    let mut tombstone = state.inbound_snapshot().unwrap();
    tombstone.acknowledged = vec![InboundAckTombstone {
        message_id: " ".into(),
        generation: 1,
    }];
    assert_eq!(
        relay_error(fresh.load_inbound_snapshot(tombstone)),
        Some(RelayError::InvalidTombstone)
    );
    assert!(fresh.load_inbound_snapshot(state.inbound_snapshot().unwrap()).is_ok());
    assert_eq!(fresh.pending_inbound_count(), 1);
}

#[test]
fn lines_are_cut_at_newlines_and_bounded() {
    let mut buffer = String::new();
    assert!(append_gateway_text(&mut buffer, "{\"a\":1}\n  \n{\"b\""));
    assert_eq!(next_gateway_line(&mut buffer).as_deref(), Some("{\"a\":1}"));
    assert_eq!(next_gateway_line(&mut buffer).as_deref(), Some(""));
    assert_eq!(next_gateway_line(&mut buffer), None);
    assert!(append_gateway_text(&mut buffer, ":2}\n"));
    assert_eq!(next_gateway_line(&mut buffer).as_deref(), Some("{\"b\":2}"));
    assert!(!append_gateway_text(
        &mut buffer,
        &"x".repeat(MAX_INBOUND_LINE_BYTES + 1)
    ));
    let hello = handshake_reply(r#"{"type":"hello"}"#).unwrap();
    assert_eq!(hello.trim_end(), descriptor_frame());
    assert!(handshake_reply(r#"{"type":"bye"}"#).is_none());
    assert!(handshake_reply("{").is_none());
}

#[test]
fn a_turn_goes_to_the_socket_once_and_only_while_it_waits() {
    let (mut state, _) = connected("gateway-a");
    let (turn, _) = state
        .push_inbound(
            &read_json(r#"{"message_id":"tp-1","source":{"chat_id":"telepathy:direct"}}"#).unwrap(),
        )
        .unwrap();
    assert!(state.forwards(&turn.frame, &vec![]));
    assert!(!state.forwards(&turn.frame, &vec![("tp-1".to_string(), turn.generation)]));
    state.acknowledge_inbound("tp-1", turn.generation).unwrap();
    assert!(!state.forwards(&turn.frame, &vec![]));
    assert!(state.forwards(r#"{"type":"other"}"#, &vec![]));
}

// ---- requests over the relay ----------------------------------------------------

const FENCED: &str = "relay durable state is unavailable after an uncertain commit: fenced";

fn body(response: &Response) -> Value {
    match &response.body {
        Body::Json(text) => parsed(text),
        Body::Text(text) => Value::from(text.clone()),
    }
}

#[test]
fn a_consuming_read_is_answered_once_it_is_written() {
    let mut relay = RelayState::default();
    relay
        .queue_gateway_delivery_at("telepathy:direct", "hi", Some("tp-1"), 7)
        .unwrap();
    let reg = registry();
    let query = DeliveryQuery {
        after: 0,
        consume: true,
        lane_id: Some("telepathy:direct".into()),
        reply_to: Some("tp-1".into()),
        through_seq: Some(1),
    };
    for outcome in [WriteOutcome::NotReplaced, WriteOutcome::Committed] {
        let save = match get_delivery(&reg, &mut relay, &query) {
            RelayProgress::Write(save) => save,
            _ => panic!("a write is expected"),
        };
        assert!(save.frame.is_none());
        assert!(relay.deliveries.is_empty());
        let (response, frame) = commit_relay_change(&mut relay, save, outcome, "disk full");
        assert!(frame.is_none());
        if outcome == WriteOutcome::Committed {
            assert_eq!(response.status, 200);
            assert_eq!(body(&response)["deliveries"][0]["content"], "hi");
            assert!(relay.deliveries.is_empty());
        } else {
            assert_eq!(response.status, 500);
            assert_eq!(body(&response), "disk full");
            assert_eq!(relay.deliveries.len(), 1);
        }
    }
    match get_delivery(&reg, &mut relay, &query) {
        RelayProgress::Done(response) => {
            assert_eq!(body(&response)["deliveries"].as_array().unwrap().len(), 0)
        }
        RelayProgress::Write(_) => panic!("nothing is to be written"),
    }
}

#[test]
fn spoken_deliveries_are_consumed_by_name() {
    let mut relay = RelayState::default();
    relay.queue_delivery_at("telepathy:direct", "a", 7).unwrap();
    relay.queue_delivery_at("telepathy:direct", "b", 7).unwrap();
    let reg = registry();
    let request = read_json(r#"{"lane_id":"telepathy:direct","sequences":[2]}"#).unwrap();
    let save = match consume_pending(&reg, &mut relay, &request) {
        RelayProgress::Write(save) => save,
        _ => panic!("a write is expected"),
    };
    assert!(!save.inbound);
    let (response, _) = commit_relay_change(&mut relay, save, WriteOutcome::Committed, "");
    assert_eq!(body(&response)["count"], 1);
    assert_eq!(relay.pending_for("telepathy:direct")[0].content, "a");
    relay.fail_persistence("fenced");
    match consume_pending(&reg, &mut relay, &request) {
        RelayProgress::Done(response) => {
            assert_eq!(response.status, 500);
            assert_eq!(body(&response), FENCED);
        }
        RelayProgress::Write(_) => panic!("nothing is to be written"),
    }
}

#[test]
fn a_message_is_sent_once_its_turn_is_written() {
    let (mut relay, _) = connected("gateway-a");
    let mut daemon = Daemon {
        reg: registry(),
        registry_revision: 1,
        lane_persistence_uncertain: false,
        interaction_persistence_uncertain: false,
        ledger: InteractionLedger::default(),
        msg_seq: 4,
    };
    let request = read_json(r#"{"lane_id":"telepathy:direct","text":"hi"}"#).unwrap();
    let outgoing = match daemon.post_message(&relay, &request) {
        MessageStep::Push(outgoing) => outgoing,
        MessageStep::Done(response) => panic!("{response:?}"),
    };
    for outcome in [WriteOutcome::NotReplaced, WriteOutcome::Committed] {
        let save = match push_message(&mut relay, &outgoing, true) {
            RelayProgress::Write(save) => save,
            RelayProgress::Done(response) => panic!("{response:?}"),
        };
        assert!(save.inbound);
        let (response, frame) = commit_relay_change(&mut relay, save, outcome, "disk full");
        if outcome == WriteOutcome::Committed {
            assert_eq!(response.status, 200);
            assert_eq!(parsed(&frame.unwrap())["event"]["message_id"], "tp-4");
            assert_eq!(relay.pending_inbound_count(), 1);
            assert_eq!(relay.pending_request_count(), 1);
        } else {
            assert_eq!(response.status, 503);
            assert!(frame.is_none());
            assert_eq!(relay.pending_inbound_count(), 0);
            assert_eq!(relay.pending_request_count(), 0);
        }
    }

    let mut store = TranscriptStore { lanes: Vec::new() };
    store.push_at("telepathy:direct", "user", "plan", 1);
    let fork = Fork {
        source: "telepathy:direct".into(),
        lane_id: "telepathy:repo:side".into(),
        lane_name: "side".into(),
    };
    let told = daemon.fork_message(&fork, &store.recent("telepathy:direct", 10));
    assert_eq!(told.message_id, "tp-5");
    assert_eq!(
        told.event.text_field("text"),
        Some("This lane continues from 'telepathy:direct'. Recent context:\nuser: plan")
    );
    assert!(matches!(
        push_message(&mut relay, &told, false),
        RelayProgress::Write(save) if save.frame.is_some()
    ));
    assert_eq!(relay.pending_request_count(), 1);
    daemon.msg_seq = u64::MAX;
    assert_eq!(
        daemon.fork_message(&fork, &vec![]).message_id,
        "tp-18446744073709551615"
    );
    assert_eq!(daemon.msg_seq, 0);
}

#[test]
fn a_repeated_frame_is_answered_alike_and_queues_nothing() {
    let (mut relay, id) = connected("gateway-a");
    let reg = registry();
    let mut line = |raw: &str, now: u64| {
        relay
            .handle_gateway_frame_for_connection(id, "gateway-a", raw, Some(&reg), now, now / 1000)
            .unwrap()
    };
    let first = line(&send("r-1", "hello"), NOW);
    assert_eq!(line(&send("r-1", "other words"), NOW + 5), first);
    let typing = r#"{"type":"outbound","requestId":"r-1","action":{"op":"typing"}}"#;
    assert_eq!(line(typing, NOW + 9), first);
    assert_ne!(line(&send("r-2", "hello"), NOW + 9), first);
    assert_eq!(relay.deliveries.len(), 2);
    assert_eq!(relay.outbound_results.len(), 2);
}

#[test]
fn a_refusal_after_an_uncertain_write_says_what_failed() {
    let (mut relay, _) = connected("gateway-a");
    let mut daemon = Daemon {
        reg: registry(),
        registry_revision: 1,
        lane_persistence_uncertain: false,
        interaction_persistence_uncertain: false,
        ledger: InteractionLedger::default(),
        msg_seq: 4,
    };
    let request = read_json(r#"{"lane_id":"telepathy:direct","text":"hi"}"#).unwrap();
    let outgoing = match daemon.post_message(&relay, &request) {
        MessageStep::Push(outgoing) => outgoing,
        MessageStep::Done(response) => panic!("{response:?}"),
    };
    relay.fail_persistence("fenced");
    let head = head_response(&relay);
    assert_eq!(head.status, 500);
    assert_eq!(body(&head), FENCED);
    match push_message(&mut relay, &outgoing, true) {
        RelayProgress::Done(response) => {
            assert_eq!(response.status, 503);
            assert_eq!(body(&response), FENCED);
        }
        RelayProgress::Write(_) => panic!("nothing is to be written"),
    }
    let read = DeliveryQuery {
        after: 0,
        consume: false,
        lane_id: None,
        reply_to: None,
        through_seq: None,
    };
    match get_delivery(&registry(), &mut relay, &read) {
        RelayProgress::Done(response) => {
            assert_eq!(response.status, 500);
            assert_eq!(body(&response), FENCED);
        }
        RelayProgress::Write(_) => panic!("nothing is to be written"),
    }
    assert_eq!(
        relay.refusal_text(RelayError::QueueFull),
        RelayError::QueueFull.message()
    );
}

#[test]
fn recovered_lanes_start_the_daemon_unless_their_save_failed() {
    let reg = registry();
    assert_eq!(recover_lanes(&reg, Ok(())), Ok(false));
    assert_eq!(
        recover_lanes(
            &reg,
            Err(LaneRegistrySaveError::AmbiguousPostRename("x".into()))
        ),
        Ok(true)
    );
    let refused = recover_lanes(&reg, Err(LaneRegistrySaveError::PreRename("x".into())));
    assert!(refused
        .unwrap_err()
        .starts_with("cannot persist recovered lane interactions for telepathy:direct: "));
}
