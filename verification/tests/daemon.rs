use serde_json::Value;
use telepathy::daemon::interaction_api::{
    InteractionJournalAppendError, InteractionProgress, InteractionReport,
};
use telepathy::daemon::merge::merge_model_registry;
use telepathy::daemon::message_api::{
    check_delivery_query, consumed_response, head_response, message_response,
    read_consume_request, read_response, DeliveryQuery, MessageStep,
};
use telepathy::daemon::meta_api::{model_unavailable, MetaStep};
use telepathy::daemon::responses::{Body, Response};
use telepathy::daemon::state::{lane_selection_changed, same_registry, Daemon, LaneProgress};
use telepathy::hermes_search::{
    bounded_chat_id, bounded_search_result, bounded_text, bounded_title, bounded_titles,
    search_phrase, search_summary, SearchRow, MAX_SEARCH_RESULT_CODEPOINTS,
    MAX_SEARCH_RESULT_UTF8_BYTES,
};
use telepathy::interactions::{
    check_ledger_text, check_ledger_version, find_entry, fold_journal_entry,
    insert_interaction_entry, lane_interaction_count, load_interaction_ledger,
    max_journaled_interaction_count, next_interaction_count, reconcile_lane_interactions,
    validate_interaction_entry, InteractionEntry, InteractionLedger, JournalLine, LedgerError,
    RecoveryError,
};
use telepathy::journal::{journal_line_text, snapshot_entries, text_less};
use telepathy::lanes::{
    Lane, LaneCreateError, LaneRegistry, LaneRegistrySaveError,
    MAX_ENRICHED_LANE_TITLE_CODEPOINTS, MAX_ENRICHED_LANE_TITLE_UTF8_BYTES, MAX_LANE_COUNT,
};
use telepathy::proto::MAX_SAFE_SEQUENCE;
use telepathy::relay::errors::RelayError;
use telepathy::relay::state::RelayState;
use telepathy::revision::{
    advance_registry_revision, next_registry_revision, GenerationError,
    REGISTRY_REVISION_GENERATION_STRIDE, REGISTRY_REVISION_MUTATION_MASK,
};
use telepathy::value::{read_json, Json};

fn entry(id: &str, lane: &str, count: u64) -> InteractionEntry {
    InteractionEntry {
        interaction_id: id.into(),
        lane_id: lane.into(),
        interaction_created_at_ms: 1000,
        lane_interactions: count,
    }
}

fn decoded(line: &str) -> Result<InteractionEntry, String> {
    let value: Value = serde_json::from_str(line).map_err(|e| e.to_string())?;
    Ok(InteractionEntry {
        interaction_id: value["interaction_id"].as_str().ok_or("id")?.into(),
        lane_id: value["lane_id"].as_str().ok_or("lane")?.into(),
        interaction_created_at_ms: value["interaction_created_at_ms"].as_u64().ok_or("at")?,
        lane_interactions: value["lane_interactions"].as_u64().ok_or("count")?,
    })
}

fn line_json(id: &str, lane: &str, count: u64) -> String {
    format!(
        r#"{{"interaction_id":"{id}","lane_id":"{lane}","interaction_created_at_ms":1000,"lane_interactions":{count}}}"#
    )
}

fn line(text: &str) -> JournalLine {
    JournalLine {
        text: text.into(),
        decoded: decoded(text),
    }
}

fn folded(lines: &[String]) -> Result<InteractionLedger, LedgerError> {
    lines
        .iter()
        .enumerate()
        .try_fold(InteractionLedger::default(), |acc, (i, l)| {
            fold_journal_entry(acc, line(l), i + 1)
        })
}

#[test]
fn fold_is_deterministic() {
    let lines = vec![
        line_json("i1", "telepathos:direct", 3),
        line_json("i2", "telepathos:direct", 5),
    ];
    let a = folded(&lines);
    let b = folded(&lines);
    assert_eq!(a.unwrap().entries.len(), b.unwrap().entries.len());
}

#[test]
fn crash_truncation_yields_prefix_consistent_ledger() {
    let lines = [
        line_json("i1", "telepathos:direct", 3),
        line_json("i2", "telepathos:direct", 5),
        line_json("i3", "telepathos:forks", 2),
    ];
    let full = folded(&lines).unwrap();
    // A crash at every possible truncation point leaves a valid ledger
    // whose journal count equals the prefix length.
    for cut in 0..=lines.len() {
        let prefix = folded(&lines[..cut]).unwrap();
        assert_eq!(prefix.journal_entries, cut);
        assert!(prefix.entries.len() <= full.entries.len());
    }
}

#[test]
fn duplicate_identical_entries_are_idempotent() {
    let text = line_json("i1", "telepathos:direct", 3);
    let once = fold_journal_entry(InteractionLedger::default(), line(&text), 1).unwrap();
    let twice = fold_journal_entry(once.clone(), line(&text), 2).unwrap();
    assert_eq!(once.entries, twice.entries);
    // Conflicting record for the same id must fail loudly.
    let conflict = line_json("i1", "telepathos:direct", 9);
    assert!(fold_journal_entry(twice, line(&conflict), 3).is_err());
}

#[test]
fn garbage_and_blank_lines_error_at_their_line_number() {
    let r = fold_journal_entry(InteractionLedger::default(), line(""), 4);
    let msg = r.err().unwrap().message("j");
    assert!(msg.contains("line 4"), "{msg}");
    let r = fold_journal_entry(InteractionLedger::default(), line("{not json"), 7);
    let msg = r.err().unwrap().message("j");
    assert!(msg.contains("line 7"), "{msg}");
}

#[test]
fn reconciliation_takes_max_and_reports_change() {
    let mut lanes = vec![Lane {
        id: "telepathos:direct".into(),
        name: "Direct".into(),
        created_at: "2026-01-01T00:00:00Z".into(),
        last_active: "2026-01-01T00:00:00Z".into(),
        interactions: Some(4),
    }];
    let entries = vec![entry("i1", "telepathos:direct", 6)];
    assert!(reconcile_lane_interactions(&mut lanes, &entries));
    assert_eq!(lanes[0].interactions, Some(6));
    // Reconciling again is a no-op and reports no change.
    assert!(!reconcile_lane_interactions(&mut lanes, &entries));
}

#[test]
fn model_merge_preserves_concurrent_switch_and_adds_model_lane() {
    let base = LaneRegistry::default_direct();
    let mut proposed = base.clone();
    let model_lane = proposed.create("model lane").unwrap();
    proposed.switch(&model_lane.id);

    let mut current = base.clone();
    let concurrent_lane = current.create("concurrent lane").unwrap();
    current.switch(&concurrent_lane.id);
    merge_model_registry(&base, &proposed, &mut current, 10, 11).unwrap();

    assert!(current.lanes.iter().any(|lane| lane.id == model_lane.id));
    assert!(current
        .lanes
        .iter()
        .any(|lane| lane.id == concurrent_lane.id));
    assert_eq!(current.active_id, concurrent_lane.id);
}

#[test]
fn model_merge_applies_non_conflicting_selection() {
    let mut base = LaneRegistry::default_direct();
    let model_target = base.create("model target").unwrap();
    let mut proposed = base.clone();
    proposed.switch(&model_target.id);

    let mut current = base.clone();
    merge_model_registry(&base, &proposed, &mut current, 10, 10).unwrap();

    assert_eq!(current.active_id, model_target.id);
    assert_eq!(current.previous_id, base.active_id);
}

#[test]
fn model_merge_preserves_aba_concurrent_selection() {
    let base = LaneRegistry::default_direct();
    let mut proposed = base.clone();
    let model_lane = proposed.create("model lane").unwrap();
    proposed.switch(&model_lane.id);

    let mut current = base.clone();
    let concurrent_lane = current.create("concurrent lane").unwrap();
    current.switch(&concurrent_lane.id);
    current.switch(&base.active_id);
    assert_eq!(current.active_id, base.active_id);
    assert_ne!(current.previous_id, base.previous_id);

    merge_model_registry(&base, &proposed, &mut current, 10, 11).unwrap();

    assert!(current.lanes.iter().any(|lane| lane.id == model_lane.id));
    assert_eq!(current.active_id, base.active_id);
    assert_eq!(current.previous_id, concurrent_lane.id);
}

#[test]
fn model_merge_preserves_exact_tuple_aba_selection() {
    let mut base = LaneRegistry::default_direct();
    let previous_lane = base.create("base previous").unwrap();
    let active_lane = base.create("base active").unwrap();
    base.switch(&previous_lane.id);
    base.switch(&active_lane.id);
    assert_eq!(base.active_id, active_lane.id);
    assert_eq!(base.previous_id, previous_lane.id);

    let mut proposed = base.clone();
    let model_lane = proposed.create("model lane").unwrap();
    proposed.switch(&model_lane.id);

    let mut current = base.clone();
    current.switch(&previous_lane.id);
    current.switch(&active_lane.id);
    assert_eq!(current.active_id, base.active_id);
    assert_eq!(current.previous_id, base.previous_id);

    merge_model_registry(&base, &proposed, &mut current, 10, 12).unwrap();

    assert!(current.lanes.iter().any(|lane| lane.id == model_lane.id));
    assert_eq!(current.active_id, active_lane.id);
    assert_eq!(current.previous_id, previous_lane.id);
}

#[test]
fn model_merge_rejects_concurrent_capacity_overflow_without_mutation() {
    let mut base = LaneRegistry::default_direct();
    for index in 1..MAX_LANE_COUNT - 1 {
        base.create(&format!("base-{index}")).unwrap();
    }
    let mut proposed = base.clone();
    proposed.create("model lane").unwrap();
    let mut current = base.clone();
    current.create("concurrent lane").unwrap();
    let before = current.clone();

    assert_eq!(
        merge_model_registry(&base, &proposed, &mut current, 10, 10),
        Err(LaneCreateError::CapacityReached)
    );
    assert_eq!(current, before);
}

fn daemon() -> Daemon {
    Daemon {
        reg: LaneRegistry::default_direct_at("epoch-ms:1000"),
        registry_revision: 10,
        lane_persistence_uncertain: false,
        interaction_persistence_uncertain: false,
        ledger: InteractionLedger::default(),
        msg_seq: 1,
    }
}

fn body(response: &Response) -> Value {
    match &response.body {
        Body::Json(text) => serde_json::from_str(text).unwrap(),
        Body::Text(text) => Value::from(text.clone()),
    }
}

#[test]
fn state_title_enrichment_safely_truncates_without_touching_persisted_lane_metadata() {
    let mut state = daemon();
    state.reg.lanes[0].id = "telepathos:direct".into();
    state.reg.active_id = "telepathos:direct".into();
    state.reg.previous_id = "telepathos:direct".into();
    let before = state.reg.clone();
    let huge_title = format!("{}é", "é".repeat(MAX_ENRICHED_LANE_TITLE_CODEPOINTS));
    let response = state.get_state(
        &RelayState::default(),
        &vec![("telepathos:direct".to_string(), huge_title)],
    );
    let shown = body(&response);
    let title = shown["lanes"][0]["title"].as_str().unwrap();
    assert_eq!(title, "é".repeat(MAX_ENRICHED_LANE_TITLE_CODEPOINTS));
    assert_eq!(title.len(), MAX_ENRICHED_LANE_TITLE_UTF8_BYTES);
    assert_eq!(state.reg, before);
}

#[test]
fn registry_revision_mutations_stop_before_crossing_a_generation() {
    assert_eq!(
        advance_registry_revision(MAX_SAFE_SEQUENCE - 1).unwrap(),
        MAX_SAFE_SEQUENCE
    );
    assert!(advance_registry_revision(MAX_SAFE_SEQUENCE).is_err());
    assert!(advance_registry_revision(REGISTRY_REVISION_MUTATION_MASK).is_err());
}

#[test]
fn enriched_titles_truncate_on_utf8_boundaries_and_codepoint_caps() {
    let exact = "é".repeat(MAX_ENRICHED_LANE_TITLE_CODEPOINTS);
    assert_eq!(exact.len(), MAX_ENRICHED_LANE_TITLE_UTF8_BYTES);
    assert_eq!(bounded_title(&exact).as_deref(), Some(exact.as_str()));

    let over = format!("{exact}é");
    assert_eq!(bounded_title(&over).as_deref(), Some(exact.as_str()));

    let emoji = "😀".repeat(65);
    let bounded = bounded_title(&emoji).unwrap();
    assert_eq!(bounded, "😀".repeat(64));
    assert_eq!(bounded.len(), 256);
    assert!(std::str::from_utf8(bounded.as_bytes()).is_ok());
    assert_eq!(bounded_title(""), None);
}

#[test]
fn final_search_result_bound_preserves_utf8() {
    let result = bounded_search_result(&"😀".repeat(MAX_SEARCH_RESULT_CODEPOINTS + 1));
    assert_eq!(
        result,
        "😀".repeat(MAX_SEARCH_RESULT_UTF8_BYTES / "😀".len())
    );
    assert!(result.len() <= MAX_SEARCH_RESULT_UTF8_BYTES);
    assert!(result.chars().count() <= MAX_SEARCH_RESULT_CODEPOINTS);
    assert!(std::str::from_utf8(result.as_bytes()).is_ok());
}

fn request(text: &str) -> Json {
    read_json(text).unwrap()
}

fn named(key: &str, value: &str) -> Json {
    request(&format!(r#"{{"{key}":"{value}"}}"#))
}

// ---- lanes ----------------------------------------------------------------------

#[test]
fn lane_requests_are_answered_by_their_fault() {
    let mut d = daemon();
    let before = d.reg.clone();
    for (progress, status) in [
        (d.create_lane(&request("{}"), 2000), 400),
        (d.create_lane(&named("name", " "), 2000), 400),
        (d.create_lane(&named("name", "!!!"), 2000), 400),
        (d.set_active(&named("id", "bad lane"), 2000), 400),
        (d.set_active(&named("id", "telepathy:missing"), 2000), 404),
        (d.touch(&named("id", "bad lane"), 2000), 400),
        (d.touch(&named("id", "telepathy:missing"), 2000), 404),
    ] {
        match progress {
            LaneProgress::Done(response) => assert_eq!(response.status, status),
            LaneProgress::Save(_) => panic!("nothing is to be saved"),
        }
    }
    assert_eq!(d.reg, before);
    assert_eq!(d.registry_revision, 10);
}

#[test]
fn a_failed_save_takes_the_new_lane_back() {
    let mut d = daemon();
    let before = d.reg.clone();
    let save = match d.create_lane(&named("name", "demo"), 2000) {
        LaneProgress::Save(save) => save,
        LaneProgress::Done(response) => panic!("{response:?}"),
    };
    assert_eq!(d.reg.active().name, "demo");
    assert_eq!(d.registry_revision, 11);
    let response = d.commit_lane_mutation(
        save,
        Err(LaneRegistrySaveError::PreRename("disk full".into())),
    );
    assert_eq!(response.status, 500);
    assert!(same_registry(&d.reg, &before));
    assert_eq!(d.registry_revision, 10);
    assert!(!d.lane_persistence_uncertain);
}

#[test]
fn an_uncertain_save_keeps_the_lane_and_blocks_later_changes() {
    let mut d = daemon();
    let save = match d.create_lane(&named("name", "demo"), 2000) {
        LaneProgress::Save(save) => save,
        LaneProgress::Done(response) => panic!("{response:?}"),
    };
    let response = d.commit_lane_mutation(
        save,
        Err(LaneRegistrySaveError::AmbiguousPostRename("sync".into())),
    );
    assert_eq!(response.status, 503);
    assert_eq!(d.reg.active().name, "demo");
    assert!(d.lane_persistence_uncertain);
    match d.touch(&named("id", "telepathy:direct"), 3000) {
        LaneProgress::Done(response) => assert_eq!(response.status, 503),
        LaneProgress::Save(_) => panic!("nothing is to be saved"),
    }
}

#[test]
fn a_touch_is_saved_without_a_new_revision() {
    let mut d = daemon();
    let before = d.reg.clone();
    let save = match d.touch(&named("id", "telepathy:direct"), 2000) {
        LaneProgress::Save(save) => save,
        LaneProgress::Done(response) => panic!("{response:?}"),
    };
    assert_eq!(d.registry_revision, 10);
    assert!(!lane_selection_changed(&before, &d.reg));
    let response = d.commit_lane_mutation(save, Ok(()));
    assert_eq!(response.status, 200);
    assert_eq!(d.reg.lanes[0].last_active, "epoch-ms:2000");
}

#[test]
fn lanes_that_may_not_be_kept_are_not_saved() {
    let mut d = daemon();
    let before = d.reg.clone();
    match d.set_active(&named("id", "telepathy:direct"), 9_007_199_254_740_992) {
        LaneProgress::Done(response) => {
            assert_eq!(response.status, 500);
            assert_eq!(
                body(&response)["error"],
                "lane change was rolled back: invalid lane registry: malformed lane at index 0"
            );
        }
        LaneProgress::Save(_) => panic!("nothing is to be saved"),
    }
    assert_eq!(d.reg, before);
    assert_eq!(d.registry_revision, 10);
}

#[test]
fn the_last_revision_of_a_generation_is_not_passed() {
    let mut d = daemon();
    d.registry_revision = MAX_SAFE_SEQUENCE;
    let before = d.reg.clone();
    match d.create_lane(&named("name", "demo"), 2000) {
        LaneProgress::Done(response) => assert_eq!(response.status, 500),
        LaneProgress::Save(_) => panic!("nothing is to be saved"),
    }
    assert_eq!(d.reg, before);
    assert_eq!(next_registry_revision(None).unwrap().1 % REGISTRY_REVISION_GENERATION_STRIDE, 0);
    let (first, _) = next_registry_revision(None).unwrap();
    let (second, revision) = next_registry_revision(Some(&first.to_string())).unwrap();
    assert_eq!(second, first + 1);
    assert_eq!(revision, second * REGISTRY_REVISION_GENERATION_STRIDE);
    assert_eq!(
        next_registry_revision(Some(" x\n")).unwrap_err().message(),
        "invalid registry revision generation: invalid digit found in string"
    );
    assert!(matches!(
        next_registry_revision(Some("18446744073709551616")),
        Err(GenerationError::Unreadable(_))
    ));
    assert!(matches!(
        next_registry_revision(Some("2097151")),
        Err(GenerationError::Exhausted)
    ));
    assert!(matches!(
        next_registry_revision(Some("+2097152")),
        Err(GenerationError::TooHigh)
    ));
}

// ---- the steering plane ---------------------------------------------------------

#[test]
fn spoken_commands_change_the_lanes_once_saved() {
    let mut d = daemon();
    let turn = match d.meta(&named("utterance", "new conversation for demo"), false, 2000) {
        MetaStep::Turn(turn) => turn,
        MetaStep::AskModel(_) => panic!("the grammar knows this"),
    };
    let save = match turn.progress {
        LaneProgress::Save(save) => save,
        LaneProgress::Done(response) => panic!("{response:?}"),
    };
    let response = d.commit_lane_mutation(save, Ok(()));
    assert_eq!(response.status, 200);
    assert_eq!(d.reg.active().name, "demo");
    assert_eq!(d.registry_revision, 11);
}

#[test]
fn unknown_words_ask_the_model_and_change_nothing() {
    let mut d = daemon();
    let before = d.reg.clone();
    assert!(matches!(
        d.meta(&named("utterance", "what is the weather"), true, 2000),
        MetaStep::AskModel(asked) if asked == "what is the weather"
    ));
    assert_eq!(d.reg, before);
    match d.meta(&named("utterance", "what is the weather"), false, 2000) {
        MetaStep::Turn(turn) => match turn.progress {
            LaneProgress::Done(response) => assert_eq!(response.status, 200),
            LaneProgress::Save(_) => panic!("nothing is to be saved"),
        },
        MetaStep::AskModel(_) => panic!("there is no model"),
    }
    assert_eq!(d.reg, before);
    assert_eq!(model_unavailable().status, 502);
}

#[test]
fn the_model_selects_only_on_the_revision_that_it_saw() {
    let mut d = daemon();
    let base = d.reg.clone();
    let mut proposed = base.clone();
    let lane = proposed.create_at("demo", "epoch-ms:2000").unwrap();
    proposed.switch_at(&lane.id, "epoch-ms:2000");
    d.registry_revision = 12;
    match d.model_replied(&base, &proposed, 10, "done") {
        LaneProgress::Save(save) => {
            assert_eq!(d.commit_lane_mutation(save, Ok(())).status, 200);
        }
        LaneProgress::Done(response) => panic!("{response:?}"),
    }
    assert!(d.reg.knows(&lane.id));
    assert_eq!(d.reg.active_id, "telepathy:direct");
}

#[test]
fn a_note_is_handed_out_and_a_fork_names_its_source() {
    let mut d = daemon();
    match d.meta(&named("utterance", "note that tests pass"), false, 2000) {
        MetaStep::Turn(turn) => assert_eq!(turn.note.as_deref(), Some("tests pass")),
        MetaStep::AskModel(_) => panic!("the grammar knows this"),
    }
    match d.meta(&named("utterance", "fork into side"), false, 2000) {
        MetaStep::Turn(turn) => {
            let fork = turn.fork.unwrap();
            assert_eq!(fork.lane_name, "side");
            assert_eq!(fork.lane_id, "telepathy:repo:side");
        }
        MetaStep::AskModel(_) => panic!("the grammar knows this"),
    }
}

// ---- messages and deliveries ----------------------------------------------------

#[test]
fn a_message_takes_its_number_only_when_it_can_go() {
    let mut d = daemon();
    let relay = RelayState::default();
    for (text, status) in [
        (r#"{"lane_id":7,"text":"hi"}"#, 400),
        (r#"{"lane_id":"bad lane","text":"hi"}"#, 400),
        (r#"{"lane_id":"telepathy:direct"}"#, 400),
        (r#"{"lane_id":"telepathy:direct","text":""}"#, 400),
        (r#"{"lane_id":"telepathy:missing","text":"hi"}"#, 404),
    ] {
        match d.post_message(&relay, &read_json(text).unwrap()) {
            MessageStep::Done(response) => assert_eq!(response.status, status, "{text}"),
            MessageStep::Push(_) => panic!("{text}"),
        }
        assert_eq!(d.msg_seq, 1);
    }
    let large = format!(
        r#"{{"lane_id":"telepathy:direct","text":"{}"}}"#,
        "x".repeat(1_048_576)
    );
    match d.post_message(&relay, &read_json(&large).unwrap()) {
        MessageStep::Done(response) => assert_eq!(response.status, 413),
        MessageStep::Push(_) => panic!("too large"),
    }
    assert_eq!(d.msg_seq, 1);
    match d.post_message(
        &relay,
        &read_json(r#"{"lane_id":"telepathy:direct","text":"hi"}"#).unwrap(),
    ) {
        MessageStep::Push(outgoing) => {
            assert_eq!(outgoing.message_id, "tp-1");
            assert_eq!(outgoing.event.text_field("text"), Some("hi"));
        }
        MessageStep::Done(response) => panic!("{response:?}"),
    }
    assert_eq!(d.msg_seq, 2);
    assert_eq!(message_response(&relay, "tp-1", None).status, 200);
    assert_eq!(
        message_response(&relay, "tp-1", Some(RelayError::NoGateway)).status,
        503
    );
    assert_eq!(
        message_response(&relay, "tp-1", Some(RelayError::RecordTooLarge)).status,
        413
    );
}

fn query(consume: bool, lane: Option<&str>, reply_to: Option<&str>, through: Option<u64>) -> DeliveryQuery {
    DeliveryQuery {
        after: 4,
        consume,
        lane_id: lane.map(|s| s.to_string()),
        reply_to: reply_to.map(|s| s.to_string()),
        through_seq: through,
    }
}

#[test]
fn reads_of_deliveries_are_checked_first() {
    let reg = LaneRegistry::default_direct_at("epoch-ms:1000");
    let lane = Some("telepathy:direct");
    let status = |q: DeliveryQuery| check_delivery_query(&reg, &q).map(|r| r.status);
    assert_eq!(status(query(false, None, None, None)), None);
    assert_eq!(status(query(false, Some("bad lane"), None, None)), Some(400));
    assert_eq!(status(query(true, lane, None, Some(6))), Some(400));
    assert_eq!(status(query(true, lane, Some(" "), Some(6))), Some(400));
    assert_eq!(status(query(true, lane, Some("tp-1"), Some(4))), Some(400));
    assert_eq!(
        status(query(true, Some("telepathy:missing"), Some("tp-1"), Some(6))),
        Some(404)
    );
    assert_eq!(status(query(true, lane, Some("tp-1"), Some(6))), None);
    assert_eq!(
        status(query(false, None, None, Some(MAX_SAFE_SEQUENCE + 1))),
        Some(400)
    );
}

#[test]
fn the_handset_sees_deliveries_and_pending_counts() {
    let mut relay = RelayState::default();
    relay.queue_delivery_at("telepathy:direct", "hello", 77).unwrap();
    let (items, latest) = relay.deliveries_after(0, false, None, None, None).unwrap();
    let shown = body(&read_response(&items, latest));
    assert_eq!(shown["latest"], 1);
    assert_eq!(shown["deliveries"][0]["content"], "hello");
    assert_eq!(shown["deliveries"][0]["arrived_at"], 77);
    assert_eq!(body(&head_response(&relay))["latest"], 1);
    let d = daemon();
    let state = body(&d.get_state(&relay, &vec![]));
    assert_eq!(state["lanes"][0]["id"], "telepathy:direct");
    assert_eq!(d.get_pending(&relay).status, 200);
}

#[test]
fn a_consume_request_names_a_lane_and_sequences() {
    let reg = LaneRegistry::default_direct_at("epoch-ms:1000");
    let read = |text: &str| read_consume_request(&reg, &read_json(text).unwrap());
    assert_eq!(
        read(r#"{"lane_id":"telepathy:direct","sequences":[1,2]}"#),
        Ok(("telepathy:direct".to_string(), vec![1, 2]))
    );
    assert!(read(r#"{"sequences":[1]}"#).is_err());
    assert!(read(r#"{"lane_id":"telepathy:direct"}"#).is_err());
    assert_eq!(
        read(r#"{"lane_id":"telepathy:missing","sequences":[1]}"#)
            .unwrap_err()
            .status,
        404
    );
    assert_eq!(consumed_response("telepathy:direct", 2).status, 200);
}

// ---- interactions ---------------------------------------------------------------

fn report(id: &str, at: u64) -> InteractionReport {
    InteractionReport {
        id: "telepathy:direct".into(),
        interaction_id: id.into(),
        interaction_created_at_ms: at,
        now_ms: 1_000_000_000,
    }
}

#[test]
fn a_turn_is_journaled_counted_and_counted_once() {
    let mut d = daemon();
    let at = 1_000_000_000;
    let (q, record) = match d.record_interaction(report("i-1", at)) {
        InteractionProgress::Append(q, record) => (q, record),
        other => panic!("{other:?}"),
    };
    assert_eq!(record.lane_interactions, 1);
    let save = match d.interaction_appended(q, record, Ok(())) {
        InteractionProgress::Save(save) => save,
        other => panic!("{other:?}"),
    };
    assert_eq!(d.commit_lane_mutation(save, Ok(())).status, 200);
    assert_eq!(d.reg.lanes[0].interactions, Some(1));
    match d.record_interaction(report("i-1", at)) {
        InteractionProgress::Done(response) => assert_eq!(response.status, 200),
        InteractionProgress::Save(save) => {
            assert_eq!(d.commit_lane_mutation(save, Ok(())).status, 200);
        }
        other => panic!("{other:?}"),
    }
    assert_eq!(d.reg.lanes[0].interactions, Some(1));
}

fn answered(d: &mut Daemon, q: InteractionReport) -> Response {
    match d.record_interaction(q) {
        InteractionProgress::Done(response) => response,
        InteractionProgress::Append(q, record) => match d.interaction_appended(q, record, Ok(())) {
            InteractionProgress::Save(save) => d.commit_lane_mutation(save, Ok(())),
            other => panic!("{other:?}"),
        },
        other => panic!("{other:?}"),
    }
}

#[test]
fn a_repeated_report_is_told_apart_from_a_new_turn() {
    let mut d = daemon();
    let now = 1_000_000_000;
    d.reg.create_at("demo", "epoch-ms:1000").unwrap();
    let first = answered(&mut d, report("i-1", now));
    assert_eq!((first.status, body(&first)["duplicate"].clone()), (200, false.into()));
    let (lanes, entries) = (d.reg.clone(), d.ledger.entries.clone());
    let same = answered(&mut d, report("i-1", now));
    assert_eq!((same.status, body(&same)["duplicate"].clone()), (200, true.into()));
    assert_eq!(answered(&mut d, report("i-1", now - 1)).status, 409);
    let mut elsewhere = report("i-1", now);
    elsewhere.id = "telepathy:repo:demo".into();
    assert_eq!(answered(&mut d, elsewhere).status, 409);
    assert_eq!(
        answered(&mut d, report("i-1", now - 604_800_001)).status,
        410
    );
    assert_eq!(answered(&mut d, report("i-1", now + 300_001)).status, 400);
    assert_eq!((d.reg.clone(), d.ledger.entries.clone()), (lanes, entries));
    assert_eq!(answered(&mut d, report("i-2", now)).status, 200);
    for progress in [
        d.create_lane(&named("name", "later"), 2000),
        d.set_active(&named("id", "telepathy:direct"), 3000),
        d.touch(&named("id", "telepathy:direct"), 4000),
    ] {
        match progress {
            LaneProgress::Save(save) => assert_eq!(d.commit_lane_mutation(save, Ok(())).status, 200),
            LaneProgress::Done(response) => panic!("{response:?}"),
        }
    }
    let late = answered(&mut d, report("i-1", now));
    assert_eq!((late.status, body(&late)["duplicate"].clone()), (200, true.into()));
    assert_eq!(lane_interaction_count(&d.reg, "telepathy:direct"), 2);
}

#[test]
fn an_uncertain_journal_takes_no_more_reports() {
    let mut d = daemon();
    let (q, record) = match d.record_interaction(report("i-1", 1_000_000_000)) {
        InteractionProgress::Append(q, record) => (q, record),
        other => panic!("{other:?}"),
    };
    match d.interaction_appended(
        q,
        record,
        Err(InteractionJournalAppendError::AmbiguousPostOpen("io".into())),
    ) {
        InteractionProgress::Done(response) => assert_eq!(response.status, 503),
        other => panic!("{other:?}"),
    }
    assert!(d.interaction_persistence_uncertain);
    match d.record_interaction(report("i-2", 1_000_000_000)) {
        InteractionProgress::Done(response) => assert_eq!(response.status, 503),
        other => panic!("{other:?}"),
    }
    assert!(!InteractionJournalAppendError::Definite("io".into()).is_ambiguous());
}

#[test]
fn ledger_faults_are_told_apart() {
    assert!(matches!(
        validate_interaction_entry(&entry(" ", "telepathy:direct", 1)),
        Err(LedgerError::InvalidId)
    ));
    assert!(matches!(
        validate_interaction_entry(&entry("i", "bad lane", 1)),
        Err(LedgerError::InvalidLane)
    ));
    assert!(matches!(
        validate_interaction_entry(&entry("i", "telepathy:direct", MAX_SAFE_SEQUENCE + 1)),
        Err(LedgerError::UnsafeCount(_))
    ));
    assert!(check_ledger_version(Some(2)).is_ok());
    assert!(matches!(
        check_ledger_version(None),
        Err(LedgerError::Version)
    ));
    let mut entries = vec![entry("i", "telepathy:direct", 1)];
    assert!(insert_interaction_entry(&mut entries, entry("i", "telepathy:direct", 1)).is_ok());
    assert_eq!(entries.len(), 1);
    assert!(matches!(
        insert_interaction_entry(&mut entries, entry("i", "telepathy:direct", 2)),
        Err(LedgerError::Conflict(_))
    ));
    assert_eq!(find_entry(&entries, "i"), 0);
    assert_eq!(find_entry(&entries, "j"), 1);
    assert_eq!(next_interaction_count(3, 5).unwrap(), 6);
    assert!(matches!(
        next_interaction_count(MAX_SAFE_SEQUENCE, 0),
        Err(LedgerError::CountExhausted)
    ));
}

#[test]
fn a_restart_reconciles_the_lanes_with_the_journal() {
    let mut reg = LaneRegistry::default_direct_at("epoch-ms:1000");
    let snapshot = vec![entry("i-1", "telepathy:direct", 4)];
    let journal = vec![line(&line_json("i-2", "telepathy:direct", 6))];
    let (ledger, changed) = load_interaction_ledger(&mut reg, snapshot, journal, 1000).unwrap();
    assert!(changed);
    assert_eq!(ledger.entries.len(), 2);
    assert_eq!(ledger.journal_entries, 1);
    assert_eq!(lane_interaction_count(&reg, "telepathy:direct"), 6);
    assert_eq!(
        max_journaled_interaction_count(&ledger, "telepathy:direct", None),
        6
    );
    let lost = vec![line(&line_json("i-3", "telepathy:missing", 6))];
    assert!(matches!(
        load_interaction_ledger(&mut reg, vec![], lost, 1000),
        Err(RecoveryError::Ledger(LedgerError::UnknownLane(_)))
    ));
}

#[test]
fn a_fault_is_told_with_the_file_that_it_is_in() {
    let mut reg = LaneRegistry::default_direct_at("epoch-ms:1000");
    let torn = vec![line("{")];
    let error = load_interaction_ledger(&mut reg, vec![], torn, 1000).unwrap_err();
    assert!(error
        .message("l.json", "j.ndjson")
        .starts_with("corrupt interaction journal j.ndjson at line 1: "));
    let clash = vec![line(&line_json("i", "telepathy:direct", 2))];
    let error = load_interaction_ledger(
        &mut reg,
        vec![entry("i", "telepathy:direct", 1)],
        clash,
        1000,
    )
    .unwrap_err();
    assert_eq!(
        error.message("l.json", "j.ndjson"),
        "corrupt interaction ledger j.ndjson: interaction_id i has conflicting records"
    );
    let error =
        load_interaction_ledger(&mut reg, vec![entry("i", "bad lane", 1)], vec![], 1000).unwrap_err();
    assert_eq!(
        error.message("l.json", "j.ndjson"),
        "interaction ledger l.json contains invalid lane id"
    );
}

#[test]
fn only_the_present_format_of_the_ledger_is_read() {
    assert!(check_ledger_text(r#"{"version":2,"entries":[]}"#).is_ok());
    for text in [
        r#"{"version":1,"entries":[]}"#,
        r#"{"version":2.0}"#,
        r#"{"version":"2"}"#,
        r#"{"entries":[]}"#,
        "[]",
    ] {
        let error = check_ledger_text(text).unwrap_err();
        assert!(matches!(error, LedgerError::Version));
        assert_eq!(
            error.message("l.json"),
            "interaction ledger l.json uses an unsupported format; telepathosd now requires version 2 (hard cutover)"
        );
    }
    let words = check_ledger_text("{").unwrap_err().message("l.json");
    let why = serde_json::from_str::<Value>("{").unwrap_err();
    assert_eq!(words, format!("corrupt interaction ledger l.json: {why}"));
}

#[test]
fn snapshots_are_sorted_and_lines_read_back() {
    let mut ledger = InteractionLedger::default();
    ledger.entries = vec![
        entry("b", "telepathy:direct", 2),
        entry("a", "telepathy:direct", 1),
    ];
    let sorted = snapshot_entries(&ledger);
    assert_eq!(sorted[0].interaction_id, "a");
    assert_eq!(sorted[1].interaction_id, "b");
    let text = journal_line_text(&sorted[0]);
    assert_eq!(decoded(text.trim_end()).unwrap(), sorted[0]);
    assert!(text_less("a", "ab"));
    assert!(text_less("ab", "b"));
    assert!(!text_less("b", "b"));
}

// ---- sessions -------------------------------------------------------------------

#[test]
fn found_sessions_are_said_with_their_age() {
    let rows = vec![
        SearchRow {
            chat_id: "telepathy:direct".into(),
            title: "Deploy".into(),
            latest: 1_000_000,
        },
        SearchRow {
            chat_id: "other".into(),
            title: "".into(),
            latest: 1_000_000 - 3 * 86_400,
        },
    ];
    assert_eq!(
        search_summary(&rows, 1_000_000),
        "telepathy:direct: Deploy (today); other: untitled (3d ago)"
    );
    assert_eq!(search_summary(&vec![], 1), "No conversations matched.");
    assert_eq!(search_phrase("a \"b\" c"), "a b c");
    assert_eq!(bounded_text("héllo", 3, 9).as_deref(), Some("hé"));
    assert_eq!(bounded_chat_id(""), None);
    assert_eq!(
        bounded_titles(&vec![("a".into(), "".into()), ("b".into(), "B".into())]),
        vec![("b".to_string(), "B".to_string())]
    );
}
