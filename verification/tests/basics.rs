use telepathy::clock::{age_summary, age_summary_at, clock_ms, now_iso, stamp_text, wall_clock_millis};
use telepathy::json::{array_exceeds, count_array_bytes};
use telepathy::lanes::is_valid_lane_timestamp;
use telepathy::ntfy::NtfyPush;
use telepathy::paths::{
    inbound_path, interaction_journal_path, interaction_ledger_path, registry_generation_path,
    request_path,
};
use telepathy::relay::actions::{
    inbound_message_bytes, inbound_tombstone_bytes, pending_delivery_bytes,
};
use telepathy::relay::inbound::{build_inbound_message, inbound_record_size};
use telepathy::relay::records::{inbound_text, InboundAckTombstone};
use telepathy::relay::state::RelayState;
use telepathy::text::{
    bounded_prefix, byte_len, contains, decimal_text, is_blank, join_from, parse_number,
    remove_char, same_text, split, starts_with, strip_prefix, trim, trim_end, trim_start,
    truncate, utf16_count,
};
use telepathy::transcript::{fork_context_text, fork_message_text, TranscriptStore};
use telepathy::value::{read_json, same_json, Json};

#[test]
fn lengths_are_counted_in_each_unit() {
    assert_eq!(byte_len("aé🦀"), 7);
    assert_eq!(utf16_count("aé🦀"), 4);
}

#[test]
fn texts_are_cut_and_trimmed_as_std_does() {
    let s = "\u{2003} a b \u{85}";
    assert_eq!(trim(s), s.trim());
    assert_eq!(trim_start(s), s.trim_start());
    assert_eq!(trim_end(s), s.trim_end());
    assert!(is_blank(" \t\u{3000}"));
    assert!(!is_blank(" x "));
    assert_eq!(strip_prefix("Bearer x", "Bearer "), Some("x"));
    assert_eq!(strip_prefix("Basic x", "Bearer "), None);
    assert!(starts_with("hello", "he"));
    assert!(contains("hello", "ell"));
    assert!(!contains("hello", "elo"));
    assert_eq!(split("a:b::c", ':'), vec!["a", "b", "", "c"]);
    assert_eq!(join_from(&split("a b c", ' '), 1, "-"), "b-c");
    assert_eq!(remove_char("a\"b\"", '"'), "ab");
    assert!(same_text("é", "é"));
    assert!(!same_text("é", "e\u{301}"));
}

#[test]
fn numbers_read_back_and_overflow_is_refused() {
    for n in [0u128, 9, 10, 907, 9_007_199_254_740_991] {
        assert_eq!(parse_number(&decimal_text(n), u64::MAX as u128), Some(n));
    }
    assert_eq!(decimal_text(1200), "1200");
    assert_eq!(parse_number("", 9), None);
    assert_eq!(parse_number("+7", 9), Some(7));
    assert_eq!(parse_number("-7", 9), None);
    assert_eq!(parse_number("1e3", 9999), None);
    assert_eq!(parse_number("10", 9), None);
    assert_eq!(parse_number("007", 9), Some(7));
}

#[test]
fn an_excerpt_is_the_longest_prefix_that_fits() {
    assert_eq!(bounded_prefix("éé", 3, 9), "é");
    assert_eq!(bounded_prefix("éé", 9, 1), "é");
    assert_eq!(bounded_prefix("ab", 9, 9), "ab");
    assert_eq!(truncate(&"🧠".repeat(100)).len(), 120);
    assert_eq!(truncate(&format!("a{}", "🧠".repeat(100))).len(), 117);
}

#[test]
fn stamps_are_valid_times_and_age_in_words() {
    assert_eq!(stamp_text(1234), "epoch-ms:1234");
    assert!(is_valid_lane_timestamp(&now_iso()));
    assert!(wall_clock_millis() > 1_600_000_000_000);
    assert_eq!(clock_ms(7), 7);
    assert_eq!(clock_ms(u128::MAX), u64::MAX);
    assert_eq!(age_summary_at("epoch-ms:1000", 1000), "under an hour");
    assert_eq!(age_summary_at("epoch-ms:1000", 3_601_000), "1 hour");
    assert_eq!(age_summary_at("epoch-ms:1000", 7_201_000), "2 hours");
    assert_eq!(age_summary_at("epoch-ms:9000", 1000), "under an hour");
    assert_eq!(age_summary_at("tomorrow", 7_200_000), "2 hours");
    assert_eq!(age_summary(&now_iso()), "under an hour");
}

#[test]
fn json_texts_are_read_and_written_by_value() {
    let value = read_json(r#"{ "b" : [1, 2.5, null, true], "a": "x\ny" }"#).unwrap();
    assert_eq!(value.to_text(), r#"{"a":"x\ny","b":[1,2.5,null,true]}"#);
    assert_eq!(value.text_field("a"), Some("x\ny"));
    assert_eq!(value.natural_field("b"), None);
    assert!(value.get("c").is_none());
    assert!(read_json("{").is_none());
    assert!(read_json("\"\\ud800\"").is_none());
    assert!(read_json(&format!("{}{}", "[".repeat(128), "]".repeat(128))).is_none());
    let again = read_json(&value.to_text()).unwrap();
    assert!(same_json(&value, &again));
    assert!(!same_json(&value, &Json::number(1)));
    assert_eq!(Json::number(7).as_natural(), Some(7));
    assert_eq!(Json::string("q\"").to_text(), r#""q\"""#);
    assert_eq!(Json::list(vec![Json::Null]).to_text(), "[null]");
    assert_eq!(
        Json::object(vec![("k", Json::Bool(false))]).text_field_in("k", "x"),
        None
    );
}

#[test]
fn the_bytes_of_an_array_are_counted_exactly() {
    let texts = vec!["1".to_string(), "\"é\"".to_string()];
    assert_eq!(count_array_bytes(&texts), Some("[1,\"é\"]".len()));
    assert_eq!(count_array_bytes(&vec![]), Some(2));
    assert!(array_exceeds(&texts, 7));
    assert!(!array_exceeds(&texts, 8));
}

#[test]
fn sidecar_files_stand_beside_their_file() {
    assert_eq!(request_path(Some("p.json")), "p.json.requests");
    assert_eq!(inbound_path(None), "pending.json.inbound");
    assert_eq!(
        interaction_ledger_path(Some("lanes.json")),
        "lanes.json.interaction-ledger.json"
    );
    assert_eq!(
        interaction_journal_path(Some("x")),
        "x.journal.ndjson"
    );
    assert_eq!(
        registry_generation_path(Some("lanes.json")),
        "lanes.json.revision-generation"
    );
}

#[test]
fn a_transcript_keeps_the_newest_turns() {
    let mut store = TranscriptStore { lanes: Vec::new() };
    store.push_at("a", "user", "  ", 1);
    assert!(store.recent("a", 5).is_empty());
    for n in 0..50u64 {
        store.push_at("a", "user", &n.to_string(), n);
    }
    store.push("b", "agent", "other");
    let recent = store.recent("a", 100);
    assert_eq!(recent.len(), 40);
    assert_eq!(recent[39].text, "49");
    assert_eq!(store.recent("a", 2)[0].text, "48");
    assert_eq!(store.recent("b", 2).len(), 1);
    let last = store.recent("a", 2);
    assert_eq!(
        fork_context_text("side", "direct", &last).unwrap(),
        "Context from side (forked):\ndirect\n---\nuser: 48\nuser: 49"
    );
    assert!(fork_context_text("side", "direct", &vec![]).is_none());
    assert_eq!(
        fork_message_text("direct", &last),
        "This lane continues from 'direct'. Recent context:\nuser: 48\nuser: 49"
    );
}

#[test]
fn each_delivery_is_announced_once() {
    let mut relay = RelayState::default();
    let mut push = NtfyPush::new("http://h".into(), None, 0);
    assert!(push.announce_new(&mut relay).is_empty());
    relay.queue_delivery_at("telepathy:direct", "one", 1).unwrap();
    relay.queue_delivery_at("telepathy:direct", "two", 1).unwrap();
    let fresh = push.announce_new(&mut relay);
    assert_eq!(fresh.len(), 2);
    for d in &fresh {
        push.announced(d.seq);
    }
    assert!(push.announce_new(&mut relay).is_empty());
    push.announced(1);
    assert_eq!(push.last_seq, 2);
    assert_eq!(NtfyPush::title("direct"), "Telepathy · direct");
}

#[test]
fn records_are_counted_as_they_are_written() {
    let mut relay = RelayState::default();
    relay.queue_delivery_at("telepathy:direct", "é", 7).unwrap();
    assert_eq!(
        pending_delivery_bytes(&relay.deliveries),
        Some(r#"[{"seq":1,"chat_id":"telepathy:direct","content":"é","arrived_at":7}]"#.len())
    );
    let event = read_json(r#"{"message_id":"tp-1"}"#).unwrap();
    let turn = build_inbound_message("tp-1", 3, &event);
    assert_eq!(
        turn.frame,
        r#"{"event":{"message_id":"tp-1"},"generation":3,"handoffVersion":2,"messageId":"tp-1","type":"inbound"}"#
    );
    assert_eq!(inbound_record_size("tp-1", 3, &event), inbound_text(&turn).len());
    assert_eq!(
        inbound_message_bytes(&vec![turn.clone()]),
        Some(inbound_text(&turn).len() + 2)
    );
    assert_eq!(
        inbound_tombstone_bytes(&vec![InboundAckTombstone {
            message_id: "tp-1".into(),
            generation: 3
        }]),
        Some(r#"[{"message_id":"tp-1","generation":3}]"#.len())
    );
}
