use serde_json::Value;
use telepathy::proto::{
    is_protocol_blank, is_valid_installation_id, is_valid_lane_id, is_valid_opaque_id,
    is_valid_turn_token, serialize_server_msg, CommandKind, ControlMsg, MetaModeFrame, ServerMsg,
    MAX_INSTALLATION_ID_LENGTH, MAX_LANE_ID_LENGTH, MAX_OPAQUE_ID_BYTES, MAX_OPAQUE_ID_LENGTH,
    MAX_SAFE_SEQUENCE, MAX_TURN_TOKEN_LENGTH,
};

fn object(members: &[(&str, Value)]) -> Value {
    let mut map = serde_json::Map::new();
    for (name, value) in members {
        map.insert(name.to_string(), value.clone());
    }
    Value::Object(map)
}

fn text(value: &Value, name: &str) -> Option<String> {
    value.get(name)?.as_str().map(|s| s.to_string())
}

fn optional_text(value: &Value, name: &str) -> Option<Option<String>> {
    match value.get(name) {
        None | Some(Value::Null) => Some(None),
        Some(Value::String(s)) => Some(Some(s.clone())),
        Some(_) => None,
    }
}

fn optional_number(value: &Value, name: &str) -> Option<Option<u64>> {
    match value.get(name) {
        None | Some(Value::Null) => Some(None),
        Some(v) => v.as_u64().map(Some),
    }
}

/// Reads the fields of a frame; what they hold is judged by the library.
fn decode(raw: &str) -> Option<ControlMsg> {
    let value: Value = serde_json::from_str(raw).ok()?;
    let kind = text(&value, "type")?;
    match kind.as_str() {
        "hello" => Some(ControlMsg::Hello {
            device: text(&value, "device")?,
            installation_id: text(&value, "installation_id")?,
            token: optional_text(&value, "token")?,
        }),
        "command" => Some(ControlMsg::Command {
            command: match text(&value, "command")?.as_str() {
                "stop" => CommandKind::Stop,
                "repeat" => CommandKind::Repeat,
                "cancel_capture" => CommandKind::CancelCapture,
                _ => return None,
            },
            turn_token: text(&value, "turn_token")?,
        }),
        "utterance_end" => Some(ControlMsg::UtteranceEnd {
            turn_token: text(&value, "turn_token")?,
        }),
        "meta_mode" => Some(ControlMsg::MetaMode {
            turn_token: text(&value, "turn_token")?,
        }),
        "lane" => Some(ControlMsg::Lane {
            id: text(&value, "id")?,
            revision: optional_number(&value, "revision")?,
            turn_token: text(&value, "turn_token")?,
        }),
        "reply_received" => Some(ControlMsg::ReplyReceived {
            lane_id: text(&value, "lane_id")?,
            reply_to: text(&value, "reply_to")?,
            after_seq: value.get("after_seq")?.as_u64()?,
            through_seq: value.get("through_seq")?.as_u64()?,
            turn_token: text(&value, "turn_token")?,
            interaction_id: text(&value, "interaction_id")?,
        }),
        "reply_ack" => Some(ControlMsg::ReplyAck {
            lane_id: text(&value, "lane_id")?,
            reply_to: text(&value, "reply_to")?,
            after_seq: value.get("after_seq")?.as_u64()?,
            through_seq: value.get("through_seq")?.as_u64()?,
            turn_token: text(&value, "turn_token")?,
            interaction_id: text(&value, "interaction_id")?,
        }),
        "reply_ack_retire" => Some(ControlMsg::ReplyAckRetire {
            lane_id: text(&value, "lane_id")?,
            reply_to: text(&value, "reply_to")?,
            after_seq: value.get("after_seq")?.as_u64()?,
            through_seq: value.get("through_seq")?.as_u64()?,
            turn_token: text(&value, "turn_token")?,
            interaction_id: text(&value, "interaction_id")?,
        }),
        _ => None,
    }
}

fn parse(raw: &str) -> Option<ControlMsg> {
    ControlMsg::parse(decode(raw))
}

fn wire_value(message: &ServerMsg) -> Value {
    serde_json::from_str(&message.serialize().unwrap()).unwrap()
}

#[test]
fn lane_id_contract_rejects_json_metacharacters_controls_unicode_and_oversize() {
    for value in [
        "",
        " ",
        "telepathos:repo:quote\"",
        "telepathos:repo:backslash\\",
        "telepathos:repo:control\n",
        "telepathos:repo:é",
    ] {
        assert!(
            !is_valid_lane_id(value),
            "unexpected valid lane id: {value:?}"
        );
    }
    assert!(!is_valid_lane_id(&format!(
        "telepathos:repo:{}",
        "a".repeat(MAX_LANE_ID_LENGTH)
    )));
    assert!(is_valid_lane_id("telepathos:direct"));
    assert!(is_valid_lane_id("telepathos:repo:geospatial-migration"));
}

#[test]
fn opaque_id_contract_matches_utf8_utf16_and_control_boundaries() {
    assert!(is_valid_opaque_id("id-1"));
    assert!(is_valid_opaque_id(&"é".repeat(MAX_OPAQUE_ID_BYTES / 2)));
    assert!(is_valid_opaque_id(&"🦀".repeat(MAX_OPAQUE_ID_BYTES / 4)));
    for value in ["", " \t\n", "id\0bad", "id\u{0085}bad"] {
        assert!(
            !is_valid_opaque_id(value),
            "unexpected valid opaque ID: {value:?}"
        );
    }
    assert!(!is_valid_opaque_id(
        &"é".repeat(MAX_OPAQUE_ID_BYTES / 2 + 1)
    ));
    assert!(!is_valid_opaque_id(
        &"🦀".repeat(MAX_OPAQUE_ID_BYTES / 4 + 1)
    ));
}

#[test]
fn outbound_serialization_rejects_oversized_correlation_ids() {
    let message = ServerMsg::AgentEnd {
        text: "reply".into(),
        turn_token: "turn-1".into(),
        interaction_id: "i".repeat(MAX_OPAQUE_ID_LENGTH + 1),
        lane_id: None,
        reply_to: None,
        after_seq: None,
        through_seq: None,
    };
    assert!(serialize_server_msg(&message).is_none());
}

#[test]
fn agent_end_rejects_every_partial_delivery_receipt_combination() {
    for mask in 1..0b1111_u8 {
        let message = ServerMsg::AgentEnd {
            text: "reply".into(),
            turn_token: "turn-1".into(),
            interaction_id: "interaction-1".into(),
            lane_id: (mask & 0b0001 != 0).then_some("telepathos:direct".into()),
            reply_to: (mask & 0b0010 != 0).then_some("reply-1".into()),
            after_seq: (mask & 0b0100 != 0).then_some(4),
            through_seq: (mask & 0b1000 != 0).then_some(6),
        };

        assert!(
            serialize_server_msg(&message).is_none(),
            "partial receipt mask {mask:#06b} was serialized"
        );
        assert!(
            message.serialize().is_err(),
            "partial receipt mask {mask:#06b} bypassed the Serialize boundary"
        );
    }
}

#[test]
fn agent_end_requires_valid_delivery_receipt_ids_and_interval() {
    let make_message =
        |lane_id: &str, reply_to: &str, after_seq: u64, through_seq: u64| ServerMsg::AgentEnd {
            text: "reply".into(),
            turn_token: "turn-1".into(),
            interaction_id: "interaction-1".into(),
            lane_id: Some(lane_id.into()),
            reply_to: Some(reply_to.into()),
            after_seq: Some(after_seq),
            through_seq: Some(through_seq),
        };

    let valid = make_message("telepathos:direct", "reply-1", 4, 6);
    assert_eq!(
        valid.serialize().unwrap(),
        r#"{"type":"agent_end","text":"reply","turn_token":"turn-1","interaction_id":"interaction-1","lane_id":"telepathos:direct","reply_to":"reply-1","after_seq":4,"through_seq":6}"#
    );
    assert!(serialize_server_msg(&valid).is_some());

    for (name, message) in [
        (
            "invalid lane",
            make_message("telepathos: direct", "reply-1", 4, 6),
        ),
        (
            "blank reply ID",
            make_message("telepathos:direct", " ", 4, 6),
        ),
        (
            "unsafe after sequence",
            make_message(
                "telepathos:direct",
                "reply-1",
                MAX_SAFE_SEQUENCE + 1,
                MAX_SAFE_SEQUENCE + 2,
            ),
        ),
        (
            "unsafe through sequence",
            make_message(
                "telepathos:direct",
                "reply-1",
                MAX_SAFE_SEQUENCE - 1,
                MAX_SAFE_SEQUENCE + 1,
            ),
        ),
        (
            "reversed interval",
            make_message("telepathos:direct", "reply-1", 6, 4),
        ),
        (
            "equal interval",
            make_message("telepathos:direct", "reply-1", 4, 4),
        ),
    ] {
        assert!(
            serialize_server_msg(&message).is_none(),
            "{name} was serialized"
        );
        assert!(
            message.serialize().is_err(),
            "{name} bypassed the Serialize boundary"
        );
    }
}

#[test]
fn parses_valid_frames() {
    assert_eq!(
        parse(
            r#"{"type":"hello","device":"opendots2","installation_id":"  install-1  "}"#
        ),
        Some(ControlMsg::Hello {
            device: "opendots2".into(),
            installation_id: "  install-1  ".into(),
            token: None
        })
    );
    assert_eq!(
        parse(r#"{"type":"command","command":"stop","turn_token":"turn-1"}"#),
        Some(ControlMsg::Command {
            command: CommandKind::Stop,
            turn_token: "turn-1".into(),
        })
    );
    assert_eq!(
        parse(r#"{"type":"utterance_end","turn_token":"turn-1"}"#),
        Some(ControlMsg::UtteranceEnd {
            turn_token: "turn-1".into(),
        })
    );
    assert_eq!(
        parse(r#"{"type":"meta_mode","turn_token":"turn-1"}"#),
        Some(ControlMsg::MetaMode {
            turn_token: "turn-1".into(),
        })
    );
    assert_eq!(
        parse(r#"{"type":"lane","id":"telepathos:direct","turn_token":"turn-1"}"#),
        Some(ControlMsg::Lane {
            id: "telepathos:direct".into(),
            revision: None,
            turn_token: "turn-1".into(),
        })
    );
    assert_eq!(
        parse(
            r#"{"type":"reply_received","lane_id":"telepathos:direct","reply_to":"tp-1","after_seq":4,"through_seq":6,"turn_token":"turn-1","interaction_id":"i-1"}"#
        ),
        Some(ControlMsg::ReplyReceived {
            lane_id: "telepathos:direct".into(),
            reply_to: "tp-1".into(),
            after_seq: 4,
            through_seq: 6,
            turn_token: "turn-1".into(),
            interaction_id: "i-1".into(),
        })
    );
    assert_eq!(
        parse(
            r#"{"type":"reply_ack","lane_id":"telepathos:direct","reply_to":"tp-1","after_seq":4,"through_seq":6,"turn_token":"turn-1","interaction_id":"i-1"}"#
        ),
        Some(ControlMsg::ReplyAck {
            lane_id: "telepathos:direct".into(),
            reply_to: "tp-1".into(),
            after_seq: 4,
            through_seq: 6,
            turn_token: "turn-1".into(),
            interaction_id: "i-1".into(),
        })
    );
    assert_eq!(
        parse(
            r#"{"type":"reply_ack_retire","lane_id":"telepathos:direct","reply_to":"tp-1","after_seq":4,"through_seq":6,"turn_token":"turn-1","interaction_id":"i-1"}"#
        ),
        Some(ControlMsg::ReplyAckRetire {
            lane_id: "telepathos:direct".into(),
            reply_to: "tp-1".into(),
            after_seq: 4,
            through_seq: 6,
            turn_token: "turn-1".into(),
            interaction_id: "i-1".into(),
        })
    );
}

#[test]
fn rejects_malformed_and_unknown() {
    for s in [
        "not json{{{",
        "{\"type\":",
        "{\"type\":\"command\",\"command\":\"approve\"}", // old protocol word
        r#"{"type":"hello","device":"opendots2"}"#,
        r#"{"type":"command","command":"stop"}"#,
        r#"{"type":"utterance_end"}"#,
        r#"{"type":"meta_mode","turn_token":""}"#,
        r#"{"type":"lane","id":"telepathos:direct"}"#,
        "{\"type\":\"unknown_weird\"}",
        "[]",
        "null",
        r#"{"type":"reply_received","lane_id":"","reply_to":"tp-1","after_seq":0,"through_seq":1,"turn_token":"turn-1","interaction_id":"i-1"}"#,
        r#"{"type":"reply_received","lane_id":"telepathos:direct","reply_to":"tp-1","after_seq":1,"through_seq":1,"turn_token":"turn-1","interaction_id":"i-1"}"#,
        r#"{"type":"reply_received","lane_id":"telepathos:direct","reply_to":"tp-1","after_seq":0,"through_seq":1,"turn_token":"","interaction_id":"i-1"}"#,
        r#"{"type":"reply_ack","lane_id":"","reply_to":"tp-1","after_seq":0,"through_seq":1,"turn_token":"turn-1","interaction_id":"i-1"}"#,
        r#"{"type":"reply_ack","lane_id":"telepathos:direct","reply_to":"","after_seq":0,"through_seq":1,"turn_token":"turn-1","interaction_id":"i-1"}"#,
        r#"{"type":"reply_ack","lane_id":"telepathos:direct","reply_to":"tp-1","after_seq":6,"through_seq":6,"turn_token":"turn-1","interaction_id":"i-1"}"#,
        r#"{"type":"reply_ack","lane_id":"telepathos:direct","reply_to":"tp-1","after_seq":0,"through_seq":1,"turn_token":"","interaction_id":"i-1"}"#,
        r#"{"type":"reply_ack_retire","lane_id":"","reply_to":"tp-1","after_seq":0,"through_seq":1,"turn_token":"turn-1","interaction_id":"i-1"}"#,
        r#"{"type":"reply_ack_retire","lane_id":"telepathos:direct","reply_to":"","after_seq":0,"through_seq":1,"turn_token":"turn-1","interaction_id":"i-1"}"#,
        r#"{"type":"reply_ack_retire","lane_id":"telepathos:direct","reply_to":"tp-1","after_seq":6,"through_seq":6,"turn_token":"turn-1","interaction_id":"i-1"}"#,
        r#"{"type":"reply_ack_retire","lane_id":"telepathos:direct","reply_to":"tp-1","after_seq":0,"through_seq":1,"turn_token":"","interaction_id":"i-1"}"#,
    ] {
        assert_eq!(parse(s), None, "should reject: {s}");
    }
}

#[test]
fn receipt_and_control_bounds_match_js_and_kotlin() {
    let max_token = "t".repeat(MAX_TURN_TOKEN_LENGTH);
    let oversized_token = "t".repeat(MAX_TURN_TOKEN_LENGTH + 1);

    for raw in [
        object(&[
            ("type", Value::from("command")),
            ("command", Value::from("stop")),
            ("turn_token", Value::from(max_token.clone())),
        ]),
        object(&[
            ("type", Value::from("utterance_end")),
            ("turn_token", Value::from(max_token.clone())),
        ]),
        object(&[
            ("type", Value::from("meta_mode")),
            ("turn_token", Value::from(max_token.clone())),
        ]),
        object(&[
            ("type", Value::from("lane")),
            ("id", Value::from("telepathos:direct")),
            ("turn_token", Value::from(max_token.clone())),
        ]),
    ] {
        assert!(
            parse(&raw.to_string()).is_some(),
            "should accept: {raw}"
        );
        let mut oversized = raw;
        oversized["turn_token"] = oversized_token.clone().into();
        assert_eq!(parse(&oversized.to_string()), None);
    }

    for frame_type in ["reply_received", "reply_ack", "reply_ack_retire"] {
        let at_limit = object(&[
            ("type", Value::from(frame_type)),
            ("lane_id", Value::from("telepathos:direct")),
            ("reply_to", Value::from("tp-1")),
            ("after_seq", Value::from(MAX_SAFE_SEQUENCE - 1)),
            ("through_seq", Value::from(MAX_SAFE_SEQUENCE)),
            ("turn_token", Value::from(max_token.clone())),
            ("interaction_id", Value::from("i-1")),
        ]);
        assert!(
            parse(&at_limit.to_string()).is_some(),
            "should accept at-limit {frame_type}"
        );

        let mut oversized_token_frame = at_limit.clone();
        oversized_token_frame["turn_token"] = oversized_token.clone().into();
        assert_eq!(parse(&oversized_token_frame.to_string()), None);

        let mut oversized_sequence_frame = at_limit;
        oversized_sequence_frame["after_seq"] = MAX_SAFE_SEQUENCE.into();
        oversized_sequence_frame["through_seq"] = (MAX_SAFE_SEQUENCE + 1).into();
        assert_eq!(
            parse(&oversized_sequence_frame.to_string()),
            None
        );
    }

    assert!(is_valid_turn_token(&"🦀".repeat(MAX_TURN_TOKEN_LENGTH / 2)));
    assert!(!is_valid_turn_token(
        &"🦀".repeat(MAX_TURN_TOKEN_LENGTH / 2 + 1)
    ));
}

#[test]
fn opaque_id_blankness_matches_the_explicit_protocol_code_point_set() {
    let cases = [
        ("", false),
        (" ", false),
        ("\t", false),
        ("\n", false),
        ("\u{000b}", false),
        ("\u{000c}", false),
        ("\r", false),
        ("\u{0000}", false),
        ("\u{001f}", false),
        ("\u{007f}", false),
        ("\u{0085}", false),
        ("\u{009f}", false),
        ("\u{00a0}", false),
        ("\u{2007}", false),
        ("\u{202f}", false),
        ("\u{feff}", false),
        ("id", true),
        (" id ", true),
        ("\u{00a0}id\u{00a0}", true),
        ("\u{2007}id\u{2007}", true),
        ("\u{202f}id\u{202f}", true),
        ("\u{feff}id\u{feff}", true),
        ("id\t", false),
        ("id\u{0085}", false),
    ];

    for (value, expected) in cases {
        assert_eq!(
            is_valid_opaque_id(value),
            expected,
            "unexpected opaque-ID validity for {value:?}"
        );
    }
}

#[test]
fn turn_token_blankness_matches_the_explicit_protocol_code_point_set_without_adding_controls() {
    let cases = [
        ("", false),
        (" ", false),
        ("\t", false),
        ("\n", false),
        ("\u{000b}", false),
        ("\u{000c}", false),
        ("\r", false),
        ("\u{0085}", false),
        ("\u{00a0}", false),
        ("\u{1680}", false),
        ("\u{2007}", false),
        ("\u{202f}", false),
        ("\u{3000}", false),
        ("\u{feff}", false),
        // Turn tokens historically have no control-character rejection.
        ("\u{0000}", true),
        ("\u{001f}", true),
        ("\u{007f}", true),
        ("\u{009f}", true),
        ("turn-1", true),
        (" turn-1 ", true),
        ("\u{00a0}turn-1\u{00a0}", true),
        ("\u{2007}turn-1\u{2007}", true),
        ("\u{202f}turn-1\u{202f}", true),
        ("\u{feff}turn-1\u{feff}", true),
        ("turn-1\t", true),
        ("turn-1\u{0085}", true),
    ];

    for (value, expected) in cases {
        assert_eq!(
            is_valid_turn_token(value),
            expected,
            "unexpected turn-token validity for {value:?}"
        );
        let raw = object(&[
            ("type", Value::from("command")),
            ("command", Value::from("stop")),
            ("turn_token", Value::from(value)),
        ])
        .to_string();
        match (parse(&raw), expected) {
            (Some(ControlMsg::Command { turn_token, .. }), true) => {
                assert_eq!(turn_token, value)
            }
            (None, false) => {}
            (parsed, expected) => {
                panic!("unexpected parsed turn token {parsed:?}, expected {expected}")
            }
        }
    }
}

#[test]
fn rejects_lone_utf16_surrogates_at_the_json_boundary() {
    for surrogate in [r#"\ud800"#, r#"\udc00"#] {
        let command = format!(
            r#"{{"type":"command","command":"stop","turn_token":"{}"}}"#,
            surrogate
        );
        assert_eq!(
            parse(&command),
            None,
            "accepted turn token {surrogate:?}"
        );

        let hello = format!(
            r#"{{"type":"hello","device":"opendots2","installation_id":"{}"}}"#,
            surrogate
        );
        assert_eq!(
            parse(&hello),
            None,
            "accepted installation ID {surrogate:?}"
        );
    }
}

#[test]
fn lane_revision_matches_the_json_safe_integer_boundary() {
    let at_limit = object(&[
        ("type", Value::from("lane")),
        ("id", Value::from("telepathos:direct")),
        ("revision", Value::from(MAX_SAFE_SEQUENCE)),
        ("turn_token", Value::from("turn-1")),
    ]);
    assert!(parse(&at_limit.to_string()).is_some());

    let mut one_over = at_limit;
    one_over["revision"] = (MAX_SAFE_SEQUENCE + 1).into();
    assert_eq!(parse(&one_over.to_string()), None);
}

#[test]
fn validates_installation_ids_without_normalizing_them() {
    let valid = r#"{"type":"hello","device":"opendots2","installation_id":"  opaque-owner  "}"#;
    assert_eq!(
        parse(valid),
        Some(ControlMsg::Hello {
            device: "opendots2".into(),
            installation_id: "  opaque-owner  ".into(),
            token: None,
        })
    );

    for installation_id in [
        " ",
        "\t",
        "\n",
        "\u{000b}",
        "\u{000c}",
        "\r",
        "\u{0085}",
        "\u{00a0}",
        "\u{1680}",
        "\u{2007}",
        "\u{202f}",
        "\u{3000}",
        "\u{feff}",
        "\u{0000}",
        "\u{001f}",
        "\u{007f}",
        "\u{009f}",
        "\u{0000}owner",
        "owner\u{001f}",
        "owner\u{007f}",
        "owner\u{009f}",
        "owner\t",
        "owner\u{0085}",
    ] {
        let raw = object(&[
            ("type", Value::from("hello")),
            ("device", Value::from("opendots2")),
            ("installation_id", Value::from(installation_id)),
        ])
        .to_string();
        assert_eq!(
            parse(&raw),
            None,
            "should reject: {installation_id:?}"
        );
    }

    for installation_id in [
        "owner",
        " owner ",
        "\u{00a0}owner\u{00a0}",
        "\u{2007}owner\u{2007}",
        "\u{202f}owner\u{202f}",
        "\u{feff}owner\u{feff}",
    ] {
        assert!(is_valid_installation_id(installation_id));
        let raw = object(&[
            ("type", Value::from("hello")),
            ("device", Value::from("opendots2")),
            ("installation_id", Value::from(installation_id)),
        ])
        .to_string();
        assert_eq!(
            parse(&raw),
            Some(ControlMsg::Hello {
                device: "opendots2".into(),
                installation_id: installation_id.into(),
                token: None,
            }),
            "valid installation ID was normalized: {installation_id:?}"
        );
    }

    let oversized = "x".repeat(MAX_INSTALLATION_ID_LENGTH + 1);
    let raw = object(&[
        ("type", Value::from("hello")),
        ("device", Value::from("opendots2")),
        ("installation_id", Value::from(oversized.clone())),
    ])
    .to_string();
    assert_eq!(
        parse(&raw),
        None,
        "should reject an oversized ID"
    );

    assert!(is_valid_installation_id(
        &"🦀".repeat(MAX_INSTALLATION_ID_LENGTH / 2)
    ));
    assert!(!is_valid_installation_id(
        &"🦀".repeat(MAX_INSTALLATION_ID_LENGTH / 2 + 1)
    ));
}

#[test]
fn hello_round_trips_with_exact_v5_wire_shape() {
    let msg = ControlMsg::Hello {
        device: "opendots2".into(),
        installation_id: "  opaque-owner  ".into(),
        token: Some("secret".into()),
    };
    let json = msg.serialize();
    assert_eq!(
        json,
        r#"{"type":"hello","device":"opendots2","installation_id":"  opaque-owner  ","token":"secret"}"#
    );
    assert_eq!(parse(&json), Some(msg));
}

#[test]
fn receipt_control_variants_round_trip_with_exact_wire_names() {
    let controls = [
        (
            ControlMsg::ReplyReceived {
                lane_id: "telepathos:direct".into(),
                reply_to: "tp-1".into(),
                after_seq: 4,
                through_seq: 6,
                turn_token: "turn-1".into(),
                interaction_id: "i-1".into(),
            },
            "reply_received",
        ),
        (
            ControlMsg::ReplyAck {
                lane_id: "telepathos:direct".into(),
                reply_to: "tp-1".into(),
                after_seq: 4,
                through_seq: 6,
                turn_token: "turn-1".into(),
                interaction_id: "i-1".into(),
            },
            "reply_ack",
        ),
        (
            ControlMsg::ReplyAckRetire {
                lane_id: "telepathos:direct".into(),
                reply_to: "tp-1".into(),
                after_seq: 4,
                through_seq: 6,
                turn_token: "turn-1".into(),
                interaction_id: "i-1".into(),
            },
            "reply_ack_retire",
        ),
    ];

    for (msg, wire_type) in controls {
        let json = msg.serialize();
        let value: serde_json::Value = serde_json::from_str(&json).unwrap();
        assert_eq!(value["type"], wire_type);
        assert_eq!(parse(&json), Some(msg));
    }
}

#[test]
fn server_frames_round_trip() {
    let end = ServerMsg::AgentEnd {
        text: "hello".into(),
        turn_token: "turn-1".into(),
        interaction_id: "i-1".into(),
        lane_id: None,
        reply_to: None,
        after_seq: None,
        through_seq: None,
    };
    let end_value = wire_value(&end);
    assert_eq!(end_value["type"], "agent_end");
    assert_eq!(end_value["text"], "hello");

    let msg = ServerMsg::AgentDelta {
        text: "hi".into(),
        turn_token: "turn-1".into(),
        interaction_id: "i-1".into(),
    };
    let json = msg.serialize().unwrap();
    assert!(json.contains("\"agent_delta\""));
    assert!(json.contains("\"text\":\"hi\""));
    assert!(json.contains("\"turn_token\":\"turn-1\""));
    assert!(json.contains("\"interaction_id\":\"i-1\""));

    let stt = ServerMsg::Stt {
        text: "heard".into(),
        confidence: Some("0.75".into()),
        repo: Some("telepathos:direct".into()),
        turn_token: "turn-1".into(),
        interaction_id: "i-1".into(),
    };
    let stt_value = wire_value(&stt);
    assert_eq!(stt_value["type"], "stt");
    assert_eq!(stt_value["text"], "heard");
    assert_eq!(stt_value["confidence"], 0.75);
    assert_eq!(stt_value["repo"], "telepathos:direct");

    for (confidence, good) in [
        ("0", true),
        ("-0.5", true),
        ("1e-7", true),
        ("12.25E+3", true),
        ("null", true),
        ("", false),
        ("-", false),
        ("01", false),
        (".5", false),
        ("1.", false),
        ("1e", false),
        ("0.75 ", false),
        ("1,\"x\":2", false),
    ] {
        let msg = ServerMsg::Stt {
            text: "heard".into(),
            confidence: Some(confidence.into()),
            repo: None,
            turn_token: "turn-1".into(),
            interaction_id: "i-1".into(),
        };
        assert_eq!(msg.serialize().is_ok(), good, "{confidence}");
    }

    let stt_without_metadata = wire_value(&ServerMsg::Stt {
        text: "heard".into(),
        confidence: None,
        repo: None,
        turn_token: "turn-1".into(),
        interaction_id: "i-1".into(),
    });
    assert!(!stt_without_metadata
        .as_object()
        .unwrap()
        .contains_key("confidence"));
    assert!(!stt_without_metadata
        .as_object()
        .unwrap()
        .contains_key("repo"));
}

#[test]
fn server_receipt_variants_use_exact_wire_names_and_fields() {
    let messages = [
        (
            ServerMsg::ReplyReceived {
                lane_id: "telepathos:direct".into(),
                reply_to: "tp-1".into(),
                after_seq: 4,
                through_seq: 6,
                turn_token: "turn-1".into(),
                interaction_id: "i-1".into(),
            },
            "reply_received",
        ),
        (
            ServerMsg::ReplyAcknowledged {
                lane_id: "telepathos:direct".into(),
                reply_to: "tp-1".into(),
                after_seq: 4,
                through_seq: 6,
                turn_token: "turn-1".into(),
                interaction_id: "i-1".into(),
            },
            "reply_acknowledged",
        ),
        (
            ServerMsg::ReplyAckRetired {
                lane_id: "telepathos:direct".into(),
                reply_to: "tp-1".into(),
                after_seq: 4,
                through_seq: 6,
                turn_token: "turn-1".into(),
                interaction_id: "i-1".into(),
            },
            "reply_ack_retired",
        ),
    ];

    for (msg, wire_type) in messages {
        let value = wire_value(&msg);
        assert_eq!(value["type"], wire_type);
        assert_eq!(value["lane_id"], "telepathos:direct");
        assert_eq!(value["reply_to"], "tp-1");
        assert_eq!(value["after_seq"], 4);
        assert_eq!(value["through_seq"], 6);
        assert_eq!(value["turn_token"], "turn-1");
        assert_eq!(value["interaction_id"], "i-1");
    }
}

#[test]
fn frames_without_correlation_serialize_in_declaration_order() {
    assert_eq!(
        serialize_server_msg(&ServerMsg::Ready),
        Some(r#"{"type":"ready"}"#.to_string())
    );
    assert_eq!(
        serialize_server_msg(&ServerMsg::Listening),
        Some(r#"{"type":"listening"}"#.to_string())
    );
    assert_eq!(
        serialize_server_msg(&ServerMsg::SpeechStart),
        Some(r#"{"type":"speech_start"}"#.to_string())
    );
}

#[test]
fn texts_are_quoted_on_the_wire() {
    let message = ServerMsg::AgentDelta {
        text: "say \"hi\"\n\\ é".into(),
        turn_token: "turn-1".into(),
        interaction_id: "i-1".into(),
    };
    assert_eq!(
        serialize_server_msg(&message).unwrap(),
        "{\"type\":\"agent_delta\",\"text\":\"say \\\"hi\\\"\\n\\\\ é\",\"turn_token\":\"turn-1\",\"interaction_id\":\"i-1\"}"
    );
}

#[test]
fn an_invalid_frame_names_its_fault() {
    let message = ServerMsg::AgentDelta {
        text: "hi".into(),
        turn_token: " ".into(),
        interaction_id: "i-1".into(),
    };
    assert_eq!(
        message.serialize(),
        Err("invalid server message correlation fields".to_string())
    );
    assert_eq!(serialize_server_msg(&message), None);
}

#[test]
fn every_control_frame_is_written_as_it_is_read() {
    for raw in [
        r#"{"type":"hello","device":"d","installation_id":"i"}"#,
        r#"{"type":"command","command":"stop","turn_token":"t"}"#,
        r#"{"type":"command","command":"repeat","turn_token":"t"}"#,
        r#"{"type":"command","command":"cancel_capture","turn_token":"t"}"#,
        r#"{"type":"utterance_end","turn_token":"t"}"#,
        r#"{"type":"meta_mode","turn_token":"t"}"#,
        r#"{"type":"lane","id":"telepathos:direct","turn_token":"t"}"#,
        r#"{"type":"lane","id":"telepathos:direct","revision":7,"turn_token":"t"}"#,
        r#"{"type":"reply_ack","lane_id":"telepathos:direct","reply_to":"r","after_seq":4,"through_seq":6,"turn_token":"t","interaction_id":"i"}"#,
    ] {
        assert_eq!(parse(raw).unwrap().serialize(), raw);
    }
    assert_eq!(ControlMsg::parse(None), None);
    assert_eq!(MetaModeFrame, MetaModeFrame);
}

#[test]
fn lane_ids_are_opaque_ids_of_the_same_length() {
    let longest = "a".repeat(MAX_LANE_ID_LENGTH);
    assert!(is_valid_lane_id(&longest));
    assert!(is_valid_opaque_id(&longest));
    assert!(!is_valid_lane_id(&"a".repeat(MAX_LANE_ID_LENGTH + 1)));
    assert!(is_protocol_blank(" \u{feff}\u{2007}"));
    assert!(!is_protocol_blank(" x "));
}
