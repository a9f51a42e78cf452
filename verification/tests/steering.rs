use telepathy::lanes::LaneRegistry;
use telepathy::openai::{
    assistant_message_value, assistant_tool_calls_message, build_request_body,
    extend_provider_body, parse_response, tool_message, OpenAiProvider, MAX_PROVIDER_RESPONSE_BYTES,
    MAX_REPLY_TEXT_BYTES,
};
use telepathy::steering::{
    execute_tool, execute_tool_at, search_query, step_can_run, tools, Conversation, LoopStep,
    NullProvider, SteeringTool, StepOutcome, ToolCall, CIRCLES, MAX_TOOL_ROUNDS,
};
use telepathy::value::{read_json, Json};

fn parsed(value: &Json) -> serde_json::Value {
    serde_json::from_str(&value.to_text()).unwrap()
}

fn json(text: &str) -> Json {
    read_json(text).unwrap()
}

fn call(id: &str, name: &str, arguments: &str) -> ToolCall {
    ToolCall {
        id: id.into(),
        name: name.into(),
        arguments: arguments.into(),
    }
}

fn completion(content: String) -> Json {
    json(&format!(
        r#"{{"choices": [{{"message": {{"role": "assistant", "content": "{content}"}}}}]}}"#
    ))
}

#[test]
fn request_body_has_tools_in_openai_shape() {
    let body = parsed(&build_request_body(
        "m",
        "sys",
        &tools(),
        &json(r#"[{"role":"user","content":"hi"}]"#),
    ));
    assert_eq!(body["model"], "m");
    assert_eq!(body["messages"][0]["role"], "system");
    assert_eq!(body["tools"][0]["type"], "function");
    assert_eq!(body["tools"][0]["function"]["name"], "list_lanes");
}

#[test]
fn parses_tool_call_response() {
    let body = json(
        r#"{"choices": [{"message": {
            "role": "assistant",
            "tool_calls": [{
                "id": "c1", "type": "function",
                "function": {"name": "switch_lane", "arguments": "{\"name\":\"kerchunk\"}"}
            }]
        }}]}"#,
    );
    match parse_response(&body).unwrap() {
        StepOutcome::ToolCalls(calls) => {
            assert_eq!(calls.len(), 1);
            assert_eq!(calls[0].name, "switch_lane");
        }
        other => panic!("{other:?}"),
    }
}

#[test]
fn text_responses_obey_the_exact_utf8_reply_limit() {
    let exact_ascii = "a".repeat(MAX_REPLY_TEXT_BYTES);
    assert!(matches!(
        parse_response(&completion(exact_ascii)),
        Ok(StepOutcome::Text(_))
    ));

    let exact_multibyte = "🦀".repeat(MAX_REPLY_TEXT_BYTES / "🦀".len());
    assert_eq!(exact_multibyte.len(), MAX_REPLY_TEXT_BYTES);
    assert!(matches!(
        parse_response(&completion(exact_multibyte)),
        Ok(StepOutcome::Text(_))
    ));

    assert!(parse_response(&completion("a".repeat(MAX_REPLY_TEXT_BYTES + 1))).is_err());
}

#[test]
fn assistant_history_uses_openai_shape_for_multiple_calls() {
    let calls = vec![call("c1", "list_lanes", "{}"), call("c2", "active_lane", "{}")];
    let assistant = parsed(&assistant_tool_calls_message(&calls));
    assert_eq!(assistant["role"], "assistant");
    assert_eq!(assistant["tool_calls"].as_array().unwrap().len(), 2);
    assert_eq!(assistant["tool_calls"][0]["type"], "function");
    assert_eq!(
        assistant["tool_calls"][1]["function"]["name"],
        "active_lane"
    );
    assert_eq!(parsed(&tool_message(&calls[1], "ok"))["tool_call_id"], "c2");
}

#[test]
fn tools_stay_constrained() {
    let specs = tools();
    let names: Vec<&str> = specs.iter().map(|t| t.name).collect();
    assert_eq!(
        names,
        vec![
            "list_lanes",
            "active_lane",
            "switch_lane",
            "create_lane",
            "lane_stats",
            "search_conversations"
        ]
    );
}

#[test]
fn only_what_shows_the_active_lane_needs_one() {
    let mut reg = LaneRegistry::default_direct_at("epoch-ms:1000");
    reg.lanes.clear();
    assert_eq!(execute_tool_at(&mut reg, SteeringTool::LaneStats, &json("{}"), 1), "");
    assert_eq!(
        execute_tool_at(&mut reg, SteeringTool::SwitchLane, &json(r#"{"name":"x"}"#), 1),
        "No lane matching \"x\". Available: "
    );
    let text = StepOutcome::Text("hi".into());
    assert!(step_can_run(&reg, &text, 1));
    let mut run = Conversation::begin("hello");
    match run.advance(&mut reg, text, &vec![], 1) {
        LoopStep::Say(said) => assert_eq!(said, "hi"),
        LoopStep::Ask => panic!("the model has spoken"),
    }
    let call = |name: &str| ToolCall {
        id: name.into(),
        name: name.into(),
        arguments: r#"{"name":"demo"}"#.into(),
    };
    let list_first = StepOutcome::ToolCalls(vec![call("list_lanes"), call("create_lane")]);
    assert!(!step_can_run(&reg, &list_first, 1));
    let create_first = StepOutcome::ToolCalls(vec![call("create_lane"), call("list_lanes")]);
    assert!(step_can_run(&reg, &create_first, 1));
    assert!(reg.lanes.is_empty());
    assert!(matches!(
        run.advance(&mut reg, create_first, &vec![], 1),
        LoopStep::Ask
    ));
    assert_eq!(reg.lanes.len(), 1);
}

#[test]
fn unresolved_names_never_execute() {
    assert!(SteeringTool::from_name("read_file").is_none());
    assert!(SteeringTool::from_name("bash").is_none());
}

#[test]
fn switch_and_stats() {
    let mut reg = LaneRegistry::default_direct();
    let _ = reg.create("kerchunk");
    let out = execute_tool(
        &mut reg,
        SteeringTool::SwitchLane,
        &json(r#"{"name": "kirk chunk"}"#),
    );
    assert!(out.contains("now kerchunk"), "{out}");
    let out = execute_tool(&mut reg, SteeringTool::LaneStats, &json("{}"));
    assert!(out.contains("direct: 0 interactions"));
}

#[test]
fn every_tool_is_found_by_its_name() {
    for spec in tools() {
        assert!(SteeringTool::from_name(spec.name).is_some());
        assert!(!spec.description.is_empty());
    }
    assert_eq!(
        SteeringTool::from_name("lane_stats"),
        Some(SteeringTool::LaneStats)
    );
}

#[test]
fn a_plain_text_answer_ends_the_loop() {
    let mut reg = LaneRegistry::default_direct();
    let mut run = Conversation::begin("anything");
    match run.advance(&mut reg, NullProvider.step(), &vec![], 1000) {
        LoopStep::Say(text) => assert!(text.contains("online")),
        other => panic!("{other:?}"),
    }
}

#[test]
fn one_round_adds_one_assistant_turn_and_a_message_for_each_call() {
    let mut reg = LaneRegistry::default_direct();
    let mut run = Conversation::begin("list");
    assert_eq!(parsed(&run.messages_value()).as_array().unwrap().len(), 1);
    let calls = vec![call("c1", "list_lanes", "{}"), call("c2", "active_lane", "{}")];
    let step = run.advance(
        &mut reg,
        StepOutcome::ToolCalls(calls),
        &vec![None, None],
        1000,
    );
    assert!(matches!(step, LoopStep::Ask));
    let entries = parsed(&run.messages_value());
    assert_eq!(entries[1]["role"], "assistant");
    assert_eq!(entries[1]["tool_calls"].as_array().unwrap().len(), 2);
    assert_eq!(entries[2]["tool_call_id"], "c1");
    assert_eq!(entries[3]["tool_call_id"], "c2");
    match run.advance(&mut reg, StepOutcome::Text("done".into()), &vec![], 1000) {
        LoopStep::Say(text) => assert_eq!(text, "done"),
        other => panic!("{other:?}"),
    }
}

#[test]
fn the_loop_gives_up_after_its_last_round() {
    let mut reg = LaneRegistry::default_direct();
    let mut run = Conversation::begin("again");
    for round in 0..MAX_TOOL_ROUNDS {
        let step = run.advance(
            &mut reg,
            StepOutcome::ToolCalls(vec![call("c", "bash", "{}")]),
            &vec![None],
            1000,
        );
        match step {
            LoopStep::Ask => assert!(round + 1 < MAX_TOOL_ROUNDS),
            LoopStep::Say(text) => {
                assert_eq!(round + 1, MAX_TOOL_ROUNDS);
                assert_eq!(text, CIRCLES);
            }
        }
    }
}

#[test]
fn creating_through_the_tool_switches_or_says_why_not() {
    let mut reg = LaneRegistry::default_direct();
    let out = execute_tool_at(
        &mut reg,
        SteeringTool::CreateLane,
        &json(r#"{"name":"demo"}"#),
        1000,
    );
    assert!(out.contains("Created"));
    assert_eq!(reg.active().name, "demo");
    let before = reg.clone();
    let refused = execute_tool_at(
        &mut reg,
        SteeringTool::CreateLane,
        &json(r#"{"name":"!!!"}"#),
        1000,
    );
    assert!(!refused.contains("Created"));
    assert_eq!(reg, before);
}

#[test]
fn only_a_search_call_has_a_query() {
    assert_eq!(
        search_query(&call("c", "search_conversations", r#"{"query":"deploy"}"#)),
        Some("deploy".to_string())
    );
    assert_eq!(
        search_query(&call("c", "list_lanes", r#"{"query":"deploy"}"#)),
        None
    );
}

#[test]
fn responses_without_a_message_are_refused() {
    assert!(parse_response(&json("{}")).is_err());
    assert!(parse_response(&json(r#"{"choices":[]}"#)).is_err());
    let error = parse_response(&json(r#"{"choices":[{"message":null}]}"#)).unwrap_err();
    assert_eq!(error.message(), "no choices[0].message in response");
    match parse_response(&json(r#"{"choices":[{"message":{}}]}"#)).unwrap() {
        StepOutcome::Text(text) => assert_eq!(text, ""),
        other => panic!("{other:?}"),
    }
}

#[test]
fn a_provider_body_never_grows_over_its_limit() {
    let mut body = vec![0u8; MAX_PROVIDER_RESPONSE_BYTES - 1];
    assert!(extend_provider_body(&mut body, &[7]));
    assert_eq!(body.len(), MAX_PROVIDER_RESPONSE_BYTES);
    assert_eq!(body[MAX_PROVIDER_RESPONSE_BYTES - 1], 7);
    assert!(!extend_provider_body(&mut body, &[8]));
    assert_eq!(body.len(), MAX_PROVIDER_RESPONSE_BYTES);
    let provider = OpenAiProvider {
        base_url: "http://h/v1".into(),
        api_key: "k".into(),
        model: "m".into(),
    };
    assert_eq!(provider.completions_url(), "http://h/v1/chat/completions");
}

#[test]
fn assistant_messages_keep_content_and_calls() {
    let message = json(r#"{"role":"x","content":"hi","tool_calls":[1],"other":2}"#);
    assert_eq!(
        assistant_message_value(&message).to_text(),
        r#"{"content":"hi","role":"assistant","tool_calls":[1]}"#
    );
    assert_eq!(
        assistant_message_value(&json("{}")).to_text(),
        r#"{"role":"assistant"}"#
    );
}
