use telepathy::lanes::{
    find_lane, is_valid_lane_timestamp, is_valid_persisted_lane_name, same_lane, Lane,
    LaneCreateError, LaneRegistry, LaneRegistrySaveError, LANE_CAPACITY_ERROR_MESSAGE,
    MAX_LANE_COUNT, MAX_LANE_NAME_UTF8_BYTES,
};
use telepathy::lookup::{match_lane, normalize};
use telepathy::meta::{execute, execute_at, note_line, parse_meta, MetaAction};
use telepathy::proto::{is_valid_lane_id, MAX_LANE_ID_LENGTH};

fn full_registry() -> LaneRegistry {
    let mut registry = LaneRegistry::default_direct();
    for index in 1..MAX_LANE_COUNT {
        let name = format!("{index:03}-{}", "x".repeat(109));
        registry.create(&name).unwrap();
    }
    assert_eq!(registry.lanes.len(), MAX_LANE_COUNT);
    registry
}

fn registry_with(names: &[&str]) -> LaneRegistry {
    let mut registry = LaneRegistry::default_direct_at("epoch-ms:1000");
    for name in names {
        registry.create_at(name, "epoch-ms:1000").unwrap();
    }
    registry
}

#[test]
fn lane_id_contract_preserves_direct_and_generated_ids() {
    for id in ["telepathy:direct", "telepathy:repo:geospatial-migration"] {
        assert!(is_valid_lane_id(id), "expected valid lane id: {id}");
    }
}

#[test]
fn lane_id_contract_rejects_unquoted_content_and_unicode() {
    for id in [
        "",
        " ",
        "telepathy:repo:bad\"quote",
        r"telepathy:repo:bad\slash",
        "telepathy:repo:bad\nnewline",
        "telepathy:repo:é",
        &format!("telepathy:repo:{}", "a".repeat(MAX_LANE_ID_LENGTH)),
    ] {
        assert!(!is_valid_lane_id(id), "expected invalid lane id: {id:?}");
    }
}

#[test]
fn invalid_switch_does_not_mutate_registry() {
    let mut registry = LaneRegistry::default_direct();
    let before = registry.clone();
    assert!(registry.switch("telepathy:direct\"altered").is_none());
    assert_eq!(registry, before);
}

#[test]
fn oversized_or_blank_lane_names_are_rejected_without_panicking_or_mutating() {
    let mut registry = LaneRegistry::default_direct();
    let before = registry.clone();
    let oversized = "a".repeat(MAX_LANE_ID_LENGTH);

    assert_eq!(
        registry.create(&oversized),
        Err(LaneCreateError::InvalidGeneratedId)
    );
    assert_eq!(registry.create(" \t\n"), Err(LaneCreateError::BlankName));
    assert_eq!(registry, before);
}

#[test]
fn empty_generated_slugs_are_rejected_without_mutating_the_registry() {
    for name in ["!!!", "💥", "\u{feff}"] {
        let mut registry = LaneRegistry::default_direct();
        let before = registry.clone();

        assert_eq!(
            LaneRegistry::validate_create_name(name),
            Err(LaneCreateError::InvalidGeneratedId),
            "expected empty generated slug to be rejected: {name:?}"
        );
        assert_eq!(
            registry.create(name),
            Err(LaneCreateError::InvalidGeneratedId),
            "expected create to reject empty generated slug: {name:?}"
        );
        assert_eq!(
            registry, before,
            "rejected name mutated the registry: {name:?}"
        );

        let reply = execute(&mut registry, MetaAction::New(name.to_owned()));
        assert_eq!(
            reply,
            "I couldn't create that conversation name. Please use a shorter name."
        );
        assert_eq!(
            registry, before,
            "meta rejection mutated the registry: {name:?}"
        );
    }
}

#[test]
fn valid_lane_slugs_preserve_internal_dash_runs() {
    let mut registry = LaneRegistry::default_direct();

    let lane = registry.create("A..B").unwrap();

    assert_eq!(lane.id, "telepathy:repo:a--b");
    assert_eq!(lane.name, "a--b");
}

#[test]
fn lane_count_boundary_preserves_existing_lanes_and_rejects_new_ones_without_mutation() {
    let mut registry = full_registry();
    let existing_name = registry.lanes[1].name.clone();
    let before = registry.clone();

    assert_eq!(
        registry.create(&existing_name).unwrap().id,
        before.lanes[1].id,
        "an existing lane remains usable at capacity"
    );
    assert_eq!(
        registry.create("one too many"),
        Err(LaneCreateError::CapacityReached)
    );
    assert_eq!(
        registry, before,
        "capacity rejection must not mutate memory"
    );
    assert_eq!(
        execute(&mut registry, MetaAction::New("one too many".into())),
        LANE_CAPACITY_ERROR_MESSAGE
    );
    assert_eq!(
        registry, before,
        "meta capacity reply must not mutate memory"
    );
}

#[test]
fn lane_metadata_string_and_timestamp_contract_has_exact_cross_runtime_boundaries() {
    for name in [
        "a".repeat(MAX_LANE_NAME_UTF8_BYTES),
        "é".repeat(MAX_LANE_NAME_UTF8_BYTES / 2),
    ] {
        assert!(
            is_valid_persisted_lane_name(&name),
            "expected exact boundary name to be valid: {name:?}"
        );
    }
    for name in [
        "a".repeat(MAX_LANE_NAME_UTF8_BYTES + 1),
        "é".repeat(MAX_LANE_NAME_UTF8_BYTES / 2 + 1),
    ] {
        assert!(
            !is_valid_persisted_lane_name(&name),
            "expected over-bound name to be invalid: {name:?}"
        );
    }

    for timestamp in [
        "epoch-ms:9007199254740991",
        "2024-02-29T23:59:59.999Z",
        "9999-12-31T23:59:59.999Z",
    ] {
        assert!(
            is_valid_lane_timestamp(timestamp),
            "expected valid {timestamp}"
        );
    }
    for timestamp in [
        "epoch-ms:9007199254740992",
        "epoch-ms:-1",
        "epoch-ms:1.5",
        "2023-02-29T00:00:00.000Z",
        "2024-01-01T24:00:00.000Z",
        "2024-01-01T00:00:00.000+00:00",
    ] {
        assert!(
            !is_valid_lane_timestamp(timestamp),
            "expected invalid {timestamp}"
        );
    }
}

#[test]
fn touching_unknown_lane_returns_not_found_without_mutating_registry() {
    let mut registry = LaneRegistry::default_direct();
    let before = registry.clone();

    assert!(registry.touch("telepathy:missing").is_none());
    assert_eq!(registry, before);
}

#[test]
fn oversized_meta_lane_name_is_spoken_and_does_not_mutate_the_registry() {
    let mut registry = LaneRegistry::default_direct();
    let before = registry.clone();

    let reply = execute(
        &mut registry,
        MetaAction::New("x".repeat(MAX_LANE_ID_LENGTH)),
    );

    assert_eq!(
        reply,
        "I couldn't create that conversation name. Please use a shorter name."
    );
    assert_eq!(registry, before);
}

#[test]
fn a_direct_registry_is_valid_and_active_on_its_only_lane() {
    let registry = LaneRegistry::default_direct_at("epoch-ms:1000");
    assert_eq!(registry.validate(), Ok(()));
    assert_eq!(registry.active_id, "telepathy:direct");
    assert_eq!(registry.previous_id, "telepathy:direct");
    assert_eq!(registry.active().id, "telepathy:direct");
    assert_eq!(registry.active().created_at, "epoch-ms:1000");
    assert_eq!(registry.active().interactions, None);
    assert!(registry.knows("telepathy:direct"));
    assert!(!registry.knows("telepathy:other"));
}

#[test]
fn switching_remembers_the_lane_that_was_left() {
    let mut registry = registry_with(&["demo", "kerchunk"]);
    let lane = registry
        .switch_at("telepathy:repo:demo", "epoch-ms:2000")
        .unwrap();
    assert_eq!(lane.last_active, "epoch-ms:2000");
    assert_eq!(registry.active_id, "telepathy:repo:demo");
    assert_eq!(registry.previous_id, "telepathy:direct");
    assert_eq!(registry.active().last_active, "epoch-ms:2000");
    assert_eq!(registry.validate(), Ok(()));
}

#[test]
fn touching_moves_only_the_time_of_that_lane() {
    let mut registry = registry_with(&["demo"]);
    let before = registry.clone();
    assert_eq!(
        registry.touch_at("telepathy:repo:demo", "epoch-ms:2000"),
        Some(())
    );
    assert_eq!(registry.active_id, before.active_id);
    assert!(same_lane(&registry.lanes[0], &before.lanes[0]));
    assert_eq!(registry.lanes[1].last_active, "epoch-ms:2000");
    assert_eq!(registry.lanes[1].created_at, "epoch-ms:1000");
    assert!(!same_lane(&registry.lanes[1], &before.lanes[1]));
}

#[test]
fn creating_a_name_again_finds_the_same_lane() {
    let mut registry = registry_with(&[]);
    let first = registry.create_at("My Notes", "epoch-ms:1000").unwrap();
    let before = registry.clone();
    let second = registry.create_at("  my NOTES ", "epoch-ms:9000").unwrap();
    assert_eq!(first, second);
    assert_eq!(registry, before);
    assert_eq!(find_lane(&registry.lanes, &first.id), 1);
    assert_eq!(find_lane(&registry.lanes, "nowhere"), registry.lanes.len());
}

#[test]
fn every_registry_fault_is_reported() {
    let good = registry_with(&["demo"]);
    assert_eq!(good.validate(), Ok(()));

    let mut empty = good.clone();
    empty.lanes = Vec::new();
    assert!(empty.validate().is_err());

    let mut crowded = full_registry();
    crowded.lanes.push(Lane {
        id: "telepathy:repo:overflow".into(),
        name: "overflow".into(),
        created_at: "epoch-ms:1".into(),
        last_active: "epoch-ms:1".into(),
        interactions: None,
    });
    assert!(crowded.validate().is_err());

    let mut name = good.clone();
    name.lanes[0].name = "x".repeat(MAX_LANE_NAME_UTF8_BYTES + 1);
    assert!(name.validate().is_err());

    let mut time = good.clone();
    time.lanes[0].last_active = "epoch-ms:9007199254740992".into();
    assert!(time.validate().is_err());

    let mut count = good.clone();
    count.lanes[0].interactions = Some(9007199254740992);
    assert!(count.validate().is_err());
    count.lanes[0].interactions = Some(9007199254740991);
    assert_eq!(count.validate(), Ok(()));

    let mut twice = good.clone();
    twice.lanes[1].id = "telepathy:direct".into();
    assert!(twice.validate().is_err());

    let mut active = good.clone();
    active.active_id = "telepathy:missing".into();
    assert!(active.validate().is_err());

    let mut previous = good.clone();
    previous.previous_id = "telepathy:missing".into();
    assert!(previous.validate().is_err());
}

#[test]
fn save_errors_say_whether_the_outcome_is_open() {
    assert!(LaneRegistrySaveError::AmbiguousPostRename("x".into()).is_ambiguous());
    assert!(!LaneRegistrySaveError::PreRename("x".into()).is_ambiguous());
    assert!(!LaneRegistrySaveError::Serialization("x".into()).is_ambiguous());
    let invalid = LaneRegistrySaveError::InvalidRegistry("why".into());
    assert!(!invalid.is_ambiguous());
    assert!(invalid.message().contains("why"));
    assert_eq!(
        LaneCreateError::CapacityReached.message(),
        LANE_CAPACITY_ERROR_MESSAGE
    );
    assert!(!LaneCreateError::BlankName.message().is_empty());
    assert!(!LaneCreateError::InvalidGeneratedId.message().is_empty());
}

#[test]
fn spoken_text_is_normalised_to_plain_words() {
    assert_eq!(normalize("  Hello,  WORLD! "), "hello world");
    assert_eq!(normalize("ÄÖ-2"), normalize("äö 2"));
    assert_eq!(normalize(&normalize("Kerchunk's Repo")), normalize("Kerchunk's Repo"));
    for text in ["Kerchunk's Repo", "  a--B 3 ", "İstanbul \u{212A}", "ÅÉ1"] {
        let once = normalize(text);
        assert_eq!(normalize(&once), once);
        assert!(once
            .chars()
            .all(|c| c.is_ascii_lowercase() || c.is_ascii_digit() || c == ' '));
    }
    assert_eq!(normalize("KERCHUNK'S REPO"), normalize("Kerchunk's Repo"));
}

#[test]
fn a_lane_is_found_by_its_own_name_in_any_case() {
    let mut registry = registry_with(&["demo", "side"]);
    registry.lanes[2].name = "Side Project 2".into();
    for name in ["Side Project 2", "SIDE PROJECT 2", " side, project: 2!"] {
        assert_eq!(
            match_lane(name, &registry).map(|lane| lane.id),
            Some("telepathy:repo:side".to_string())
        );
    }
    assert!(match_lane("ÄÖ", &registry).is_none());
}

#[test]
fn an_empty_registry_still_answers_what_needs_no_active_lane() {
    let mut registry = LaneRegistry::default_direct_at("epoch-ms:1000");
    registry.lanes.clear();
    assert_eq!(execute_at(&mut registry, MetaAction::List, 1), "Conversations: .");
    assert_eq!(
        execute_at(&mut registry, MetaAction::Note("x".into()), 1),
        "Noted."
    );
    assert_eq!(
        execute_at(&mut registry, MetaAction::New("demo".into()), 1),
        "Created demo. You're in it."
    );
    assert_eq!(registry.lanes.len(), 1);
}

#[test]
fn a_lane_name_is_stable_once_it_is_made() {
    let mut registry = LaneRegistry::default_direct_at("epoch-ms:1000");
    let made = registry.create_at("  My Repo, no. 2! ", "epoch-ms:1000").unwrap();
    assert_eq!(made.id, "telepathy:repo:my-repo--no--2");
    let again = registry.create_at("my-repo--no--2", "epoch-ms:2000").unwrap();
    assert_eq!(again, made);
    assert_eq!(registry.lanes.len(), 2);
}

#[test]
fn lanes_are_found_by_near_names_only() {
    let registry = registry_with(&["kerchunk", "geospatial-migration"]);
    assert_eq!(
        match_lane("kerchunk", &registry).map(|lane| lane.id),
        Some("telepathy:repo:kerchunk".to_string())
    );
    assert_eq!(
        match_lane("kerchunc", &registry).map(|lane| lane.id),
        Some("telepathy:repo:kerchunk".to_string())
    );
    assert_eq!(
        match_lane("geospatial migration", &registry).map(|lane| lane.id),
        Some("telepathy:repo:geospatial-migration".to_string())
    );
    assert!(match_lane("", &registry).is_none());
    assert!(match_lane("zzzzzzzzzzzz", &registry).is_none());
}

#[test]
fn spoken_commands_mean_actions() {
    let registry = registry_with(&["kerchunk"]);
    assert!(matches!(
        parse_meta("switch to kerchunk", &registry),
        MetaAction::Switch(lane) if lane.id == "telepathy:repo:kerchunk"
    ));
    assert!(matches!(
        parse_meta("list conversations", &registry),
        MetaAction::List
    ));
    assert!(matches!(
        parse_meta("new conversation for demo", &registry),
        MetaAction::New(name) if name == "demo"
    ));
    assert!(matches!(
        parse_meta("note that the build is green", &registry),
        MetaAction::Note(text) if text == "the build is green"
    ));
    assert!(matches!(
        parse_meta("what is the weather", &registry),
        MetaAction::Unknown
    ));
}

#[test]
fn executed_actions_answer_in_words() {
    let mut registry = registry_with(&["kerchunk"]);
    let before = registry.clone();
    let listed = execute_at(&mut registry, MetaAction::List, 61000);
    assert!(listed.contains("kerchunk"));
    assert_eq!(registry, before);

    let made = execute_at(&mut registry, MetaAction::New("demo".into()), 61000);
    assert!(made.contains("demo"));
    assert_eq!(registry.active().name, "demo");
    assert_eq!(registry.active().created_at, "epoch-ms:61000");

    let lane = registry.lanes[1].clone();
    let switched = execute_at(&mut registry, MetaAction::Switch(lane), 62000);
    assert!(switched.contains("kerchunk"));
    assert_eq!(registry.active_id, "telepathy:repo:kerchunk");
    assert_eq!(registry.previous_id, "telepathy:repo:demo");
    assert_eq!(registry.validate(), Ok(()));
}

#[test]
fn a_note_is_one_json_line() {
    let line = note_line("say \"hi\"\nthere", "epoch-ms:1000");
    assert!(!line.trim_end().contains('\n'));
    assert!(line.contains("say \\\"hi\\\"\\nthere"));
    assert!(line.contains("epoch-ms:1000"));
}
