//! What the handset and the bridge find in the frames that they send each other:
//! under each key the value of the frame's field of that name, and no key for a
//! value that is absent.
use vstd::prelude::*;

use crate::json::object_text;
use crate::proto::{CommandKind, ControlMsg, ServerMsg};
use crate::text::opt_view;
use crate::trees::{lemma_object, written_as};
use crate::value::{json_text, member_from, natural_value, JsonView};

verus! {

/// Whether a text is that of an object, and the object is `v`.
pub open spec fn is_object_text(text: Seq<char>, v: JsonView) -> bool {
    v is Object && text == json_text(v)
}

/// Whether an object has, under a key, this text, or no such key where there is
/// none.
pub open spec fn has_optional_text(v: JsonView, key: Seq<char>, value: Option<Seq<char>>) -> bool {
    match value {
        Some(t) => v.get(key) == Some(JsonView::Text(t)),
        None => v.get(key) is None,
    }
}

/// Whether an object has, under a key, this number, or no such key where there is
/// none.
pub open spec fn has_optional_number(v: JsonView, key: Seq<char>, value: Option<u64>) -> bool {
    match value {
        Some(n) => v.get(key) == Some(natural_value(n)),
        None => v.get(key) is None,
    }
}

/// Whether an object has, under a key, a value that is written as this text, or
/// no such key where there is none.
pub open spec fn has_optional_written(v: JsonView, key: Seq<char>, value: Option<Seq<char>>) -> bool {
    match value {
        Some(t) => v.get(key) is Some && json_text(v.get(key)->0) == t,
        None => v.get(key) is None,
    }
}

/// The keys of the frames are told apart.
proof fn lemma_keys_differ()
    ensures
        "type"@ != "text"@ && "type"@ != "repo"@ && "text"@ != "repo"@,
        "confidence"@ != "turn_token"@,
        "lane_id"@ != "samples"@ && "lane_id"@ != "message"@ && "lane_id"@ != "command"@,
        "reply_to"@ != "revision"@,
        "value"@ != "token"@,
        "type"@.len() == 4 && "text"@.len() == 4 && "repo"@.len() == 4,
        "confidence"@.len() == 10 && "turn_token"@.len() == 10,
        "interaction_id"@.len() == 14,
        "lane_id"@.len() == 7 && "samples"@.len() == 7 && "message"@.len() == 7 && "command"@.len()
            == 7,
        "reply_to"@.len() == 8 && "revision"@.len() == 8,
        "after_seq"@.len() == 9,
        "through_seq"@.len() == 11,
        "value"@.len() == 5 && "token"@.len() == 5,
        "device"@.len() == 6,
        "installation_id"@.len() == 15,
        "id"@.len() == 2,
{
    reveal_strlit("type");
    reveal_strlit("text");
    reveal_strlit("repo");
    reveal_strlit("confidence");
    reveal_strlit("turn_token");
    reveal_strlit("interaction_id");
    reveal_strlit("lane_id");
    reveal_strlit("samples");
    reveal_strlit("message");
    reveal_strlit("command");
    reveal_strlit("reply_to");
    reveal_strlit("revision");
    reveal_strlit("after_seq");
    reveal_strlit("through_seq");
    reveal_strlit("value");
    reveal_strlit("token");
    reveal_strlit("device");
    reveal_strlit("installation_id");
    reveal_strlit("id");
    assert("type"@[1] == 'y' && "text"@[1] == 'e' && "repo"@[0] == 'r');
    assert("confidence"@[0] == 'c' && "turn_token"@[0] == 't');
    assert("lane_id"@[0] == 'l' && "samples"@[0] == 's' && "message"@[0] == 'm' && "command"@[0]
        == 'c');
    assert("reply_to"@[2] == 'p' && "revision"@[2] == 'v');
    assert("value"@[0] == 'v' && "token"@[0] == 't');
}

/// The members of an object of at most eight members are found one by one.
pub proof fn lemma_found(fields: Seq<(Seq<char>, JsonView)>)
    requires
        fields.len() <= 8,
    ensures
        forall|key: Seq<char>|
            #![trigger member_from(fields, key, 0)]
            member_from(fields, key, 0) == (if fields.len() > 0 && fields[0].0 == key {
                Some(fields[0].1)
            } else if fields.len() > 1 && fields[1].0 == key {
                Some(fields[1].1)
            } else if fields.len() > 2 && fields[2].0 == key {
                Some(fields[2].1)
            } else if fields.len() > 3 && fields[3].0 == key {
                Some(fields[3].1)
            } else if fields.len() > 4 && fields[4].0 == key {
                Some(fields[4].1)
            } else if fields.len() > 5 && fields[5].0 == key {
                Some(fields[5].1)
            } else if fields.len() > 6 && fields[6].0 == key {
                Some(fields[6].1)
            } else if fields.len() > 7 && fields[7].0 == key {
                Some(fields[7].1)
            } else {
                None
            }),
{
    reveal_with_fuel(member_from, 10);
}

// ---- from the bridge to the handset ---------------------------------------------

/// A transcript frame holds the transcript, its confidence and repository where
/// they are known, and the turn and the interaction that it belongs to.
pub proof fn law_transcript_frame(message: ServerMsg) -> (v: JsonView)
    requires
        message is Stt,
        message.valid(),
    ensures
        is_object_text(object_text(message.members()), v),
        v.get("type"@) == Some(JsonView::Text("stt"@)),
        v.get("text"@) == Some(JsonView::Text(message->Stt_text@)),
        has_optional_written(v, "confidence"@, opt_view(message->Stt_confidence)),
        has_optional_text(v, "repo"@, opt_view(message->Stt_repo)),
        v.get("turn_token"@) == Some(JsonView::Text(message->Stt_turn_token@)),
        v.get("interaction_id"@) == Some(JsonView::Text(message->Stt_interaction_id@)),
{
    lemma_keys_differ();
    let head = seq![
        ("type"@, JsonView::Text("stt"@)),
        ("text"@, JsonView::Text(message->Stt_text@)),
    ];
    let confidence = match opt_view(message->Stt_confidence) {
        Some(t) => seq![("confidence"@, JsonView::Number(t, None))],
        None => seq![],
    };
    let repo = match opt_view(message->Stt_repo) {
        Some(t) => seq![("repo"@, JsonView::Text(t))],
        None => seq![],
    };
    let tail = seq![
        ("turn_token"@, JsonView::Text(message->Stt_turn_token@)),
        ("interaction_id"@, JsonView::Text(message->Stt_interaction_id@)),
    ];
    let fields = head + confidence + repo + tail;
    assert(written_as(message.members(), fields));
    lemma_object(message.members(), fields);
    lemma_found(fields);
    JsonView::Object(fields)
}

/// A piece of a reply holds its text, and the turn and the interaction that it
/// belongs to.
pub proof fn law_reply_piece_frame(message: ServerMsg) -> (v: JsonView)
    requires
        message is AgentDelta,
    ensures
        is_object_text(object_text(message.members()), v),
        v.get("type"@) == Some(JsonView::Text("agent_delta"@)),
        v.get("text"@) == Some(JsonView::Text(message->AgentDelta_text@)),
        v.get("turn_token"@) == Some(JsonView::Text(message->AgentDelta_turn_token@)),
        v.get("interaction_id"@) == Some(JsonView::Text(message->AgentDelta_interaction_id@)),
{
    lemma_keys_differ();
    let fields = seq![
        ("type"@, JsonView::Text("agent_delta"@)),
        ("text"@, JsonView::Text(message->AgentDelta_text@)),
        ("turn_token"@, JsonView::Text(message->AgentDelta_turn_token@)),
        ("interaction_id"@, JsonView::Text(message->AgentDelta_interaction_id@)),
    ];
    assert(written_as(message.members(), fields));
    lemma_object(message.members(), fields);
    lemma_found(fields);
    JsonView::Object(fields)
}

/// The end of a reply holds its whole text, the turn and the interaction, and the
/// range of deliveries that it was made of, where there is one.
pub proof fn law_reply_end_frame(message: ServerMsg) -> (v: JsonView)
    requires
        message is AgentEnd,
        message.valid(),
    ensures
        is_object_text(object_text(message.members()), v),
        v.get("type"@) == Some(JsonView::Text("agent_end"@)),
        v.get("text"@) == Some(JsonView::Text(message->AgentEnd_text@)),
        v.get("turn_token"@) == Some(JsonView::Text(message->AgentEnd_turn_token@)),
        v.get("interaction_id"@) == Some(JsonView::Text(message->AgentEnd_interaction_id@)),
        has_optional_text(v, "lane_id"@, opt_view(message->AgentEnd_lane_id)),
        has_optional_text(v, "reply_to"@, opt_view(message->AgentEnd_reply_to)),
        has_optional_number(v, "after_seq"@, message->AgentEnd_after_seq),
        has_optional_number(v, "through_seq"@, message->AgentEnd_through_seq),
{
    lemma_keys_differ();
    let head = seq![
        ("type"@, JsonView::Text("agent_end"@)),
        ("text"@, JsonView::Text(message->AgentEnd_text@)),
        ("turn_token"@, JsonView::Text(message->AgentEnd_turn_token@)),
        ("interaction_id"@, JsonView::Text(message->AgentEnd_interaction_id@)),
    ];
    let range = match message->AgentEnd_after_seq {
        Some(_) => seq![
            ("lane_id"@, JsonView::Text(opt_view(message->AgentEnd_lane_id)->0)),
            ("reply_to"@, JsonView::Text(opt_view(message->AgentEnd_reply_to)->0)),
            ("after_seq"@, natural_value(message->AgentEnd_after_seq->0)),
            ("through_seq"@, natural_value(message->AgentEnd_through_seq->0)),
        ],
        None => seq![],
    };
    let fields = head + range;
    assert(written_as(message.members(), fields));
    lemma_object(message.members(), fields);
    lemma_found(fields);
    JsonView::Object(fields)
}

/// What a receipt holds: its kind, the lane and the message that it is about, the
/// range of deliveries, the turn and the interaction.
pub open spec fn holds_receipt(
    v: JsonView,
    kind: Seq<char>,
    lane_id: Seq<char>,
    reply_to: Seq<char>,
    after_seq: u64,
    through_seq: u64,
    turn_token: Seq<char>,
    interaction_id: Seq<char>,
) -> bool {
    &&& v.get("type"@) == Some(JsonView::Text(kind))
    &&& v.get("lane_id"@) == Some(JsonView::Text(lane_id))
    &&& v.get("reply_to"@) == Some(JsonView::Text(reply_to))
    &&& v.get("after_seq"@) == Some(natural_value(after_seq))
    &&& v.get("through_seq"@) == Some(natural_value(through_seq))
    &&& v.get("turn_token"@) == Some(JsonView::Text(turn_token))
    &&& v.get("interaction_id"@) == Some(JsonView::Text(interaction_id))
}

proof fn lemma_receipt(
    members: Seq<(Seq<char>, Seq<char>)>,
    kind: Seq<char>,
    lane_id: Seq<char>,
    reply_to: Seq<char>,
    after_seq: u64,
    through_seq: u64,
    turn_token: Seq<char>,
    interaction_id: Seq<char>,
) -> (v: JsonView)
    requires
        members == crate::proto::receipt_members(
            kind,
            lane_id,
            reply_to,
            after_seq,
            through_seq,
            turn_token,
            interaction_id,
        ),
    ensures
        is_object_text(object_text(members), v),
        holds_receipt(
            v,
            kind,
            lane_id,
            reply_to,
            after_seq,
            through_seq,
            turn_token,
            interaction_id,
        ),
{
    lemma_keys_differ();
    let fields = seq![
        ("type"@, JsonView::Text(kind)),
        ("lane_id"@, JsonView::Text(lane_id)),
        ("reply_to"@, JsonView::Text(reply_to)),
        ("after_seq"@, natural_value(after_seq)),
        ("through_seq"@, natural_value(through_seq)),
        ("turn_token"@, JsonView::Text(turn_token)),
        ("interaction_id"@, JsonView::Text(interaction_id)),
    ];
    assert(written_as(members, fields));
    lemma_object(members, fields);
    lemma_found(fields);
    JsonView::Object(fields)
}

/// The receipts that the bridge sends hold what they are about.
pub proof fn law_server_receipt_frames(message: ServerMsg) -> (v: JsonView)
    requires
        message is ReplyReceived || message is ReplyAcknowledged || message is ReplyAckRetired,
    ensures
        is_object_text(object_text(message.members()), v),
        message is ReplyReceived ==> holds_receipt(
            v,
            "reply_received"@,
            message->ReplyReceived_lane_id@,
            message->ReplyReceived_reply_to@,
            message->ReplyReceived_after_seq,
            message->ReplyReceived_through_seq,
            message->ReplyReceived_turn_token@,
            message->ReplyReceived_interaction_id@,
        ),
        message is ReplyAcknowledged ==> holds_receipt(
            v,
            "reply_acknowledged"@,
            message->ReplyAcknowledged_lane_id@,
            message->ReplyAcknowledged_reply_to@,
            message->ReplyAcknowledged_after_seq,
            message->ReplyAcknowledged_through_seq,
            message->ReplyAcknowledged_turn_token@,
            message->ReplyAcknowledged_interaction_id@,
        ),
        message is ReplyAckRetired ==> holds_receipt(
            v,
            "reply_ack_retired"@,
            message->ReplyAckRetired_lane_id@,
            message->ReplyAckRetired_reply_to@,
            message->ReplyAckRetired_after_seq,
            message->ReplyAckRetired_through_seq,
            message->ReplyAckRetired_turn_token@,
            message->ReplyAckRetired_interaction_id@,
        ),
{
    let members = message.members();
    match message {
        ServerMsg::ReplyReceived {
            lane_id,
            reply_to,
            after_seq,
            through_seq,
            turn_token,
            interaction_id,
        } => lemma_receipt(
            members,
            "reply_received"@,
            lane_id@,
            reply_to@,
            after_seq,
            through_seq,
            turn_token@,
            interaction_id@,
        ),
        ServerMsg::ReplyAcknowledged {
            lane_id,
            reply_to,
            after_seq,
            through_seq,
            turn_token,
            interaction_id,
        } => lemma_receipt(
            members,
            "reply_acknowledged"@,
            lane_id@,
            reply_to@,
            after_seq,
            through_seq,
            turn_token@,
            interaction_id@,
        ),
        ServerMsg::ReplyAckRetired {
            lane_id,
            reply_to,
            after_seq,
            through_seq,
            turn_token,
            interaction_id,
        } => lemma_receipt(
            members,
            "reply_ack_retired"@,
            lane_id@,
            reply_to@,
            after_seq,
            through_seq,
            turn_token@,
            interaction_id@,
        ),
        _ => JsonView::Null,
    }
}

/// The short frames hold their kind and the one value that they carry, if any.
pub proof fn law_short_frames(message: ServerMsg) -> (v: JsonView)
    requires
        message is Ready || message is SpeechStart || message is Listening || message is Utterance
            || message is Phase || message is Error,
    ensures
        is_object_text(object_text(message.members()), v),
        message is Ready ==> v.get("type"@) == Some(JsonView::Text("ready"@)),
        message is SpeechStart ==> v.get("type"@) == Some(JsonView::Text("speech_start"@)),
        message is Listening ==> v.get("type"@) == Some(JsonView::Text("listening"@)),
        message is Utterance ==> v.get("type"@) == Some(JsonView::Text("utterance"@)) && v.get(
            "samples"@,
        ) == Some(natural_value(message->Utterance_samples as u64)),
        message is Phase ==> v.get("type"@) == Some(JsonView::Text("phase"@)) && v.get("value"@)
            == Some(JsonView::Text(message->Phase_value@)),
        message is Error ==> v.get("type"@) == Some(JsonView::Text("error"@)) && v.get("message"@)
            == Some(JsonView::Text(message->Error_message@)),
{
    lemma_keys_differ();
    let fields: Seq<(Seq<char>, JsonView)> = match message {
        ServerMsg::Ready => seq![("type"@, JsonView::Text("ready"@))],
        ServerMsg::SpeechStart => seq![("type"@, JsonView::Text("speech_start"@))],
        ServerMsg::Listening => seq![("type"@, JsonView::Text("listening"@))],
        ServerMsg::Utterance { samples } => seq![
            ("type"@, JsonView::Text("utterance"@)),
            ("samples"@, natural_value(samples as u64)),
        ],
        ServerMsg::Phase { value } => seq![
            ("type"@, JsonView::Text("phase"@)),
            ("value"@, JsonView::Text(value@)),
        ],
        ServerMsg::Error { message } => seq![
            ("type"@, JsonView::Text("error"@)),
            ("message"@, JsonView::Text(message@)),
        ],
        _ => seq![],
    };
    assert(written_as(message.members(), fields));
    lemma_object(message.members(), fields);
    lemma_found(fields);
    JsonView::Object(fields)
}

// ---- from the handset to the bridge ---------------------------------------------

/// A command on the wire: what was tapped.
pub open spec fn tapped(command: CommandKind) -> Seq<char> {
    match command {
        CommandKind::Stop => "stop"@,
        CommandKind::Repeat => "repeat"@,
        CommandKind::CancelCapture => "cancel_capture"@,
    }
}

/// The frames of the handset hold their kind and their fields.
pub proof fn law_control_frames(message: ControlMsg) -> (v: JsonView)
    requires
        message is Hello || message is Command || message is UtteranceEnd || message is MetaMode
            || message is Lane,
    ensures
        is_object_text(object_text(message.members()), v),
        message is Hello ==> {
            &&& v.get("type"@) == Some(JsonView::Text("hello"@))
            &&& v.get("device"@) == Some(JsonView::Text(message->Hello_device@))
            &&& v.get("installation_id"@) == Some(JsonView::Text(message->Hello_installation_id@))
            &&& has_optional_text(v, "token"@, opt_view(message->Hello_token))
        },
        message is Command ==> {
            &&& v.get("type"@) == Some(JsonView::Text("command"@))
            &&& v.get("command"@) == Some(JsonView::Text(tapped(message->Command_command)))
            &&& v.get("turn_token"@) == Some(JsonView::Text(message->Command_turn_token@))
        },
        message is UtteranceEnd ==> {
            &&& v.get("type"@) == Some(JsonView::Text("utterance_end"@))
            &&& v.get("turn_token"@) == Some(JsonView::Text(message->UtteranceEnd_turn_token@))
        },
        message is MetaMode ==> {
            &&& v.get("type"@) == Some(JsonView::Text("meta_mode"@))
            &&& v.get("turn_token"@) == Some(JsonView::Text(message->MetaMode_turn_token@))
        },
        message is Lane ==> {
            &&& v.get("type"@) == Some(JsonView::Text("lane"@))
            &&& v.get("id"@) == Some(JsonView::Text(message->Lane_id@))
            &&& has_optional_number(v, "revision"@, message->Lane_revision)
            &&& v.get("turn_token"@) == Some(JsonView::Text(message->Lane_turn_token@))
        },
{
    lemma_keys_differ();
    let fields: Seq<(Seq<char>, JsonView)> = match message {
        ControlMsg::Hello { device, installation_id, token } => {
            let tail = match opt_view(token) {
                Some(t) => seq![("token"@, JsonView::Text(t))],
                None => seq![],
            };
            seq![
                ("type"@, JsonView::Text("hello"@)),
                ("device"@, JsonView::Text(device@)),
                ("installation_id"@, JsonView::Text(installation_id@)),
            ] + tail
        },
        ControlMsg::Command { command, turn_token } => seq![
            ("type"@, JsonView::Text("command"@)),
            ("command"@, JsonView::Text(tapped(command))),
            ("turn_token"@, JsonView::Text(turn_token@)),
        ],
        ControlMsg::UtteranceEnd { turn_token } => seq![
            ("type"@, JsonView::Text("utterance_end"@)),
            ("turn_token"@, JsonView::Text(turn_token@)),
        ],
        ControlMsg::MetaMode { turn_token } => seq![
            ("type"@, JsonView::Text("meta_mode"@)),
            ("turn_token"@, JsonView::Text(turn_token@)),
        ],
        ControlMsg::Lane { id, revision, turn_token } => {
            let middle = match revision {
                Some(n) => seq![("revision"@, natural_value(n))],
                None => seq![],
            };
            seq![("type"@, JsonView::Text("lane"@)), ("id"@, JsonView::Text(id@))] + middle + seq![
                ("turn_token"@, JsonView::Text(turn_token@)),
            ]
        },
        _ => seq![],
    };
    assert(written_as(message.members(), fields));
    lemma_object(message.members(), fields);
    lemma_found(fields);
    JsonView::Object(fields)
}

/// The receipts that the handset sends hold what they are about.
pub proof fn law_control_receipt_frames(message: ControlMsg) -> (v: JsonView)
    requires
        message is ReplyReceived || message is ReplyAck || message is ReplyAckRetire,
    ensures
        is_object_text(object_text(message.members()), v),
        message is ReplyReceived ==> holds_receipt(
            v,
            "reply_received"@,
            message->ReplyReceived_lane_id@,
            message->ReplyReceived_reply_to@,
            message->ReplyReceived_after_seq,
            message->ReplyReceived_through_seq,
            message->ReplyReceived_turn_token@,
            message->ReplyReceived_interaction_id@,
        ),
        message is ReplyAck ==> holds_receipt(
            v,
            "reply_ack"@,
            message->ReplyAck_lane_id@,
            message->ReplyAck_reply_to@,
            message->ReplyAck_after_seq,
            message->ReplyAck_through_seq,
            message->ReplyAck_turn_token@,
            message->ReplyAck_interaction_id@,
        ),
        message is ReplyAckRetire ==> holds_receipt(
            v,
            "reply_ack_retire"@,
            message->ReplyAckRetire_lane_id@,
            message->ReplyAckRetire_reply_to@,
            message->ReplyAckRetire_after_seq,
            message->ReplyAckRetire_through_seq,
            message->ReplyAckRetire_turn_token@,
            message->ReplyAckRetire_interaction_id@,
        ),
{
    let members = message.members();
    match message {
        ControlMsg::ReplyReceived {
            lane_id,
            reply_to,
            after_seq,
            through_seq,
            turn_token,
            interaction_id,
        } => lemma_receipt(
            members,
            "reply_received"@,
            lane_id@,
            reply_to@,
            after_seq,
            through_seq,
            turn_token@,
            interaction_id@,
        ),
        ControlMsg::ReplyAck {
            lane_id,
            reply_to,
            after_seq,
            through_seq,
            turn_token,
            interaction_id,
        } => lemma_receipt(
            members,
            "reply_ack"@,
            lane_id@,
            reply_to@,
            after_seq,
            through_seq,
            turn_token@,
            interaction_id@,
        ),
        ControlMsg::ReplyAckRetire {
            lane_id,
            reply_to,
            after_seq,
            through_seq,
            turn_token,
            interaction_id,
        } => lemma_receipt(
            members,
            "reply_ack_retire"@,
            lane_id@,
            reply_to@,
            after_seq,
            through_seq,
            turn_token@,
            interaction_id@,
        ),
        _ => JsonView::Null,
    }
}

} // verus!
