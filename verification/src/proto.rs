//! Wire frames between the handset, the bridge and the daemon, and the
//! validity of the identifiers that they carry.
use vstd::prelude::*;

use crate::json::{
    field_views, is_json_number, json_number, json_string, object_of, object_text, optional_number,
    optional_raw, optional_text, push_number, push_optional_number, push_optional_text, push_text,
};
use crate::text::{
    byte_len, chars_of, decimal, opt_ref, opt_str_view, opt_view, same_text, utf16_count, utf16_len,
    utf8_len,
};

verus! {

/// The largest integer that a JSON number carries exactly to every client.
pub const MAX_SAFE_SEQUENCE: u64 = 9_007_199_254_740_991;

/// Longest turn token, in UTF-16 code units.
pub const MAX_TURN_TOKEN_LENGTH: usize = 128;

/// Longest lane identifier, in bytes and in UTF-16 code units.
pub const MAX_LANE_ID_LENGTH: usize = 128;

/// Longest opaque identifier, in UTF-16 code units.
pub const MAX_OPAQUE_ID_LENGTH: usize = 256;

/// Longest opaque identifier, in bytes.
pub const MAX_OPAQUE_ID_BYTES: usize = 256;

/// Longest installation identifier, in UTF-16 code units.
pub const MAX_INSTALLATION_ID_LENGTH: usize = 128;

/// An ASCII letter or digit.
pub open spec fn ascii_alphanumeric(c: char) -> bool {
    ('0' <= c && c <= '9') || ('A' <= c && c <= 'Z') || ('a' <= c && c <= 'z')
}

/// Whether `c` is an ASCII letter or digit.
pub fn is_ascii_alphanumeric(c: char) -> (r: bool)
    ensures
        r == ascii_alphanumeric(c),
{
    ('0' <= c && c <= '9') || ('A' <= c && c <= 'Z') || ('a' <= c && c <= 'z')
}

/// A character that may stand in a lane identifier.
pub open spec fn lane_char(c: char) -> bool {
    ascii_alphanumeric(c) || c == ':' || c == '_' || c == '-'
}

/// The lane identifier grammar: 1 to 128 ASCII letters, digits, `:`, `_` and
/// `-`, with a letter or digit at both ends.
pub open spec fn valid_lane_id(s: Seq<char>) -> bool {
    &&& 1 <= s.len() <= MAX_LANE_ID_LENGTH
    &&& ascii_alphanumeric(s.first())
    &&& ascii_alphanumeric(s.last())
    &&& forall|i: int| 0 <= i < s.len() ==> lane_char(#[trigger] s[i])
}

/// Whether `value` follows the lane identifier grammar.
pub fn is_valid_lane_id(value: &str) -> (r: bool)
    ensures
        r == valid_lane_id(value@),
{
    let v = chars_of(value);
    let n: usize = v.len();
    if n == 0 || n > MAX_LANE_ID_LENGTH {
        return false;
    }
    if !is_ascii_alphanumeric(v[0]) || !is_ascii_alphanumeric(v[n - 1]) {
        return false;
    }
    for i in 0..n
        invariant
            v@ == value@,
            n == v@.len(),
            forall|k: int| 0 <= k < i ==> lane_char(#[trigger] value@[k]),
    {
        let c = v[i];
        if !(is_ascii_alphanumeric(c) || c == ':' || c == '_' || c == '-') {
            assert(!lane_char(value@[i as int]));
            return false;
        }
    }
    true
}

pub proof fn lemma_ascii_lengths(s: Seq<char>)
    requires
        forall|i: int| 0 <= i < s.len() ==> (#[trigger] s[i] as u32) < 0x80,
    ensures
        utf8_len(s) == s.len(),
        utf16_len(s) == s.len(),
    decreases s.len(),
{
    if s.len() > 0 {
        let t = s.drop_last();
        assert forall|i: int| 0 <= i < t.len() implies (#[trigger] t[i] as u32) < 0x80 by {
            assert(t[i] == s[i]);
        }
        lemma_ascii_lengths(t);
        crate::text::lemma_encode_push(t, s.last());
        assert(t.push(s.last()) =~= s);
        assert((s[s.len() - 1] as u32) < 0x80);
    }
}

/// A lane identifier has as many bytes and as many UTF-16 code units as
/// characters, so its bound is the same for every client.
pub proof fn law_lane_id_lengths_agree(s: Seq<char>)
    requires
        valid_lane_id(s),
    ensures
        utf8_len(s) == s.len(),
        utf16_len(s) == s.len(),
        1 <= utf8_len(s) <= MAX_LANE_ID_LENGTH,
{
    assert forall|i: int| 0 <= i < s.len() implies (#[trigger] s[i] as u32) < 0x80 by {
        assert(lane_char(s[i]));
    }
    lemma_ascii_lengths(s);
}

/// A code point of the protocol's own blank set.
pub open spec fn protocol_blank_char(c: char) -> bool {
    let u = c as u32;
    ||| 0x0009 <= u <= 0x000d
    ||| u == 0x0020
    ||| u == 0x0085
    ||| u == 0x00a0
    ||| u == 0x1680
    ||| 0x2000 <= u <= 0x200a
    ||| 0x2028 <= u <= 0x2029
    ||| u == 0x202f
    ||| u == 0x205f
    ||| u == 0x3000
    ||| u == 0xfeff
}

/// A protocol value is blank when it is not empty and every code point is in
/// the blank set.
pub open spec fn protocol_blank(s: Seq<char>) -> bool {
    s.len() > 0 && forall|i: int| 0 <= i < s.len() ==> protocol_blank_char(#[trigger] s[i])
}

/// Whether `value` is blank in the protocol's sense.
pub fn is_protocol_blank(value: &str) -> (r: bool)
    ensures
        r == protocol_blank(value@),
{
    if value.is_empty() {
        return false;
    }
    for c in it: value.chars()
        invariant
            it.seq() == value@,
            value@.len() > 0,
            forall|k: int| 0 <= k < it.index() ==> protocol_blank_char(#[trigger] value@[k]),
    {
        let u: u32 = c as u32;
        if !((0x0009 <= u && u <= 0x000d) || u == 0x0020 || u == 0x0085 || u == 0x00a0 || u
            == 0x1680 || (0x2000 <= u && u <= 0x200a) || (0x2028 <= u && u <= 0x2029) || u == 0x202f
            || u == 0x205f || u == 0x3000 || u == 0xfeff) {
            assert(!protocol_blank_char(value@[it.index() as int]));
            return false;
        }
    }
    true
}

/// A C0 or C1 control character.
pub open spec fn control_char(c: char) -> bool {
    let u = c as u32;
    u <= 0x1f || 0x7f <= u <= 0x9f
}

/// Whether `s` holds no control character.
pub open spec fn control_free(s: Seq<char>) -> bool {
    forall|i: int| 0 <= i < s.len() ==> !control_char(#[trigger] s[i])
}

/// Whether `value` holds no control character.
pub fn is_control_free(value: &str) -> (r: bool)
    ensures
        r == control_free(value@),
{
    for c in it: value.chars()
        invariant
            it.seq() == value@,
            forall|k: int| 0 <= k < it.index() ==> !control_char(#[trigger] value@[k]),
    {
        let u: u32 = c as u32;
        if u <= 0x1f || (0x7f <= u && u <= 0x9f) {
            assert(control_char(value@[it.index() as int]));
            return false;
        }
    }
    true
}

/// An opaque correlation identifier: bounded in bytes and in UTF-16 code
/// units, not blank, and free of control characters.
pub open spec fn valid_opaque_id(s: Seq<char>) -> bool {
    &&& 1 <= utf16_len(s) <= MAX_OPAQUE_ID_LENGTH
    &&& 1 <= utf8_len(s) <= MAX_OPAQUE_ID_BYTES
    &&& !protocol_blank(s)
    &&& control_free(s)
}

/// Whether `value` is an opaque correlation identifier.
pub fn is_valid_opaque_id(value: &str) -> (r: bool)
    ensures
        r == valid_opaque_id(value@),
{
    let units: usize = utf16_count(value);
    let bytes: usize = byte_len(value);
    1 <= units && units <= MAX_OPAQUE_ID_LENGTH && 1 <= bytes && bytes <= MAX_OPAQUE_ID_BYTES
        && !is_protocol_blank(value) && is_control_free(value)
}

/// Every lane identifier is also an opaque identifier.
pub proof fn law_lane_id_is_opaque_id(s: Seq<char>)
    requires
        valid_lane_id(s),
    ensures
        valid_opaque_id(s),
{
    law_lane_id_lengths_agree(s);
    assert(lane_char(s[0]));
    assert(!protocol_blank_char(s[0]));
    assert forall|i: int| 0 <= i < s.len() implies !control_char(#[trigger] s[i]) by {
        assert(lane_char(s[i]));
    }
}

/// A turn token: 1 to 128 UTF-16 code units, not blank.
pub open spec fn valid_turn_token(s: Seq<char>) -> bool {
    1 <= utf16_len(s) <= MAX_TURN_TOKEN_LENGTH && !protocol_blank(s)
}

/// Whether `value` is a turn token.
pub fn is_valid_turn_token(value: &str) -> (r: bool)
    ensures
        r == valid_turn_token(value@),
{
    let units: usize = utf16_count(value);
    1 <= units && units <= MAX_TURN_TOKEN_LENGTH && !is_protocol_blank(value)
}

/// An installation identifier: 1 to 128 UTF-16 code units, not blank, free of
/// control characters.
pub open spec fn valid_installation_id(s: Seq<char>) -> bool {
    1 <= utf16_len(s) <= MAX_INSTALLATION_ID_LENGTH && !protocol_blank(s) && control_free(s)
}

/// Whether `value` is an installation identifier.
pub fn is_valid_installation_id(value: &str) -> (r: bool)
    ensures
        r == valid_installation_id(value@),
{
    let units: usize = utf16_count(value);
    1 <= units && units <= MAX_INSTALLATION_ID_LENGTH && !is_protocol_blank(value)
        && is_control_free(value)
}

/// The fields that tie a receipt to a range of deliveries.
pub open spec fn valid_delivery_receipt(
    lane_id: Seq<char>,
    reply_to: Seq<char>,
    after_seq: u64,
    through_seq: u64,
) -> bool {
    &&& valid_lane_id(lane_id)
    &&& valid_opaque_id(reply_to)
    &&& after_seq <= MAX_SAFE_SEQUENCE
    &&& through_seq <= MAX_SAFE_SEQUENCE
    &&& through_seq > after_seq
}

/// Whether these fields tie a receipt to a range of deliveries.
pub fn valid_delivery_receipt_fields(
    lane_id: &str,
    reply_to: &str,
    after_seq: u64,
    through_seq: u64,
) -> (r: bool)
    ensures
        r == valid_delivery_receipt(lane_id@, reply_to@, after_seq, through_seq),
{
    is_valid_lane_id(lane_id) && is_valid_opaque_id(reply_to) && after_seq <= MAX_SAFE_SEQUENCE
        && through_seq <= MAX_SAFE_SEQUENCE && through_seq > after_seq
}

/// A whole receipt: its delivery range, its turn and its interaction.
pub open spec fn valid_receipt(
    lane_id: Seq<char>,
    reply_to: Seq<char>,
    after_seq: u64,
    through_seq: u64,
    turn_token: Seq<char>,
    interaction_id: Seq<char>,
) -> bool {
    &&& valid_delivery_receipt(lane_id, reply_to, after_seq, through_seq)
    &&& valid_turn_token(turn_token)
    &&& valid_opaque_id(interaction_id)
}

/// Whether these are the fields of a whole receipt.
pub fn valid_receipt_fields(
    lane_id: &str,
    reply_to: &str,
    after_seq: u64,
    through_seq: u64,
    turn_token: &str,
    interaction_id: &str,
) -> (r: bool)
    ensures
        r == valid_receipt(
            lane_id@,
            reply_to@,
            after_seq,
            through_seq,
            turn_token@,
            interaction_id@,
        ),
{
    valid_delivery_receipt_fields(lane_id, reply_to, after_seq, through_seq) && is_valid_turn_token(
        turn_token,
    ) && is_valid_opaque_id(interaction_id)
}

/// The delivery range of a reply is absent as a whole, or present as a whole
/// and valid.
pub open spec fn valid_optional_receipt(
    lane_id: Option<Seq<char>>,
    reply_to: Option<Seq<char>>,
    after_seq: Option<u64>,
    through_seq: Option<u64>,
) -> bool {
    match (lane_id, reply_to, after_seq, through_seq) {
        (None, None, None, None) => true,
        (Some(l), Some(r), Some(a), Some(t)) => valid_delivery_receipt(l, r, a, t),
        _ => false,
    }
}

/// Whether a delivery range is absent as a whole, or present and valid.
pub fn valid_optional_delivery_receipt(
    lane_id: Option<&str>,
    reply_to: Option<&str>,
    after_seq: Option<u64>,
    through_seq: Option<u64>,
) -> (r: bool)
    ensures
        r == valid_optional_receipt(
            opt_str_view(lane_id),
            opt_str_view(reply_to),
            after_seq,
            through_seq,
        ),
{
    match (lane_id, reply_to, after_seq, through_seq) {
        (None, None, None, None) => true,
        (Some(l), Some(r), Some(a), Some(t)) => valid_delivery_receipt_fields(l, r, a, t),
        _ => false,
    }
}

/// What a tap on the handset asks for.
#[derive(Debug, Clone, Copy, PartialEq, Eq, Structural)]
pub enum CommandKind {
    Stop,
    Repeat,
    CancelCapture,
}

/// Inbound control frames, from the handset to the bridge.
#[derive(Debug, Clone, PartialEq)]
pub enum ControlMsg {
    Hello { device: String, installation_id: String, token: Option<String> },
    Command { command: CommandKind, turn_token: String },
    /// Send now, while still capturing.
    UtteranceEnd { turn_token: String },
    /// The next utterance goes to the steering plane.
    MetaMode { turn_token: String },
    /// The lane that the handset saw active before it opened the microphone.
    Lane { id: String, revision: Option<u64>, turn_token: String },
    /// The handset durably recorded the replayable reply.
    ReplyReceived {
        lane_id: String,
        reply_to: String,
        after_seq: u64,
        through_seq: u64,
        turn_token: String,
        interaction_id: String,
    },
    /// The handset accepted a reply for playback.
    ReplyAck {
        lane_id: String,
        reply_to: String,
        after_seq: u64,
        through_seq: u64,
        turn_token: String,
        interaction_id: String,
    },
    /// The handset durably recorded the acknowledgement of a reply.
    ReplyAckRetire {
        lane_id: String,
        reply_to: String,
        after_seq: u64,
        through_seq: u64,
        turn_token: String,
        interaction_id: String,
    },
}

impl ControlMsg {
    /// Whether the identifiers and sequences of the frame are valid.
    pub open spec fn valid(self) -> bool {
        match self {
            ControlMsg::Hello { installation_id, .. } => valid_installation_id(installation_id@),
            ControlMsg::Command { turn_token, .. } => valid_turn_token(turn_token@),
            ControlMsg::UtteranceEnd { turn_token } => valid_turn_token(turn_token@),
            ControlMsg::MetaMode { turn_token } => valid_turn_token(turn_token@),
            ControlMsg::Lane { id, revision, turn_token } => {
                &&& valid_turn_token(turn_token@)
                &&& valid_lane_id(id@)
                &&& (revision is Some ==> revision->0 <= MAX_SAFE_SEQUENCE)
            },
            ControlMsg::ReplyReceived {
                lane_id,
                reply_to,
                after_seq,
                through_seq,
                turn_token,
                interaction_id,
            } => valid_receipt(
                lane_id@,
                reply_to@,
                after_seq,
                through_seq,
                turn_token@,
                interaction_id@,
            ),
            ControlMsg::ReplyAck {
                lane_id,
                reply_to,
                after_seq,
                through_seq,
                turn_token,
                interaction_id,
            } => valid_receipt(
                lane_id@,
                reply_to@,
                after_seq,
                through_seq,
                turn_token@,
                interaction_id@,
            ),
            ControlMsg::ReplyAckRetire {
                lane_id,
                reply_to,
                after_seq,
                through_seq,
                turn_token,
                interaction_id,
            } => valid_receipt(
                lane_id@,
                reply_to@,
                after_seq,
                through_seq,
                turn_token@,
                interaction_id@,
            ),
        }
    }

    /// Whether the identifiers and sequences of the frame are valid.
    pub fn is_valid(&self) -> (r: bool)
        ensures
            r == self.valid(),
    {
        match self {
            ControlMsg::Hello { installation_id, .. } => is_valid_installation_id(
                installation_id.as_str(),
            ),
            ControlMsg::Command { turn_token, .. } => is_valid_turn_token(turn_token.as_str()),
            ControlMsg::UtteranceEnd { turn_token } => is_valid_turn_token(turn_token.as_str()),
            ControlMsg::MetaMode { turn_token } => is_valid_turn_token(turn_token.as_str()),
            ControlMsg::Lane { id, revision, turn_token } => {
                is_valid_turn_token(turn_token.as_str()) && is_valid_lane_id(id.as_str())
                    && match revision {
                    Some(revision) => *revision <= MAX_SAFE_SEQUENCE,
                    None => true,
                }
            },
            ControlMsg::ReplyReceived {
                lane_id,
                reply_to,
                after_seq,
                through_seq,
                turn_token,
                interaction_id,
            } => valid_receipt_fields(
                lane_id.as_str(),
                reply_to.as_str(),
                *after_seq,
                *through_seq,
                turn_token.as_str(),
                interaction_id.as_str(),
            ),
            ControlMsg::ReplyAck {
                lane_id,
                reply_to,
                after_seq,
                through_seq,
                turn_token,
                interaction_id,
            } => valid_receipt_fields(
                lane_id.as_str(),
                reply_to.as_str(),
                *after_seq,
                *through_seq,
                turn_token.as_str(),
                interaction_id.as_str(),
            ),
            ControlMsg::ReplyAckRetire {
                lane_id,
                reply_to,
                after_seq,
                through_seq,
                turn_token,
                interaction_id,
            } => valid_receipt_fields(
                lane_id.as_str(),
                reply_to.as_str(),
                *after_seq,
                *through_seq,
                turn_token.as_str(),
                interaction_id.as_str(),
            ),
        }
    }

    /// Defensive intake of a decoded frame: what decoding refused, and what is
    /// not valid, is dropped. A valid frame comes through as it was.
    pub fn parse(decoded: Option<ControlMsg>) -> (r: Option<ControlMsg>)
        ensures
            r == (if decoded is Some && decoded->0.valid() {
                decoded
            } else {
                None
            }),
    {
        match decoded {
            Some(msg) => if msg.is_valid() {
                Some(msg)
            } else {
                None
            },
            None => None,
        }
    }
}

/// Whether a confidence is the text of a JSON number, or of none that is finite.
pub open spec fn valid_confidence(text: Option<Seq<char>>) -> bool {
    text is Some ==> json_number(text->0) || text->0 == "null"@
}

fn is_valid_confidence(text: Option<&str>) -> (r: bool)
    ensures
        r == valid_confidence(opt_str_view(text)),
{
    match text {
        Some(t) => is_json_number(t) || same_text(t, "null"),
        None => true,
    }
}

/// Outgoing control frames, from the bridge to the handset.
#[allow(inconsistent_fields)]
#[derive(Debug, Clone, PartialEq)]
pub enum ServerMsg {
    Ready,
    SpeechStart,
    Utterance { samples: usize },
    /// A transcript. The confidence, a probability, is carried as the text of
    /// its JSON number; one that is not finite is `null` on the wire.
    Stt {
        text: String,
        confidence: Option<String>,
        repo: Option<String>,
        turn_token: String,
        interaction_id: String,
    },
    AgentDelta { text: String, turn_token: String, interaction_id: String },
    AgentEnd {
        text: String,
        turn_token: String,
        interaction_id: String,
        lane_id: Option<String>,
        reply_to: Option<String>,
        after_seq: Option<u64>,
        through_seq: Option<u64>,
    },
    ReplyReceived {
        lane_id: String,
        reply_to: String,
        after_seq: u64,
        through_seq: u64,
        turn_token: String,
        interaction_id: String,
    },
    ReplyAcknowledged {
        lane_id: String,
        reply_to: String,
        after_seq: u64,
        through_seq: u64,
        turn_token: String,
        interaction_id: String,
    },
    ReplyAckRetired {
        lane_id: String,
        reply_to: String,
        after_seq: u64,
        through_seq: u64,
        turn_token: String,
        interaction_id: String,
    },
    Listening,
    Phase { value: String },
    Error { message: String },
}

/// The members of a receipt frame.
pub open spec fn receipt_members(
    tag: Seq<char>,
    lane_id: Seq<char>,
    reply_to: Seq<char>,
    after_seq: u64,
    through_seq: u64,
    turn_token: Seq<char>,
    interaction_id: Seq<char>,
) -> Seq<(Seq<char>, Seq<char>)> {
    seq![
        ("type"@, json_string(tag)),
        ("lane_id"@, json_string(lane_id)),
        ("reply_to"@, json_string(reply_to)),
        ("after_seq"@, decimal(after_seq as nat)),
        ("through_seq"@, decimal(through_seq as nat)),
        ("turn_token"@, json_string(turn_token)),
        ("interaction_id"@, json_string(interaction_id)),
    ]
}

/// The member that names the kind of a frame.
pub open spec fn tag_member(tag: Seq<char>) -> Seq<(Seq<char>, Seq<char>)> {
    seq![("type"@, json_string(tag))]
}

/// The members of a frame that carries text of one turn.
pub open spec fn turn_members(
    tag: Seq<char>,
    text: Seq<char>,
    turn_token: Seq<char>,
    interaction_id: Seq<char>,
) -> Seq<(Seq<char>, Seq<char>)> {
    seq![
        ("type"@, json_string(tag)),
        ("text"@, json_string(text)),
        ("turn_token"@, json_string(turn_token)),
        ("interaction_id"@, json_string(interaction_id)),
    ]
}

/// The members of the delivery range of a reply.
pub open spec fn range_members(
    lane_id: Option<Seq<char>>,
    reply_to: Option<Seq<char>>,
    after_seq: Option<u64>,
    through_seq: Option<u64>,
) -> Seq<(Seq<char>, Seq<char>)> {
    optional_text("lane_id"@, lane_id) + optional_text("reply_to"@, reply_to) + optional_number(
        "after_seq"@,
        after_seq,
    ) + optional_number("through_seq"@, through_seq)
}

/// The members of a transcript frame.
pub open spec fn stt_members(
    text: Seq<char>,
    confidence: Option<Seq<char>>,
    repo: Option<Seq<char>>,
    turn_token: Seq<char>,
    interaction_id: Seq<char>,
) -> Seq<(Seq<char>, Seq<char>)> {
    seq![("type"@, json_string("stt"@)), ("text"@, json_string(text))] + optional_raw(
        "confidence"@,
        confidence,
    ) + optional_text("repo"@, repo) + seq![
        ("turn_token"@, json_string(turn_token)),
        ("interaction_id"@, json_string(interaction_id)),
    ]
}

impl ServerMsg {
    /// The members of the frame on the wire, in order. An absent value has no
    /// member.
    pub open spec fn members(self) -> Seq<(Seq<char>, Seq<char>)> {
        match self {
            ServerMsg::Ready => tag_member("ready"@),
            ServerMsg::SpeechStart => tag_member("speech_start"@),
            ServerMsg::Utterance { samples } => tag_member("utterance"@).push(
                ("samples"@, decimal(samples as nat)),
            ),
            ServerMsg::Stt { text, confidence, repo, turn_token, interaction_id } => stt_members(
                text@,
                opt_view(confidence),
                opt_view(repo),
                turn_token@,
                interaction_id@,
            ),
            ServerMsg::AgentDelta { text, turn_token, interaction_id } => turn_members(
                "agent_delta"@,
                text@,
                turn_token@,
                interaction_id@,
            ),
            ServerMsg::AgentEnd {
                text,
                turn_token,
                interaction_id,
                lane_id,
                reply_to,
                after_seq,
                through_seq,
            } => turn_members("agent_end"@, text@, turn_token@, interaction_id@) + range_members(
                opt_view(lane_id),
                opt_view(reply_to),
                after_seq,
                through_seq,
            ),
            ServerMsg::ReplyReceived {
                lane_id,
                reply_to,
                after_seq,
                through_seq,
                turn_token,
                interaction_id,
            } => receipt_members(
                "reply_received"@,
                lane_id@,
                reply_to@,
                after_seq,
                through_seq,
                turn_token@,
                interaction_id@,
            ),
            ServerMsg::ReplyAcknowledged {
                lane_id,
                reply_to,
                after_seq,
                through_seq,
                turn_token,
                interaction_id,
            } => receipt_members(
                "reply_acknowledged"@,
                lane_id@,
                reply_to@,
                after_seq,
                through_seq,
                turn_token@,
                interaction_id@,
            ),
            ServerMsg::ReplyAckRetired {
                lane_id,
                reply_to,
                after_seq,
                through_seq,
                turn_token,
                interaction_id,
            } => receipt_members(
                "reply_ack_retired"@,
                lane_id@,
                reply_to@,
                after_seq,
                through_seq,
                turn_token@,
                interaction_id@,
            ),
            ServerMsg::Listening => tag_member("listening"@),
            ServerMsg::Phase { value } => tag_member("phase"@).push(
                ("value"@, json_string(value@)),
            ),
            ServerMsg::Error { message } => tag_member("error"@).push(
                ("message"@, json_string(message@)),
            ),
        }
    }

    /// Whether the correlation fields of the frame are valid, and what it
    /// carries as a JSON text is one.
    pub open spec fn valid(self) -> bool {
        match self {
            ServerMsg::Stt { turn_token, interaction_id, confidence, .. } => valid_turn_token(
                turn_token@,
            ) && valid_opaque_id(interaction_id@) && valid_confidence(opt_view(confidence)),
            ServerMsg::AgentDelta { turn_token, interaction_id, .. } => valid_turn_token(
                turn_token@,
            ) && valid_opaque_id(interaction_id@),
            ServerMsg::AgentEnd {
                turn_token,
                interaction_id,
                lane_id,
                reply_to,
                after_seq,
                through_seq,
                ..
            } => {
                &&& valid_turn_token(turn_token@)
                &&& valid_opaque_id(interaction_id@)
                &&& valid_optional_receipt(
                    opt_view(lane_id),
                    opt_view(reply_to),
                    after_seq,
                    through_seq,
                )
            },
            ServerMsg::ReplyReceived {
                lane_id,
                reply_to,
                after_seq,
                through_seq,
                turn_token,
                interaction_id,
            } => valid_receipt(
                lane_id@,
                reply_to@,
                after_seq,
                through_seq,
                turn_token@,
                interaction_id@,
            ),
            ServerMsg::ReplyAcknowledged {
                lane_id,
                reply_to,
                after_seq,
                through_seq,
                turn_token,
                interaction_id,
            } => valid_receipt(
                lane_id@,
                reply_to@,
                after_seq,
                through_seq,
                turn_token@,
                interaction_id@,
            ),
            ServerMsg::ReplyAckRetired {
                lane_id,
                reply_to,
                after_seq,
                through_seq,
                turn_token,
                interaction_id,
            } => valid_receipt(
                lane_id@,
                reply_to@,
                after_seq,
                through_seq,
                turn_token@,
                interaction_id@,
            ),
            _ => true,
        }
    }

    /// Whether the correlation fields of the frame are valid, and what it
    /// carries as a JSON text is one.
    pub fn is_valid(&self) -> (r: bool)
        ensures
            r == self.valid(),
    {
        match self {
            ServerMsg::Stt { turn_token, interaction_id, confidence, .. } => is_valid_turn_token(
                turn_token.as_str(),
            ) && is_valid_opaque_id(interaction_id.as_str()) && is_valid_confidence(
                opt_ref(confidence),
            ),
            ServerMsg::AgentDelta { turn_token, interaction_id, .. } => is_valid_turn_token(
                turn_token.as_str(),
            ) && is_valid_opaque_id(interaction_id.as_str()),
            ServerMsg::AgentEnd {
                turn_token,
                interaction_id,
                lane_id,
                reply_to,
                after_seq,
                through_seq,
                ..
            } => is_valid_turn_token(turn_token.as_str()) && is_valid_opaque_id(
                interaction_id.as_str(),
            ) && valid_optional_delivery_receipt(
                opt_ref(lane_id),
                opt_ref(reply_to),
                *after_seq,
                *through_seq,
            ),
            ServerMsg::ReplyReceived {
                lane_id,
                reply_to,
                after_seq,
                through_seq,
                turn_token,
                interaction_id,
            } => valid_receipt_fields(
                lane_id.as_str(),
                reply_to.as_str(),
                *after_seq,
                *through_seq,
                turn_token.as_str(),
                interaction_id.as_str(),
            ),
            ServerMsg::ReplyAcknowledged {
                lane_id,
                reply_to,
                after_seq,
                through_seq,
                turn_token,
                interaction_id,
            } => valid_receipt_fields(
                lane_id.as_str(),
                reply_to.as_str(),
                *after_seq,
                *through_seq,
                turn_token.as_str(),
                interaction_id.as_str(),
            ),
            ServerMsg::ReplyAckRetired {
                lane_id,
                reply_to,
                after_seq,
                through_seq,
                turn_token,
                interaction_id,
            } => valid_receipt_fields(
                lane_id.as_str(),
                reply_to.as_str(),
                *after_seq,
                *through_seq,
                turn_token.as_str(),
                interaction_id.as_str(),
            ),
            _ => true,
        }
    }
}

fn receipt_fields(
    tag: &str,
    lane_id: &str,
    reply_to: &str,
    after_seq: u64,
    through_seq: u64,
    turn_token: &str,
    interaction_id: &str,
) -> (r: Vec<(&'static str, String)>)
    ensures
        field_views(r@) == receipt_members(
            tag@,
            lane_id@,
            reply_to@,
            after_seq,
            through_seq,
            turn_token@,
            interaction_id@,
        ),
{
    let mut fields: Vec<(&'static str, String)> = Vec::new();
    push_text(&mut fields, "type", tag);
    push_text(&mut fields, "lane_id", lane_id);
    push_text(&mut fields, "reply_to", reply_to);
    push_number(&mut fields, "after_seq", after_seq);
    push_number(&mut fields, "through_seq", through_seq);
    push_text(&mut fields, "turn_token", turn_token);
    push_text(&mut fields, "interaction_id", interaction_id);
    assert(field_views(fields@) =~= receipt_members(
        tag@,
        lane_id@,
        reply_to@,
        after_seq,
        through_seq,
        turn_token@,
        interaction_id@,
    ));
    fields
}

fn tag_field(tag: &str) -> (r: Vec<(&'static str, String)>)
    ensures
        field_views(r@) == tag_member(tag@),
{
    let mut fields: Vec<(&'static str, String)> = Vec::new();
    push_text(&mut fields, "type", tag);
    assert(field_views(fields@) =~= tag_member(tag@));
    fields
}

fn turn_fields(tag: &str, text: &str, turn_token: &str, interaction_id: &str) -> (r: Vec<
    (&'static str, String),
>)
    ensures
        field_views(r@) == turn_members(tag@, text@, turn_token@, interaction_id@),
{
    let mut fields: Vec<(&'static str, String)> = Vec::new();
    push_text(&mut fields, "type", tag);
    push_text(&mut fields, "text", text);
    push_text(&mut fields, "turn_token", turn_token);
    push_text(&mut fields, "interaction_id", interaction_id);
    assert(field_views(fields@) =~= turn_members(tag@, text@, turn_token@, interaction_id@));
    fields
}

fn push_range(
    fields: &mut Vec<(&'static str, String)>,
    lane_id: &Option<String>,
    reply_to: &Option<String>,
    after_seq: Option<u64>,
    through_seq: Option<u64>,
)
    ensures
        field_views(final(fields)@) == field_views(old(fields)@) + range_members(
            opt_view(*lane_id),
            opt_view(*reply_to),
            after_seq,
            through_seq,
        ),
{
    push_optional_text(fields, "lane_id", lane_id);
    push_optional_text(fields, "reply_to", reply_to);
    push_optional_number(fields, "after_seq", after_seq);
    push_optional_number(fields, "through_seq", through_seq);
    assert(field_views(fields@) =~= field_views(old(fields)@) + range_members(
        opt_view(*lane_id),
        opt_view(*reply_to),
        after_seq,
        through_seq,
    ));
}

fn stt_fields(
    text: &str,
    confidence: &Option<String>,
    repo: &Option<String>,
    turn_token: &str,
    interaction_id: &str,
) -> (r: Vec<(&'static str, String)>)
    ensures
        field_views(r@) == stt_members(
            text@,
            opt_view(*confidence),
            opt_view(*repo),
            turn_token@,
            interaction_id@,
        ),
{
    let mut fields: Vec<(&'static str, String)> = Vec::new();
    push_text(&mut fields, "type", "stt");
    push_text(&mut fields, "text", text);
    let ghost before = field_views(fields@);
    match confidence {
        Some(c) => {
            fields.push(("confidence", c.clone()));
        },
        None => {},
    }
    assert(field_views(fields@) =~= before + optional_raw("confidence"@, opt_view(*confidence)));
    push_optional_text(&mut fields, "repo", repo);
    push_text(&mut fields, "turn_token", turn_token);
    push_text(&mut fields, "interaction_id", interaction_id);
    assert(field_views(fields@) =~= stt_members(
        text@,
        opt_view(*confidence),
        opt_view(*repo),
        turn_token@,
        interaction_id@,
    ));
    fields
}

/// The members of the frame on the wire, in order.
fn server_msg_wire(frame: &ServerMsg) -> (r: Vec<(&'static str, String)>)
    ensures
        field_views(r@) == frame.members(),
{
    let mut fields: Vec<(&'static str, String)>;
    match frame {
        ServerMsg::Ready => {
            fields = tag_field("ready");
        },
        ServerMsg::SpeechStart => {
            fields = tag_field("speech_start");
        },
        ServerMsg::Utterance { samples } => {
            fields = tag_field("utterance");
            push_number(&mut fields, "samples", *samples as u64);
        },
        ServerMsg::Stt { text, confidence, repo, turn_token, interaction_id } => {
            fields = stt_fields(
                text.as_str(),
                confidence,
                repo,
                turn_token.as_str(),
                interaction_id.as_str(),
            );
        },
        ServerMsg::AgentDelta { text, turn_token, interaction_id } => {
            fields = turn_fields(
                "agent_delta",
                text.as_str(),
                turn_token.as_str(),
                interaction_id.as_str(),
            );
        },
        ServerMsg::AgentEnd {
            text,
            turn_token,
            interaction_id,
            lane_id,
            reply_to,
            after_seq,
            through_seq,
        } => {
            fields = turn_fields(
                "agent_end",
                text.as_str(),
                turn_token.as_str(),
                interaction_id.as_str(),
            );
            push_range(&mut fields, lane_id, reply_to, *after_seq, *through_seq);
        },
        ServerMsg::ReplyReceived {
                lane_id,
                reply_to,
                after_seq,
                through_seq,
                turn_token,
                interaction_id,
            } => {
            fields = receipt_fields(
                "reply_received",
                lane_id.as_str(),
                reply_to.as_str(),
                *after_seq,
                *through_seq,
                turn_token.as_str(),
                interaction_id.as_str(),
            );
        },
        ServerMsg::ReplyAcknowledged {
                lane_id,
                reply_to,
                after_seq,
                through_seq,
                turn_token,
                interaction_id,
            } => {
            fields = receipt_fields(
                "reply_acknowledged",
                lane_id.as_str(),
                reply_to.as_str(),
                *after_seq,
                *through_seq,
                turn_token.as_str(),
                interaction_id.as_str(),
            );
        },
        ServerMsg::ReplyAckRetired {
                lane_id,
                reply_to,
                after_seq,
                through_seq,
                turn_token,
                interaction_id,
            } => {
            fields = receipt_fields(
                "reply_ack_retired",
                lane_id.as_str(),
                reply_to.as_str(),
                *after_seq,
                *through_seq,
                turn_token.as_str(),
                interaction_id.as_str(),
            );
        },
        ServerMsg::Listening => {
            fields = tag_field("listening");
        },
        ServerMsg::Phase { value } => {
            fields = tag_field("phase");
            push_text(&mut fields, "value", value.as_str());
        },
        ServerMsg::Error { message } => {
            fields = tag_field("error");
            push_text(&mut fields, "message", message.as_str());
        },
    }
    fields
}

/// Why a frame is not sent.
pub const INVALID_SERVER_MESSAGE: &'static str = "invalid server message correlation fields";

/// A final reply goes out with a whole delivery range or with none, and a range
/// never ends before it begins.
pub proof fn law_final_reply_has_a_whole_range(message: ServerMsg)
    requires
        message is AgentEnd,
        message.valid(),
    ensures
        ({
            let after = message->AgentEnd_after_seq;
            let through = message->AgentEnd_through_seq;
            &&& (message->AgentEnd_lane_id is Some <==> after is Some)
            &&& (message->AgentEnd_reply_to is Some <==> after is Some)
            &&& (through is Some <==> after is Some)
            &&& (after is Some ==> after->0 < through->0 <= MAX_SAFE_SEQUENCE)
        }),
{
}

impl ServerMsg {
    /// The text of a valid frame; an invalid one is never put on the wire.
    pub fn serialize(&self) -> (r: Result<String, String>)
        ensures
            match r {
                Ok(text) => self.valid() && text@ == object_text(self.members()),
                Err(error) => !self.valid() && error@ == INVALID_SERVER_MESSAGE@,
            },
    {
        if !self.is_valid() {
            return Err(INVALID_SERVER_MESSAGE.to_string());
        }
        let fields = server_msg_wire(self);
        Ok(object_of(&fields))
    }
}

/// The text of a valid frame, nothing for an invalid one.
pub fn serialize_server_msg(message: &ServerMsg) -> (r: Option<String>)
    ensures
        opt_view(r) == (if message.valid() {
            Some(object_text(message.members()))
        } else {
            None
        }),
{
    match message.serialize() {
        Ok(text) => Some(text),
        Err(_) => None,
    }
}

/// A command on the wire.
pub open spec fn command_word(command: CommandKind) -> Seq<char> {
    match command {
        CommandKind::Stop => "stop"@,
        CommandKind::Repeat => "repeat"@,
        CommandKind::CancelCapture => "cancel_capture"@,
    }
}

impl ControlMsg {
    /// The members of the frame on the wire, in order.
    pub open spec fn members(self) -> Seq<(Seq<char>, Seq<char>)> {
        match self {
            ControlMsg::Hello { device, installation_id, token } => seq![
                ("type"@, json_string("hello"@)),
                ("device"@, json_string(device@)),
                ("installation_id"@, json_string(installation_id@)),
            ] + optional_text("token"@, opt_view(token)),
            ControlMsg::Command { command, turn_token } => seq![
                ("type"@, json_string("command"@)),
                ("command"@, json_string(command_word(command))),
                ("turn_token"@, json_string(turn_token@)),
            ],
            ControlMsg::UtteranceEnd { turn_token } => seq![
                ("type"@, json_string("utterance_end"@)),
                ("turn_token"@, json_string(turn_token@)),
            ],
            ControlMsg::MetaMode { turn_token } => seq![
                ("type"@, json_string("meta_mode"@)),
                ("turn_token"@, json_string(turn_token@)),
            ],
            ControlMsg::Lane { id, revision, turn_token } => seq![
                ("type"@, json_string("lane"@)),
                ("id"@, json_string(id@)),
            ] + optional_number("revision"@, revision) + seq![
                ("turn_token"@, json_string(turn_token@)),
            ],
            ControlMsg::ReplyReceived {
                lane_id,
                reply_to,
                after_seq,
                through_seq,
                turn_token,
                interaction_id,
            } => receipt_members(
                "reply_received"@,
                lane_id@,
                reply_to@,
                after_seq,
                through_seq,
                turn_token@,
                interaction_id@,
            ),
            ControlMsg::ReplyAck {
                lane_id,
                reply_to,
                after_seq,
                through_seq,
                turn_token,
                interaction_id,
            } => receipt_members(
                "reply_ack"@,
                lane_id@,
                reply_to@,
                after_seq,
                through_seq,
                turn_token@,
                interaction_id@,
            ),
            ControlMsg::ReplyAckRetire {
                lane_id,
                reply_to,
                after_seq,
                through_seq,
                turn_token,
                interaction_id,
            } => receipt_members(
                "reply_ack_retire"@,
                lane_id@,
                reply_to@,
                after_seq,
                through_seq,
                turn_token@,
                interaction_id@,
            ),
        }
    }

    /// The text of the frame.
    pub fn serialize(&self) -> (r: String)
        ensures
            r@ == object_text(self.members()),
    {
        let mut fields: Vec<(&'static str, String)> = Vec::new();
        match self {
            ControlMsg::Hello { device, installation_id, token } => {
                push_text(&mut fields, "type", "hello");
                push_text(&mut fields, "device", device.as_str());
                push_text(&mut fields, "installation_id", installation_id.as_str());
                push_optional_text(&mut fields, "token", token);
                assert(field_views(fields@) =~= self.members());
            },
            ControlMsg::Command { command, turn_token } => {
                push_text(&mut fields, "type", "command");
                push_text(
                    &mut fields,
                    "command",
                    match command {
                        CommandKind::Stop => "stop",
                        CommandKind::Repeat => "repeat",
                        CommandKind::CancelCapture => "cancel_capture",
                    },
                );
                push_text(&mut fields, "turn_token", turn_token.as_str());
                assert(field_views(fields@) =~= self.members());
            },
            ControlMsg::UtteranceEnd { turn_token } => {
                push_text(&mut fields, "type", "utterance_end");
                push_text(&mut fields, "turn_token", turn_token.as_str());
                assert(field_views(fields@) =~= self.members());
            },
            ControlMsg::MetaMode { turn_token } => {
                push_text(&mut fields, "type", "meta_mode");
                push_text(&mut fields, "turn_token", turn_token.as_str());
                assert(field_views(fields@) =~= self.members());
            },
            ControlMsg::Lane { id, revision, turn_token } => {
                push_text(&mut fields, "type", "lane");
                push_text(&mut fields, "id", id.as_str());
                push_optional_number(&mut fields, "revision", *revision);
                push_text(&mut fields, "turn_token", turn_token.as_str());
                assert(field_views(fields@) =~= self.members());
            },
            ControlMsg::ReplyReceived {
                lane_id,
                reply_to,
                after_seq,
                through_seq,
                turn_token,
                interaction_id,
            } => {
                fields =
                receipt_fields(
                    "reply_received",
                    lane_id.as_str(),
                    reply_to.as_str(),
                    *after_seq,
                    *through_seq,
                    turn_token.as_str(),
                    interaction_id.as_str(),
                );
            },
            ControlMsg::ReplyAck {
                lane_id,
                reply_to,
                after_seq,
                through_seq,
                turn_token,
                interaction_id,
            } => {
                fields =
                receipt_fields(
                    "reply_ack",
                    lane_id.as_str(),
                    reply_to.as_str(),
                    *after_seq,
                    *through_seq,
                    turn_token.as_str(),
                    interaction_id.as_str(),
                );
            },
            ControlMsg::ReplyAckRetire {
                lane_id,
                reply_to,
                after_seq,
                through_seq,
                turn_token,
                interaction_id,
            } => {
                fields =
                receipt_fields(
                    "reply_ack_retire",
                    lane_id.as_str(),
                    reply_to.as_str(),
                    *after_seq,
                    *through_seq,
                    turn_token.as_str(),
                    interaction_id.as_str(),
                );
            },
        }
        object_of(&fields)
    }
}

/// Arms the steering plane for the next utterance.
#[derive(Debug, Clone, Copy, PartialEq)]
pub struct MetaModeFrame;

} // verus!
