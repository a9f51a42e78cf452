//! What becomes of what is said: a message on its way to the gateway, a fork and
//! what it carries over, and a command to the steering plane.
use vstd::prelude::*;

use crate::clock::stamp;
use crate::daemon::delivery_api::push_turn;
use crate::daemon::message_api::{fork_turn, message_answer, message_turn};
use crate::daemon::meta_api::{meta_turn, ForkView, MetaStepView};
use crate::daemon::responses::spoken_ok;
use crate::daemon::state::{DaemonView, LaneProgressView};
use crate::lanes::{
    active_lane, has_lane, lemma_position, position, slug, valid_registry, RegistryView,
};
use crate::meta::{meaning, ActionView};
use crate::proto::{valid_lane_id, MAX_SAFE_SEQUENCE};
use crate::relay::inbound::{event_value, inbound_frame, inbound_verdict, preflight_refusal};
use crate::relay::records::PendingRequestView;
use crate::relay::state::{RelayView, MAX_PENDING_REQUESTS};
use crate::revision::next_revision;
use crate::selection::{entered, may_be_entered, moved_to};
use crate::text::decimal;
use crate::transcript::{fork_message, TurnView};
use crate::value::{json_text, natural_value, JsonView};

verus! {

// ---- messages -------------------------------------------------------------------

/// Whether an event carries this text, under this number, for this lane.
pub open spec fn carries_utterance(
    event: JsonView,
    lane_id: Seq<char>,
    lane_name: Seq<char>,
    text: Seq<char>,
    n: u64,
) -> bool {
    let source = event.field("source"@);
    &&& event.field("text"@) == JsonView::Text(text)
    &&& event.field("message_id"@) == JsonView::Text("tp-"@ + decimal(n as nat))
    &&& event.field("message_type"@) == JsonView::Text("text"@)
    &&& event.field("user_id"@) == JsonView::Text("telepathy-user"@)
    &&& source.field("chat_id"@) == JsonView::Text(lane_id)
    &&& source.field("chat_name"@) == JsonView::Text(lane_name)
    &&& source.field("chat_type"@) == JsonView::Text("dm"@)
    &&& source.field("platform"@) == JsonView::Text("relay"@)
    &&& source.field("user_id"@) == JsonView::Text("telepathy-user"@)
}

/// The event of an utterance holds the utterance, its number and its lane.
pub proof fn law_event_carries_the_utterance(
    lane_id: Seq<char>,
    lane_name: Seq<char>,
    text: Seq<char>,
    n: u64,
)
    ensures
        carries_utterance(event_value(lane_id, lane_name, text, n), lane_id, lane_name, text, n),
{
    reveal_strlit("message_id");
    reveal_strlit("message_type");
    reveal_strlit("source");
    reveal_strlit("text");
    reveal_strlit("user_id");
    reveal_strlit("user_name");
    reveal_strlit("chat_id");
    reveal_strlit("chat_name");
    reveal_strlit("chat_topic");
    reveal_strlit("chat_type");
    reveal_strlit("platform");
    reveal_strlit("thread_id");
    assert("message_id"@.len() == 10 && "message_type"@.len() == 12 && "source"@.len() == 6
        && "text"@.len() == 4 && "user_id"@.len() == 7 && "user_name"@.len() == 9);
    assert("chat_id"@.len() == 7 && "chat_name"@.len() == 9 && "chat_topic"@.len() == 10
        && "chat_type"@.len() == 9 && "platform"@.len() == 8 && "thread_id"@.len() == 9);
    assert("chat_name"@[5] == 'n' && "chat_type"@[5] == 't' && "thread_id"@[0] == 't');
    assert("chat_id"@[0] == 'c' && "user_id"@[0] == 'u');
    let e = event_value(lane_id, lane_name, text, n);
    let f = e->Object_0;
    crate::frames::lemma_found(f);
    let source = f[2].1->Object_0;
    crate::frames::lemma_found(source);
}

/// A message for a lane of the registry that can be queued goes to the gateway as
/// it was said, under the next number and in the name of its lane. A message that
/// names no lane is for the direct one.
pub proof fn law_message_is_pushed_as_said(
    d: DaemonView,
    relay: RelayView,
    body: JsonView,
    lane_id: Seq<char>,
    i: int,
    text: Seq<char>,
)
    requires
        valid_registry(d.reg),
        0 <= i < d.reg.lanes.len(),
        d.reg.lanes[i].id == lane_id,
        body.field("text"@).text() == Some(text),
        text.len() > 0,
        body.get("lane_id"@) == Some(JsonView::Text(lane_id)) || (body.get("lane_id"@) is None
            && lane_id == "telepathos:direct"@),
        d.msg_seq < u64::MAX,
        preflight_refusal(
            relay,
            event_value(lane_id, d.reg.lanes[i].name, text, d.msg_seq),
        ) is None,
    ensures
        ({
            let r = message_turn(d, relay, body);
            &&& r.1 is Push
            &&& r.1->Push_0 == lane_id
            &&& carries_utterance(r.1->Push_1, lane_id, d.reg.lanes[i].name, text, d.msg_seq)
            &&& r.1->Push_2 == "tp-"@ + decimal(d.msg_seq as nat)
            &&& r.0.msg_seq == d.msg_seq + 1
            &&& r.0 == (DaemonView { msg_seq: r.0.msg_seq, ..d })
        }),
{
    assert(crate::lanes::well_formed_lane(d.reg.lanes[i]));
    assert(has_lane(d.reg.lanes, lane_id));
    lemma_position(d.reg.lanes, lane_id);
    let p = position(d.reg.lanes, lane_id);
    if p < i {
        assert(d.reg.lanes[p].id != d.reg.lanes[i].id);
    }
    law_event_carries_the_utterance(lane_id, d.reg.lanes[i].name, text, d.msg_seq);
}

/// A message that is new to the relay waits for the gateway under the next
/// generation, in a frame that holds it, and the frame is what is sent once that
/// is written. Its reply is awaited where it is asked for, and the oldest awaited
/// replies give way to it.
pub proof fn law_pushed_message_waits(
    s: RelayView,
    lane_id: Option<Seq<char>>,
    event: JsonView,
    message_id: Seq<char>,
) -> (f: JsonView)
    requires
        event.field("message_id"@).text() == Some(message_id),
        lane_id is Some ==> valid_lane_id(lane_id->0),
        preflight_refusal(s, event) is None,
        s.connections.outbound is Some,
        inbound_verdict(s, message_id, event) is Added,
    ensures
        ({
            let r = push_turn(s, lane_id, event, message_id);
            let m = r.0.inbound.last();
            &&& r.1 is Write
            &&& r.1->Write_0.inbound
            &&& r.1->Write_0.success == message_answer(s, message_id, None)
            &&& r.1->Write_0.frame == Some(m.frame)
            &&& r.0.inbound.drop_last() == s.inbound
            &&& r.0.inbound.len() == s.inbound.len() + 1
            &&& m.message_id == message_id
            &&& m.generation == s.next_inbound_generation + 1
            &&& r.0.next_inbound_generation == m.generation
            &&& m.frame == json_text(f)
            &&& f.get("type"@) == Some(JsonView::Text("inbound"@))
            &&& f.get("messageId"@) == Some(JsonView::Text(message_id))
            &&& f.get("generation"@) == Some(natural_value(m.generation))
            &&& f.get("event"@) == Some(event)
            &&& r.0.deliveries == s.deliveries
            &&& r.0.outbound_results == s.outbound_results
            &&& lane_id is None ==> r.0.pending_requests == s.pending_requests
            &&& lane_id is Some ==> {
                let asked = s.pending_requests.push(
                    PendingRequestView { lane_id: lane_id->0, message_id },
                );
                &&& r.0.pending_requests.len() <= MAX_PENDING_REQUESTS
                &&& r.0.pending_requests == asked.skip(asked.len() - r.0.pending_requests.len())
                &&& (asked.len() <= MAX_PENDING_REQUESTS ==> r.0.pending_requests == asked)
            }
        }),
{
    let f = inbound_frame(message_id, (s.next_inbound_generation + 1) as u64, event);
    let r = push_turn(s, lane_id, event, message_id);
    assert(r.0.inbound.drop_last() =~= s.inbound);
    crate::relay::guarantees::lemma_frame_fields(
        message_id,
        (s.next_inbound_generation + 1) as u64,
        event,
    );
    lemma_frame_gets(message_id, (s.next_inbound_generation + 1) as u64, event);
    if lane_id is Some {
        let asked = s.pending_requests.push(
            PendingRequestView { lane_id: lane_id->0, message_id },
        );
        assert(asked.skip(0) =~= asked);
    }
    f
}

proof fn lemma_frame_gets(message_id: Seq<char>, generation: u64, event: JsonView)
    ensures
        ({
            let f = inbound_frame(message_id, generation, event);
            &&& f.get("type"@) == Some(JsonView::Text("inbound"@))
            &&& f.get("messageId"@) == Some(JsonView::Text(message_id))
            &&& f.get("generation"@) == Some(natural_value(generation))
            &&& f.get("event"@) == Some(event)
        }),
{
    reveal_strlit("event");
    reveal_strlit("generation");
    reveal_strlit("handoffVersion");
    reveal_strlit("messageId");
    reveal_strlit("type");
    let f = inbound_frame(message_id, generation, event)->Object_0;
    crate::frames::lemma_found(f);
    assert("event"@.len() == 5 && "generation"@.len() == 10 && "handoffVersion"@.len() == 14
        && "messageId"@.len() == 9 && "type"@.len() == 4);
}

// ---- forks ----------------------------------------------------------------------

/// A fork tells the gateway, in the new lane and under the next number, which
/// lane it comes from and what was said there, oldest first.
pub proof fn law_fork_carries_the_context(d: DaemonView, fork: ForkView, turns: Seq<TurnView>)
    ensures
        ({
            let r = fork_turn(d, fork, turns);
            &&& r.1.0 == fork.lane_id
            &&& carries_utterance(
                r.1.1,
                fork.lane_id,
                fork.lane_name,
                fork_message(fork.source, turns),
                d.msg_seq,
            )
            &&& r.1.2 == "tp-"@ + decimal(d.msg_seq as nat)
            &&& (d.msg_seq < u64::MAX ==> r.0.msg_seq == d.msg_seq + 1)
            &&& r.0 == (DaemonView { msg_seq: r.0.msg_seq, ..d })
        }),
{
    law_event_carries_the_utterance(
        fork.lane_id,
        fork.lane_name,
        fork_message(fork.source, turns),
        d.msg_seq,
    );
}

// ---- commands -------------------------------------------------------------------

/// Whether a command moved the lanes: they wait to be saved, and once they are
/// the user hears `words`.
pub open spec fn waits_to_be_saved(
    d: DaemonView,
    after: DaemonView,
    progress: LaneProgressView,
    words: Seq<char>,
) -> bool {
    &&& progress is Save
    &&& progress->Save_0.before == d.reg
    &&& progress->Save_0.revision_before == d.revision
    &&& progress->Save_0.success == spoken_ok(words)
    &&& after.msg_seq == d.msg_seq
    &&& after.ledger == d.ledger
}

/// A command that means a lane makes it the active one and says so.
pub proof fn law_spoken_switch_is_done(
    d: DaemonView,
    utterance: Seq<char>,
    i: int,
    model: bool,
    now_ms: nat,
)
    requires
        valid_registry(d.reg),
        !d.lane_uncertain,
        next_revision(d.revision) is Some,
        now_ms <= MAX_SAFE_SEQUENCE,
        0 <= i < d.reg.lanes.len(),
        meaning(utterance, d.reg.lanes) == ActionView::Switch(d.reg.lanes[i]),
        d.reg.lanes[i].last_active != stamp(now_ms),
    ensures
        ({
            let r = meta_turn(d, utterance, model, now_ms);
            &&& r.1 is Turn
            &&& waits_to_be_saved(
                d,
                r.0,
                r.1->Turn_0,
                "Switched to "@ + d.reg.lanes[i].name + "."@,
            )
            &&& moved_to(d.reg, r.0.reg, d.reg.lanes[i].id, stamp(now_ms))
            &&& r.1->Turn_1 is None
            &&& r.1->Turn_2 is None
        }),
{
    let lane = d.reg.lanes[i];
    let action = ActionView::Switch(lane);
    let after = crate::meta::after_action(d.reg, action, now_ms);
    crate::selection::law_spoken_switch_moves_to_the_lane(d.reg, i, now_ms);
    crate::meta::law_actions_keep_validity(d.reg, action, now_ms);
    assert(after.lanes[i].last_active == stamp(now_ms));
    assert(after != d.reg);
    crate::selection::lemma_changed(
        d,
        after,
        spoken_ok(crate::meta::spoken(d.reg, action, now_ms)),
    );
}

/// A note is handed over to be kept, and changes nothing else.
pub proof fn law_spoken_note_is_kept(
    d: DaemonView,
    utterance: Seq<char>,
    text: Seq<char>,
    model: bool,
    now_ms: nat,
)
    requires
        !d.lane_uncertain,
        meaning(utterance, d.reg.lanes) == ActionView::Note(text),
    ensures
        meta_turn(d, utterance, model, now_ms) == (
            d,
            MetaStepView::Turn(
                LaneProgressView::Done(spoken_ok("Noted."@)),
                Some(text),
                None,
            ),
        ),
{
}

/// What the grammar does not know goes to the model as it was said, where there
/// is one.
pub proof fn law_unknown_speech_goes_to_the_model(
    d: DaemonView,
    utterance: Seq<char>,
    now_ms: nat,
)
    requires
        meaning(utterance, d.reg.lanes) is Unknown,
    ensures
        meta_turn(d, utterance, true, now_ms) == (d, MetaStepView::AskModel(utterance)),
        !d.lane_uncertain ==> meta_turn(d, utterance, false, now_ms).0 == d && meta_turn(
            d,
            utterance,
            false,
            now_ms,
        ).1 is Turn,
{
}

/// A new conversation is entered, and the user hears its name.
pub proof fn law_spoken_new_lane_is_entered(
    d: DaemonView,
    utterance: Seq<char>,
    name: Seq<char>,
    model: bool,
    now_ms: nat,
)
    requires
        valid_registry(d.reg),
        !d.lane_uncertain,
        next_revision(d.revision) is Some,
        now_ms <= MAX_SAFE_SEQUENCE,
        meaning(utterance, d.reg.lanes) == ActionView::New(name),
        may_be_entered(d.reg, name),
        d.reg.active_id != "telepathy:repo:"@ + slug(name),
    ensures
        ({
            let r = meta_turn(d, utterance, model, now_ms);
            &&& r.1 is Turn
            &&& waits_to_be_saved(
                d,
                r.0,
                r.1->Turn_0,
                "Created "@ + active_lane(r.0.reg).name + ". You're in it."@,
            )
            &&& entered(d.reg, r.0.reg, name, stamp(now_ms))
            &&& r.1->Turn_1 is None
            &&& r.1->Turn_2 is None
        }),
{
    let action = ActionView::New(name);
    let after = crate::meta::after_action(d.reg, action, now_ms);
    let i = choose|i: int|
        0 <= i < d.reg.lanes.len() && (#[trigger] d.reg.lanes[i]).id == d.reg.active_id;
    crate::selection::law_spoken_lane_is_entered(d.reg, name, i, now_ms);
    crate::meta::law_actions_keep_validity(d.reg, action, now_ms);
    assert(after != d.reg);
    crate::selection::lemma_changed(
        d,
        after,
        spoken_ok(crate::meta::spoken(d.reg, action, now_ms)),
    );
}

/// A fork is entered, and what is carried over goes from the lane that was active
/// to the new one.
pub proof fn law_spoken_fork_is_entered(
    d: DaemonView,
    utterance: Seq<char>,
    name: Seq<char>,
    model: bool,
    now_ms: nat,
)
    requires
        valid_registry(d.reg),
        !d.lane_uncertain,
        next_revision(d.revision) is Some,
        now_ms <= MAX_SAFE_SEQUENCE,
        meaning(utterance, d.reg.lanes) == ActionView::Fork(Some(name)) || (meaning(
            utterance,
            d.reg.lanes,
        ) == ActionView::Fork(None) && name == "fork-"@ + active_lane(d.reg).name),
        may_be_entered(d.reg, name),
        d.reg.active_id != "telepathy:repo:"@ + slug(name),
    ensures
        ({
            let r = meta_turn(d, utterance, model, now_ms);
            &&& r.1 is Turn
            &&& waits_to_be_saved(
                d,
                r.0,
                r.1->Turn_0,
                "Forked into "@ + active_lane(r.0.reg).name + ". Context carried over."@,
            )
            &&& entered(d.reg, r.0.reg, name, stamp(now_ms))
            &&& r.1->Turn_1 is None
            &&& r.1->Turn_2 == Some(
                ForkView {
                    source: d.reg.active_id,
                    lane_id: "telepathy:repo:"@ + slug(name),
                    lane_name: active_lane(r.0.reg).name,
                },
            )
        }),
{
    let action = meaning(utterance, d.reg.lanes);
    let after = crate::meta::after_action(d.reg, action, now_ms);
    let i = choose|i: int|
        0 <= i < d.reg.lanes.len() && (#[trigger] d.reg.lanes[i]).id == d.reg.active_id;
    crate::selection::lemma_active(d.reg, i);
    crate::selection::law_spoken_lane_is_entered(d.reg, name, i, now_ms);
    crate::meta::law_actions_keep_validity(d.reg, action, now_ms);
    assert(after != d.reg);
    assert(has_lane(after.lanes, after.active_id));
    lemma_position(after.lanes, after.active_id);
    crate::selection::lemma_changed(
        d,
        after,
        spoken_ok(crate::meta::spoken(d.reg, action, now_ms)),
    );
}

/// What the model says is what is answered, at once where the lanes stay as they
/// are, and once they are saved where they change.
pub proof fn law_model_is_heard(
    d: DaemonView,
    base: RegistryView,
    proposed: RegistryView,
    base_revision: u64,
    reply: Seq<char>,
)
    requires
        !d.lane_uncertain,
        !crate::daemon::merge::merge_overflows(base, proposed, d.reg),
    ensures
        ({
            let p = crate::daemon::meta_api::model_turn(d, base, proposed, base_revision, reply);
            let after = crate::daemon::merge::merged(
                base,
                proposed,
                d.reg,
                base_revision == d.revision,
            );
            &&& after == d.reg ==> p == (d, LaneProgressView::Done(spoken_ok(reply)))
            &&& p.1 is Save ==> p.1->Save_0.success == spoken_ok(reply) && p.0.reg == after
            &&& after != d.reg && crate::lanes::registry_fault(after) is None && next_revision(
                d.revision,
            ) is Some ==> p.1 is Save
        }),
{
}

} // verus!
