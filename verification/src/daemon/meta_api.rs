//! Steering by voice: the grammar first, then, where one is configured, a
//! model that works on a private copy of the lanes.
use vstd::prelude::*;

use crate::clock::stamp;
use crate::daemon::merge::{merge_model_registry, merge_overflows, merged};
use crate::daemon::responses::{
    refusal, refusal_response, spoken_ok, spoken_response, Response, ResponseView,
};
use crate::daemon::state::{
    changed_lanes, create_error_refusal, lane_create_error_response, same_registry,
    uncertain_refusal, uncertain_response, Daemon, DaemonView, LaneProgress, LaneProgressView,
};
use crate::lanes::{
    active_lane, create_refusal, created, created_lane, lemma_position, name_refusal,
    LaneCreateError, LaneRegistry, RegistryView,
};
use crate::meta::{
    after_action, execute_at, fork_lane_name, lemma_created_is_reachable, meaning, parse_meta,
    spoken, ActionView, MetaAction,
};
use crate::text::same_text;
use crate::value::Json;

verus! {

/// A fork that was made: the lane it came from, and the new lane.
#[derive(Debug)]
pub struct Fork {
    pub source: String,
    pub lane_id: String,
    pub lane_name: String,
}

/// A fork as a value.
pub struct ForkView {
    pub source: Seq<char>,
    pub lane_id: Seq<char>,
    pub lane_name: Seq<char>,
}

impl View for Fork {
    type V = ForkView;

    open spec fn view(&self) -> ForkView {
        ForkView {
            source: self.source@,
            lane_id: self.lane_id@,
            lane_name: self.lane_name@,
        }
    }
}

/// What comes of an utterance.
#[derive(Debug)]
pub enum MetaStep {
    /// The grammar does not know this utterance; the model is to be asked.
    AskModel(String),
    Turn(MetaTurn),
}

/// What comes of an utterance that the grammar knows: the next step, a note to
/// keep, and the context that a fork carries over.
#[derive(Debug)]
pub struct MetaTurn {
    pub progress: LaneProgress,
    pub note: Option<String>,
    pub fork: Option<Fork>,
}

/// What comes of an utterance, as a value.
pub enum MetaStepView {
    AskModel(Seq<char>),
    Turn(LaneProgressView, Option<Seq<char>>, Option<ForkView>),
}

impl View for MetaStep {
    type V = MetaStepView;

    open spec fn view(&self) -> MetaStepView {
        match self {
            MetaStep::AskModel(u) => MetaStepView::AskModel(u@),
            MetaStep::Turn(t) => MetaStepView::Turn(
                t.progress@,
                match t.note {
                    Some(n) => Some(n@),
                    None => None,
                },
                match t.fork {
                    Some(f) => Some(f@),
                    None => None,
                },
            ),
        }
    }
}

/// What comes of lanes that may have changed: nothing is saved where they did
/// not.
pub open spec fn maybe_changed(
    d: DaemonView,
    after: RegistryView,
    success: ResponseView,
) -> (DaemonView, LaneProgressView) {
    if after == d.reg {
        (d, LaneProgressView::Done(success))
    } else {
        changed_lanes(d, after, success)
    }
}

/// The fork that an action made.
pub open spec fn fork_made(before: RegistryView, after: RegistryView, action: ActionView) -> Option<
    ForkView,
> {
    if action is Fork && active_lane(after).id != active_lane(before).id {
        Some(
            ForkView {
                source: active_lane(before).id,
                lane_id: active_lane(after).id,
                lane_name: active_lane(after).name,
            },
        )
    } else {
        None
    }
}

/// An answer with nothing beside it.
pub open spec fn answered_only(r: ResponseView) -> MetaStepView {
    MetaStepView::Turn(LaneProgressView::Done(r), None, None)
}

/// What comes of an utterance at `now_ms`.
pub open spec fn meta_turn(d: DaemonView, utterance: Seq<char>, model: bool, now_ms: nat) -> (
    DaemonView,
    MetaStepView,
) {
    let action = meaning(utterance, d.reg.lanes);
    if action is New && name_refusal(action->New_0) is Some {
        (d, answered_only(refusal(400, name_refusal(action->New_0)->0.words())))
    } else if action is Unknown && model {
        (d, MetaStepView::AskModel(utterance))
    } else if action is New && create_refusal(d.reg.lanes, action->New_0) is Some {
        (d, answered_only(create_error_refusal(create_refusal(d.reg.lanes, action->New_0)->0)))
    } else if d.lane_uncertain {
        (d, answered_only(uncertain_refusal()))
    } else {
        let after = after_action(d.reg, action, now_ms);
        let p = maybe_changed(d, after, spoken_ok(spoken(d.reg, action, now_ms)));
        (
            p.0,
            MetaStepView::Turn(
                p.1,
                if action is Note {
                    Some(action->Note_0)
                } else {
                    None
                },
                fork_made(d.reg, after, action),
            ),
        )
    }
}

/// What comes of a model's reply: its changes are merged into the lanes as they
/// are now.
pub open spec fn model_turn(
    d: DaemonView,
    base: RegistryView,
    proposed: RegistryView,
    base_revision: u64,
    reply: Seq<char>,
) -> (DaemonView, LaneProgressView) {
    if d.lane_uncertain {
        (d, LaneProgressView::Done(uncertain_refusal()))
    } else if merge_overflows(base, proposed, d.reg) {
        (d, LaneProgressView::Done(create_error_refusal(LaneCreateError::CapacityReached)))
    } else {
        maybe_changed(
            d,
            merged(base, proposed, d.reg, base_revision == d.revision),
            spoken_ok(reply),
        )
    }
}

fn answer_only(r: Response) -> (s: MetaStep)
    ensures
        s@ == answered_only(r@),
{
    MetaStep::Turn(MetaTurn { progress: LaneProgress::Done(r), note: None, fork: None })
}

/// The answer where the model cannot be asked. It says nothing of the provider.
pub fn model_unavailable() -> (r: Response)
    ensures
        r@ == refusal(502, "steering provider unavailable"@),
{
    refusal_response(502, "steering provider unavailable")
}

proof fn lemma_action_keeps_lanes(reg: RegistryView, action: ActionView, now_ms: nat)
    requires
        reg.lanes.len() > 0,
    ensures
        after_action(reg, action, now_ms).lanes.len() > 0,
{
    let now = stamp(now_ms);
    match action {
        ActionView::Switch(lane) => {
            lemma_position(reg.lanes, lane.id);
        },
        ActionView::New(name) => {
            if create_refusal(reg.lanes, name) is None {
                lemma_created_is_reachable(reg, name, now);
                lemma_position(created(reg, name, now).lanes, created_lane(reg, name, now).id);
            }
        },
        ActionView::Fork(opt) => {
            let name = fork_lane_name(reg, opt);
            if create_refusal(reg.lanes, name) is None {
                lemma_created_is_reachable(reg, name, now);
                lemma_position(created(reg, name, now).lanes, created_lane(reg, name, now).id);
            }
        },
        _ => {},
    }
}

impl Daemon {
    fn maybe_save(&mut self, before: LaneRegistry, success: Response) -> (r: LaneProgress)
        ensures
            (final(self)@, r@) == maybe_changed(
                DaemonView { reg: before@, ..old(self)@ },
                old(self)@.reg,
                success@,
            ),
    {
        if same_registry(&before, &self.reg) {
            assert(self@ =~= (DaemonView { reg: before@, ..old(self)@ }));
            LaneProgress::Done(success)
        } else {
            self.changed(before, success)
        }
    }

    /// What comes of the utterance in the body at `now_ms`. Without a model, what
    /// the grammar does not know is answered with what it does.
    pub fn meta(&mut self, body: &Json, model: bool, now_ms: u128) -> (r: MetaStep)
        requires
            old(self)@.reg.lanes.len() > 0,
        ensures
            (final(self)@, r@) == meta_turn(
                old(self)@,
                body@.text_or_empty("utterance"@),
                model,
                now_ms as nat,
            ),
    {
        let utterance = body.text_or_empty("utterance");
        let action = parse_meta(utterance, &self.reg);
        let ghost act = action@;
        match &action {
            MetaAction::New(name) => {
                match LaneRegistry::validate_create_name(name.as_str()) {
                    Err(e) => {
                        let words = e.message();
                        return answer_only(refusal_response(400, words.as_str()));
                    },
                    Ok(_) => {},
                }
                match self.reg.validate_create(name.as_str()) {
                    Err(e) => {
                        return answer_only(lane_create_error_response(e));
                    },
                    Ok(_) => {},
                }
            },
            MetaAction::Unknown => {
                if model {
                    return MetaStep::AskModel(utterance.to_string());
                }
            },
            _ => {},
        }
        if self.lane_persistence_uncertain {
            return answer_only(uncertain_response());
        }
        let before = self.reg.clone();
        let source = self.reg.active().id.clone();
        let note = match &action {
            MetaAction::Note(text) => Some(text.clone()),
            _ => None,
        };
        let forks = match &action {
            MetaAction::Fork(_) => true,
            _ => false,
        };
        proof {
            lemma_action_keeps_lanes(before@, act, now_ms as nat);
        }
        let reply = execute_at(&mut self.reg, action, now_ms);
        let fork = if forks {
            let lane = self.reg.active();
            if same_text(lane.id.as_str(), source.as_str()) {
                None
            } else {
                Some(
                    Fork { source, lane_id: lane.id.clone(), lane_name: lane.name.clone() },
                )
            }
        } else {
            None
        };
        let progress = self.maybe_save(before, spoken_response(reply.as_str()));
        MetaStep::Turn(MetaTurn { progress, note, fork })
    }

    /// Takes in a model's reply and its changes to a copy of the lanes that was
    /// made at `base_revision`.
    pub fn model_replied(
        &mut self,
        base: &LaneRegistry,
        proposed: &LaneRegistry,
        base_revision: u64,
        reply: &str,
    ) -> (r: LaneProgress)
        ensures
            (final(self)@, r@) == model_turn(
                old(self)@,
                base@,
                proposed@,
                base_revision,
                reply@,
            ),
    {
        if self.lane_persistence_uncertain {
            return LaneProgress::Done(uncertain_response());
        }
        let before = self.reg.clone();
        let revision: u64 = self.registry_revision;
        match merge_model_registry(base, proposed, &mut self.reg, base_revision, revision) {
            Err(e) => LaneProgress::Done(lane_create_error_response(e)),
            Ok(_) => self.maybe_save(before, spoken_response(reply)),
        }
    }
}

/// An utterance that is not understood, or only asks, leaves everything as it
/// was, at the last revision too.
pub proof fn law_asking_changes_nothing(
    d: DaemonView,
    utterance: Seq<char>,
    model: bool,
    now_ms: nat,
)
    requires
        ({
            let a = meaning(utterance, d.reg.lanes);
            a is List || a is Brief || a is Note || a is Unknown
        }),
    ensures
        meta_turn(d, utterance, model, now_ms).0 == d,
{
}

/// A model's selection is taken only at the revision that it saw; at any other
/// the selection stays as it is, even where it looks the same.
pub proof fn law_model_selection_needs_its_revision(
    d: DaemonView,
    base: RegistryView,
    proposed: RegistryView,
    base_revision: u64,
    reply: Seq<char>,
)
    requires
        base_revision != d.revision,
    ensures
        model_turn(d, base, proposed, base_revision, reply).0.reg.active_id == d.reg.active_id,
        model_turn(d, base, proposed, base_revision, reply).0.reg.previous_id
            == d.reg.previous_id,
{
}

} // verus!
