//! What moving between lanes comes to, whichever way it is asked for: by a spoken
//! command, by a tool of the steering agent, or by a request of the handset.
use vstd::prelude::*;

use crate::clock::{age_words, stamp};
use crate::daemon::lane_api::{activate_turn, create_turn, touch_turn};
use crate::daemon::responses::{lane_ok, ResponseView};
use crate::daemon::state::{changed_lanes, selection_changed, DaemonView};
use crate::lanes::{
    active_lane, created, created_lane, has_lane, law_create_keeps_validity, law_stamps_are_valid,
    law_switch_keeps_validity, law_touch_keeps_validity, law_valid_is_faultless, lemma_position,
    position, slug, switched, touched, valid_registry, LaneView, RegistryView, MAX_LANE_COUNT,
};
use crate::lookup::{law_lookup_requires_evidence, meant_lane};
use crate::meta::{
    after_action, created_and_switched, lemma_created_is_reachable, spoken, ActionView,
};
use crate::proto::{valid_lane_id, MAX_SAFE_SEQUENCE};
use crate::revision::next_revision;
use crate::openai::{calls_message, tool_answer};
use crate::steering::{
    after_call, after_calls, after_tool, call_answer, call_answers, call_arguments, next_messages,
    tool_words, CallView, SteeringTool,
};
use crate::text::{blank, decimal, joined, occurs, occurs_at};
use crate::value::JsonView;

verus! {

/// Whether a registry is the one before with the lane `id` made active at `now`:
/// the lane that was active is remembered, the lane is marked as used, and
/// nothing else is different.
pub open spec fn moved_to(before: RegistryView, after: RegistryView, id: Seq<char>, now: Seq<char>) ->
    bool {
    &&& after.active_id == id
    &&& after.previous_id == (if before.active_id == id {
        before.previous_id
    } else {
        before.active_id
    })
    &&& after.lanes.len() == before.lanes.len()
    &&& used_at(before.lanes, after.lanes, id, now)
}

/// Whether the lanes are those before, but for the time at which the lane `id`
/// was last used.
pub open spec fn used_at(
    before: Seq<LaneView>,
    after: Seq<LaneView>,
    id: Seq<char>,
    now: Seq<char>,
) -> bool {
    forall|i: int|
        0 <= i < before.len() ==> #[trigger] after[i] == (if before[i].id == id {
            LaneView { last_active: now, ..before[i] }
        } else {
            before[i]
        })
}

/// Whether a registry is the one before, in the lane of this name: in the lane
/// that was there, or in a new one at the end.
pub open spec fn entered(
    before: RegistryView,
    after: RegistryView,
    name: Seq<char>,
    now: Seq<char>,
) -> bool {
    let id = "telepathy:repo:"@ + slug(name);
    if exists|i: int| 0 <= i < before.lanes.len() && (#[trigger] before.lanes[i]).id == id {
        moved_to(before, after, id, now)
    } else {
        &&& after.active_id == id
        &&& after.previous_id == before.active_id
        &&& after.lanes.len() == before.lanes.len() + 1
        &&& after.lanes.take(before.lanes.len() as int) == before.lanes
        &&& after.lanes.last().id == id
        &&& after.lanes.last().name == slug(name)
        &&& after.lanes.last().created_at == now
        &&& after.lanes.last().last_active == now
        &&& after.lanes.last().interactions is None
    }
}

/// Whether a lane can be made, or found again, under this name.
pub open spec fn may_be_entered(reg: RegistryView, name: Seq<char>) -> bool {
    let id = "telepathy:repo:"@ + slug(name);
    &&& !blank(name)
    &&& slug(name).len() > 0
    &&& valid_lane_id(id)
    &&& (reg.lanes.len() < MAX_LANE_COUNT || exists|i: int|
        0 <= i < reg.lanes.len() && (#[trigger] reg.lanes[i]).id == id)
}

proof fn lemma_switched(reg: RegistryView, id: Seq<char>, now: Seq<char>)
    requires
        crate::lanes::distinct_ids(reg.lanes),
        has_lane(reg.lanes, id),
    ensures
        moved_to(reg, switched(reg, id, now), id, now),
        used_at(reg.lanes, touched(reg, id, now).lanes, id, now),
        touched(reg, id, now).active_id == reg.active_id,
        touched(reg, id, now).previous_id == reg.previous_id,
        active_lane(switched(reg, id, now)).id == id,
        active_lane(switched(reg, id, now)).name == reg.lanes[position(reg.lanes, id)].name,
{
    lemma_position(reg.lanes, id);
    let p = position(reg.lanes, id);
    let t = touched(reg, id, now).lanes;
    let s = switched(reg, id, now);
    assert(t =~= s.lanes);
    assert forall|i: int| 0 <= i < reg.lanes.len() implies #[trigger] t[i] == (if reg.lanes[i].id
        == id {
        LaneView { last_active: now, ..reg.lanes[i] }
    } else {
        reg.lanes[i]
    }) by {
        if i < p {
            assert(reg.lanes[i].id != reg.lanes[p].id);
        }
        if p < i {
            assert(reg.lanes[p].id != reg.lanes[i].id);
        }
    }
    assert(s.lanes[p].id == id);
    assert(has_lane(s.lanes, id));
    lemma_position(s.lanes, id);
    let q = position(s.lanes, id);
    if q < p {
        assert(s.lanes[q] == reg.lanes[q]);
    }
    assert(q == p);
}

proof fn lemma_entered(reg: RegistryView, name: Seq<char>, now: Seq<char>)
    requires
        crate::lanes::distinct_ids(reg.lanes),
        may_be_entered(reg, name),
        reg.active_id == "telepathy:repo:"@ + slug(name) ==> has_lane(reg.lanes, reg.active_id),
    ensures
        crate::lanes::create_refusal(reg.lanes, name) is None,
        entered(reg, created_and_switched(reg, name, now), name, now),
        active_lane(created_and_switched(reg, name, now)).id == "telepathy:repo:"@ + slug(name),
        active_lane(created_and_switched(reg, name, now)).name == created_lane(
            reg,
            name,
            now,
        ).name,
{
    let id = "telepathy:repo:"@ + slug(name);
    lemma_created_is_reachable(reg, name, now);
    lemma_position(reg.lanes, id);
    let c = created(reg, name, now);
    assert forall|i: int, j: int| 0 <= i < j < c.lanes.len() implies (#[trigger] c.lanes[i]).id != (
    #[trigger] c.lanes[j]).id by {
        if j < reg.lanes.len() {
            assert(reg.lanes[i].id != reg.lanes[j].id);
        }
    }
    lemma_switched(c, id, now);
    let s = switched(c, id, now);
    lemma_position(c.lanes, id);
    if !has_lane(reg.lanes, id) {
        let n = reg.lanes.len() as int;
        assert(c.lanes[n].id == id);
        assert forall|k: int| 0 <= k < n implies s.lanes[k] == reg.lanes[k] by {
            assert(reg.lanes[k].id != id);
            assert(s.lanes[k] == c.lanes[k]);
        }
        assert(s.lanes.take(n) =~= reg.lanes);
        assert(s.lanes[n] == LaneView { last_active: now, ..c.lanes[n] });
        let q = position(c.lanes, id);
        if q < n {
            assert(c.lanes[q] == reg.lanes[q]);
        }
        assert(q == n);
    }
}

// ---- tools ----------------------------------------------------------------------

/// The switch tool, called with a name that means a lane, makes that lane the
/// active one and says so. Called with any other name it says that there is no
/// such lane, and changes nothing.
pub proof fn law_switch_tool_moves_to_the_lane(
    reg: RegistryView,
    args: JsonView,
    name: Seq<char>,
    now: Seq<char>,
)
    requires
        valid_registry(reg),
        args.field("name"@).text() == Some(name),
    ensures
        ({
            let after = after_tool(reg, SteeringTool::SwitchLane, args, now);
            let words = tool_words(reg, SteeringTool::SwitchLane, args, now);
            match meant_lane(name, reg.lanes) {
                Some(lane) => {
                    &&& moved_to(reg, after, lane.id, now)
                    &&& active_lane(after).id == lane.id
                    &&& active_lane(after).name == lane.name
                    &&& words == "Active lane is now "@ + active_lane(after).name + "."@
                },
                None => after == reg && words.take("No lane matching "@.len() as int)
                    == "No lane matching "@,
            }
        }),
{
    law_lookup_requires_evidence(name, reg.lanes);
    match meant_lane(name, reg.lanes) {
        Some(lane) => {
            let k = crate::lookup::meant_index(name, reg.lanes)->0;
            assert(reg.lanes[k] == lane);
            assert(crate::lanes::well_formed_lane(reg.lanes[k]));
            assert(has_lane(reg.lanes, lane.id));
            lemma_switched(reg, lane.id, now);
            lemma_position(reg.lanes, lane.id);
            let p = position(reg.lanes, lane.id);
            if p < k {
                assert(reg.lanes[p].id != reg.lanes[k].id);
            }
            if k < p {
                assert(reg.lanes[k].id != reg.lanes[p].id);
            }
        },
        None => {
            reveal_strlit("No lane matching \"");
            reveal_strlit("No lane matching ");
            let words = tool_words(reg, SteeringTool::SwitchLane, args, now);
            assert("No lane matching \""@.len() == 18 && "No lane matching "@.len() == 17);
            assert(words.take(17) =~= "No lane matching "@);
        },
    }
}

/// The create tool makes the lane of this name, or finds it, and makes it the
/// active one.
pub proof fn law_create_tool_enters_the_lane(
    reg: RegistryView,
    args: JsonView,
    name: Seq<char>,
    now: Seq<char>,
)
    requires
        valid_registry(reg),
        args.field("name"@).text() == Some(name),
        may_be_entered(reg, name),
    ensures
        ({
            let after = after_tool(reg, SteeringTool::CreateLane, args, now);
            &&& entered(reg, after, name, now)
            &&& active_lane(after).id == "telepathy:repo:"@ + slug(name)
            &&& tool_words(reg, SteeringTool::CreateLane, args, now) == "Created and switched to "@
                + active_lane(after).name + "."@
        }),
{
    lemma_entered(reg, name, now);
}

/// The other tools only tell: the active lane by name and identifier, and the
/// lists name every lane.
pub proof fn law_active_lane_tool_names_it(reg: RegistryView, args: JsonView, now: Seq<char>, i: int)
    requires
        valid_registry(reg),
        0 <= i < reg.lanes.len(),
        reg.lanes[i].id == reg.active_id,
    ensures
        after_tool(reg, SteeringTool::ActiveLane, args, now) == reg,
        after_tool(reg, SteeringTool::ListLanes, args, now) == reg,
        after_tool(reg, SteeringTool::LaneStats, args, now) == reg,
        after_tool(reg, SteeringTool::SearchConversations, args, now) == reg,
        tool_words(reg, SteeringTool::ActiveLane, args, now) == reg.lanes[i].name + " ("@
            + reg.lanes[i].id + ")"@,
{
    lemma_active(reg, i);
}

/// The active lane of a valid registry is the one that has the active identifier.
pub proof fn lemma_active(reg: RegistryView, i: int)
    requires
        valid_registry(reg),
        0 <= i < reg.lanes.len(),
        reg.lanes[i].id == reg.active_id,
    ensures
        active_lane(reg) == reg.lanes[i],
{
    lemma_position(reg.lanes, reg.active_id);
    let p = position(reg.lanes, reg.active_id);
    if p < i {
        assert(reg.lanes[p].id != reg.lanes[i].id);
    }
}

/// A call of the model goes to the tool that it names, with the arguments that it
/// gives. A search is answered by what the session store found.
pub proof fn law_call_reaches_its_tool(
    reg: RegistryView,
    c: CallView,
    found: Option<Seq<char>>,
    now: Seq<char>,
)
    ensures
        ({
            let args = call_arguments(c);
            let after = after_call(reg, c, now);
            let words = call_answer(reg, c, found, now);
            &&& c.name == "switch_lane"@ ==> after == after_tool(
                reg,
                SteeringTool::SwitchLane,
                args,
                now,
            ) && words == tool_words(reg, SteeringTool::SwitchLane, args, now)
            &&& c.name == "create_lane"@ ==> after == after_tool(
                reg,
                SteeringTool::CreateLane,
                args,
                now,
            ) && words == tool_words(reg, SteeringTool::CreateLane, args, now)
            &&& c.name == "active_lane"@ ==> after == reg && words == tool_words(
                reg,
                SteeringTool::ActiveLane,
                args,
                now,
            )
            &&& c.name == "list_lanes"@ ==> after == reg && words == tool_words(
                reg,
                SteeringTool::ListLanes,
                args,
                now,
            )
            &&& c.name == "lane_stats"@ ==> after == reg && words == tool_words(
                reg,
                SteeringTool::LaneStats,
                args,
                now,
            )
            &&& c.name == "search_conversations"@ && found is Some ==> after == reg && words
                == found->0
        }),
{
    crate::steering::law_tools_are_found_by_name(SteeringTool::SwitchLane);
    crate::steering::law_tools_are_found_by_name(SteeringTool::CreateLane);
    crate::steering::law_tools_are_found_by_name(SteeringTool::ActiveLane);
    crate::steering::law_tools_are_found_by_name(SteeringTool::ListLanes);
    crate::steering::law_tools_are_found_by_name(SteeringTool::LaneStats);
    crate::steering::law_tools_are_found_by_name(SteeringTool::SearchConversations);
}

// ---- spoken commands ------------------------------------------------------------

/// A spoken switch to a lane of the registry makes it the active one and names
/// it.
pub proof fn law_spoken_switch_moves_to_the_lane(reg: RegistryView, i: int, now_ms: nat)
    requires
        valid_registry(reg),
        0 <= i < reg.lanes.len(),
    ensures
        ({
            let action = ActionView::Switch(reg.lanes[i]);
            let after = after_action(reg, action, now_ms);
            &&& moved_to(reg, after, reg.lanes[i].id, stamp(now_ms))
            &&& active_lane(after).name == reg.lanes[i].name
            &&& spoken(reg, action, now_ms) == "Switched to "@ + active_lane(after).name + "."@
        }),
{
    let lane = reg.lanes[i];
    assert(crate::lanes::well_formed_lane(reg.lanes[i]));
    assert(has_lane(reg.lanes, lane.id));
    lemma_switched(reg, lane.id, stamp(now_ms));
    lemma_position(reg.lanes, lane.id);
    let p = position(reg.lanes, lane.id);
    if p < i {
        assert(reg.lanes[p].id != reg.lanes[i].id);
    }
}

/// A new conversation, and a fork, is entered at once and named: the fork under
/// the name that was said, else under that of the lane it comes from.
pub proof fn law_spoken_lane_is_entered(reg: RegistryView, name: Seq<char>, i: int, now_ms: nat)
    requires
        valid_registry(reg),
        0 <= i < reg.lanes.len(),
        reg.lanes[i].id == reg.active_id,
    ensures
        may_be_entered(reg, name) ==> {
            let made = after_action(reg, ActionView::New(name), now_ms);
            let forked = after_action(reg, ActionView::Fork(Some(name)), now_ms);
            &&& entered(reg, made, name, stamp(now_ms))
            &&& spoken(reg, ActionView::New(name), now_ms) == "Created "@ + active_lane(made).name
                + ". You're in it."@
            &&& entered(reg, forked, name, stamp(now_ms))
            &&& spoken(reg, ActionView::Fork(Some(name)), now_ms) == "Forked into "@ + active_lane(
                forked,
            ).name + ". Context carried over."@
        },
        may_be_entered(reg, "fork-"@ + reg.lanes[i].name) ==> {
            let forked = after_action(reg, ActionView::Fork(None), now_ms);
            &&& entered(reg, forked, "fork-"@ + reg.lanes[i].name, stamp(now_ms))
            &&& spoken(reg, ActionView::Fork(None), now_ms) == "Forked into "@ + active_lane(
                forked,
            ).name + ". Context carried over."@
        },
        !may_be_entered(reg, name) ==> after_action(reg, ActionView::New(name), now_ms) == reg
            && after_action(reg, ActionView::Fork(Some(name)), now_ms) == reg,
{
    lemma_active(reg, i);
    if may_be_entered(reg, name) {
        lemma_entered(reg, name, stamp(now_ms));
    }
    if may_be_entered(reg, "fork-"@ + reg.lanes[i].name) {
        lemma_entered(reg, "fork-"@ + reg.lanes[i].name, stamp(now_ms));
    }
}

/// A briefing is about the lane that was named, else about the active one.
pub proof fn law_briefing_is_about_the_lane(
    reg: RegistryView,
    lane: LaneView,
    i: int,
    now_ms: nat,
)
    requires
        valid_registry(reg),
        0 <= i < reg.lanes.len(),
        reg.lanes[i].id == reg.active_id,
    ensures
        lane.id != "telepathos:direct"@ ==> spoken(reg, ActionView::Brief(Some(lane)), now_ms)
            == "Lane "@ + lane.name + ". Last active "@ + age_words(lane.last_active, now_ms)
            + ". Full briefing arrives with the Hermes connector."@,
        spoken(reg, ActionView::Brief(None), now_ms) == spoken(
            reg,
            ActionView::Brief(Some(reg.lanes[i])),
            now_ms,
        ),
{
    lemma_active(reg, i);
}

// ---- requests of the handset ----------------------------------------------------

/// A change that may be kept waits to be saved.
pub proof fn lemma_changed(d: DaemonView, after: RegistryView, success: ResponseView)
    requires
        valid_registry(after),
        next_revision(d.revision) is Some || !selection_changed(d.reg, after),
    ensures
        ({
            let c = changed_lanes(d, after, success);
            &&& c.1 is Save
            &&& c.1->Save_0.before == d.reg
            &&& c.1->Save_0.revision_before == d.revision
            &&& c.1->Save_0.success == success
            &&& c.0.reg == after
            &&& c.0.revision == (if selection_changed(d.reg, after) {
                d.revision + 1
            } else {
                d.revision as int
            })
            &&& c.0 == (DaemonView { reg: c.0.reg, revision: c.0.revision, ..d })
        }),
{
    law_valid_is_faultless(after);
}

/// A request to activate a lane of the registry moves to it and answers with the
/// lane as it is now. The revision goes up by one, unless the lane was active
/// already. All of it waits to be saved.
pub proof fn law_activated_lane_is_active(d: DaemonView, i: int, now_ms: nat)
    requires
        valid_registry(d.reg),
        0 <= i < d.reg.lanes.len(),
        !d.lane_uncertain,
        now_ms <= MAX_SAFE_SEQUENCE,
        next_revision(d.revision) is Some,
    ensures
        ({
            let id = d.reg.lanes[i].id;
            let now = stamp(now_ms);
            let a = activate_turn(d, id, now_ms);
            &&& a.1 is Save
            &&& a.1->Save_0.before == d.reg
            &&& a.1->Save_0.revision_before == d.revision
            &&& a.1->Save_0.success == lane_ok(LaneView { last_active: now, ..d.reg.lanes[i] })
            &&& moved_to(d.reg, a.0.reg, id, now)
            &&& a.0.revision == (if d.reg.active_id == id {
                d.revision as int
            } else {
                d.revision + 1
            })
            &&& a.0 == (DaemonView { reg: a.0.reg, revision: a.0.revision, ..d })
        }),
{
    let id = d.reg.lanes[i].id;
    let now = stamp(now_ms);
    let after = switched(d.reg, id, now);
    assert(crate::lanes::well_formed_lane(d.reg.lanes[i]));
    assert(has_lane(d.reg.lanes, id));
    law_stamps_are_valid(now_ms);
    lemma_switched(d.reg, id, now);
    law_switch_keeps_validity(d.reg, id, now);
    lemma_same_ids(d.reg.lanes, after.lanes, id, now);
    lemma_position(after.lanes, id);
    let p = position(after.lanes, id);
    lemma_only_lane(d.reg, i, p, after.lanes, id, now);
    assert(selection_changed(d.reg, after) == (d.reg.active_id != id));
    lemma_changed(d, after, lane_ok(after.lanes[p]));
}

/// A request to touch a lane of the registry marks it as used and moves nowhere.
pub proof fn law_touched_lane_is_marked(d: DaemonView, i: int, now_ms: nat)
    requires
        valid_registry(d.reg),
        0 <= i < d.reg.lanes.len(),
        !d.lane_uncertain,
        now_ms <= MAX_SAFE_SEQUENCE,
    ensures
        ({
            let id = d.reg.lanes[i].id;
            let t = touch_turn(d, id, now_ms);
            &&& t.1 is Save
            &&& t.1->Save_0.before == d.reg
            &&& t.0.reg.lanes.len() == d.reg.lanes.len()
            &&& used_at(d.reg.lanes, t.0.reg.lanes, id, stamp(now_ms))
            &&& t.0.reg.active_id == d.reg.active_id
            &&& t.0.reg.previous_id == d.reg.previous_id
            &&& t.0 == (DaemonView { reg: t.0.reg, ..d })
        }),
{
    let id = d.reg.lanes[i].id;
    let now = stamp(now_ms);
    let after = touched(d.reg, id, now);
    assert(crate::lanes::well_formed_lane(d.reg.lanes[i]));
    assert(has_lane(d.reg.lanes, id));
    law_stamps_are_valid(now_ms);
    lemma_switched(d.reg, id, now);
    law_touch_keeps_validity(d.reg, id, now);
    lemma_same_ids(d.reg.lanes, after.lanes, id, now);
    assert(!selection_changed(d.reg, after));
    lemma_changed(d, after, crate::daemon::responses::bare_ok());
}

/// A request to create a lane enters it and answers with the lane: the new one,
/// or the one of that name as it was found.
pub proof fn law_created_lane_is_entered(d: DaemonView, name: Seq<char>, now_ms: nat)
    requires
        valid_registry(d.reg),
        may_be_entered(d.reg, name),
        !d.lane_uncertain,
        now_ms <= MAX_SAFE_SEQUENCE,
        next_revision(d.revision) is Some,
    ensures
        ({
            let id = "telepathy:repo:"@ + slug(name);
            let c = create_turn(d, name, now_ms);
            &&& c.1 is Save
            &&& c.1->Save_0.before == d.reg
            &&& c.1->Save_0.revision_before == d.revision
            &&& entered(d.reg, c.0.reg, name, stamp(now_ms))
            &&& c.0.revision == (if d.reg.active_id == id {
                d.revision as int
            } else {
                d.revision + 1
            })
            &&& c.0 == (DaemonView { reg: c.0.reg, revision: c.0.revision, ..d })
            &&& !has_lane(d.reg.lanes, id) ==> c.1->Save_0.success == lane_ok(c.0.reg.lanes.last())
        }),
        forall|i: int|
            0 <= i < d.reg.lanes.len() && (#[trigger] d.reg.lanes[i]).id == "telepathy:repo:"@
                + slug(name) ==> create_turn(d, name, now_ms).1->Save_0.success == lane_ok(
                d.reg.lanes[i],
            ),
{
    let id = "telepathy:repo:"@ + slug(name);
    let now = stamp(now_ms);
    let after = created_and_switched(d.reg, name, now);
    law_stamps_are_valid(now_ms);
    lemma_entered(d.reg, name, now);
    law_create_keeps_validity(d.reg, name, now);
    law_switch_keeps_validity(created(d.reg, name, now), id, now);
    lemma_changed(d, after, lane_ok(created_lane(d.reg, name, now)));
    assert(name.len() > 0);
    lemma_position(d.reg.lanes, id);
    if has_lane(d.reg.lanes, id) {
        lemma_same_ids(d.reg.lanes, after.lanes, id, now);
        let p = position(d.reg.lanes, id);
        assert forall|i: int| 0 <= i < d.reg.lanes.len() && (#[trigger] d.reg.lanes[i]).id
            == id implies d.reg.lanes[i] == d.reg.lanes[p] by {
            if p < i {
                assert(d.reg.lanes[p].id != d.reg.lanes[i].id);
            }
        }
    } else {
        let n = d.reg.lanes.len() as int;
        let c = created(d.reg, name, now);
        lemma_position(c.lanes, id);
        assert(after.lanes.last() =~= created_lane(d.reg, name, now));
        if d.reg.active_id == id {
            assert(has_lane(d.reg.lanes, d.reg.active_id));
        }
    }
}

proof fn lemma_same_ids(
    before: Seq<LaneView>,
    after: Seq<LaneView>,
    id: Seq<char>,
    now: Seq<char>,
)
    requires
        before.len() == after.len(),
        used_at(before, after, id, now),
    ensures
        forall|i: int| 0 <= i < before.len() ==> (#[trigger] before[i]).id == after[i].id,
{
    assert forall|i: int| 0 <= i < before.len() implies (#[trigger] before[i]).id == after[i].id by {
        assert(after[i].id == before[i].id);
    }
}

proof fn lemma_only_lane(
    reg: RegistryView,
    i: int,
    p: int,
    after: Seq<LaneView>,
    id: Seq<char>,
    now: Seq<char>,
)
    requires
        crate::lanes::distinct_ids(reg.lanes),
        0 <= i < reg.lanes.len(),
        reg.lanes[i].id == id,
        after.len() == reg.lanes.len(),
        used_at(reg.lanes, after, id, now),
        0 <= p < after.len(),
        after[p].id == id,
    ensures
        after[p] == (LaneView { last_active: now, ..reg.lanes[i] }),
{
    lemma_same_ids(reg.lanes, after, id, now);
    assert(reg.lanes[p].id == after[p].id);
    if p < i {
        assert(reg.lanes[p].id != reg.lanes[i].id);
    }
    if i < p {
        assert(reg.lanes[i].id != reg.lanes[p].id);
    }
}

// ---- lists ----------------------------------------------------------------------

proof fn lemma_joined_holds(ws: Seq<Seq<char>>, sep: Seq<char>, i: int)
    requires
        0 <= i < ws.len(),
    ensures
        occurs(joined(ws, sep), ws[i]),
    decreases ws.len(),
{
    let s = joined(ws, sep);
    if ws.len() == 1 {
        assert(s.subrange(0, ws[i].len() as int) =~= ws[i]);
        assert(occurs_at(s, ws[i], 0));
    } else {
        let d = ws.drop_last();
        let before = joined(d, sep);
        if i == ws.len() - 1 {
            let at = (before + sep).len() as int;
            assert(s.subrange(at, at + ws[i].len()) =~= ws[i]);
            assert(occurs_at(s, ws[i], at));
        } else {
            lemma_joined_holds(d, sep, i);
            let at = choose|at: int| #[trigger] occurs_at(before, d[i], at);
            assert(s.subrange(at, at + ws[i].len()) =~= before.subrange(at, at + ws[i].len()));
            assert(occurs_at(s, ws[i], at));
        }
    }
}

/// The lists name every lane: the tool's with when it was last used and which one
/// is active, the statistics with its count, the spoken one with which is active,
/// and the answer to a name that means none with every name.
pub proof fn law_lists_name_every_lane(
    reg: RegistryView,
    args: JsonView,
    now: Seq<char>,
    now_ms: nat,
    i: int,
)
    requires
        valid_registry(reg),
        0 <= i < reg.lanes.len(),
    ensures
        ({
            let lane = reg.lanes[i];
            let active = lane.id == reg.active_id;
            let list = tool_words(reg, SteeringTool::ListLanes, args, now);
            let figures = tool_words(reg, SteeringTool::LaneStats, args, now);
            let count = match lane.interactions {
                Some(n) => n,
                None => 0,
            };
            &&& active ==> occurs(
                list,
                lane.name + " — last active "@ + lane.last_active + " (ACTIVE)"@,
            )
            &&& !active ==> occurs(list, lane.name + " — last active "@ + lane.last_active)
            &&& occurs(
                figures,
                lane.name + ": "@ + decimal(count as nat) + " interactions, last active "@
                    + lane.last_active,
            )
            &&& occurs(joined(crate::meta::listed_names(reg), ", "@), if active {
                lane.name + " (active)"@
            } else {
                lane.name
            })
            &&& spoken(reg, ActionView::List, now_ms) == "Conversations: "@ + joined(
                crate::meta::listed_names(reg),
                ", "@,
            ) + "."@
        }),
{
    let lane = reg.lanes[i];
    let a = choose|a: int|
        0 <= a < reg.lanes.len() && (#[trigger] reg.lanes[a]).id == reg.active_id;
    lemma_active(reg, a);
    let id = active_lane(reg).id;
    let lines = Seq::new(
        reg.lanes.len(),
        |k: int| crate::steering::listed_lane(reg.lanes[k], id),
    );
    assert(lines =~= Seq::new(
        reg.lanes.len(),
        |k: int| crate::steering::listed_lane(reg.lanes[k], active_lane(reg).id),
    ));
    lemma_joined_holds(lines, "\n"@, i);
    assert(lane.id != reg.active_id ==> lines[i] =~= lane.name + " — last active "@
        + lane.last_active);
    let figures = Seq::new(reg.lanes.len(), |k: int| crate::steering::lane_figures(reg.lanes[k]));
    lemma_joined_holds(figures, "\n"@, i);
    lemma_joined_holds(crate::meta::listed_names(reg), ", "@, i);
}

// ---- the calls of a model -------------------------------------------------------

/// Every call of a model is made, one after the other, and answered in its order
/// under its own identifier, with what its tool said when its turn came.
pub proof fn law_calls_are_answered_in_order(
    reg: RegistryView,
    calls: Seq<CallView>,
    found: Seq<Option<Seq<char>>>,
    now: Seq<char>,
    n: int,
    i: int,
)
    requires
        0 <= i < n <= calls.len(),
    ensures
        call_answers(reg, calls, found, now, n).len() == n,
        call_answers(reg, calls, found, now, n)[i] == tool_answer(
            calls[i].id,
            call_answer(
                after_calls(reg, calls, now, i),
                calls[i],
                if i < found.len() {
                    found[i]
                } else {
                    None
                },
                now,
            ),
        ),
        after_calls(reg, calls, now, 0) == reg,
        after_calls(reg, calls, now, i + 1) == after_call(
            after_calls(reg, calls, now, i),
            calls[i],
            now,
        ),
    decreases n,
{
    assert(call_answers(reg, calls, found, now, 0) =~= Seq::<JsonView>::empty());
    if n > 1 {
        let j: int = if i < n - 1 {
            i
        } else {
            0
        };
        law_calls_are_answered_in_order(reg, calls, found, now, n - 1, j);
    }
}

/// The model is asked again with all that was said before, its calls, and one
/// answer for each of them.
pub proof fn law_model_sees_what_was_said(
    messages: Seq<JsonView>,
    reg: RegistryView,
    calls: Seq<CallView>,
    found: Seq<Option<Seq<char>>>,
    now: Seq<char>,
)
    requires
        calls.len() > 0,
    ensures
        ({
            let next = next_messages(messages, reg, calls, found, now);
            &&& next.len() == messages.len() + 1 + calls.len()
            &&& next.take(messages.len() as int) == messages
            &&& next[messages.len() as int] == calls_message(calls)
            &&& next.skip(messages.len() as int + 1) == call_answers(
                reg,
                calls,
                found,
                now,
                calls.len() as int,
            )
        }),
{
    law_calls_are_answered_in_order(reg, calls, found, now, calls.len() as int, 0);
    let next = next_messages(messages, reg, calls, found, now);
    assert(next.take(messages.len() as int) =~= messages);
    assert(next.skip(messages.len() as int + 1) =~= call_answers(
        reg,
        calls,
        found,
        now,
        calls.len() as int,
    ));
}

/// A tool that cannot do what it is asked leaves the lanes as they are: where no
/// lane is meant, it names the one that was asked for and every one that there is;
/// where no lane can be made, it says why.
pub proof fn law_refused_tools_say_why(
    reg: RegistryView,
    args: JsonView,
    name: Seq<char>,
    now: Seq<char>,
    i: int,
)
    requires
        args.get("name"@) == Some(JsonView::Text(name)),
    ensures
        crate::lookup::meant_lane(name, reg.lanes) is None ==> {
            let words = tool_words(reg, SteeringTool::SwitchLane, args, now);
            &&& after_tool(reg, SteeringTool::SwitchLane, args, now) == reg
            &&& words.take(("No lane matching \""@ + name + "\". Available: "@).len() as int)
                == "No lane matching \""@ + name + "\". Available: "@
            &&& 0 <= i < reg.lanes.len() ==> occurs(words, reg.lanes[i].name)
        },
        crate::lanes::create_refusal(reg.lanes, name) is Some ==> {
            &&& after_tool(reg, SteeringTool::CreateLane, args, now) == reg
            &&& tool_words(reg, SteeringTool::CreateLane, args, now)
                == crate::lanes::create_refusal(reg.lanes, name)->0.words()
        },
{
    let head = "No lane matching \""@ + name + "\". Available: "@;
    let names = crate::steering::lane_names(reg);
    let list = joined(names, ", "@);
    let words = head + list;
    assert(words.take(head.len() as int) =~= head);
    if 0 <= i < reg.lanes.len() {
        lemma_joined_holds(names, ", "@, i);
        let at = choose|at: int| #[trigger] occurs_at(list, names[i], at);
        assert(words.subrange(head.len() + at, head.len() + at + names[i].len())
            =~= list.subrange(at, at + names[i].len()));
        assert(occurs_at(words, names[i], head.len() + at));
    }
}

} // verus!
