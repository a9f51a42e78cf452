//! The steering agent: the tools it may call, what each does to the lanes, and
//! the loop between the model and the tools.
use vstd::prelude::*;
use vstd::string::*;

use crate::clock::{stamp, stamp_text};
use crate::hermes_search::SEARCH_UNAVAILABLE_MESSAGE;
use crate::lanes::{
    active_lane, create_refusal, created_lane, reachable, switched, LaneRegistry, LaneView,
    RegistryView,
};
use crate::lookup::{match_lane, meant_lane};
use crate::meta::{created_and_switched, lemma_created_is_reachable};
use crate::openai::{
    assistant_tool_calls_message, calls_message, role_message, role_message_value, text_or,
    tool_answer, tool_message,
};
use crate::text::{decimal, decimal_text, join_from, joined, opt_str_view, same_text, views};
use crate::value::{json_read, json_views, read_json, tree_fields, Json, JsonView};

verus! {

/// What the model is told it is.
pub const META_SYSTEM: &'static str =
    "You are the steering agent for Telepathy, a voice interface to coding agents. Your ONLY job is managing conversation lanes: listing, switching, creating, reporting activity and statistics. Rules: your output is spoken aloud through earbuds — be terse, no markdown, no code, no lists over five items. Never discuss project content, never answer coding questions — if asked, tell the user to switch to the right lane and ask there. Prefer calling tools over guessing. If the target lane is ambiguous, ask one short clarifying question. When you switch lanes, confirm with the lane name.";

/// Most rounds of tool calls for one utterance.
pub const MAX_TOOL_ROUNDS: usize = 4;

/// What is said after too many rounds.
pub const CIRCLES: &'static str = "I went in circles — try a simpler command.";

/// A tool that the model may call.
#[derive(Debug, Clone, Copy, PartialEq, Eq, Structural)]
pub enum SteeringTool {
    ListLanes,
    ActiveLane,
    SwitchLane,
    CreateLane,
    LaneStats,
    SearchConversations,
}

/// A tool's name.
pub open spec fn tool_name(tool: SteeringTool) -> Seq<char> {
    match tool {
        SteeringTool::ListLanes => "list_lanes"@,
        SteeringTool::ActiveLane => "active_lane"@,
        SteeringTool::SwitchLane => "switch_lane"@,
        SteeringTool::CreateLane => "create_lane"@,
        SteeringTool::LaneStats => "lane_stats"@,
        SteeringTool::SearchConversations => "search_conversations"@,
    }
}

/// The tool with this name. No other name leads to anything.
pub open spec fn named_tool(name: Seq<char>) -> Option<SteeringTool> {
    if name == "list_lanes"@ {
        Some(SteeringTool::ListLanes)
    } else if name == "active_lane"@ {
        Some(SteeringTool::ActiveLane)
    } else if name == "switch_lane"@ {
        Some(SteeringTool::SwitchLane)
    } else if name == "create_lane"@ {
        Some(SteeringTool::CreateLane)
    } else if name == "lane_stats"@ {
        Some(SteeringTool::LaneStats)
    } else if name == "search_conversations"@ {
        Some(SteeringTool::SearchConversations)
    } else {
        None
    }
}

impl SteeringTool {
    /// The tool with this name.
    pub fn from_name(name: &str) -> (r: Option<SteeringTool>)
        ensures
            r == named_tool(name@),
    {
        if same_text(name, "list_lanes") {
            Some(SteeringTool::ListLanes)
        } else if same_text(name, "active_lane") {
            Some(SteeringTool::ActiveLane)
        } else if same_text(name, "switch_lane") {
            Some(SteeringTool::SwitchLane)
        } else if same_text(name, "create_lane") {
            Some(SteeringTool::CreateLane)
        } else if same_text(name, "lane_stats") {
            Some(SteeringTool::LaneStats)
        } else if same_text(name, "search_conversations") {
            Some(SteeringTool::SearchConversations)
        } else {
            None
        }
    }
}

/// Each tool is found under its own name.
pub proof fn law_tools_are_found_by_name(tool: SteeringTool)
    ensures
        named_tool(tool_name(tool)) == Some(tool),
{
    reveal_strlit("list_lanes");
    reveal_strlit("active_lane");
    reveal_strlit("switch_lane");
    reveal_strlit("create_lane");
    reveal_strlit("lane_stats");
    reveal_strlit("search_conversations");
    assert("list_lanes"@[3] == 't' && "lane_stats"@[3] == 'e');
    assert("active_lane"@[0] == 'a' && "switch_lane"@[0] == 's' && "create_lane"@[0] == 'c');
    assert("list_lanes"@.len() == 10 && "lane_stats"@.len() == 10 && "active_lane"@.len() == 11
        && "switch_lane"@.len() == 11 && "create_lane"@.len() == 11
        && "search_conversations"@.len() == 20);
}

/// A tool as it is described to the model.
#[derive(Debug)]
pub struct ToolSpec {
    pub name: &'static str,
    pub description: &'static str,
    /// The schema of its arguments.
    pub parameters: Json,
}

/// A description as a value.
pub struct ToolSpecView {
    pub name: Seq<char>,
    pub description: Seq<char>,
    pub parameters: JsonView,
}

impl View for ToolSpec {
    type V = ToolSpecView;

    open spec fn view(&self) -> ToolSpecView {
        ToolSpecView {
            name: self.name@,
            description: self.description@,
            parameters: self.parameters@,
        }
    }
}

/// The values of a run of descriptions.
pub open spec fn tool_views(v: Seq<ToolSpec>) -> Seq<ToolSpecView> {
    Seq::new(v.len(), |i: int| v[i]@)
}

/// The schema of a tool without arguments.
pub open spec fn no_arguments() -> JsonView {
    JsonView::Object(
        seq![("properties"@, JsonView::Object(seq![])), ("type"@, JsonView::Text("object"@))],
    )
}

/// The schema of a tool with one text argument.
pub open spec fn one_argument(key: Seq<char>) -> JsonView {
    JsonView::Object(
        seq![
            (
                "properties"@,
                JsonView::Object(
                    seq![
                        (
                            key,
                            JsonView::Object(seq![("type"@, JsonView::Text("string"@))]),
                        ),
                    ],
                ),
            ),
            ("required"@, JsonView::List(seq![JsonView::Text(key)])),
            ("type"@, JsonView::Text("object"@)),
        ],
    )
}

fn no_arguments_value() -> (r: Json)
    ensures
        r@ == no_arguments(),
{
    let inner: Vec<(&'static str, Json)> = Vec::new();
    let ghost whole = no_arguments()->Object_0;
    assert(tree_fields(inner@) =~= whole[0].1->Object_0);
    let mut fields: Vec<(&'static str, Json)> = Vec::new();
    fields.push(("properties", Json::object(inner)));
    fields.push(("type", Json::string("object")));
    assert(tree_fields(fields@) =~= whole);
    Json::object(fields)
}

fn one_argument_value(key: &'static str) -> (r: Json)
    ensures
        r@ == one_argument(key@),
{
    let ghost whole = one_argument(key@)->Object_0;
    let mut kind: Vec<(&'static str, Json)> = Vec::new();
    kind.push(("type", Json::string("string")));
    assert(tree_fields(kind@) =~= whole[0].1->Object_0[0].1->Object_0);
    let mut properties: Vec<(&'static str, Json)> = Vec::new();
    properties.push((key, Json::object(kind)));
    assert(tree_fields(properties@) =~= whole[0].1->Object_0);
    let mut required: Vec<Json> = Vec::new();
    required.push(Json::string(key));
    assert(json_views(required@) =~= whole[1].1->List_0);
    let mut fields: Vec<(&'static str, Json)> = Vec::new();
    fields.push(("properties", Json::object(properties)));
    fields.push(("required", Json::list(required)));
    fields.push(("type", Json::string("object")));
    assert(tree_fields(fields@) =~= whole);
    Json::object(fields)
}

/// All tools as they are described to the model.
pub open spec fn tool_list() -> Seq<ToolSpecView> {
    seq![
        ToolSpecView {
            name: "list_lanes"@,
            description: "List all conversation lanes with names, ids, and last-active times."@,
            parameters: no_arguments(),
        },
        ToolSpecView {
            name: "active_lane"@,
            description: "Return the currently active lane."@,
            parameters: no_arguments(),
        },
        ToolSpecView {
            name: "switch_lane"@,
            description: "Make a lane the active conversation. Fuzzy-matches the name."@,
            parameters: one_argument("name"@),
        },
        ToolSpecView {
            name: "create_lane"@,
            description: "Create a new conversation lane and switch to it."@,
            parameters: one_argument("name"@),
        },
        ToolSpecView {
            name: "lane_stats"@,
            description: "Interaction counts and last-active times for all lanes."@,
            parameters: no_arguments(),
        },
        ToolSpecView {
            name: "search_conversations"@,
            description: "Search past conversations for a phrase."@,
            parameters: one_argument("query"@),
        },
    ]
}

/// All tools as they are described to the model.
pub fn tools() -> (r: Vec<ToolSpec>)
    ensures
        tool_views(r@) == tool_list(),
{
    let mut v: Vec<ToolSpec> = Vec::new();
    v.push(
        ToolSpec {
            name: "list_lanes",
            description: "List all conversation lanes with names, ids, and last-active times.",
            parameters: no_arguments_value(),
        },
    );
    v.push(
        ToolSpec {
            name: "active_lane",
            description: "Return the currently active lane.",
            parameters: no_arguments_value(),
        },
    );
    v.push(
        ToolSpec {
            name: "switch_lane",
            description: "Make a lane the active conversation. Fuzzy-matches the name.",
            parameters: one_argument_value("name"),
        },
    );
    v.push(
        ToolSpec {
            name: "create_lane",
            description: "Create a new conversation lane and switch to it.",
            parameters: one_argument_value("name"),
        },
    );
    v.push(
        ToolSpec {
            name: "lane_stats",
            description: "Interaction counts and last-active times for all lanes.",
            parameters: no_arguments_value(),
        },
    );
    v.push(
        ToolSpec {
            name: "search_conversations",
            description: "Search past conversations for a phrase.",
            parameters: one_argument_value("query"),
        },
    );
    assert(tool_views(v@) =~= tool_list());
    v
}

// ---- what the tools do ----------------------------------------------------------

/// A lane in the tool's list.
pub open spec fn listed_lane(lane: LaneView, active_id: Seq<char>) -> Seq<char> {
    lane.name + " — last active "@ + lane.last_active + (if lane.id == active_id {
        " (ACTIVE)"@
    } else {
        Seq::empty()
    })
}

/// A lane in the statistics.
pub open spec fn lane_figures(lane: LaneView) -> Seq<char> {
    lane.name + ": "@ + decimal(crate::interactions::count_of(lane) as nat)
        + " interactions, last active "@ + lane.last_active
}

/// The names of the lanes.
pub open spec fn lane_names(reg: RegistryView) -> Seq<Seq<char>> {
    Seq::new(reg.lanes.len(), |i: int| reg.lanes[i].name)
}

/// The lanes, one to a line.
pub open spec fn lane_list(reg: RegistryView) -> Seq<char> {
    joined(
        Seq::new(reg.lanes.len(), |i: int| listed_lane(reg.lanes[i], active_lane(reg).id)),
        "\n"@,
    )
}

/// The statistics, one lane to a line.
pub open spec fn lane_statistics(reg: RegistryView) -> Seq<char> {
    joined(Seq::new(reg.lanes.len(), |i: int| lane_figures(reg.lanes[i])), "\n"@)
}

/// The lanes after a tool was called at `now`.
pub open spec fn after_tool(
    reg: RegistryView,
    tool: SteeringTool,
    args: JsonView,
    now: Seq<char>,
) -> RegistryView {
    let name = text_or(args.field("name"@), Seq::empty());
    match tool {
        SteeringTool::SwitchLane => match meant_lane(name, reg.lanes) {
            Some(lane) => if reachable(reg, lane.id) {
                switched(reg, lane.id, now)
            } else {
                reg
            },
            None => reg,
        },
        SteeringTool::CreateLane => if create_refusal(reg.lanes, name) is None {
            created_and_switched(reg, name, now)
        } else {
            reg
        },
        _ => reg,
    }
}

/// What a tool answers the model.
pub open spec fn tool_words(
    reg: RegistryView,
    tool: SteeringTool,
    args: JsonView,
    now: Seq<char>,
) -> Seq<char> {
    let name = text_or(args.field("name"@), Seq::empty());
    match tool {
        SteeringTool::ListLanes => lane_list(reg),
        SteeringTool::ActiveLane => active_lane(reg).name + " ("@ + active_lane(reg).id + ")"@,
        SteeringTool::SwitchLane => match meant_lane(name, reg.lanes) {
            Some(lane) => "Active lane is now "@ + lane.name + "."@,
            None => "No lane matching \""@ + name + "\". Available: "@ + joined(
                lane_names(reg),
                ", "@,
            ),
        },
        SteeringTool::CreateLane => match create_refusal(reg.lanes, name) {
            None => "Created and switched to "@ + created_lane(reg, name, now).name + "."@,
            Some(e) => e.words(),
        },
        SteeringTool::LaneStats => lane_statistics(reg),
        SteeringTool::SearchConversations => SEARCH_UNAVAILABLE_MESSAGE@,
    }
}

fn list_text(reg: &LaneRegistry) -> (r: String)
    requires
        reg@.lanes.len() > 0,
    ensures
        r@ == lane_list(reg@),
{
    let ghost lanes = reg@.lanes;
    let active = reg.active();
    let ghost id = active_lane(reg@).id;
    let ghost lines = Seq::new(lanes.len(), |i: int| listed_lane(lanes[i], id));
    let mut out: Vec<String> = Vec::new();
    for i in 0..reg.lanes.len()
        invariant
            lanes == reg@.lanes,
            active@.id == id,
            lines == Seq::new(lanes.len(), |i: int| listed_lane(lanes[i], id)),
            views(out@) == lines.take(i as int),
    {
        let l = &reg.lanes[i];
        assert(l@ == lanes[i as int]);
        let mut s = l.name.clone();
        s.append(" — last active ");
        s.append(l.last_active.as_str());
        if same_text(l.id.as_str(), active.id.as_str()) {
            s.append(" (ACTIVE)");
        }
        assert(s@ =~= listed_lane(l@, id));
        let ghost before = out@;
        let ghost line = s@;
        out.push(s);
        assert(views(out@) =~= views(before).push(line));
        assert(views(out@) =~= lines.take(i + 1));
    }
    assert(views(out@) =~= lines);
    assert(views(out@).skip(0) =~= Seq::new(
        reg@.lanes.len(),
        |i: int| listed_lane(reg@.lanes[i], active_lane(reg@).id),
    ));
    join_from(&out, 0, "\n")
}

fn statistics_text(reg: &LaneRegistry) -> (r: String)
    ensures
        r@ == lane_statistics(reg@),
{
    let ghost lanes = reg@.lanes;
    let ghost lines = Seq::new(lanes.len(), |i: int| lane_figures(lanes[i]));
    let mut out: Vec<String> = Vec::new();
    for i in 0..reg.lanes.len()
        invariant
            lanes == reg@.lanes,
            lines == Seq::new(lanes.len(), |i: int| lane_figures(lanes[i])),
            views(out@) == lines.take(i as int),
    {
        let l = &reg.lanes[i];
        assert(l@ == lanes[i as int]);
        let n: u64 = match l.interactions {
            Some(n) => n,
            None => 0,
        };
        let mut s = l.name.clone();
        s.append(": ");
        let d = decimal_text(n as u128);
        s.append(d.as_str());
        s.append(" interactions, last active ");
        s.append(l.last_active.as_str());
        let ghost before = out@;
        let ghost line = s@;
        out.push(s);
        assert(views(out@) =~= views(before).push(line));
        assert(views(out@) =~= lines.take(i + 1));
    }
    assert(views(out@) =~= lines);
    assert(views(out@).skip(0) =~= Seq::new(
        reg@.lanes.len(),
        |i: int| lane_figures(reg@.lanes[i]),
    ));
    join_from(&out, 0, "\n")
}

fn names_text(reg: &LaneRegistry) -> (r: String)
    ensures
        r@ == joined(lane_names(reg@), ", "@),
{
    let mut out: Vec<String> = Vec::new();
    for i in 0..reg.lanes.len()
        invariant
            views(out@) == lane_names(reg@).take(i as int),
    {
        let n = reg.lanes[i].name.clone();
        let ghost before = out@;
        let ghost shown = n@;
        out.push(n);
        assert(views(out@) =~= views(before).push(shown));
        assert(views(out@) =~= lane_names(reg@).take(i + 1));
    }
    assert(views(out@) =~= lane_names(reg@));
    assert(views(out@).skip(0) =~= lane_names(reg@));
    join_from(&out, 0, ", ")
}

/// Whether a tool shows the active lane, so that there has to be one.
pub open spec fn shows_active_lane(tool: SteeringTool) -> bool {
    tool == SteeringTool::ListLanes || tool == SteeringTool::ActiveLane
}

/// Calls a tool at `now_ms`. A search needs the session store, which is not
/// reached from here.
pub fn execute_tool_at(reg: &mut LaneRegistry, tool: SteeringTool, args: &Json, now_ms: u128) -> (r:
    String)
    requires
        shows_active_lane(tool) ==> old(reg)@.lanes.len() > 0,
    ensures
        final(reg)@ == after_tool(old(reg)@, tool, args@, stamp(now_ms as nat)),
        r@ == tool_words(old(reg)@, tool, args@, stamp(now_ms as nat)),
{
    let name = match args.text_field("name") {
        Some(n) => n.to_string(),
        None => {
            let s = String::new();
            assert(s@ =~= Seq::empty());
            s
        },
    };
    let now = stamp_text(now_ms);
    match tool {
        SteeringTool::ListLanes => list_text(reg),
        SteeringTool::ActiveLane => {
            let l = reg.active();
            let mut s = l.name.clone();
            s.append(" (");
            s.append(l.id.as_str());
            s.append(")");
            s
        },
        SteeringTool::SwitchLane => match match_lane(name.as_str(), reg) {
            Some(lane) => {
                let _ = reg.switch_at(lane.id.as_str(), now.as_str());
                let mut s = "Active lane is now ".to_string();
                s.append(lane.name.as_str());
                s.append(".");
                s
            },
            None => {
                let mut s = "No lane matching \"".to_string();
                s.append(name.as_str());
                s.append("\". Available: ");
                let names = names_text(reg);
                s.append(names.as_str());
                s
            },
        },
        SteeringTool::CreateLane => match reg.create_at(name.as_str(), now.as_str()) {
            Ok(lane) => {
                proof {
                    lemma_created_is_reachable(old(reg)@, name@, now@);
                }
                let _ = reg.switch_at(lane.id.as_str(), now.as_str());
                let mut s = "Created and switched to ".to_string();
                s.append(lane.name.as_str());
                s.append(".");
                s
            },
            Err(e) => e.message(),
        },
        SteeringTool::LaneStats => statistics_text(reg),
        SteeringTool::SearchConversations => SEARCH_UNAVAILABLE_MESSAGE.to_string(),
    }
}

/// Calls a tool now.
pub fn execute_tool(reg: &mut LaneRegistry, tool: SteeringTool, args: &Json) -> (r: String)
    requires
        shows_active_lane(tool) ==> old(reg)@.lanes.len() > 0,
    ensures
        exists|ms: u128|
            {
                &&& final(reg)@ == after_tool(
                    old(reg)@,
                    tool,
                    args@,
                    #[trigger] stamp(ms as nat),
                )
                &&& r@ == tool_words(old(reg)@, tool, args@, stamp(ms as nat))
            },
{
    let now: u128 = crate::clock::epoch_ms();
    execute_tool_at(reg, tool, args, now)
}

// ---- steps of a model -----------------------------------------------------------

/// A tool call of the model.
#[derive(Debug)]
pub struct ToolCall {
    pub id: String,
    pub name: String,
    pub arguments: String,
}

/// A tool call as a value.
pub struct CallView {
    pub id: Seq<char>,
    pub name: Seq<char>,
    pub arguments: Seq<char>,
}

impl View for ToolCall {
    type V = CallView;

    open spec fn view(&self) -> CallView {
        CallView { id: self.id@, name: self.name@, arguments: self.arguments@ }
    }
}

/// The values of a run of calls.
pub open spec fn call_views(v: Seq<ToolCall>) -> Seq<CallView> {
    Seq::new(v.len(), |i: int| v[i]@)
}

/// What a model says in one step.
#[derive(Debug)]
pub enum StepOutcome {
    Text(String),
    ToolCalls(Vec<ToolCall>),
}

/// What a model says in one step, as a value.
pub enum StepView {
    Text(Seq<char>),
    ToolCalls(Seq<CallView>),
}

impl View for StepOutcome {
    type V = StepView;

    open spec fn view(&self) -> StepView {
        match self {
            StepOutcome::Text(t) => StepView::Text(t@),
            StepOutcome::ToolCalls(v) => StepView::ToolCalls(call_views(v@)),
        }
    }
}

/// A model that is not there: it always says the same.
#[derive(Debug, Clone, Copy)]
pub struct NullProvider;

impl NullProvider {
    /// What it says.
    pub fn step(&self) -> (r: StepOutcome)
        ensures
            r@ == StepView::Text("Steering agent online (no model configured)."@),
    {
        StepOutcome::Text("Steering agent online (no model configured).".to_string())
    }
}

// ---- the loop -------------------------------------------------------------------

/// The arguments of a call; what is no JSON counts as none.
pub open spec fn call_arguments(c: CallView) -> JsonView {
    match json_read(c.arguments) {
        Some(v) => v,
        None => JsonView::Object(seq![]),
    }
}

/// What a call is answered. `found` is what a search of the session store gave.
pub open spec fn call_answer(
    reg: RegistryView,
    c: CallView,
    found: Option<Seq<char>>,
    now: Seq<char>,
) -> Seq<char> {
    match named_tool(c.name) {
        None => "unknown tool "@ + c.name,
        Some(tool) => if tool == SteeringTool::SearchConversations && found is Some {
            found->0
        } else {
            tool_words(reg, tool, call_arguments(c), now)
        },
    }
}

/// The lanes after a call.
pub open spec fn after_call(reg: RegistryView, c: CallView, now: Seq<char>) -> RegistryView {
    match named_tool(c.name) {
        None => reg,
        Some(tool) => after_tool(reg, tool, call_arguments(c), now),
    }
}

/// Only the calls that switch or create change the lanes. A name that is no
/// tool's does nothing at all.
pub proof fn law_only_two_tools_change_the_lanes(
    reg: RegistryView,
    c: CallView,
    now: Seq<char>,
)
    requires
        named_tool(c.name) != Some(SteeringTool::SwitchLane),
        named_tool(c.name) != Some(SteeringTool::CreateLane),
    ensures
        after_call(reg, c, now) == reg,
{
}

/// The lanes after the first `n` calls.
pub open spec fn after_calls(
    reg: RegistryView,
    calls: Seq<CallView>,
    now: Seq<char>,
    n: int,
) -> RegistryView
    decreases n,
{
    if n <= 0 || n > calls.len() {
        reg
    } else {
        after_call(after_calls(reg, calls, now, n - 1), calls[n - 1], now)
    }
}

/// What the search of the `i`th call found, where one was made.
pub open spec fn found_at(found: Seq<Option<Seq<char>>>, i: int) -> Option<Seq<char>> {
    if 0 <= i < found.len() {
        found[i]
    } else {
        None
    }
}

/// Whether a call finds the lane that it shows.
pub open spec fn can_be_called(reg: RegistryView, c: CallView) -> bool {
    match named_tool(c.name) {
        Some(tool) => shows_active_lane(tool) ==> reg.lanes.len() > 0,
        None => true,
    }
}

/// Whether calls, made in their order, each find the lane that they show. They
/// do in every registry that holds a lane.
pub open spec fn calls_can_run(reg: RegistryView, calls: Seq<CallView>, now: Seq<char>) -> bool {
    forall|i: int|
        0 <= i < calls.len() ==> can_be_called(after_calls(reg, calls, now, i), #[trigger] calls[i])
}

/// Whether a step of the model can be taken in.
pub open spec fn can_run(reg: RegistryView, step: StepView, now: Seq<char>) -> bool {
    match step {
        StepView::Text(_) => true,
        StepView::ToolCalls(calls) => calls_can_run(reg, calls, now),
    }
}

/// The messages that answer the first `n` calls.
pub open spec fn call_answers(
    reg: RegistryView,
    calls: Seq<CallView>,
    found: Seq<Option<Seq<char>>>,
    now: Seq<char>,
    n: int,
) -> Seq<JsonView>
    decreases n,
{
    if n <= 0 || n > calls.len() {
        Seq::empty()
    } else {
        call_answers(reg, calls, found, now, n - 1).push(
            tool_answer(
                calls[n - 1].id,
                call_answer(
                    after_calls(reg, calls, now, n - 1),
                    calls[n - 1],
                    found_at(found, n - 1),
                    now,
                ),
            ),
        )
    }
}

/// A conversation with the model.
#[derive(Debug)]
pub struct Conversation {
    pub messages: Vec<Json>,
    pub rounds: usize,
}

/// What comes after a step of the model.
#[derive(Debug)]
pub enum LoopStep {
    /// This is said to the user.
    Say(String),
    /// The model is asked again.
    Ask,
}

/// What comes after a step, as a value.
pub enum LoopStepView {
    Say(Seq<char>),
    Ask,
}

impl View for LoopStep {
    type V = LoopStepView;

    open spec fn view(&self) -> LoopStepView {
        match self {
            LoopStep::Say(t) => LoopStepView::Say(t@),
            LoopStep::Ask => LoopStepView::Ask,
        }
    }
}

/// What the model is asked after one step: one message with all its calls, and
/// one answer for each, in their order.
pub open spec fn next_messages(
    messages: Seq<JsonView>,
    reg: RegistryView,
    calls: Seq<CallView>,
    found: Seq<Option<Seq<char>>>,
    now: Seq<char>,
) -> Seq<JsonView> {
    messages.push(calls_message(calls)) + call_answers(reg, calls, found, now, calls.len() as int)
}

/// The views of what searches found.
pub open spec fn found_views(v: Seq<Option<String>>) -> Seq<Option<Seq<char>>> {
    Seq::new(v.len(), |i: int| crate::text::opt_view(v[i]))
}

/// The phrase that a call asks to search for, where it is a search.
pub fn search_query(call: &ToolCall) -> (r: Option<String>)
    ensures
        match r {
            Some(q) => named_tool(call.name@) == Some(SteeringTool::SearchConversations) && q@
                == text_or(call_arguments(call@).field("query"@), Seq::empty()),
            None => named_tool(call.name@) != Some(SteeringTool::SearchConversations),
        },
{
    match SteeringTool::from_name(call.name.as_str()) {
        Some(tool) => {
            if tool != SteeringTool::SearchConversations {
                return None;
            }
            let args = arguments_of(call);
            match args.text_field("query") {
                Some(q) => Some(q.to_string()),
                None => {
                    let s = String::new();
                    assert(s@ =~= Seq::empty());
                    Some(s)
                },
            }
        },
        None => None,
    }
}

fn arguments_of(call: &ToolCall) -> (r: Json)
    ensures
        r@ == call_arguments(call@),
{
    match read_json(call.arguments.as_str()) {
        Some(v) => v,
        None => {
            let fields: Vec<(&'static str, Json)> = Vec::new();
            assert(tree_fields(fields@) =~= seq![]);
            Json::object(fields)
        },
    }
}

fn answer_call(reg: &mut LaneRegistry, call: &ToolCall, found: Option<&str>, now_ms: u128) -> (r:
    String)
    requires
        can_be_called(old(reg)@, call@),
    ensures
        final(reg)@ == after_call(old(reg)@, call@, stamp(now_ms as nat)),
        r@ == call_answer(old(reg)@, call@, opt_str_view(found), stamp(now_ms as nat)),
{
    match SteeringTool::from_name(call.name.as_str()) {
        None => {
            let mut s = "unknown tool ".to_string();
            s.append(call.name.as_str());
            s
        },
        Some(tool) => {
            let args = arguments_of(call);
            let words = execute_tool_at(reg, tool, &args, now_ms);
            if tool == SteeringTool::SearchConversations {
                match found {
                    Some(t) => t.to_string(),
                    None => words,
                }
            } else {
                words
            }
        },
    }
}

proof fn lemma_tool_keeps_lanes(reg: RegistryView, c: CallView, now: Seq<char>)
    requires
        reg.lanes.len() > 0,
    ensures
        after_call(reg, c, now).lanes.len() > 0,
{
    let args = call_arguments(c);
    let name = text_or(args.field("name"@), Seq::empty());
    if create_refusal(reg.lanes, name) is None {
        lemma_created_is_reachable(reg, name, now);
        let made = crate::lanes::created(reg, name, now);
        crate::lanes::lemma_position(made.lanes, created_lane(reg, name, now).id);
    }
    match meant_lane(name, reg.lanes) {
        Some(lane) => {
            crate::lanes::lemma_position(reg.lanes, lane.id);
        },
        None => {},
    }
}

/// The calls of a model find the lanes that they show wherever there is one to
/// begin with.
pub proof fn law_calls_run_with_a_lane(reg: RegistryView, step: StepView, now: Seq<char>)
    requires
        reg.lanes.len() > 0,
    ensures
        can_run(reg, step, now),
{
    match step {
        StepView::Text(_) => {},
        StepView::ToolCalls(calls) => {
            assert forall|i: int| 0 <= i < calls.len() implies can_be_called(
                after_calls(reg, calls, now, i),
                #[trigger] calls[i],
            ) by {
                lemma_calls_keep_lanes(reg, calls, now, i);
            }
        },
    }
}

proof fn lemma_calls_keep_lanes(reg: RegistryView, calls: Seq<CallView>, now: Seq<char>, n: int)
    requires
        reg.lanes.len() > 0,
        0 <= n <= calls.len(),
    ensures
        after_calls(reg, calls, now, n).lanes.len() > 0,
    decreases n,
{
    if n > 0 {
        lemma_calls_keep_lanes(reg, calls, now, n - 1);
        lemma_tool_keeps_lanes(after_calls(reg, calls, now, n - 1), calls[n - 1], now);
    }
}

/// Whether a step of the model can be taken in at `now_ms`.
pub fn step_can_run(reg: &LaneRegistry, outcome: &StepOutcome, now_ms: u128) -> (r: bool)
    ensures
        r == can_run(reg@, outcome@, stamp(now_ms as nat)),
{
    if reg.lanes.len() > 0 {
        proof {
            law_calls_run_with_a_lane(reg@, outcome@, stamp(now_ms as nat));
        }
        return true;
    }
    match outcome {
        StepOutcome::Text(_) => true,
        StepOutcome::ToolCalls(calls) => {
            let ghost all = call_views(calls@);
            let ghost now = stamp(now_ms as nat);
            let mut copy = reg.clone();
            for i in 0..calls.len()
                invariant
                    outcome@ == StepView::ToolCalls(all),
                    all == call_views(calls@),
                    now == stamp(now_ms as nat),
                    copy@ == after_calls(reg@, all, now, i as int),
                    forall|k: int|
                        0 <= k < i ==> can_be_called(
                            after_calls(reg@, all, now, k),
                            #[trigger] all[k],
                        ),
            {
                assert(all[i as int] == calls@[i as int]@);
                let missing = match SteeringTool::from_name(calls[i].name.as_str()) {
                    Some(tool) => (tool == SteeringTool::ListLanes || tool
                        == SteeringTool::ActiveLane) && copy.lanes.len() == 0,
                    None => false,
                };
                if missing {
                    assert(0 <= i < all.len());
                    assert(!can_be_called(after_calls(reg@, all, now, i as int), all[i as int]));
                    assert(!calls_can_run(reg@, all, now));
                    return false;
                }
                let _ = answer_call(&mut copy, &calls[i], None, now_ms);
            }
            true
        },
    }
}

impl Conversation {
    /// A conversation that begins with what the user said.
    pub fn begin(utterance: &str) -> (r: Conversation)
        ensures
            json_views(r.messages@) == seq![role_message("user"@, utterance@)],
            r.rounds == 0,
    {
        let mut messages: Vec<Json> = Vec::new();
        messages.push(role_message_value("user", utterance));
        assert(json_views(messages@) =~= seq![role_message("user"@, utterance@)]);
        Conversation { messages, rounds: 0 }
    }

    /// The messages as one value.
    pub fn messages_value(&self) -> (r: Json)
        ensures
            r@ == JsonView::List(json_views(self.messages@)),
    {
        let copy = self.messages.clone();
        assert(json_views(copy@) =~= json_views(self.messages@));
        Json::list(copy)
    }

    /// Takes in a step of the model at `now_ms`. Text is said; calls are made in
    /// their order, up to the limit on rounds. `found` holds, for each call that
    /// is a search, what the session store gave.
    pub fn advance(
        &mut self,
        reg: &mut LaneRegistry,
        outcome: StepOutcome,
        found: &Vec<Option<String>>,
        now_ms: u128,
    ) -> (r: LoopStep)
        requires
            can_run(old(reg)@, outcome@, stamp(now_ms as nat)),
            old(self).rounds < MAX_TOOL_ROUNDS,
        ensures
            match outcome@ {
                StepView::Text(t) => {
                    &&& r@ == LoopStepView::Say(t)
                    &&& final(reg)@ == old(reg)@
                    &&& json_views(final(self).messages@) == json_views(old(self).messages@)
                    &&& final(self).rounds == old(self).rounds
                },
                StepView::ToolCalls(calls) => {
                    let now = stamp(now_ms as nat);
                    &&& final(reg)@ == after_calls(old(reg)@, calls, now, calls.len() as int)
                    &&& json_views(final(self).messages@) == next_messages(
                        json_views(old(self).messages@),
                        old(reg)@,
                        calls,
                        found_views(found@),
                        now,
                    )
                    &&& final(self).rounds == old(self).rounds + 1
                    &&& r@ == (if final(self).rounds >= MAX_TOOL_ROUNDS {
                        LoopStepView::Say(CIRCLES@)
                    } else {
                        LoopStepView::Ask
                    })
                },
            },
    {
        match outcome {
            StepOutcome::Text(t) => LoopStep::Say(t),
            StepOutcome::ToolCalls(calls) => {
                let ghost all = call_views(calls@);
                let ghost now = stamp(now_ms as nat);
                let ghost start = reg@;
                let ghost had = json_views(self.messages@);
                let ghost f = found_views(found@);
                self.messages.push(assistant_tool_calls_message(&calls));
                let ghost head = had.push(calls_message(all));
                assert(json_views(self.messages@) =~= head);
                assert(head + call_answers(start, all, f, now, 0) =~= head);
                for i in 0..calls.len()
                    invariant
                        all == call_views(calls@),
                        now == stamp(now_ms as nat),
                        f == found_views(found@),
                        reg@ == after_calls(start, all, now, i as int),
                        calls_can_run(start, all, now),
                        json_views(self.messages@) == head + call_answers(
                            start,
                            all,
                            f,
                            now,
                            i as int,
                        ),
                        self.rounds == old(self).rounds,
                {
                    assert(all[i as int] == calls@[i as int]@);
                    let given = if i < found.len() {
                        crate::text::opt_ref(&found[i])
                    } else {
                        None
                    };
                    assert(opt_str_view(given) == found_at(f, i as int));
                    assert(0 <= i < all.len());
                    assert(can_be_called(after_calls(start, all, now, i as int), all[i as int]));
                    let words = answer_call(reg, &calls[i], given, now_ms);
                    let m = tool_message(&calls[i], words.as_str());
                    let ghost before = json_views(self.messages@);
                    let ghost v = m@;
                    self.messages.push(m);
                    assert(json_views(self.messages@) =~= before.push(v));
                    assert(json_views(self.messages@) =~= head + call_answers(
                        start,
                        all,
                        f,
                        now,
                        i + 1,
                    ));
                }
                self.rounds = self.rounds + 1;
                if self.rounds >= MAX_TOOL_ROUNDS {
                    LoopStep::Say(CIRCLES.to_string())
                } else {
                    LoopStep::Ask
                }
            },
        }
    }
}

} // verus!
