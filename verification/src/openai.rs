//! The chat-completion dialect: the body of a request, and one step read from a
//! response.
use vstd::prelude::*;
use vstd::string::*;

use crate::steering::{
    call_views, tool_views, CallView, StepOutcome, StepView, ToolCall, ToolSpec, ToolSpecView,
};
use crate::text::{byte_len, opt_str_view, utf8_len};
use crate::value::{json_view, json_views, tree_fields, Json, JsonView};

verus! {

/// Longest reply text, in bytes.
pub const MAX_REPLY_TEXT_BYTES: usize = 524288;

/// Longest response of a provider, in bytes.
pub const MAX_PROVIDER_RESPONSE_BYTES: usize = 1048576;

/// Where a model is asked.
#[derive(Debug)]
pub struct OpenAiProvider {
    pub base_url: String,
    pub api_key: String,
    pub model: String,
}

impl OpenAiProvider {
    /// Where requests go.
    pub fn completions_url(&self) -> (r: String)
        ensures
            r@ == self.base_url@ + "/chat/completions"@,
    {
        let mut s = self.base_url.clone();
        s.append("/chat/completions");
        s
    }
}

/// Why a response is no step.
#[derive(Debug, Clone, Copy, PartialEq, Eq, Structural)]
pub enum ResponseError {
    NoMessage,
    ReplyTooLong,
}

impl ResponseError {
    /// The fault in words.
    pub open spec fn words(self) -> Seq<char> {
        match self {
            ResponseError::NoMessage => "no choices[0].message in response"@,
            ResponseError::ReplyTooLong => "provider reply exceeds the reply byte limit"@,
        }
    }

    /// The fault in words.
    pub fn message(&self) -> (r: String)
        ensures
            r@ == self.words(),
    {
        match self {
            ResponseError::NoMessage => "no choices[0].message in response".to_string(),
            ResponseError::ReplyTooLong =>
                "provider reply exceeds the reply byte limit".to_string(),
        }
    }
}

// ---- requests -------------------------------------------------------------------

/// A message with a role and a content.
pub open spec fn role_message(role: Seq<char>, content: Seq<char>) -> JsonView {
    JsonView::Object(
        seq![("content"@, JsonView::Text(content)), ("role"@, JsonView::Text(role))],
    )
}

/// A message with a role and a content.
pub fn role_message_value(role: &str, content: &str) -> (r: Json)
    ensures
        r@ == role_message(role@, content@),
{
    let mut fields: Vec<(&'static str, Json)> = Vec::new();
    fields.push(("content", Json::string(content)));
    fields.push(("role", Json::string(role)));
    assert(tree_fields(fields@) =~= seq![
        ("content"@, JsonView::Text(content@)),
        ("role"@, JsonView::Text(role@)),
    ]);
    Json::object(fields)
}

/// A tool as a request describes it.
pub open spec fn tool_value(t: ToolSpecView) -> JsonView {
    JsonView::Object(
        seq![
            (
                "function"@,
                JsonView::Object(
                    seq![
                        ("description"@, JsonView::Text(t.description)),
                        ("name"@, JsonView::Text(t.name)),
                        ("parameters"@, t.parameters),
                    ],
                ),
            ),
            ("type"@, JsonView::Text("function"@)),
        ],
    )
}

fn tool_json(t: &ToolSpec) -> (r: Json)
    ensures
        r@ == tool_value(t@),
{
    let mut inner: Vec<(&'static str, Json)> = Vec::new();
    inner.push(("description", Json::string(t.description)));
    inner.push(("name", Json::string(t.name)));
    inner.push(("parameters", t.parameters.clone()));
    let ghost whole = tool_value(t@)->Object_0;
    assert(tree_fields(inner@) =~= whole[0].1->Object_0);
    let mut fields: Vec<(&'static str, Json)> = Vec::new();
    fields.push(("function", Json::object(inner)));
    fields.push(("type", Json::string("function")));
    assert(tree_fields(fields@) =~= whole);
    Json::object(fields)
}

/// The elements of a list, none where the value is no list.
pub open spec fn elements(v: JsonView) -> Seq<JsonView> {
    match v {
        JsonView::List(items) => items,
        _ => Seq::empty(),
    }
}

/// The body of a request: the system message comes before the others.
pub open spec fn request_value(
    model: Seq<char>,
    system: Seq<char>,
    tools: Seq<ToolSpecView>,
    messages: JsonView,
) -> JsonView {
    JsonView::Object(
        seq![
            (
                "messages"@,
                JsonView::List(seq![role_message("system"@, system)] + elements(messages)),
            ),
            ("model"@, JsonView::Text(model)),
            (
                "tools"@,
                JsonView::List(Seq::new(tools.len(), |i: int| tool_value(tools[i]))),
            ),
        ],
    )
}

/// The body of a request.
pub fn build_request_body(
    model: &str,
    system: &str,
    tools: &Vec<ToolSpec>,
    messages: &Json,
) -> (r: Json)
    ensures
        r@ == request_value(model@, system@, tool_views(tools@), messages@),
{
    let mut full: Vec<Json> = Vec::new();
    full.push(role_message_value("system", system));
    let ghost rest = elements(messages@);
    assert(json_views(full@) =~= seq![role_message("system"@, system@)] + rest.take(0));
    match messages {
        Json::List(items) => {
            for i in 0..items.len()
                invariant
                    rest.len() == items@.len(),
                    forall|k: int|
                        0 <= k < rest.len() ==> #[trigger] rest[k] == json_view(items@[k]),
                    json_views(full@) == seq![role_message("system"@, system@)] + rest.take(
                        i as int,
                    ),
            {
                assert(rest[i as int] == json_view(items@[i as int]));
                let ghost before = full@;
                full.push(items[i].clone());
                assert(json_views(full@) =~= json_views(before).push(rest[i as int]));
                assert(json_views(full@) =~= seq![role_message("system"@, system@)] + rest.take(
                    i + 1,
                ));
            }
        },
        _ => {},
    }
    assert(rest.take(rest.len() as int) =~= rest);
    let ghost all = tool_views(tools@);
    let ghost described = Seq::new(all.len(), |i: int| tool_value(all[i]));
    let mut list: Vec<Json> = Vec::new();
    for i in 0..tools.len()
        invariant
            all == tool_views(tools@),
            described == Seq::new(all.len(), |i: int| tool_value(all[i])),
            json_views(list@) == described.take(i as int),
    {
        assert(all[i as int] == tools@[i as int]@);
        let t = tool_json(&tools[i]);
        let ghost before = list@;
        let ghost v = t@;
        list.push(t);
        assert(json_views(list@) =~= json_views(before).push(v));
        assert(json_views(list@) =~= described.take(i + 1));
    }
    assert(json_views(list@) =~= described);
    let mut fields: Vec<(&'static str, Json)> = Vec::new();
    fields.push(("messages", Json::list(full)));
    fields.push(("model", Json::string(model)));
    fields.push(("tools", Json::list(list)));
    assert(tree_fields(fields@) =~= request_value(
        model@,
        system@,
        tool_views(tools@),
        messages@,
    )->Object_0);
    Json::object(fields)
}

// ---- history --------------------------------------------------------------------

/// An assistant's message as it is sent back: its content where it is a text,
/// and its tool calls where it has any.
pub open spec fn assistant_value(msg: JsonView) -> JsonView {
    let content = match msg.field("content"@).text() {
        Some(c) => seq![("content"@, JsonView::Text(c))],
        None => seq![],
    };
    let calls = match msg.get("tool_calls"@) {
        Some(c) => seq![("tool_calls"@, c)],
        None => seq![],
    };
    JsonView::Object(content + seq![("role"@, JsonView::Text("assistant"@))] + calls)
}

/// An assistant's message as it is sent back.
pub fn assistant_message_value(msg: &Json) -> (r: Json)
    ensures
        r@ == assistant_value(msg@),
{
    let mut fields: Vec<(&'static str, Json)> = Vec::new();
    match msg.text_field("content") {
        Some(c) => {
            fields.push(("content", Json::string(c)));
        },
        None => {},
    }
    fields.push(("role", Json::string("assistant")));
    match msg.get("tool_calls") {
        Some(c) => {
            fields.push(("tool_calls", c.clone()));
        },
        None => {},
    }
    assert(tree_fields(fields@) =~= assistant_value(msg@)->Object_0);
    Json::object(fields)
}

/// A tool call as it is sent back.
pub open spec fn call_value(c: CallView) -> JsonView {
    JsonView::Object(
        seq![
            (
                "function"@,
                JsonView::Object(
                    seq![
                        ("arguments"@, JsonView::Text(c.arguments)),
                        ("name"@, JsonView::Text(c.name)),
                    ],
                ),
            ),
            ("id"@, JsonView::Text(c.id)),
            ("type"@, JsonView::Text("function"@)),
        ],
    )
}

fn call_json(c: &ToolCall) -> (r: Json)
    ensures
        r@ == call_value(c@),
{
    let mut inner: Vec<(&'static str, Json)> = Vec::new();
    inner.push(("arguments", Json::string(c.arguments.as_str())));
    inner.push(("name", Json::string(c.name.as_str())));
    let ghost whole = call_value(c@)->Object_0;
    assert(tree_fields(inner@) =~= whole[0].1->Object_0);
    let mut fields: Vec<(&'static str, Json)> = Vec::new();
    fields.push(("function", Json::object(inner)));
    fields.push(("id", Json::string(c.id.as_str())));
    fields.push(("type", Json::string("function")));
    assert(tree_fields(fields@) =~= whole);
    Json::object(fields)
}

/// The one message that holds every call of a turn.
pub open spec fn calls_message(calls: Seq<CallView>) -> JsonView {
    JsonView::Object(
        seq![
            ("content"@, JsonView::Null),
            ("role"@, JsonView::Text("assistant"@)),
            (
                "tool_calls"@,
                JsonView::List(Seq::new(calls.len(), |i: int| call_value(calls[i]))),
            ),
        ],
    )
}

/// The one message that holds every call of a turn.
pub fn assistant_tool_calls_message(calls: &Vec<ToolCall>) -> (r: Json)
    ensures
        r@ == calls_message(call_views(calls@)),
{
    let ghost all = call_views(calls@);
    let ghost shown = Seq::new(all.len(), |i: int| call_value(all[i]));
    let mut list: Vec<Json> = Vec::new();
    for i in 0..calls.len()
        invariant
            all == call_views(calls@),
            shown == Seq::new(all.len(), |i: int| call_value(all[i])),
            json_views(list@) == shown.take(i as int),
    {
        assert(all[i as int] == calls@[i as int]@);
        let c = call_json(&calls[i]);
        let ghost before = list@;
        let ghost v = c@;
        list.push(c);
        assert(json_views(list@) =~= json_views(before).push(v));
        assert(json_views(list@) =~= shown.take(i + 1));
    }
    assert(json_views(list@) =~= shown);
    let mut fields: Vec<(&'static str, Json)> = Vec::new();
    fields.push(("content", Json::Null));
    fields.push(("role", Json::string("assistant")));
    fields.push(("tool_calls", Json::list(list)));
    assert(tree_fields(fields@) =~= calls_message(call_views(calls@))->Object_0);
    Json::object(fields)
}

/// The message that answers a call.
pub open spec fn tool_answer(call_id: Seq<char>, content: Seq<char>) -> JsonView {
    JsonView::Object(
        seq![
            ("content"@, JsonView::Text(content)),
            ("role"@, JsonView::Text("tool"@)),
            ("tool_call_id"@, JsonView::Text(call_id)),
        ],
    )
}

/// The message that answers a call.
pub fn tool_message(call: &ToolCall, content: &str) -> (r: Json)
    ensures
        r@ == tool_answer(call.id@, content@),
{
    let mut fields: Vec<(&'static str, Json)> = Vec::new();
    fields.push(("content", Json::string(content)));
    fields.push(("role", Json::string("tool")));
    fields.push(("tool_call_id", Json::string(call.id.as_str())));
    assert(tree_fields(fields@) =~= tool_answer(call.id@, content@)->Object_0);
    Json::object(fields)
}

// ---- responses ------------------------------------------------------------------

/// The message of a response, null where it has none.
pub open spec fn response_message(body: JsonView) -> JsonView {
    let choices = elements(body.field("choices"@));
    if choices.len() > 0 {
        choices[0].field("message"@)
    } else {
        JsonView::Null
    }
}

/// A text, or a default where there is none.
pub open spec fn text_or(v: JsonView, default: Seq<char>) -> Seq<char> {
    match v.text() {
        Some(t) => t,
        None => default,
    }
}

/// A call in a response.
pub open spec fn read_call(c: JsonView) -> CallView {
    CallView {
        id: text_or(c.field("id"@), Seq::empty()),
        name: text_or(c.field("function"@).field("name"@), Seq::empty()),
        arguments: text_or(c.field("function"@).field("arguments"@), "{}"@),
    }
}

/// The calls in a response's message.
pub open spec fn read_calls(msg: JsonView) -> Seq<CallView> {
    let list = elements(msg.field("tool_calls"@));
    Seq::new(list.len(), |i: int| read_call(list[i]))
}

/// The step that a response stands for: its calls, or, without any, its text.
pub open spec fn response_step(body: JsonView) -> Result<StepView, ResponseError> {
    let msg = response_message(body);
    let text = text_or(msg.field("content"@), Seq::empty());
    if msg is Null {
        Err(ResponseError::NoMessage)
    } else if read_calls(msg).len() > 0 {
        Ok(StepView::ToolCalls(read_calls(msg)))
    } else if utf8_len(text) > MAX_REPLY_TEXT_BYTES {
        Err(ResponseError::ReplyTooLong)
    } else {
        Ok(StepView::Text(text))
    }
}

fn own_text(v: Option<&str>, default: &str) -> (r: String)
    ensures
        r@ == (match opt_str_view(v) {
            Some(t) => t,
            None => default@,
        }),
{
    match v {
        Some(t) => t.to_string(),
        None => default.to_string(),
    }
}

fn call_of(c: &Json) -> (r: ToolCall)
    ensures
        r@ == read_call(c@),
{
    proof {
        reveal_strlit("");
        assert(""@ =~= Seq::<char>::empty());
    }
    ToolCall {
        id: own_text(c.text_field("id"), ""),
        name: own_text(c.text_field_in("function", "name"), ""),
        arguments: own_text(c.text_field_in("function", "arguments"), "{}"),
    }
}

fn calls_of(msg: &Json) -> (r: Vec<ToolCall>)
    ensures
        call_views(r@) == read_calls(msg@),
{
    let mut out: Vec<ToolCall> = Vec::new();
    let ghost list = elements(msg@.field("tool_calls"@));
    let ghost calls = read_calls(msg@);
    match msg.get("tool_calls") {
        Some(v) => match v {
            Json::List(items) => {
                for i in 0..items.len()
                    invariant
                        list.len() == items@.len(),
                        forall|k: int|
                            0 <= k < list.len() ==> #[trigger] list[k] == json_view(items@[k]),
                        calls == Seq::new(list.len(), |i: int| read_call(list[i])),
                        call_views(out@) == calls.take(i as int),
                {
                    assert(list[i as int] == json_view(items@[i as int]));
                    let c = call_of(&items[i]);
                    let ghost before = out@;
                    let ghost shown = c@;
                    out.push(c);
                    assert(call_views(out@) =~= call_views(before).push(shown));
                    assert(call_views(out@) =~= calls.take(i + 1));
                }
            },
            _ => {},
        },
        None => {},
    }
    assert(call_views(out@) =~= calls);
    out
}

/// The step that a response stands for.
pub fn parse_response(body: &Json) -> (r: Result<StepOutcome, ResponseError>)
    ensures
        match r {
            Ok(step) => response_step(body@) == Ok::<StepView, ResponseError>(step@),
            Err(e) => response_step(body@) == Err::<StepView, ResponseError>(e),
        },
{
    proof {
        reveal_strlit("");
        assert(""@ =~= Seq::<char>::empty());
    }
    let msg = match body.get("choices") {
        Some(v) => match v {
            Json::List(choices) => {
                if choices.len() == 0 {
                    return Err(ResponseError::NoMessage);
                }
                assert(v@->List_0[0] == json_view(choices@[0]));
                match choices[0].get("message") {
                    Some(m) => m,
                    None => {
                        return Err(ResponseError::NoMessage);
                    },
                }
            },
            _ => {
                return Err(ResponseError::NoMessage);
            },
        },
        None => {
            return Err(ResponseError::NoMessage);
        },
    };
    assert(msg@ == response_message(body@));
    match msg {
        Json::Null => {
            return Err(ResponseError::NoMessage);
        },
        _ => {},
    }
    let calls = calls_of(msg);
    assert(call_views(calls@).len() == calls@.len());
    if calls.len() > 0 {
        return Ok(StepOutcome::ToolCalls(calls));
    }
    let text = own_text(msg.text_field("content"), "");
    if byte_len(text.as_str()) > MAX_REPLY_TEXT_BYTES {
        return Err(ResponseError::ReplyTooLong);
    }
    Ok(StepOutcome::Text(text))
}

/// Adds a piece of a response to what was read of it; nothing is added beyond
/// the limit.
pub fn extend_provider_body(body: &mut Vec<u8>, chunk: &[u8]) -> (r: bool)
    ensures
        r == (old(body)@.len() + chunk@.len() <= MAX_PROVIDER_RESPONSE_BYTES),
        final(body)@ == (if r {
            old(body)@ + chunk@
        } else {
            old(body)@
        }),
{
    if body.len() > MAX_PROVIDER_RESPONSE_BYTES || chunk.len() > MAX_PROVIDER_RESPONSE_BYTES
        - body.len() {
        return false;
    }
    for i in 0..chunk.len()
        invariant
            body@ == old(body)@ + chunk@.take(i as int),
    {
        body.push(chunk[i]);
        assert(body@ =~= old(body)@ + chunk@.take(i + 1));
    }
    assert(chunk@.take(chunk@.len() as int) =~= chunk@);
    true
}

// ---- what a provider reads and writes -------------------------------------------

proof fn lemma_message_keys()
    ensures
        "content"@.len() == 7 && "role"@.len() == 4 && "tool_calls"@.len() == 10
            && "tool_call_id"@.len() == 12,
        "function"@.len() == 8 && "id"@.len() == 2 && "type"@.len() == 4 && "arguments"@.len() == 9
            && "name"@.len() == 4,
        "description"@.len() == 11 && "parameters"@.len() == 10,
        "messages"@.len() == 8 && "model"@.len() == 5 && "tools"@.len() == 5,
        "model"@ != "tools"@,
        "choices"@.len() == 7 && "message"@.len() == 7,
{
    reveal_strlit("content");
    reveal_strlit("role");
    reveal_strlit("tool_calls");
    reveal_strlit("tool_call_id");
    reveal_strlit("function");
    reveal_strlit("id");
    reveal_strlit("type");
    reveal_strlit("arguments");
    reveal_strlit("name");
    reveal_strlit("description");
    reveal_strlit("parameters");
    reveal_strlit("messages");
    reveal_strlit("model");
    reveal_strlit("tools");
    reveal_strlit("choices");
    reveal_strlit("message");
    assert("model"@[0] == 'm' && "tools"@[0] == 't');
}

/// A message holds its role and its content.
pub proof fn law_message_holds_role_and_content(role: Seq<char>, content: Seq<char>)
    ensures
        role_message(role, content).get("role"@) == Some(JsonView::Text(role)),
        role_message(role, content).get("content"@) == Some(JsonView::Text(content)),
{
    lemma_message_keys();
    crate::frames::lemma_found(role_message(role, content)->Object_0);
}

/// A call that is sent back to the model reads as the call that it made.
pub proof fn law_call_is_sent_back_as_it_came(c: CallView)
    ensures
        read_call(call_value(c)) == c,
        call_value(c).get("type"@) == Some(JsonView::Text("function"@)),
{
    lemma_message_keys();
    let f = call_value(c)->Object_0;
    crate::frames::lemma_found(f);
    crate::frames::lemma_found(f[0].1->Object_0);
}

/// The message with the calls of a turn holds all of them, in their order, and
/// reads as they came.
pub proof fn law_calls_message_holds_every_call(calls: Seq<CallView>)
    ensures
        calls_message(calls).get("role"@) == Some(JsonView::Text("assistant"@)),
        read_calls(calls_message(calls)) == calls,
{
    lemma_message_keys();
    let m = calls_message(calls);
    crate::frames::lemma_found(m->Object_0);
    let list = Seq::new(calls.len(), |i: int| call_value(calls[i]));
    assert(m.get("tool_calls"@) == Some(JsonView::List(list)));
    assert forall|i: int| 0 <= i < calls.len() implies read_call(list[i]) == calls[i] by {
        law_call_is_sent_back_as_it_came(calls[i]);
    }
    assert(read_calls(m) =~= calls);
}

/// The message that answers a call names the call and holds the answer.
pub proof fn law_tool_answer_names_its_call(call_id: Seq<char>, content: Seq<char>)
    ensures
        tool_answer(call_id, content).get("role"@) == Some(JsonView::Text("tool"@)),
        tool_answer(call_id, content).get("tool_call_id"@) == Some(JsonView::Text(call_id)),
        tool_answer(call_id, content).get("content"@) == Some(JsonView::Text(content)),
{
    lemma_message_keys();
    crate::frames::lemma_found(tool_answer(call_id, content)->Object_0);
}

/// A request names the model, and holds the system message, all messages after it
/// in their order, and every tool with its description.
pub proof fn law_request_holds_what_the_model_needs(
    model: Seq<char>,
    system: Seq<char>,
    tools: Seq<ToolSpecView>,
    messages: Seq<JsonView>,
    i: int,
    k: int,
)
    ensures
        ({
            let v = request_value(model, system, tools, JsonView::List(messages));
            let sent = v.get("messages"@)->0->List_0;
            let offered = v.get("tools"@)->0->List_0;
            &&& v.get("model"@) == Some(JsonView::Text(model))
            &&& v.get("messages"@) is Some && v.get("messages"@)->0 is List
            &&& sent.len() == messages.len() + 1
            &&& sent[0].get("role"@) == Some(JsonView::Text("system"@))
            &&& sent[0].get("content"@) == Some(JsonView::Text(system))
            &&& (0 <= i < messages.len() ==> sent[i + 1] == messages[i])
            &&& v.get("tools"@) is Some && v.get("tools"@)->0 is List
            &&& offered.len() == tools.len()
            &&& (0 <= k < tools.len() ==> {
                &&& offered[k].get("type"@) == Some(JsonView::Text("function"@))
                &&& offered[k].field("function"@).get("name"@) == Some(
                    JsonView::Text(tools[k].name),
                )
                &&& offered[k].field("function"@).get("description"@) == Some(
                    JsonView::Text(tools[k].description),
                )
                &&& offered[k].field("function"@).get("parameters"@) == Some(tools[k].parameters)
            })
        }),
{
    lemma_message_keys();
    let v = request_value(model, system, tools, JsonView::List(messages));
    crate::frames::lemma_found(v->Object_0);
    law_message_holds_role_and_content("system"@, system);
    if 0 <= k < tools.len() {
        let t = tool_value(tools[k]);
        crate::frames::lemma_found(t->Object_0);
        crate::frames::lemma_found(t->Object_0[0].1->Object_0);
    }
}

/// Whether a call is the one that an object describes, where it does in full.
pub open spec fn names_call(c: CallView, v: JsonView) -> bool {
    &&& v.field("id"@) is Text ==> c.id == v.field("id"@)->Text_0
    &&& v.field("function"@).field("name"@) is Text ==> c.name == v.field("function"@).field(
        "name"@,
    )->Text_0
    &&& v.field("function"@).field("arguments"@) is Text ==> c.arguments == v.field(
        "function"@,
    ).field("arguments"@)->Text_0
    &&& !(v.field("function"@).field("arguments"@) is Text) ==> c.arguments == "{}"@
}

/// A response with calls is a step with these calls, whatever else it says; a
/// response without any is its text.
pub proof fn law_response_is_its_calls_or_its_text(
    body: JsonView,
    choices: Seq<JsonView>,
    message: JsonView,
    list: Seq<JsonView>,
    text: Seq<char>,
)
    requires
        body.get("choices"@) == Some(JsonView::List(choices)),
        choices.len() > 0,
        choices[0].get("message"@) == Some(message),
        message is Object,
    ensures
        message.get("tool_calls"@) == Some(JsonView::List(list)) && list.len() > 0 ==> {
            let step = response_step(body);
            &&& step is Ok && step->Ok_0 is ToolCalls
            &&& step->Ok_0->ToolCalls_0.len() == list.len()
            &&& forall|i: int|
                0 <= i < list.len() ==> names_call(#[trigger] step->Ok_0->ToolCalls_0[i], list[i])
        },
        message.get("tool_calls"@) is None && message.get("content"@) == Some(JsonView::Text(text))
            && utf8_len(text) <= MAX_REPLY_TEXT_BYTES ==> response_step(body) == Ok::<
            StepView,
            ResponseError,
        >(StepView::Text(text)),
{
}

} // verus!
