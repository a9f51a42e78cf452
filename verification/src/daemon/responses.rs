//! What a request is answered with.
use vstd::prelude::*;
use vstd::string::*;

use crate::json::{
    bool_text, field_views, json_bool, json_string, object_of, object_text, push_optional_number,
    push_text, optional_number,
};
use crate::lanes::{Lane, LaneView};

verus! {

/// The body of an answer: plain text, or a JSON text.
#[derive(Debug, PartialEq)]
pub enum Body {
    Text(String),
    Json(String),
}

/// An answer to a request.
#[derive(Debug, PartialEq)]
pub struct Response {
    pub status: u16,
    pub body: Body,
}

/// An answer as a value.
pub struct ResponseView {
    pub status: u16,
    pub json: bool,
    pub text: Seq<char>,
}

impl View for Response {
    type V = ResponseView;

    open spec fn view(&self) -> ResponseView {
        ResponseView {
            status: self.status,
            json: self.body is Json,
            text: match self.body {
                Body::Text(t) => t@,
                Body::Json(t) => t@,
            },
        }
    }
}

/// A plain text.
pub open spec fn plain(status: u16, text: Seq<char>) -> ResponseView {
    ResponseView { status, json: false, text }
}

/// A JSON text.
pub open spec fn json(status: u16, text: Seq<char>) -> ResponseView {
    ResponseView { status, json: true, text }
}

/// A refusal as a JSON object.
pub open spec fn refusal(status: u16, error: Seq<char>) -> ResponseView {
    json(status, object_text(seq![("error"@, json_string(error))]))
}

/// A plain text.
pub fn plain_response(status: u16, text: &str) -> (r: Response)
    ensures
        r@ == plain(status, text@),
{
    Response { status, body: Body::Text(text.to_string()) }
}

/// A JSON text.
pub fn json_response(status: u16, text: String) -> (r: Response)
    ensures
        r@ == json(status, text@),
{
    Response { status, body: Body::Json(text) }
}

/// A refusal as a JSON object.
pub fn refusal_response(status: u16, error: &str) -> (r: Response)
    ensures
        r@ == refusal(status, error@),
{
    let mut fields: Vec<(&'static str, String)> = Vec::new();
    push_text(&mut fields, "error", error);
    assert(field_views(fields@) =~= seq![("error"@, json_string(error@))]);
    json_response(status, object_of(&fields))
}

/// A lane as a JSON object, its members in the order of their keys.
pub open spec fn lane_json(lane: LaneView) -> Seq<char> {
    object_text(
        seq![
            ("created_at"@, json_string(lane.created_at)),
            ("id"@, json_string(lane.id)),
        ] + optional_number("interactions"@, lane.interactions) + seq![
            ("last_active"@, json_string(lane.last_active)),
            ("name"@, json_string(lane.name)),
        ],
    )
}

/// A lane as a JSON object.
pub fn lane_text(lane: &Lane) -> (r: String)
    ensures
        r@ == lane_json(lane@),
{
    let mut fields: Vec<(&'static str, String)> = Vec::new();
    push_text(&mut fields, "created_at", lane.created_at.as_str());
    push_text(&mut fields, "id", lane.id.as_str());
    push_optional_number(&mut fields, "interactions", lane.interactions);
    push_text(&mut fields, "last_active", lane.last_active.as_str());
    push_text(&mut fields, "name", lane.name.as_str());
    assert(field_views(fields@) =~= seq![
        ("created_at"@, json_string(lane@.created_at)),
        ("id"@, json_string(lane@.id)),
    ] + optional_number("interactions"@, lane@.interactions) + seq![
        ("last_active"@, json_string(lane@.last_active)),
        ("name"@, json_string(lane@.name)),
    ]);
    object_of(&fields)
}

/// Success, with the lane it is about.
pub open spec fn lane_ok(lane: LaneView) -> ResponseView {
    json(200, object_text(seq![("lane"@, lane_json(lane)), ("ok"@, json_bool(true))]))
}

/// Success, with the lane it is about.
pub fn lane_response(lane: &Lane) -> (r: Response)
    ensures
        r@ == lane_ok(lane@),
{
    let mut fields: Vec<(&'static str, String)> = Vec::new();
    fields.push(("lane", lane_text(lane)));
    fields.push(("ok", bool_text(true)));
    assert(field_views(fields@) =~= seq![
        ("lane"@, lane_json(lane@)),
        ("ok"@, json_bool(true)),
    ]);
    json_response(200, object_of(&fields))
}

/// Success and nothing more.
pub open spec fn bare_ok() -> ResponseView {
    json(200, object_text(seq![("ok"@, json_bool(true))]))
}

/// Success and nothing more.
pub fn ok_response() -> (r: Response)
    ensures
        r@ == bare_ok(),
{
    let mut fields: Vec<(&'static str, String)> = Vec::new();
    fields.push(("ok", bool_text(true)));
    assert(field_views(fields@) =~= seq![("ok"@, json_bool(true))]);
    json_response(200, object_of(&fields))
}

/// A spoken reply.
pub open spec fn spoken_ok(reply: Seq<char>) -> ResponseView {
    json(200, object_text(seq![("reply"@, json_string(reply))]))
}

/// A spoken reply.
pub fn spoken_response(reply: &str) -> (r: Response)
    ensures
        r@ == spoken_ok(reply@),
{
    let mut fields: Vec<(&'static str, String)> = Vec::new();
    push_text(&mut fields, "reply", reply);
    assert(field_views(fields@) =~= seq![("reply"@, json_string(reply@))]);
    json_response(200, object_of(&fields))
}

/// The words for a lane that is not known.
pub open spec fn unknown_lane(id: Seq<char>) -> Seq<char> {
    "unknown lane "@ + id
}

/// The words for a lane that is not known.
pub fn unknown_lane_text(id: &str) -> (r: String)
    ensures
        r@ == unknown_lane(id@),
{
    let mut s = "unknown lane ".to_string();
    s.append(id);
    s
}

} // verus!
