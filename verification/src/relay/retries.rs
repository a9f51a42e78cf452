//! What a gateway that repeats a whole frame can count on.
use vstd::prelude::*;

use crate::lanes::LaneView;
use crate::proto::valid_opaque_id;
use crate::relay::gateway::{
    admission_turn, durable_turn, first_turn, frame_step, outbound_step, protected_gateway,
    GatewayActionView, GatewayStepView, ProgressView,
};
use crate::relay::records::OutboundResultView;
use crate::relay::replies::action_reply;
use crate::relay::results::{
    answers, durable_answer, lemma_result_position, live, live_position, reclaimed,
    result_position, ticked,
};
use crate::relay::session::{connection_turn, finished};
use crate::relay::snapshots::distinct_results;
use crate::relay::soundness::{
    law_reclaiming_keeps_ledger_sound, law_ticking_keeps_ledger_sound, sound_ledger,
};
use crate::relay::state::{active_gateway, is_active, owns, RelayView};
use crate::value::JsonView;

verus! {

/// Whether a frame asks for an action under this request.
pub open spec fn asks(frame: JsonView, request_id: Seq<char>) -> bool {
    &&& frame.field("type"@).text() == Some("outbound"@)
    &&& frame.field("requestId"@).text() == Some(request_id)
    &&& valid_opaque_id(request_id)
}

/// Whether a response to the request is recorded and still protects it at
/// `now_ms`.
pub open spec fn answered_at(
    s: RelayView,
    gateway_id: Seq<char>,
    request_id: Seq<char>,
    now_ms: u64,
) -> bool {
    let t = ticked(s, now_ms);
    live_position(
        t.outbound_results,
        gateway_id,
        request_id,
        t.clock_high_water_ms,
        active_gateway(t.connections),
        0,
    ) < t.outbound_results.len()
}

/// Whether a reply is the one that every response to the request gives.
spec fn reply_of_record(
    v: Seq<OutboundResultView>,
    gateway_id: Seq<char>,
    request_id: Seq<char>,
    reply: Option<Seq<char>>,
) -> bool {
    forall|i: int|
        0 <= i < v.len() && answers(#[trigger] v[i], gateway_id, request_id) ==> reply == Some(
            action_reply(request_id, durable_answer(v[i])),
        )
}

/// What a frame leaves: its reply is that of the recorded response, or it found
/// no response that protects the request and recorded none.
spec fn settles(
    s: RelayView,
    x: (RelayView, Option<Seq<char>>),
    gateway_id: Seq<char>,
    request_id: Seq<char>,
    now_ms: u64,
) -> bool {
    &&& x.0.connections == s.connections
    &&& x.0.clock_high_water_ms == ticked(s, now_ms).clock_high_water_ms
    &&& {
        ||| reply_of_record(x.0.outbound_results, gateway_id, request_id, x.1)
        ||| (x.0.outbound_results == s.outbound_results && !answered_at(
            s,
            gateway_id,
            request_id,
            now_ms,
        ))
    }
}

pub proof fn lemma_live_position(
    v: Seq<OutboundResultView>,
    gateway_id: Seq<char>,
    request_id: Seq<char>,
    now_ms: u64,
    active: Option<Seq<char>>,
    i: int,
)
    requires
        0 <= i <= v.len(),
    ensures
        ({
            let p = live_position(v, gateway_id, request_id, now_ms, active, i);
            &&& i <= p <= v.len()
            &&& (p < v.len() ==> answers(v[p], gateway_id, request_id) && live(
                v[p],
                now_ms,
                active,
            ))
            &&& forall|k: int|
                i <= k < p ==> !(answers(#[trigger] v[k], gateway_id, request_id) && live(
                    v[k],
                    now_ms,
                    active,
                ))
        }),
    decreases v.len() - i,
{
    if i < v.len() {
        lemma_live_position(v, gateway_id, request_id, now_ms, active, i + 1);
    }
}

/// In a ledger without repetitions a response's reply is the reply of the
/// request.
proof fn lemma_only_reply(
    v: Seq<OutboundResultView>,
    gateway_id: Seq<char>,
    request_id: Seq<char>,
    p: int,
)
    requires
        distinct_results(v),
        0 <= p < v.len(),
        answers(v[p], gateway_id, request_id),
    ensures
        reply_of_record(
            v,
            gateway_id,
            request_id,
            Some(action_reply(request_id, durable_answer(v[p]))),
        ),
{
    assert forall|i: int| 0 <= i < v.len() && answers(#[trigger] v[i], gateway_id, request_id)
        implies v[i] == v[p] by {
        if i < p {
            assert(!answers(v[p], v[i].gateway_id, v[i].request_id));
        }
        if p < i {
            assert(!answers(v[i], v[p].gateway_id, v[p].request_id));
        }
    }
}

/// What an action leaves once old responses are out of the way.
proof fn lemma_admission(
    w: RelayView,
    gateway_id: Seq<char>,
    action: GatewayActionView,
    arrived_at: u64,
    request_id: Seq<char>,
)
    requires
        distinct_results(w.outbound_results),
        match action {
            GatewayActionView::Send(id, ..) => id == request_id,
            GatewayActionView::Record(id, _) => id == request_id,
            _ => false,
        },
    ensures
        ({
            let x = finished(admission_turn(w, gateway_id, action, arrived_at));
            &&& x.0.connections == w.connections
            &&& x.0.clock_high_water_ms == w.clock_high_water_ms
            &&& reply_of_record(x.0.outbound_results, gateway_id, request_id, x.1)
            &&& match admission_turn(w, gateway_id, action, arrived_at).1 {
                ProgressView::Done(_) => true,
                ProgressView::Write(t) => t.stage is Committing,
            }
        }),
{
    let v = w.outbound_results;
    let x = finished(admission_turn(w, gateway_id, action, arrived_at));
    lemma_result_position(v, gateway_id, request_id, 0);
    let p = result_position(v, gateway_id, request_id, 0);
    if p < v.len() {
        lemma_only_reply(v, gateway_id, request_id, p);
        assert(x.0.outbound_results == v);
    } else {
        assert forall|i: int|
            0 <= i < x.0.outbound_results.len() && answers(
                #[trigger] x.0.outbound_results[i],
                gateway_id,
                request_id,
            ) implies x.1 == Some(
            action_reply(request_id, durable_answer(x.0.outbound_results[i])),
        ) by {
            if i < v.len() {
                assert(x.0.outbound_results[i] == v[i]);
            }
        }
    }
}

/// What a whole frame leaves.
proof fn lemma_first(
    s: RelayView,
    frame: JsonView,
    connection: Option<u64>,
    gateway_id: Seq<char>,
    request_id: Seq<char>,
    now_ms: u64,
    arrived_at: u64,
)
    requires
        sound_ledger(s),
        asks(frame, request_id),
    ensures
        settles(
            s,
            finished(first_turn(s, frame, connection, gateway_id, now_ms, arrived_at)),
            gateway_id,
            request_id,
            now_ms,
        ),
{
    lemma_kinds_differ();
    let t = ticked(s, now_ms);
    let v = s.outbound_results;
    let active = active_gateway(t.connections);
    lemma_live_position(v, gateway_id, request_id, t.clock_high_water_ms, active, 0);
    let p = live_position(v, gateway_id, request_id, t.clock_high_water_ms, active, 0);
    let step = frame_step(s, frame, connection, gateway_id, now_ms);
    assert(step == outbound_step(s, frame, connection, gateway_id, now_ms));
    if p < v.len() {
        lemma_only_reply(v, gateway_id, request_id, p);
    } else {
        match step {
            GatewayStepView::Act(action) => {
                let protected = protected_gateway(t, connection, gateway_id);
                law_ticking_keeps_ledger_sound(s, now_ms);
                let u = ticked(t, now_ms);
                assert(u =~= t);
                law_reclaiming_keeps_ledger_sound(u, u.clock_high_water_ms, protected);
                let w = reclaimed(u, u.clock_high_water_ms, protected);
                lemma_admission(w, gateway_id, action, arrived_at, request_id);
                let q = durable_turn(t, gateway_id, action, protected, now_ms, arrived_at);
                assert(first_turn(s, frame, connection, gateway_id, now_ms, arrived_at) == q);
            },
            _ => {},
        }
    }
}

/// The kinds of frames are told apart.
pub proof fn lemma_kinds_differ()
    ensures
        "outbound"@ != "hello"@,
        "outbound"@ != "outbound_result_ack"@,
        "outbound"@ != "inbound_ack"@,
{
    reveal_strlit("hello");
    reveal_strlit("outbound_result_ack");
    reveal_strlit("inbound_ack");
    reveal_strlit("outbound");
    assert("hello"@.len() == 5 && "outbound_result_ack"@.len() == 19 && "inbound_ack"@.len() == 11
        && "outbound"@.len() == 8);
}

/// A request that a frame left unprotected is unprotected later too.
proof fn lemma_second(
    s: RelayView,
    x: (RelayView, Option<Seq<char>>),
    gateway_id: Seq<char>,
    request_id: Seq<char>,
    now_ms: u64,
    later_ms: u64,
)
    requires
        settles(s, x, gateway_id, request_id, now_ms),
        answered_at(x.0, gateway_id, request_id, later_ms),
    ensures
        ({
            let t = ticked(x.0, later_ms);
            let p = live_position(
                t.outbound_results,
                gateway_id,
                request_id,
                t.clock_high_water_ms,
                active_gateway(t.connections),
                0,
            );
            x.1 == Some(action_reply(request_id, durable_answer(t.outbound_results[p])))
        }),
{
    let t = ticked(x.0, later_ms);
    let v = t.outbound_results;
    let active = active_gateway(t.connections);
    lemma_live_position(v, gateway_id, request_id, t.clock_high_water_ms, active, 0);
    let p = live_position(v, gateway_id, request_id, t.clock_high_water_ms, active, 0);
    if !reply_of_record(v, gateway_id, request_id, x.1) {
        let early = ticked(s, now_ms).clock_high_water_ms;
        lemma_live_position(v, gateway_id, request_id, early, active, 0);
        assert(answers(v[p], gateway_id, request_id));
        assert(live(v[p], early, active));
    }
}

/// A gateway that repeats a frame, whatever the frame asks for now, gets the
/// reply that it got the first time, as long as the response that the first one
/// left protects its request. Nothing is queued or recorded again: only the
/// clock moves on.
pub proof fn law_repeated_frame_gets_the_same_reply(
    s: RelayView,
    first: JsonView,
    second: JsonView,
    connection: Option<u64>,
    later_connection: Option<u64>,
    gateway_id: Seq<char>,
    request_id: Seq<char>,
    now_ms: u64,
    arrived_at: u64,
    later_ms: u64,
    later_at: u64,
)
    requires
        sound_ledger(s),
        asks(first, request_id),
        asks(second, request_id),
        answered_at(
            finished(first_turn(s, first, connection, gateway_id, now_ms, arrived_at)).0,
            gateway_id,
            request_id,
            later_ms,
        ),
    ensures
        ({
            let x = finished(first_turn(s, first, connection, gateway_id, now_ms, arrived_at));
            let y = finished(
                first_turn(x.0, second, later_connection, gateway_id, later_ms, later_at),
            );
            &&& y == (ticked(x.0, later_ms), x.1)
            &&& y.0.deliveries == x.0.deliveries
            &&& y.0.outbound_results == x.0.outbound_results
        }),
{
    lemma_kinds_differ();
    let x = finished(first_turn(s, first, connection, gateway_id, now_ms, arrived_at));
    lemma_first(s, first, connection, gateway_id, request_id, now_ms, arrived_at);
    lemma_second(s, x, gateway_id, request_id, now_ms, later_ms);
}

/// The same over the connection in charge, where a send to a lane that is not
/// known is refused first.
pub proof fn law_repeated_line_gets_the_same_reply(
    s: RelayView,
    first: JsonView,
    second: JsonView,
    connection_id: u64,
    gateway_id: Seq<char>,
    request_id: Seq<char>,
    lanes: Option<Seq<LaneView>>,
    later_lanes: Option<Seq<LaneView>>,
    now_ms: u64,
    arrived_at: u64,
    later_ms: u64,
    later_at: u64,
)
    requires
        sound_ledger(s),
        owns(s.connections, connection_id, gateway_id),
        is_active(s.connections, connection_id),
        asks(first, request_id),
        asks(second, request_id),
        answered_at(
            finished(
                connection_turn(
                    s,
                    connection_id,
                    gateway_id,
                    Some(first),
                    lanes,
                    now_ms,
                    arrived_at,
                ),
            ).0,
            gateway_id,
            request_id,
            later_ms,
        ),
    ensures
        ({
            let x = finished(
                connection_turn(
                    s,
                    connection_id,
                    gateway_id,
                    Some(first),
                    lanes,
                    now_ms,
                    arrived_at,
                ),
            );
            let y = finished(
                connection_turn(
                    x.0,
                    connection_id,
                    gateway_id,
                    Some(second),
                    later_lanes,
                    later_ms,
                    later_at,
                ),
            );
            &&& y == (ticked(x.0, later_ms), x.1)
            &&& y.0.deliveries == x.0.deliveries
            &&& y.0.outbound_results == x.0.outbound_results
        }),
{
    lemma_kinds_differ();
    let c = connection_turn(s, connection_id, gateway_id, Some(first), lanes, now_ms, arrived_at);
    let x = finished(c);
    let t = ticked(s, now_ms);
    let active = active_gateway(t.connections);
    let v = s.outbound_results;
    lemma_live_position(v, gateway_id, request_id, t.clock_high_water_ms, active, 0);
    let p = live_position(v, gateway_id, request_id, t.clock_high_water_ms, active, 0);
    law_ticking_keeps_ledger_sound(s, now_ms);
    assert(ticked(t, now_ms) =~= t);
    lemma_first(s, first, Some(connection_id), gateway_id, request_id, now_ms, arrived_at);
    lemma_first(t, first, Some(connection_id), gateway_id, request_id, now_ms, arrived_at);
    if p < v.len() {
        lemma_only_reply(v, gateway_id, request_id, p);
    }
    assert(settles(s, x, gateway_id, request_id, now_ms));
    lemma_second(s, x, gateway_id, request_id, now_ms, later_ms);
    assert(ticked(ticked(x.0, later_ms), later_ms) =~= ticked(x.0, later_ms));
}

} // verus!
